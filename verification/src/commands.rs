//! What the commands decide and say around the work of apt.

use vstd::prelude::*;

use crate::apt::{changes, ChangeView, Transaction};
use crate::history::{
    after, by_number, copy_entry, counts, entries, has_id, knows, later, lemma_entries_push,
    rollback_args, rolls_back, undo_texts, what_text, Entry, EntryView,
};
use crate::number::{decimal, decimal_u64, decimal_usize, pad, pad_left, padded, padded_left};
use crate::order::{in_order, lemma_in_order_len, lemma_push_contains};
use crate::text::{
    cat2, cat3, cat4, cat5, cat6, copy_strings, join, join_strings, lemma_texts_push, opt_text,
    texts,
};
use crate::ui::{
    bold, bold_text, complain, cyan, cyan_text, dim_text, dimmed, format_size, header_line,
    header_text, line_views, no_lines, plural, plural_of, say, size_text, success_line,
    success_text, warn_line, warn_text, Line, LineView,
};

verus! {

// ---------------------------------------------------------------------------
// Transactions
// ---------------------------------------------------------------------------

/// A transaction that is asked for.
#[derive(Debug)]
pub struct Request {
    /// The arguments of apt-get.
    pub args: Vec<String>,
    /// The packages that the user named.
    pub named: Vec<String>,
    /// What is said while it runs.
    pub action: &'static str,
    /// What the history calls it, in place of the arguments.
    pub label: Option<String>,
}

pub struct RequestView {
    pub args: Seq<Seq<char>>,
    pub named: Seq<Seq<char>>,
    pub action: Seq<char>,
    pub label: Option<Seq<char>>,
}

impl View for Request {
    type V = RequestView;

    open spec fn view(&self) -> RequestView {
        RequestView {
            args: texts(self.args@),
            named: texts(self.named@),
            action: self.action@,
            label: opt_text(self.label),
        }
    }
}

/// What a command comes to: something to say, or a transaction, with something to
/// say before it.
#[derive(Debug)]
pub enum Decision {
    Say(Line),
    Ask(Option<Line>, Request),
}

pub enum DecisionView {
    Say(LineView),
    Ask(Option<LineView>, RequestView),
}

impl View for Decision {
    type V = DecisionView;

    open spec fn view(&self) -> DecisionView {
        match self {
            Decision::Say(l) => DecisionView::Say(l@),
            Decision::Ask(Some(l), r) => DecisionView::Ask(Some(l@), r@),
            Decision::Ask(None, r) => DecisionView::Ask(None, r@),
        }
    }
}

fn with_packages(first: &str, packages: &Vec<String>) -> (r: Vec<String>)
    ensures
        texts(r@) == seq![first@] + texts(packages@),
{
    let mut out: Vec<String> = Vec::new();
    out.push(first.to_owned());
    let ghost head = texts(out@);
    assert(head =~= seq![first@]);
    let mut rest = copy_strings(packages);
    let ghost tail = texts(rest@);
    out.append(&mut rest);
    assert(texts(out@) =~= head + tail);
    out
}

fn nothing() -> (v: Vec<String>)
    ensures
        texts(v@) == Seq::<Seq<char>>::empty(),
{
    let v: Vec<String> = Vec::new();
    assert(texts(v@) =~= seq![]);
    v
}

/// The upgrade that apt-get is asked for.
pub open spec fn upgrade_word(full: bool) -> Seq<char> {
    if full {
        "dist-upgrade"@
    } else {
        "upgrade"@
    }
}

/// The upgrade that apt-get is asked for: a full one may install and remove
/// packages.
pub fn upgrade_op(full: bool) -> (r: &'static str)
    ensures
        r@ == upgrade_word(full),
{
    if full {
        "dist-upgrade"
    } else {
        "upgrade"
    }
}

/// The upgrade of all packages.
pub fn upgrade(full: bool) -> (r: Request)
    ensures
        r@ == (RequestView {
            args: seq![upgrade_word(full)],
            named: seq![],
            action: "Upgrading packages..."@,
            label: None,
        }),
{
    let none = nothing();
    let args = with_packages(upgrade_op(full), &none);
    assert(texts(args@) =~= seq![upgrade_word(full)]);
    Request { args, named: none, action: "Upgrading packages...", label: None }
}

/// The packages whose new version comes from a security pocket.
pub open spec fn from_security(v: Seq<ChangeView>) -> Seq<Seq<char>>
    decreases v.len(),
{
    if v.len() == 0 {
        seq![]
    } else if v.last().security {
        from_security(v.drop_last()).push(v.last().name)
    } else {
        from_security(v.drop_last())
    }
}

/// A security upgrade takes exactly the packages whose new version comes from a
/// security pocket.
pub proof fn only_security_fixes_are_applied(v: Seq<ChangeView>, name: Seq<char>)
    ensures
        from_security(v).contains(name) <==> exists|i: int|
            0 <= i < v.len() && (#[trigger] v[i]).security && v[i].name == name,
    decreases v.len(),
{
    if v.len() > 0 {
        let rest = v.drop_last();
        only_security_fixes_are_applied(rest, name);
        lemma_push_contains(from_security(rest), v.last().name, name);
        if exists|i: int| 0 <= i < rest.len() && (#[trigger] rest[i]).security && rest[i].name
            == name {
            let i = choose|i: int|
                0 <= i < rest.len() && (#[trigger] rest[i]).security && rest[i].name == name;
            assert(v[i].security && v[i].name == name);
        }
        if exists|i: int| 0 <= i < v.len() && (#[trigger] v[i]).security && v[i].name == name {
            let i = choose|i: int|
                0 <= i < v.len() && (#[trigger] v[i]).security && v[i].name == name;
            if i < rest.len() {
                assert(rest[i].security && rest[i].name == name);
            }
        }
        assert(v[v.len() - 1] == v.last());
    }
}

fn security_names(tx: &Transaction) -> (r: Vec<String>)
    ensures
        texts(r@) == from_security(tx@.install),
{
    let ghost all = tx@.install;
    let mut out = nothing();
    let mut i: usize = 0;
    assert(all.take(0).len() == 0);
    while i < tx.install.len()
        invariant
            i <= tx.install@.len(),
            all == changes(tx.install@),
            texts(out@) == from_security(all.take(i as int)),
        decreases tx.install@.len() - i,
    {
        broadcast use lemma_texts_push;

        assert(all.take(i + 1).drop_last() =~= all.take(i as int));
        assert(all.take(i + 1).last() == tx.install@[i as int]@);
        if tx.install[i].security {
            out.push(tx.install[i].name.clone());
        }
        i += 1;
    }
    assert(all.take(all.len() as int) =~= all);
    out
}

/// An upgrade of just the packages that a full upgrade would take from a security
/// pocket.
pub fn security_upgrade(color: bool, tx: &Transaction) -> (r: Decision)
    ensures
        r@ == if from_security(tx@.install).len() == 0 {
            DecisionView::Say(LineView::Out(success_text(color, "No security updates pending."@)))
        } else {
            DecisionView::Ask(
                None,
                RequestView {
                    args: seq!["install"@] + from_security(tx@.install),
                    named: from_security(tx@.install),
                    action: "Applying security updates..."@,
                    label: None,
                },
            )
        },
{
    let names = security_names(tx);
    if names.len() == 0 {
        return Decision::Say(Line::Out(success_line(color, "No security updates pending.")));
    }
    Decision::Ask(
        None,
        Request {
            args: with_packages("install", &names),
            named: names,
            action: "Applying security updates...",
            label: None,
        },
    )
}

/// The purge of old kernels. It runs as any other transaction, so that apt shows
/// the plan and asks before anything is deleted.
pub fn clean_kernels(color: bool, old: Vec<String>, keep: usize) -> (r: Decision)
    ensures
        r@ == if old@.len() == 0 {
            DecisionView::Say(
                LineView::Out(
                    success_text(
                        color,
                        "No old kernels to remove — the newest "@ + decimal(keep as nat)
                            + " (and the running one) are all that's installed."@,
                    ),
                ),
            )
        } else {
            DecisionView::Ask(
                None,
                RequestView {
                    args: seq!["purge"@] + texts(old@),
                    named: texts(old@),
                    action: "Removing old kernels..."@,
                    label: None,
                },
            )
        },
{
    if old.len() == 0 {
        return Decision::Say(
            Line::Out(
                success_line(
                    color,
                    cat3(
                        "No old kernels to remove — the newest ",
                        decimal_usize(keep).as_str(),
                        " (and the running one) are all that's installed.",
                    ).as_str(),
                ),
            ),
        );
    }
    Decision::Ask(
        None,
        Request {
            args: with_packages("purge", &old),
            named: old,
            action: "Removing old kernels...",
            label: None,
        },
    )
}

/// The transaction that undoes a past one.
pub open spec fn undo_request(color: bool, e: EntryView, date: Seq<char>) -> DecisionView {
    DecisionView::Ask(
        Some(
            LineView::Out(
                header_text(
                    color,
                    "Undoing transaction "@ + decimal(e.id as nat) + " ("@ + (what_text(e) + " — "@
                        + date + ")"@),
                ),
            ),
        ),
        RequestView {
            args: undo_texts(e),
            named: seq![],
            action: "Reverting..."@,
            label: Some("undo #"@ + decimal(e.id as nat)),
        },
    )
}

/// The transaction that undoes a past one, given its date.
pub fn undo(color: bool, e: &Entry, date: &str) -> (r: Decision)
    ensures
        r@ == undo_request(color, e@, date@),
{
    let id = decimal_u64(e.id);
    let tail = cat4(e.what().as_str(), " — ", date, ")");
    Decision::Ask(
        Some(
            Line::Out(
                header_line(
                    color,
                    cat4("Undoing transaction ", id.as_str(), " (", tail.as_str()).as_str(),
                ),
            ),
        ),
        Request {
            args: e.undo_args(),
            named: nothing(),
            action: "Reverting...",
            label: Some(cat2("undo #", id.as_str())),
        },
    )
}

/// The transaction that applies a past one again.
pub open spec fn redo_request(color: bool, e: EntryView) -> DecisionView {
    DecisionView::Ask(
        Some(
            LineView::Out(
                header_text(
                    color,
                    "Re-applying transaction "@ + decimal(e.id as nat) + " ("@ + what_text(e)
                        + ")"@,
                ),
            ),
        ),
        RequestView {
            args: e.command,
            named: seq![],
            action: "Re-applying..."@,
            label: Some("redo #"@ + decimal(e.id as nat)),
        },
    )
}

/// The transaction that applies a past one again.
pub fn redo(color: bool, e: &Entry) -> (r: Decision)
    ensures
        r@ == redo_request(color, e@),
{
    let id = decimal_u64(e.id);
    Decision::Ask(
        Some(
            Line::Out(
                header_line(
                    color,
                    cat5(
                        "Re-applying transaction ",
                        id.as_str(),
                        " (",
                        e.what().as_str(),
                        ")",
                    ).as_str(),
                ),
            ),
        ),
        Request {
            args: copy_strings(&e.command),
            named: nothing(),
            action: "Re-applying...",
            label: Some(cat2("redo #", id.as_str())),
        },
    )
}

/// The transaction that rolls back to the state after the one with the number;
/// 0 stands for the state before all of them. Those after it are taken in
/// ascending order, whatever order they are recorded in.
pub fn rollback(color: bool, es: &Vec<Entry>, id: u64) -> (r: Result<Decision, String>)
    ensures
        match r {
            Err(e) => id != 0 && !has_id(entries(es@), id) && e@ == "no transaction "@ + decimal(
                id as nat,
            ) + " in history"@,
            Ok(d) => (id == 0 || has_id(entries(es@), id)) && {
                let count = later(entries(es@), id).len();
                if count == 0 {
                    d@ == DecisionView::Say(
                        LineView::Out(
                            success_text(
                                color,
                                "Already at transaction "@ + decimal(id as nat)
                                    + " — nothing to roll back."@,
                            ),
                        ),
                    )
                } else {
                    &&& d@ matches DecisionView::Ask(line, request)
                    &&& line == Some(
                        LineView::Out(
                            header_text(
                                color,
                                "Rolling back "@ + decimal(count)
                                    + " transaction(s) to the state after #"@ + decimal(id as nat),
                            ),
                        ),
                    )
                    &&& exists|undone: Seq<EntryView>| #[trigger]
                        in_order(undone, later(entries(es@), id), by_number()) && rolls_back(
                            request.args,
                            undone,
                        )
                    &&& request.named.len() == 0
                    &&& request.action == "Rolling back..."@
                    &&& request.label == Some("rollback to #"@ + decimal(id as nat))
                }
            },
        },
{
    let number = decimal_u64(id);
    if id != 0 && !knows(es, id) {
        return Err(cat3("no transaction ", number.as_str(), " in history"));
    }
    let undone = after(es, id);
    proof {
        lemma_in_order_len(entries(undone@), later(entries(es@), id), by_number());
    }
    if undone.len() == 0 {
        return Ok(
            Decision::Say(
                Line::Out(
                    success_line(
                        color,
                        cat3(
                            "Already at transaction ",
                            number.as_str(),
                            " — nothing to roll back.",
                        ).as_str(),
                    ),
                ),
            ),
        );
    }
    Ok(
        Decision::Ask(
            Some(
                Line::Out(
                    header_line(
                        color,
                        cat4(
                            "Rolling back ",
                            decimal_usize(undone.len()).as_str(),
                            " transaction(s) to the state after #",
                            number.as_str(),
                        ).as_str(),
                    ),
                ),
            ),
            Request {
                args: rollback_args(&undone),
                named: nothing(),
                action: "Rolling back...",
                label: Some(cat2("rollback to #", number.as_str())),
            },
        ),
    )
}

// ---------------------------------------------------------------------------
// Holding packages
// ---------------------------------------------------------------------------

/// What is said where no packages are given.
pub fn no_packages(color: bool) -> (r: Line)
    ensures
        r@ == LineView::Error(warn_text(color, "No packages given."@)),
{
    Line::Error(warn_line(color, "No packages given."))
}

/// What is said once packages are held or released. It goes by what was changed:
/// packages that are in that state already are not touched.
pub open spec fn hold_text(hold: bool, packages: Seq<Seq<char>>, changed: nat) -> Seq<char> {
    if changed == 0 {
        "Nothing changed ("@ + join(packages, ", "@) + " already in that state)."@
    } else {
        let verb = if hold {
            "Held"@
        } else {
            "Unheld"@
        };
        verb + " "@ + decimal(changed) + " package"@ + plural(changed) + "."@
    }
}

/// What is said once packages are held or released.
pub fn hold_line(color: bool, hold: bool, packages: &Vec<String>, changed: usize) -> (r: Line)
    ensures
        r@ == LineView::Out(success_text(color, hold_text(hold, texts(packages@), changed as nat))),
{
    let text = if changed == 0 {
        cat3("Nothing changed (", join_strings(packages, ", ").as_str(), " already in that state).")
    } else {
        let verb = if hold {
            "Held"
        } else {
            "Unheld"
        };
        cat6(
            verb,
            " ",
            decimal_usize(changed).as_str(),
            " package",
            plural_of(changed),
            ".",
        )
    };
    Line::Out(success_line(color, text.as_str()))
}

/// The names below a title, one in each line.
pub open spec fn bold_list(above: Seq<LineView>, color: bool, v: Seq<Seq<char>>) -> Seq<LineView>
    decreases v.len(),
{
    if v.len() == 0 {
        above
    } else {
        bold_list(above, color, v.drop_last()).push(
            LineView::Out("   "@ + bold_text(color, v.last())),
        )
    }
}

/// The held packages as they are shown.
pub open spec fn held_text(color: bool, held: Seq<Seq<char>>) -> Seq<LineView> {
    let none: Seq<LineView> = seq![];
    if held.len() == 0 {
        none.push(LineView::Out(success_text(color, "No packages are held."@)))
    } else {
        bold_list(
            none.push(
                LineView::Out(
                    header_text(color, "Held packages ("@ + decimal(held.len()) + ")"@),
                ),
            ),
            color,
            held,
        )
    }
}

/// The held packages as they are shown.
pub fn held_lines(color: bool, held: &Vec<String>) -> (out: Vec<Line>)
    ensures
        line_views(out@) == held_text(color, texts(held@)),
{
    let mut out = no_lines();
    let ghost all = texts(held@);
    if held.len() == 0 {
        say(&mut out, success_line(color, "No packages are held."));
        return out;
    }
    say(
        &mut out,
        header_line(
            color,
            cat3("Held packages (", decimal_usize(held.len()).as_str(), ")").as_str(),
        ),
    );
    let ghost above = line_views(out@);
    let mut i: usize = 0;
    while i < held.len()
        invariant
            i <= held@.len(),
            all == texts(held@),
            line_views(out@) == bold_list(above, color, all.take(i as int)),
        decreases held@.len() - i,
    {
        say(&mut out, cat2("   ", bold(color, held[i].as_str()).as_str()));
        assert(all.take(i + 1).drop_last() =~= all.take(i as int));
        assert(all.take(i + 1).last() == held@[i as int]@);
        i += 1;
    }
    assert(all.take(all.len() as int) =~= all);
    out
}

// ---------------------------------------------------------------------------
// The history
// ---------------------------------------------------------------------------

/// The entries that are asked for: all of them, or those with the number.
pub open spec fn selected(es: Seq<EntryView>, id: Option<u64>) -> Seq<EntryView>
    decreases es.len(),
{
    if es.len() == 0 {
        seq![]
    } else if id is None || es.last().id == id->0 {
        selected(es.drop_last(), id).push(es.last())
    } else {
        selected(es.drop_last(), id)
    }
}

/// The entries that are asked for: all of them, or those with the number.
pub fn select(es: Vec<Entry>, id: Option<u64>) -> (r: Vec<Entry>)
    ensures
        entries(r@) == selected(entries(es@), id),
{
    let ghost all = entries(es@);
    let mut out: Vec<Entry> = Vec::new();
    let mut i: usize = 0;
    proof {
        assert(all.take(0).len() == 0);
        assert(entries(out@) =~= seq![]);
    }
    while i < es.len()
        invariant
            i <= es@.len(),
            all == entries(es@),
            entries(out@) == selected(all.take(i as int), id),
        decreases es@.len() - i,
    {
        broadcast use lemma_entries_push;

        assert(all.take(i + 1).drop_last() =~= all.take(i as int));
        assert(all.take(i + 1).last() == es@[i as int]@);
        let wanted = match id {
            Some(n) => es[i].id == n,
            None => true,
        };
        if wanted {
            out.push(copy_entry(&es[i]));
        }
        i += 1;
    }
    assert(all.take(all.len() as int) =~= all);
    out
}

/// What an entry says of itself, with counts.
pub open spec fn summary_text(e: EntryView) -> Seq<char> {
    what_text(e) + "  ("@ + join(counts(e), " "@) + ")"@
}

/// A row of the history.
pub open spec fn history_row(color: bool, e: EntryView, date: Seq<char>) -> LineView {
    LineView::Out(
        "  "@ + cyan_text(color, padded_left(decimal(e.id as nat), 4)) + "  "@ + dim_text(
            color,
            padded(date, 16),
        ) + "  "@ + summary_text(e),
    )
}

/// The rows of the history.
pub open spec fn history_rows(
    above: Seq<LineView>,
    color: bool,
    es: Seq<EntryView>,
    dates: Seq<Seq<char>>,
) -> Seq<LineView>
    decreases es.len(),
{
    if es.len() == 0 {
        above
    } else {
        history_rows(above, color, es.drop_last(), dates.drop_last()).push(
            history_row(color, es.last(), dates.last()),
        )
    }
}

/// The history as it is shown.
pub open spec fn history_text(color: bool, es: Seq<EntryView>, dates: Seq<Seq<char>>) -> Seq<
    LineView,
> {
    let none: Seq<LineView> = seq![];
    if es.len() == 0 {
        none.push(LineView::Error(warn_text(color, "No transactions recorded yet."@)))
    } else {
        history_rows(
            none.push(
                LineView::Out(
                    "  "@ + bold_text(color, padded_left("ID"@, 4)) + "  "@ + bold_text(
                        color,
                        padded("Date"@, 16),
                    ) + "  "@ + bold_text(color, "Action"@),
                ),
            ),
            color,
            es,
            dates,
        )
    }
}

/// The history as it is shown, given the date of each entry.
pub fn history_lines(color: bool, es: &Vec<Entry>, dates: &Vec<String>) -> (out: Vec<Line>)
    requires
        es@.len() == dates@.len(),
    ensures
        line_views(out@) == history_text(color, entries(es@), texts(dates@)),
{
    let ghost all = entries(es@);
    let ghost days = texts(dates@);
    let mut out = no_lines();
    if es.len() == 0 {
        complain(&mut out, warn_line(color, "No transactions recorded yet."));
        return out;
    }
    say(
        &mut out,
        cat6(
            "  ",
            bold(color, pad_left("ID", 4).as_str()).as_str(),
            "  ",
            bold(color, pad("Date", 16).as_str()).as_str(),
            "  ",
            bold(color, "Action").as_str(),
        ),
    );
    let ghost above = line_views(out@);
    let mut i: usize = 0;
    while i < es.len()
        invariant
            i <= es@.len(),
            es@.len() == dates@.len(),
            all == entries(es@),
            days == texts(dates@),
            line_views(out@) == history_rows(
                above,
                color,
                all.take(i as int),
                days.take(i as int),
            ),
        decreases es@.len() - i,
    {
        assert(all.take(i + 1).drop_last() =~= all.take(i as int));
        assert(all.take(i + 1).last() == es@[i as int]@);
        assert(days.take(i + 1).drop_last() =~= days.take(i as int));
        assert(days.take(i + 1).last() == dates@[i as int]@);
        let number = pad_left(decimal_u64(es[i].id).as_str(), 4);
        let day = pad(dates[i].as_str(), 16);
        say(
            &mut out,
            cat6(
                "  ",
                cyan(color, number.as_str()).as_str(),
                "  ",
                dimmed(color, day.as_str()).as_str(),
                "  ",
                es[i].summary().as_str(),
            ),
        );
        i += 1;
    }
    assert(all.take(all.len() as int) =~= all);
    assert(days.take(days.len() as int) =~= days);
    out
}

/// The title above the details of one transaction.
pub fn history_header(color: bool, e: &Entry, date: &str) -> (r: Line)
    ensures
        r@ == LineView::Out(
            header_text(
                color,
                "Transaction "@ + decimal(e.id as nat) + " — "@ + date@ + " — wrapt "@ + what_text(
                    e@,
                ),
            ),
        ),
{
    Line::Out(
        header_line(
            color,
            cat6(
                "Transaction ",
                decimal_u64(e.id).as_str(),
                " — ",
                date,
                " — wrapt ",
                e.what().as_str(),
            ).as_str(),
        ),
    )
}

// ---------------------------------------------------------------------------
// Lists, cache and downloads
// ---------------------------------------------------------------------------

/// How many packages can be upgraded.
pub open spec fn upgradable_text(color: bool, n: nat) -> Seq<char> {
    if n == 0 {
        "All packages are up to date."@
    } else {
        bold_text(color, decimal(n)) + " package"@ + plural(n) + " can be upgraded (run "@
            + cyan_text(color, "wrapt upgrade"@) + ")."@
    }
}

/// What is said once the package lists are refreshed, given how many packages
/// can be upgraded.
pub fn updated_line(color: bool, n: usize) -> (r: Line)
    ensures
        r@ == LineView::Out(success_text(color, upgradable_text(color, n as nat))),
{
    let text = if n == 0 {
        "All packages are up to date.".to_owned()
    } else {
        cat6(
            bold(color, decimal_usize(n).as_str()).as_str(),
            " package",
            plural_of(n),
            " can be upgraded (run ",
            cyan(color, "wrapt upgrade").as_str(),
            ").",
        )
    };
    Line::Out(success_line(color, text.as_str()))
}

/// What is said where a preview finds nothing to do.
pub fn plan_empty(color: bool) -> (r: Line)
    ensures
        r@ == LineView::Out(
            success_text(
                color,
                "Nothing to do — those packages are already installed and up to date."@,
            ),
        ),
{
    Line::Out(
        success_line(color, "Nothing to do — those packages are already installed and up to date."),
    )
}

/// What is said below a preview.
pub fn plan_done(color: bool) -> (r: Line)
    ensures
        r@ == LineView::Out(
            success_text(color, "Preview only — run `wrapt install …` to apply."@),
        ),
{
    Line::Out(success_line(color, "Preview only — run `wrapt install …` to apply."))
}

/// The arguments of an install of the packages.
pub fn install_args(packages: &Vec<String>) -> (r: Vec<String>)
    ensures
        texts(r@) == seq!["install"@] + texts(packages@),
{
    with_packages("install", packages)
}

/// What is said once packages are downloaded.
pub fn downloaded_line(color: bool, n: usize, total: u64, dest: &str) -> (r: Line)
    ensures
        r@ == LineView::Out(
            success_text(
                color,
                "Downloaded "@ + decimal(n as nat) + " file"@ + plural(n as nat) + " ("@ + (
                size_text(total as nat) + ") to "@ + dest@ + "."@),
            ),
        ),
{
    let tail = cat4(format_size(total).as_str(), ") to ", dest, ".");
    Line::Out(
        success_line(
            color,
            cat6(
                "Downloaded ",
                decimal_usize(n).as_str(),
                " file",
                plural_of(n),
                " (",
                tail.as_str(),
            ).as_str(),
        ),
    )
}

/// The sizes of files together.
pub open spec fn total_bytes(sizes: Seq<u64>) -> nat
    decreases sizes.len(),
{
    if sizes.len() == 0 {
        0
    } else {
        total_bytes(sizes.drop_last()) + sizes.last() as nat
    }
}

proof fn lemma_total_grows(sizes: Seq<u64>, k: int)
    requires
        0 <= k <= sizes.len(),
    ensures
        total_bytes(sizes.take(k)) <= total_bytes(sizes),
    decreases sizes.len() - k,
{
    if k < sizes.len() {
        lemma_total_grows(sizes, k + 1);
        assert(sizes.take(k + 1).drop_last() =~= sizes.take(k));
    } else {
        assert(sizes.take(k) =~= sizes);
    }
}

/// The sizes of files together, where they can be counted.
pub fn dir_size(sizes: &Vec<u64>) -> (r: Option<u64>)
    ensures
        match r {
            Some(n) => n == total_bytes(sizes@),
            None => total_bytes(sizes@) > u64::MAX,
        },
{
    let mut total: u64 = 0;
    let mut i: usize = 0;
    while i < sizes.len()
        invariant
            i <= sizes@.len(),
            total == total_bytes(sizes@.take(i as int)),
        decreases sizes@.len() - i,
    {
        assert(sizes@.take(i + 1).drop_last() =~= sizes@.take(i as int));
        match total.checked_add(sizes[i]) {
            Some(n) => {
                total = n;
            },
            None => {
                proof {
                    lemma_total_grows(sizes@, i + 1);
                }
                return None;
            },
        }
        i += 1;
    }
    assert(sizes@.take(sizes@.len() as int) =~= sizes@);
    Some(total)
}

/// What cleaning the cache freed.
pub open spec fn freed(before: nat, after: nat) -> nat {
    if before > after {
        (before - after) as nat
    } else {
        0
    }
}

/// What is said once the cache is cleaned, given its size before and after.
pub fn cleaned_line(color: bool, before: u64, after: u64) -> (r: Line)
    ensures
        r@ == LineView::Out(
            success_text(
                color,
                if freed(before as nat, after as nat) == 0 {
                    "Nothing to clean — the package cache is already empty."@
                } else {
                    "Freed "@ + cyan_text(color, size_text(freed(before as nat, after as nat)))
                        + "."@
                },
            ),
        ),
{
    if before <= after {
        return Line::Out(
            success_line(color, "Nothing to clean — the package cache is already empty."),
        );
    }
    Line::Out(
        success_line(
            color,
            cat3(
                "Freed ",
                cyan(color, format_size(before - after).as_str()).as_str(),
                ".",
            ).as_str(),
        ),
    )
}

} // verus!
