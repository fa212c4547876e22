//! The flow of every state-changing command: simulate, show the plan, confirm,
//! download in parallel, then let apt-get do the real work.

use vstd::prelude::*;

use crate::apt::{changes, ChangeView, DiskUsage, Transaction, TransactionView};
use crate::cli::TxOpts;
use crate::names::Names;
use crate::number::{decimal, decimal_usize};
use crate::order::lemma_push_contains;
use crate::text::{cat2, cat5, copy_strings, join, join_strings, lemma_texts_push, opt_str, texts};
use crate::ui::{
    bold, bold_text, complain, cyan, cyan_text, format_size, header_line, header_text, line_views,
    no_lines, plan_text, plural, plural_of, render_transaction, say, size_text, success_line,
    success_text, warn_line, warn_text, yellow, yellow_text, Line, LineView,
};

verus! {

// ---------------------------------------------------------------------------
// The steps
// ---------------------------------------------------------------------------

/// What has just happened in a transaction.
#[derive(Debug, Clone, Copy, PartialEq, Eq, Structural)]
pub enum Reply {
    Begin,
    /// The user is root.
    Root,
    /// apt told what it would do.
    Simulated { empty: bool },
    /// The plan was shown. `safe` tells that nothing is removed that the user
    /// installed on purpose and did not name.
    Planned { safe: bool, downloads: bool },
    /// The user was asked.
    Answered { yes: bool, downloads: bool },
    Downloaded,
}

/// Why a transaction stops short.
#[derive(Debug, Clone, Copy, PartialEq, Eq, Structural)]
pub enum Outcome {
    NothingToDo,
    DryRun,
    Aborted,
}

/// What comes next in a transaction.
#[derive(Debug, Clone, Copy, PartialEq, Eq, Structural)]
pub enum Step {
    CheckRoot,
    Simulate,
    Plan,
    Ask { default_yes: bool },
    Download,
    /// Let apt-get do the real work.
    Run,
    Stop(Outcome),
}

/// The step once the transaction is agreed to.
pub open spec fn agreed(downloads: bool) -> Step {
    if downloads {
        Step::Download
    } else {
        Step::Run
    }
}

/// The next step. A dry run only previews: it needs no root and touches nothing.
/// The question defaults to "no" where the plan is not safe.
pub open spec fn next_step(opts: TxOpts, reply: Reply) -> Step {
    match reply {
        Reply::Begin => if opts.dry_run {
            Step::Simulate
        } else {
            Step::CheckRoot
        },
        Reply::Root => Step::Simulate,
        Reply::Simulated { empty } => if empty {
            Step::Stop(Outcome::NothingToDo)
        } else {
            Step::Plan
        },
        Reply::Planned { safe, downloads } => if opts.dry_run {
            Step::Stop(Outcome::DryRun)
        } else if opts.yes {
            agreed(downloads)
        } else {
            Step::Ask { default_yes: safe }
        },
        Reply::Answered { yes, downloads } => if yes {
            agreed(downloads)
        } else {
            Step::Stop(Outcome::Aborted)
        },
        Reply::Downloaded => Step::Run,
    }
}

/// The next step of a transaction.
pub fn next(opts: &TxOpts, reply: Reply) -> (r: Step)
    ensures
        r == next_step(*opts, reply),
{
    match reply {
        Reply::Begin => if opts.dry_run {
            Step::Simulate
        } else {
            Step::CheckRoot
        },
        Reply::Root => Step::Simulate,
        Reply::Simulated { empty } => if empty {
            Step::Stop(Outcome::NothingToDo)
        } else {
            Step::Plan
        },
        Reply::Planned { safe, downloads } => if opts.dry_run {
            Step::Stop(Outcome::DryRun)
        } else if !opts.yes {
            Step::Ask { default_yes: safe }
        } else if downloads {
            Step::Download
        } else {
            Step::Run
        },
        Reply::Answered { yes, downloads } => if !yes {
            Step::Stop(Outcome::Aborted)
        } else if downloads {
            Step::Download
        } else {
            Step::Run
        },
        Reply::Downloaded => Step::Run,
    }
}

/// What is said where a transaction stops short.
pub open spec fn outcome_text(color: bool, o: Outcome) -> LineView {
    match o {
        Outcome::NothingToDo => LineView::Out(
            success_text(color, "Nothing to do — everything is up to date."@),
        ),
        Outcome::DryRun => LineView::Out(success_text(color, "Dry run — nothing was changed."@)),
        Outcome::Aborted => LineView::Error(warn_text(color, "Aborted."@)),
    }
}

/// What is said where a transaction stops short.
pub fn outcome_line(color: bool, o: Outcome) -> (r: Line)
    ensures
        r@ == outcome_text(color, o),
{
    match o {
        Outcome::NothingToDo => Line::Out(
            success_line(color, "Nothing to do — everything is up to date."),
        ),
        Outcome::DryRun => Line::Out(success_line(color, "Dry run — nothing was changed.")),
        Outcome::Aborted => Line::Error(warn_line(color, "Aborted.")),
    }
}

/// The reply answers the step.
pub open spec fn answers(step: Step, reply: Reply) -> bool {
    match step {
        Step::CheckRoot => reply is Root,
        Step::Simulate => reply is Simulated,
        Step::Plan => reply is Planned,
        Step::Ask { .. } => reply is Answered,
        Step::Download => reply is Downloaded,
        Step::Run => false,
        Step::Stop(_) => false,
    }
}

/// The replies are those of a transaction, from its beginning.
pub open spec fn is_run(opts: TxOpts, t: Seq<Reply>) -> bool {
    &&& t.len() > 0
    &&& t[0] == Reply::Begin
    &&& forall|i: int|
        0 < i < t.len() ==> answers(next_step(opts, t[i - 1]), #[trigger] t[i])
}

/// The step changes the system, or writes to its cache.
pub open spec fn changes_things(step: Step) -> bool {
    step is Download || step is Run
}

/// The user said yes.
pub open spec fn consents(reply: Reply) -> bool {
    reply matches Reply::Answered { yes, .. } && yes
}

/// A dry run changes nothing, and never asks for root.
pub proof fn a_dry_run_changes_nothing(opts: TxOpts, t: Seq<Reply>, i: int)
    requires
        opts.dry_run,
        is_run(opts, t),
        0 <= i < t.len(),
    ensures
        !changes_things(next_step(opts, t[i])),
        !(next_step(opts, t[i]) is CheckRoot),
        t[i] is Begin || t[i] is Simulated || t[i] is Planned,
    decreases i,
{
    if i > 0 {
        a_dry_run_changes_nothing(opts, t, i - 1);
        assert(answers(next_step(opts, t[i - 1]), t[i]));
    }
}

/// Nothing is changed before the user was shown the plan and said yes, unless
/// they said so beforehand.
pub proof fn nothing_changes_without_consent(opts: TxOpts, t: Seq<Reply>, i: int)
    requires
        is_run(opts, t),
        0 <= i < t.len(),
        changes_things(next_step(opts, t[i])),
    ensures
        exists|j: int| 0 <= j <= i && (#[trigger] t[j]) is Planned,
        opts.yes || exists|j: int| 0 <= j <= i && consents(#[trigger] t[j]),
    decreases i,
{
    if i > 0 {
        assert(answers(next_step(opts, t[i - 1]), t[i]));
        match t[i] {
            Reply::Planned { .. } => {
                assert(t[i] is Planned);
            },
            Reply::Answered { .. } => {
                assert(t[i - 1] is Planned);
            },
            _ => {
                nothing_changes_without_consent(opts, t, i - 1);
            },
        }
    }
}

/// Nothing is changed by anybody but root.
pub proof fn nothing_changes_without_root(opts: TxOpts, t: Seq<Reply>, i: int)
    requires
        is_run(opts, t),
        0 <= i < t.len(),
        changes_things(next_step(opts, t[i])),
    ensures
        exists|j: int| 0 <= j <= i && (#[trigger] t[j]) is Root,
{
    lemma_root(opts, t, i);
}

proof fn lemma_root(opts: TxOpts, t: Seq<Reply>, i: int)
    requires
        is_run(opts, t),
        0 <= i < t.len(),
    ensures
        t[i] is Begin || opts.dry_run || exists|j: int| 0 <= j <= i && (#[trigger] t[j]) is Root,
        opts.dry_run ==> !changes_things(next_step(opts, t[i])),
    decreases i,
{
    if opts.dry_run {
        a_dry_run_changes_nothing(opts, t, i);
    } else if i > 0 {
        assert(answers(next_step(opts, t[i - 1]), t[i]));
        lemma_root(opts, t, i - 1);
    }
}

/// Where the plan is not safe, the user is asked, and saying nothing means "no".
pub proof fn an_unsafe_plan_defaults_to_no(opts: TxOpts, downloads: bool)
    requires
        !opts.yes,
        !opts.dry_run,
    ensures
        next_step(opts, Reply::Planned { safe: false, downloads }) == (Step::Ask {
            default_yes: false,
        }),
{
}

// ---------------------------------------------------------------------------
// The plan
// ---------------------------------------------------------------------------

/// The packages that would be removed though they were installed on purpose and
/// are not named.
pub open spec fn collateral(
    removed: Seq<ChangeView>,
    manual: Set<Seq<char>>,
    named: Seq<Seq<char>>,
) -> Seq<Seq<char>>
    decreases removed.len(),
{
    if removed.len() == 0 {
        seq![]
    } else {
        let before = collateral(removed.drop_last(), manual, named);
        let name = removed.last().name;
        if manual.contains(name) && !named.contains(name) {
            before.push(name)
        } else {
            before
        }
    }
}

/// The packages that would be removed though they were installed on purpose and
/// are not named.
pub fn collateral_of(tx: &Transaction, manual: &Names, named: &Vec<String>) -> (r: Vec<String>)
    ensures
        texts(r@) == collateral(tx@.remove, manual@, texts(named@)),
{
    let ghost all = tx@.remove;
    let named_set = Names::of(named);
    let mut out: Vec<String> = Vec::new();
    let mut i: usize = 0;
    proof {
        assert(all.take(0).len() == 0);
        assert(texts(out@) =~= seq![]);
    }
    while i < tx.remove.len()
        invariant
            i <= tx.remove@.len(),
            all == changes(tx.remove@),
            named_set@ == texts(named@).to_set(),
            texts(out@) == collateral(all.take(i as int), manual@, texts(named@)),
        decreases tx.remove@.len() - i,
    {
        broadcast use lemma_texts_push;

        assert(all.take(i + 1).drop_last() =~= all.take(i as int));
        assert(all.take(i + 1).last() == tx.remove@[i as int]@);
        let name = tx.remove[i].name.as_str();
        if manual.contains(name) && !named_set.contains(name) {
            out.push(name.to_owned());
        }
        i += 1;
    }
    assert(all.take(all.len() as int) =~= all);
    out
}

/// The collateral is exactly what would be removed though it was installed on
/// purpose and not named.
pub proof fn collateral_is_what_was_not_asked_for(
    removed: Seq<ChangeView>,
    manual: Set<Seq<char>>,
    named: Seq<Seq<char>>,
    name: Seq<char>,
)
    ensures
        collateral(removed, manual, named).contains(name) <==> manual.contains(name)
            && !named.contains(name) && exists|i: int|
            0 <= i < removed.len() && (#[trigger] removed[i]).name == name,
    decreases removed.len(),
{
    if removed.len() > 0 {
        let rest = removed.drop_last();
        collateral_is_what_was_not_asked_for(rest, manual, named, name);
        let before = collateral(rest, manual, named);
        lemma_push_contains(before, removed.last().name, name);
        if exists|i: int| 0 <= i < rest.len() && (#[trigger] rest[i]).name == name {
            let i = choose|i: int| 0 <= i < rest.len() && (#[trigger] rest[i]).name == name;
            assert(removed[i].name == name);
        }
        if exists|i: int| 0 <= i < removed.len() && (#[trigger] removed[i]).name == name {
            let i = choose|i: int| 0 <= i < removed.len() && (#[trigger] removed[i]).name == name;
            if i < rest.len() {
                assert(rest[i].name == name);
            }
        }
        assert(removed[removed.len() - 1] == removed.last());
    }
}

/// The changes, and a warning where something goes that was installed on
/// purpose. The changes end with a line break of their own.
pub open spec fn plan_lines(
    color: bool,
    tx: TransactionView,
    manual: Set<Seq<char>>,
    named: Seq<Seq<char>>,
) -> Seq<LineView> {
    let lost = collateral(tx.remove, manual, named);
    let none: Seq<LineView> = seq![];
    let shown = none.push(LineView::Out(plan_text(color, tx, manual)));
    if lost.len() == 0 {
        shown
    } else {
        shown.push(
            LineView::Error(
                warn_text(
                    color,
                    "This will also remove "@ + decimal(lost.len()) + " package"@ + plural(
                        lost.len(),
                    ) + " you installed manually:"@,
                ),
            ),
        ).push(LineView::Error("    "@ + yellow_text(color, join(lost, ", "@)))).push(
            LineView::Out(""@),
        )
    }
}

/// The changes of a transaction as they are shown, and whether they are safe: they
/// are not where packages that were installed on purpose, and are not named,
/// would be removed.
pub fn show_plan(color: bool, tx: &Transaction, manual: &Names, named: &Vec<String>) -> (r: (
    Vec<Line>,
    bool,
))
    ensures
        line_views(r.0@) == plan_lines(color, tx@, manual@, texts(named@)),
        r.1 == (collateral(tx@.remove, manual@, texts(named@)).len() == 0),
{
    let lost = collateral_of(tx, manual, named);
    let mut out = no_lines();
    say(&mut out, render_transaction(color, tx, manual));
    if lost.len() > 0 {
        complain(
            &mut out,
            warn_line(
                color,
                cat5(
                    "This will also remove ",
                    decimal_usize(lost.len()).as_str(),
                    " package",
                    plural_of(lost.len()),
                    " you installed manually:",
                ).as_str(),
            ),
        );
        complain(
            &mut out,
            cat2("    ", yellow(color, join_strings(&lost, ", ").as_str()).as_str()),
        );
        say(&mut out, "".to_owned());
    }
    (out, lost.len() == 0)
}

/// A size below a title.
pub open spec fn sized(color: bool, title: Seq<char>, sign: Seq<char>, bytes: nat) -> LineView {
    LineView::Out(
        "   "@ + bold_text(color, title) + " "@ + sign + cyan_text(color, size_text(bytes)),
    )
}

/// What has to be downloaded and what it comes to on disk. The titles of the two
/// totals are of one width, so that the sizes line up.
pub open spec fn size_lines(
    color: bool,
    count: nat,
    download: nat,
    disk: Option<DiskUsage>,
) -> Seq<LineView> {
    let none: Seq<LineView> = seq![];
    let a = if count > 0 {
        none.push(sized(color, "Total download size: "@, ""@, download))
    } else {
        none
    };
    let b = if disk is Some && disk->0.installed > 0 {
        a.push(sized(color, "Total installed size:"@, ""@, disk->0.installed as nat))
    } else {
        a
    };
    let c = if disk is Some && disk->0.net_change != disk->0.installed {
        let net = disk->0.net_change;
        if net >= 0 {
            b.push(sized(color, "Net disk change:"@, "+"@, net as nat))
        } else {
            b.push(sized(color, "Net disk change:"@, "-"@, (-net) as nat))
        }
    } else {
        b
    };
    c.push(LineView::Out(""@))
}

fn say_size(color: bool, out: &mut Vec<Line>, title: &str, sign: &str, bytes: u64)
    ensures
        line_views(final(out)@) == line_views(old(out)@).push(
            sized(color, title@, sign@, bytes as nat),
        ),
{
    say(
        out,
        cat5(
            "   ",
            bold(color, title).as_str(),
            " ",
            sign,
            cyan(color, format_size(bytes).as_str()).as_str(),
        ),
    );
}

/// What has to be downloaded and what it comes to on disk.
pub fn show_sizes(color: bool, count: usize, download: u64, disk: Option<&DiskUsage>) -> (out: Vec<
    Line,
>)
    ensures
        line_views(out@) == size_lines(
            color,
            count as nat,
            download as nat,
            match disk {
                Some(d) => Some(*d),
                None => None,
            },
        ),
{
    proof {
        reveal_strlit("");
    }
    let mut out = no_lines();
    if count > 0 {
        say_size(color, &mut out, "Total download size: ", "", download);
    }
    if let Some(d) = disk {
        if d.installed > 0 {
            say_size(color, &mut out, "Total installed size:", "", d.installed);
        }
        let net: i64 = d.net_change;
        if net >= 0 {
            if net as u64 != d.installed {
                say_size(color, &mut out, "Net disk change:", "+", net as u64);
            }
        } else {
            let size: u64 = (-(net + 1)) as u64 + 1;
            say_size(color, &mut out, "Net disk change:", "-", size);
        }
    }
    say(&mut out, "".to_owned());
    out
}

// ---------------------------------------------------------------------------
// Around the work
// ---------------------------------------------------------------------------

/// Where apt keeps the packages it downloaded.
pub const APT_ARCHIVES: &'static str = "/var/cache/apt/archives";

/// Where downloaded packages go, and whether that is not apt's own cache.
pub fn archives_dir(given: Option<&str>) -> (r: (String, bool))
    ensures
        r.0@ == match given {
            Some(dir) => dir@,
            None => APT_ARCHIVES@,
        },
        r.1 == given is Some,
{
    match given {
        Some(dir) => (dir.to_owned(), true),
        None => (APT_ARCHIVES.to_owned(), false),
    }
}

/// What is said before packages are downloaded.
pub open spec fn counted(color: bool, verb: Seq<char>, n: nat, noun: Seq<char>) -> Seq<char> {
    header_text(color, verb + decimal(n) + noun + plural(n) + "..."@)
}

/// What is said before packages are downloaded.
pub fn download_header(color: bool, n: usize) -> (r: String)
    ensures
        r@ == counted(color, "Downloading "@, n as nat, " package"@),
{
    header_line(
        color,
        cat5(
            "Downloading ",
            decimal_usize(n).as_str(),
            " package",
            plural_of(n),
            "...",
        ).as_str(),
    )
}

/// What is said before remote packages are fetched.
pub fn fetch_header(color: bool, n: usize) -> (r: String)
    ensures
        r@ == counted(color, "Fetching "@, n as nat, " remote package"@),
{
    header_line(
        color,
        cat5(
            "Fetching ",
            decimal_usize(n).as_str(),
            " remote package",
            plural_of(n),
            "...",
        ).as_str(),
    )
}

/// The arguments apt-get is run with; where the cache is not its own, it is told.
pub open spec fn told_cache(args: Seq<Seq<char>>, cache: Option<Seq<char>>) -> Seq<Seq<char>> {
    match cache {
        Some(dir) => seq!["-o"@, "Dir::Cache::archives="@ + dir] + args,
        None => args,
    }
}

/// The arguments apt-get is run with.
pub fn run_args(args: &Vec<String>, cache: Option<&str>) -> (r: Vec<String>)
    ensures
        texts(r@) == told_cache(texts(args@), opt_str(cache)),
{
    match cache {
        Some(dir) => {
            let mut out: Vec<String> = Vec::new();
            out.push("-o".to_owned());
            out.push(cat2("Dir::Cache::archives=", dir));
            let ghost head = texts(out@);
            assert(head =~= seq!["-o"@, "Dir::Cache::archives="@ + dir@]);
            let mut rest = copy_strings(args);
            let ghost tail = texts(rest@);
            out.append(&mut rest);
            assert(texts(out@) =~= head + tail);
            out
        },
        None => copy_strings(args),
    }
}

/// What is said where the history could not be written.
pub fn not_recorded(color: bool, why: &str) -> (r: String)
    ensures
        r@ == warn_text(color, "could not record history: "@ + why@),
{
    warn_line(color, cat2("could not record history: ", why).as_str())
}

} // verus!
