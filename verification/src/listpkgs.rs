//! `wrapt list`: installed, upgradable and manually installed packages.

use vstd::prelude::*;
use vstd::utf8::encode_utf8;

use crate::apt::{changes, copy_change, lemma_changes_push, pairs, Change, ChangeView, Transaction};
use crate::names::Names;
use crate::number::{decimal, decimal_usize, pad, padded};
use crate::order::{
    by_rank, comes_first, in_order, lemma_in_order_mapped, lemma_text_le_total, lemma_text_le_trans,
    sort, text_le, Ranked,
};
use crate::text::{cat2, cat3, cat5, cat6, chars_of, has_text, holds, opt_str};
use crate::ui::{
    bold, bold_text, bold_yellow, complain, cyan, cyan_text, dim_text, dimmed, header_line,
    header_text, line_views, no_lines, say, success_line, success_text, upgrade_cells, upgrade_text,
    warn_line, warn_text, widest, widest_of, yellow_text, Line, LineView,
};

verus! {

/// The name holds the pattern, where there is one.
pub open spec fn name_matches(name: Seq<char>, pattern: Option<Seq<char>>) -> bool {
    match pattern {
        Some(p) => has_text(name, p),
        None => true,
    }
}

fn matches_pattern(name: &str, pattern: Option<&str>) -> (r: bool)
    ensures
        r == name_matches(name@, opt_str(pattern)),
{
    match pattern {
        Some(p) => {
            let chars = chars_of(name);
            holds(chars.as_slice(), p)
        },
        None => true,
    }
}

// ---------------------------------------------------------------------------
// Installed packages
// ---------------------------------------------------------------------------

/// An installed package in the list.
pub struct Row {
    pub name: String,
    pub version: String,
    pub auto: bool,
    pub held: bool,
}

pub struct RowView {
    pub name: Seq<char>,
    pub version: Seq<char>,
    pub auto: bool,
    pub held: bool,
}

impl View for Row {
    type V = RowView;

    open spec fn view(&self) -> RowView {
        RowView { name: self.name@, version: self.version@, auto: self.auto, held: self.held }
    }
}

/// The rows as values.
pub open spec fn rows(v: Seq<Row>) -> Seq<RowView> {
    v.map_values(|r: Row| r@)
}

pub broadcast proof fn lemma_rows_push(v: Seq<Row>, r: Row)
    ensures
        #[trigger] rows(v.push(r)) == rows(v).push(r@),
{
    assert(rows(v.push(r)) =~= rows(v).push(r@));
}

/// The order of rows: by name.
pub open spec fn by_row_name() -> spec_fn(RowView, RowView) -> bool {
    |a: RowView, b: RowView| text_le(a.name, b.name)
}

impl Ranked for Row {
    open spec fn rank_le(&self, other: &Self) -> bool {
        text_le(self.name@, other.name@)
    }

    proof fn rank_total(a: &Self, b: &Self) {
        lemma_text_le_total(a.name@, b.name@);
    }

    proof fn rank_trans(a: &Self, b: &Self, c: &Self) {
        lemma_text_le_trans(a.name@, b.name@, c.name@);
    }

    fn at_most(&self, other: &Self) -> (r: bool) {
        comes_first(self.name.as_str(), other.name.as_str())
    }
}

/// The rows of the packages that are asked for.
pub open spec fn wanted_rows(
    versions: Seq<(Seq<char>, Seq<char>)>,
    manual: Set<Seq<char>>,
    held: Set<Seq<char>>,
    manual_only: bool,
    pattern: Option<Seq<char>>,
) -> Seq<RowView>
    decreases versions.len(),
{
    if versions.len() == 0 {
        seq![]
    } else {
        let before = wanted_rows(versions.drop_last(), manual, held, manual_only, pattern);
        let (name, version) = versions.last();
        if name_matches(name, pattern) && (!manual_only || manual.contains(name)) {
            before.push(
                RowView { name, version, auto: !manual.contains(name), held: held.contains(name) },
            )
        } else {
            before
        }
    }
}

/// The rows of the packages that are asked for, in order of their names.
pub fn installed_rows(
    versions: &Vec<(String, String)>,
    manual: &Names,
    held: &Names,
    manual_only: bool,
    pattern: Option<&str>,
) -> (r: Vec<Row>)
    ensures
        in_order(
            rows(r@),
            wanted_rows(pairs(versions@), manual@, held@, manual_only, opt_str(pattern)),
            by_row_name(),
        ),
{
    let ghost all = pairs(versions@);
    let mut v: Vec<Row> = Vec::new();
    let mut i: usize = 0;
    assert(all.take(0) =~= seq![]);
    assert(rows(v@) =~= seq![]);
    while i < versions.len()
        invariant
            all == pairs(versions@),
            i <= versions@.len(),
            rows(v@) == wanted_rows(
                all.take(i as int),
                manual@,
                held@,
                manual_only,
                opt_str(pattern),
            ),
        decreases versions@.len() - i,
    {
        broadcast use lemma_rows_push;

        assert(all.take(i + 1).drop_last() =~= all.take(i as int));
        assert(all.take(i + 1).last() == (versions@[i as int].0@, versions@[i as int].1@));
        let name = versions[i].0.as_str();
        let by_hand = manual.contains(name);
        if matches_pattern(name, pattern) && (!manual_only || by_hand) {
            v.push(
                Row {
                    name: versions[i].0.clone(),
                    version: versions[i].1.clone(),
                    auto: !by_hand,
                    held: held.contains(name),
                },
            );
        }
        i += 1;
    }
    assert(all.take(all.len() as int) =~= all);
    let ghost given = v@;
    let sorted = sort(v);
    proof {
        lemma_in_order_mapped(sorted@, given, by_rank::<Row>(), |r: Row| r@, by_row_name());
    }
    sorted
}

/// The width in bytes of the longest name.
pub open spec fn widest_row(v: Seq<RowView>) -> nat
    decreases v.len(),
{
    if v.len() == 0 {
        0
    } else {
        let before = widest_row(v.drop_last());
        let n = encode_utf8(v.last().name).len();
        if n > before {
            n
        } else {
            before
        }
    }
}

/// What marks a held package.
pub open spec fn held_badge(color: bool, r: RowView) -> Seq<char> {
    if r.held {
        " "@ + bold_text(color, yellow_text(color, "[held]"@))
    } else {
        ""@
    }
}

/// What marks a package that came in as a dependency.
pub open spec fn auto_badge(color: bool, r: RowView) -> Seq<char> {
    if r.auto {
        " "@ + dim_text(color, "[auto]"@)
    } else {
        ""@
    }
}

/// A row of the list.
pub open spec fn row_text(color: bool, width: nat, r: RowView) -> Seq<char> {
    "   "@ + bold_text(color, padded(r.name, width)) + "  "@ + cyan_text(color, r.version)
        + held_badge(color, r) + auto_badge(color, r)
}

/// A title, then the rows.
pub open spec fn row_lines(
    color: bool,
    title: Seq<char>,
    width: nat,
    v: Seq<RowView>,
) -> Seq<LineView>
    decreases v.len(),
{
    if v.len() == 0 {
        seq![LineView::Out(header_text(color, title))]
    } else {
        row_lines(color, title, width, v.drop_last()).push(
            LineView::Out(row_text(color, width, v.last())),
        )
    }
}

/// The list of installed packages.
pub open spec fn installed_lines(color: bool, manual_only: bool, v: Seq<RowView>) -> Seq<LineView> {
    if v.len() == 0 {
        seq![LineView::Error(warn_text(color, "No matching packages."@))]
    } else {
        let title = if manual_only {
            "Manually installed ("@ + decimal(v.len()) + ")"@
        } else {
            "Installed ("@ + decimal(v.len()) + ")"@
        };
        row_lines(color, title, widest_row(v), v)
    }
}

fn widest_row_of(v: &Vec<Row>) -> (r: usize)
    ensures
        r == widest_row(rows(v@)),
{
    let ghost all = rows(v@);
    let mut width: usize = 0;
    let mut i: usize = 0;
    while i < v.len()
        invariant
            all == rows(v@),
            i <= v@.len(),
            width == widest_row(all.take(i as int)),
        decreases v@.len() - i,
    {
        assert(all.take(i + 1).drop_last() =~= all.take(i as int));
        assert(all.take(i + 1).last() == v@[i as int]@);
        let n: usize = v[i].name.as_str().as_bytes().len();
        if n > width {
            width = n;
        }
        i += 1;
    }
    assert(all.take(all.len() as int) =~= all);
    width
}

fn row_of(color: bool, width: usize, r: &Row) -> (s: String)
    ensures
        s@ == row_text(color, width as nat, r@),
{
    let held = if r.held {
        cat2(" ", bold_yellow(color, "[held]").as_str())
    } else {
        "".to_owned()
    };
    let auto = if r.auto {
        cat2(" ", dimmed(color, "[auto]").as_str())
    } else {
        "".to_owned()
    };
    cat6(
        "   ",
        bold(color, pad(r.name.as_str(), width).as_str()).as_str(),
        "  ",
        cyan(color, r.version.as_str()).as_str(),
        held.as_str(),
        auto.as_str(),
    )
}

/// The list of installed packages.
pub fn list_installed(color: bool, manual_only: bool, v: &Vec<Row>) -> (out: Vec<Line>)
    ensures
        line_views(out@) == installed_lines(color, manual_only, rows(v@)),
{
    let mut out = no_lines();
    if v.len() == 0 {
        complain(&mut out, warn_line(color, "No matching packages."));
        assert(line_views(out@) =~= seq![LineView::Error(warn_text(color, "No matching packages."@))]);
        return out;
    }
    let count = decimal_usize(v.len());
    let title = if manual_only {
        cat3("Manually installed (", count.as_str(), ")")
    } else {
        cat3("Installed (", count.as_str(), ")")
    };
    say(&mut out, header_line(color, title.as_str()));
    assert(line_views(out@) =~= seq![LineView::Out(header_text(color, title@))]);
    let width: usize = widest_row_of(v);
    let ghost all = rows(v@);
    let mut i: usize = 0;
    while i < v.len()
        invariant
            all == rows(v@),
            i <= v@.len(),
            line_views(out@) == row_lines(color, title@, width as nat, all.take(i as int)),
        decreases v@.len() - i,
    {
        assert(all.take(i + 1).drop_last() =~= all.take(i as int));
        assert(all.take(i + 1).last() == v@[i as int]@);
        say(&mut out, row_of(color, width, &v[i]));
        i += 1;
    }
    assert(all.take(all.len() as int) =~= all);
    out
}

// ---------------------------------------------------------------------------
// Upgradable packages
// ---------------------------------------------------------------------------

/// The upgrades that are asked for.
pub open spec fn wanted_changes(v: Seq<ChangeView>, pattern: Option<Seq<char>>) -> Seq<ChangeView>
    decreases v.len(),
{
    if v.len() == 0 {
        seq![]
    } else {
        let before = wanted_changes(v.drop_last(), pattern);
        if v.last().old is Some && name_matches(v.last().name, pattern) {
            before.push(v.last())
        } else {
            before
        }
    }
}

/// The order of changes: by name.
pub open spec fn by_change_name() -> spec_fn(ChangeView, ChangeView) -> bool {
    |a: ChangeView, b: ChangeView| text_le(a.name, b.name)
}

impl Ranked for Change {
    open spec fn rank_le(&self, other: &Self) -> bool {
        text_le(self.name@, other.name@)
    }

    proof fn rank_total(a: &Self, b: &Self) {
        lemma_text_le_total(a.name@, b.name@);
    }

    proof fn rank_trans(a: &Self, b: &Self, c: &Self) {
        lemma_text_le_trans(a.name@, b.name@, c.name@);
    }

    fn at_most(&self, other: &Self) -> (r: bool) {
        comes_first(self.name.as_str(), other.name.as_str())
    }
}

/// The upgrades that are asked for, in order of their names.
pub fn upgradable_rows(tx: &Transaction, pattern: Option<&str>) -> (r: Vec<Change>)
    ensures
        in_order(
            changes(r@),
            wanted_changes(tx@.install, opt_str(pattern)),
            by_change_name(),
        ),
{
    let ghost all = changes(tx.install@);
    let mut v: Vec<Change> = Vec::new();
    let mut i: usize = 0;
    assert(all.take(0) =~= seq![]);
    assert(changes(v@) =~= seq![]);
    while i < tx.install.len()
        invariant
            all == changes(tx.install@),
            i <= tx.install@.len(),
            changes(v@) == wanted_changes(all.take(i as int), opt_str(pattern)),
        decreases tx.install@.len() - i,
    {
        broadcast use lemma_changes_push;

        assert(all.take(i + 1).drop_last() =~= all.take(i as int));
        assert(all.take(i + 1).last() == tx.install@[i as int]@);
        let c = &tx.install[i];
        if c.old.is_some() && matches_pattern(c.name.as_str(), pattern) {
            v.push(copy_change(c));
        }
        i += 1;
    }
    assert(all.take(all.len() as int) =~= all);
    let ghost given = v@;
    let sorted = sort(v);
    proof {
        lemma_in_order_mapped(sorted@, given, by_rank::<Change>(), |c: Change| c@, by_change_name());
    }
    sorted
}

/// How many of the changes are security fixes.
pub open spec fn fixes(v: Seq<ChangeView>) -> nat
    decreases v.len(),
{
    if v.len() == 0 {
        0
    } else if v.last().security {
        fixes(v.drop_last()) + 1
    } else {
        fixes(v.drop_last())
    }
}

/// A title, then the rows.
pub open spec fn upgradable_row_lines(
    color: bool,
    title: Seq<char>,
    width: nat,
    v: Seq<ChangeView>,
) -> Seq<LineView>
    decreases v.len(),
{
    if v.len() == 0 {
        seq![LineView::Out(header_text(color, title))]
    } else {
        upgradable_row_lines(color, title, width, v.drop_last()).push(
            LineView::Out(upgrade_text(color, width, v.last())),
        )
    }
}

/// The list of upgradable packages.
pub open spec fn upgradable_lines(color: bool, v: Seq<ChangeView>) -> Seq<LineView> {
    if v.len() == 0 {
        seq![LineView::Out(success_text(color, "Everything is up to date."@))]
    } else {
        let title = if fixes(v) > 0 {
            "Upgradable ("@ + decimal(v.len()) + ", "@ + decimal(fixes(v)) + " security)"@
        } else {
            "Upgradable ("@ + decimal(v.len()) + ")"@
        };
        upgradable_row_lines(color, title, widest(v), v)
    }
}

fn fixes_of(v: &Vec<Change>) -> (r: usize)
    ensures
        r == fixes(changes(v@)),
{
    let ghost all = changes(v@);
    let mut n: usize = 0;
    let mut i: usize = 0;
    while i < v.len()
        invariant
            all == changes(v@),
            i <= v@.len(),
            n <= i,
            n == fixes(all.take(i as int)),
        decreases v@.len() - i,
    {
        assert(all.take(i + 1).drop_last() =~= all.take(i as int));
        assert(all.take(i + 1).last() == v@[i as int]@);
        if v[i].security {
            n += 1;
        }
        i += 1;
    }
    assert(all.take(all.len() as int) =~= all);
    n
}

/// The list of upgradable packages.
pub fn list_upgradable(color: bool, v: &Vec<Change>) -> (out: Vec<Line>)
    ensures
        line_views(out@) == upgradable_lines(color, changes(v@)),
{
    let mut out = no_lines();
    if v.len() == 0 {
        say(&mut out, success_line(color, "Everything is up to date."));
        assert(line_views(out@) =~= seq![
            LineView::Out(success_text(color, "Everything is up to date."@)),
        ]);
        return out;
    }
    let security: usize = fixes_of(v);
    let count = decimal_usize(v.len());
    let title = if security > 0 {
        cat5("Upgradable (", count.as_str(), ", ", decimal_usize(security).as_str(), " security)")
    } else {
        cat3("Upgradable (", count.as_str(), ")")
    };
    say(&mut out, header_line(color, title.as_str()));
    assert(line_views(out@) =~= seq![LineView::Out(header_text(color, title@))]);
    let width: usize = widest_of(v);
    let ghost all = changes(v@);
    let mut i: usize = 0;
    while i < v.len()
        invariant
            all == changes(v@),
            i <= v@.len(),
            line_views(out@) == upgradable_row_lines(
                color,
                title@,
                width as nat,
                all.take(i as int),
            ),
        decreases v@.len() - i,
    {
        assert(all.take(i + 1).drop_last() =~= all.take(i as int));
        assert(all.take(i + 1).last() == v@[i as int]@);
        say(&mut out, upgrade_cells(color, width, &v[i]));
        i += 1;
    }
    assert(all.take(all.len() as int) =~= all);
    out
}

/// What there is to list.
pub enum Listing {
    /// The installed packages with their versions, and which of them were
    /// installed on purpose or are held.
    Installed { versions: Vec<(String, String)>, manual: Names, held: Names },
    /// What an upgrade would do.
    Upgradable { tx: Transaction },
}

/// Lists packages: installed ones, narrowed by `manual_only` to those that were
/// installed on purpose, or upgradable ones.
pub fn run(color: bool, listing: &Listing, manual_only: bool, pattern: Option<&str>) -> (out: Vec<
    Line,
>)
    ensures
        match listing {
            Listing::Installed { versions, manual, held } => exists|v: Seq<RowView>|
                #[trigger] installed_lines(color, manual_only, v) == line_views(out@) && in_order(
                    v,
                    wanted_rows(pairs(versions@), manual@, held@, manual_only, opt_str(pattern)),
                    by_row_name(),
                ),
            Listing::Upgradable { tx } => exists|v: Seq<ChangeView>|
                #[trigger] upgradable_lines(color, v) == line_views(out@) && in_order(
                    v,
                    wanted_changes(tx@.install, opt_str(pattern)),
                    by_change_name(),
                ),
        },
{
    match listing {
        Listing::Installed { versions, manual, held } => {
            let v = installed_rows(versions, manual, held, manual_only, pattern);
            list_installed(color, manual_only, &v)
        },
        Listing::Upgradable { tx } => {
            let v = upgradable_rows(tx, pattern);
            list_upgradable(color, &v)
        },
    }
}

} // verus!
