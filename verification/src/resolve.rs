//! Translates apt's terse error output into plain-English guidance, and helps
//! to review configuration files that an upgrade left behind.

use vstd::prelude::*;
use vstd::utf8::encode_utf8;

use crate::number::{decimal, decimal_usize};
use crate::order::{
    by_rank, comes_first, in_order, lemma_in_order_contains, lemma_in_order_mapped,
    lemma_push_contains, lemma_text_le_total, lemma_text_le_trans, sort, text_le, Ranked,
};
use crate::text::{
    before_suffix, cat2, cat3, cat4, cat5, cat6, chars_of, cut, cut_at, has_text, holds, join,
    join_strings, lemma_texts_push, lines, lines_of, opt_piece, opt_str, opt_text, pieces,
    string_of, strip_end, texts, trim, trim_of,
};
use crate::ui::{
    bold, bold_text, cyan, cyan_text, dim_text, dimmed, green, green_text, header_line, header_text,
    line_views, no_lines, red, red_text, say, success_line, success_text, yellow, yellow_text, Line,
    LineView,
};

verus! {

// ---------------------------------------------------------------------------
// Edit distance
// ---------------------------------------------------------------------------

pub open spec fn least(a: nat, b: nat) -> nat {
    if a <= b {
        a
    } else {
        b
    }
}

/// The least number of edits between the first `i` bytes of `a` and the first
/// `j` of `b`, where an edit inserts, deletes or replaces a byte or exchanges
/// two neighbours, and no byte is edited twice.
pub open spec fn edits(a: Seq<u8>, b: Seq<u8>, i: nat, j: nat) -> nat
    decreases i + j,
{
    if i == 0 {
        j
    } else if j == 0 {
        i
    } else {
        let i1 = (i - 1) as nat;
        let j1 = (j - 1) as nat;
        let cost: nat = if a[i1 as int] == b[j1 as int] {
            0
        } else {
            1
        };
        let best = least(
            least(edits(a, b, i1, j) + 1, edits(a, b, i, j1) + 1),
            edits(a, b, i1, j1) + cost,
        );
        if i > 1 && j > 1 && a[i - 1] == b[j - 2] && a[i - 2] == b[j - 1] {
            least(best, edits(a, b, (i - 2) as nat, (j - 2) as nat) + 1)
        } else {
            best
        }
    }
}

/// The least number of edits between two texts, in bytes.
pub open spec fn distance(a: Seq<char>, b: Seq<char>) -> nat {
    let x = encode_utf8(a);
    let y = encode_utf8(b);
    edits(x, y, x.len(), y.len())
}

proof fn lemma_edits_bounds(a: Seq<u8>, b: Seq<u8>, i: nat, j: nat)
    ensures
        edits(a, b, i, j) <= if i >= j {
            i
        } else {
            j
        },
        edits(a, b, i, j) >= if i >= j {
            i - j
        } else {
            j - i
        },
    decreases i + j,
{
    if i > 0 && j > 0 {
        lemma_edits_bounds(a, b, (i - 1) as nat, j);
        lemma_edits_bounds(a, b, i, (j - 1) as nat);
        lemma_edits_bounds(a, b, (i - 1) as nat, (j - 1) as nat);
        if i > 1 && j > 1 {
            lemma_edits_bounds(a, b, (i - 2) as nat, (j - 2) as nat);
        }
    }
}

proof fn lemma_edits_symmetric(a: Seq<u8>, b: Seq<u8>, i: nat, j: nat)
    requires
        i <= a.len(),
        j <= b.len(),
    ensures
        edits(a, b, i, j) == edits(b, a, j, i),
    decreases i + j,
{
    if i > 0 && j > 0 {
        lemma_edits_symmetric(a, b, (i - 1) as nat, j);
        lemma_edits_symmetric(a, b, i, (j - 1) as nat);
        lemma_edits_symmetric(a, b, (i - 1) as nat, (j - 1) as nat);
        if i > 1 && j > 1 {
            lemma_edits_symmetric(a, b, (i - 2) as nat, (j - 2) as nat);
        }
    }
}

pub proof fn lemma_edits_zero(a: Seq<u8>, b: Seq<u8>, i: nat, j: nat)
    requires
        i <= a.len(),
        j <= b.len(),
    ensures
        edits(a, b, i, j) == 0 <==> a.take(i as int) == b.take(j as int),
    decreases i + j,
{
    if i == 0 || j == 0 {
        if i == 0 && j == 0 {
            assert(a.take(0) =~= b.take(0));
        } else {
            assert(a.take(i as int).len() != b.take(j as int).len());
        }
    } else {
        lemma_edits_zero(a, b, (i - 1) as nat, (j - 1) as nat);
        let x = a.take(i as int);
        let y = b.take(j as int);
        assert(x =~= a.take(i - 1).push(a[i - 1]));
        assert(y =~= b.take(j - 1).push(b[j - 1]));
        if x == y {
            assert(a.take(i - 1) =~= x.drop_last());
            assert(b.take(j - 1) =~= y.drop_last());
            assert(x.last() == a[i - 1] && y.last() == b[j - 1]);
        }
    }
}

/// The distance between two texts does not depend on which comes first.
pub proof fn distance_is_symmetric(a: Seq<char>, b: Seq<char>)
    ensures
        distance(a, b) == distance(b, a),
{
    let x = encode_utf8(a);
    let y = encode_utf8(b);
    lemma_edits_symmetric(x, y, x.len(), y.len());
}

/// The distance between two texts is none exactly where their bytes are the
/// same.
pub proof fn distance_is_zero_between_equals(a: Seq<char>, b: Seq<char>)
    ensures
        distance(a, b) == 0 <==> encode_utf8(a) == encode_utf8(b),
{
    let x = encode_utf8(a);
    let y = encode_utf8(b);
    lemma_edits_zero(x, y, x.len(), y.len());
    assert(x.take(x.len() as int) =~= x);
    assert(y.take(y.len() as int) =~= y);
}

/// The distance between two texts is at least the difference of their lengths
/// in bytes and at most the length of the longer one.
pub proof fn distance_is_bounded(a: Seq<char>, b: Seq<char>)
    ensures
        distance(a, b) <= if encode_utf8(a).len() >= encode_utf8(b).len() {
            encode_utf8(a).len()
        } else {
            encode_utf8(b).len()
        },
        distance(a, b) >= encode_utf8(a).len() - encode_utf8(b).len(),
        distance(a, b) >= encode_utf8(b).len() - encode_utf8(a).len(),
{
    let x = encode_utf8(a);
    let y = encode_utf8(b);
    lemma_edits_bounds(x, y, x.len(), y.len());
}

/// The cells of a row behind the first: number `j` stands at `j - 1`.
spec fn is_row(row: Seq<usize>, a: Seq<u8>, b: Seq<u8>, i: nat, n: nat) -> bool {
    &&& row.len() == n
    &&& forall|j: int| 0 <= j < n ==> #[trigger] row[j] == edits(a, b, i, (j + 1) as nat)
}

fn cell(row: &Vec<usize>, i: usize, j: usize, Ghost(a): Ghost<Seq<u8>>, Ghost(b): Ghost<Seq<u8>>)
    -> (r: usize)
    requires
        is_row(row@, a, b, i as nat, row@.len()),
        j <= row@.len(),
    ensures
        r == edits(a, b, i as nat, j as nat),
{
    if j == 0 {
        i
    } else {
        row[j - 1]
    }
}

fn smaller(a: usize, b: usize) -> (r: usize)
    ensures
        r == if a <= b {
            a
        } else {
            b
        },
{
    if a <= b {
        a
    } else {
        b
    }
}

fn one_more(n: usize) -> (r: usize)
    ensures
        r == if n == usize::MAX {
            n as int
        } else {
            n + 1
        },
{
    if n == usize::MAX {
        n
    } else {
        n + 1
    }
}

/// Row `i` of the table, from the two before it.
fn next_row(a: &[u8], b: &[u8], i: usize, before: &Vec<usize>, last: &Vec<usize>) -> (row: Vec<
    usize,
>)
    requires
        0 < i <= a@.len(),
        is_row(last@, a@, b@, (i - 1) as nat, b@.len()),
        i > 1 ==> is_row(before@, a@, b@, (i - 2) as nat, b@.len()),
    ensures
        is_row(row@, a@, b@, i as nat, b@.len()),
{
    let mut row: Vec<usize> = Vec::new();
    let mut j: usize = 0;
    while j < b.len()
        invariant
            j <= b@.len(),
            0 < i <= a@.len(),
            is_row(last@, a@, b@, (i - 1) as nat, b@.len()),
            i > 1 ==> is_row(before@, a@, b@, (i - 2) as nat, b@.len()),
            is_row(row@, a@, b@, i as nat, j as nat),
        decreases b@.len() - j,
    {
        // The cell for the first `j + 1` bytes of `b`.
        let up: usize = last[j];
        let left: usize = cell(&row, i, j, Ghost(a@), Ghost(b@));
        let slant: usize = cell(last, i - 1, j, Ghost(a@), Ghost(b@));
        let same = a[i - 1] == b[j];
        let slant = if same {
            slant
        } else {
            one_more(slant)
        };
        let mut best: usize = smaller(smaller(one_more(up), one_more(left)), slant);
        if i > 1 && j > 0 {
            if a[i - 1] == b[j - 1] && a[i - 2] == b[j] {
                let far: usize = cell(before, i - 2, j - 1, Ghost(a@), Ghost(b@));
                best = smaller(best, one_more(far));
            }
        }
        proof {
            lemma_edits_bounds(a@, b@, i as nat, (j + 1) as nat);
            assert((j + 1) as nat - 1 == j);
        }
        row.push(best);
        j += 1;
    }
    row
}

/// The least number of edits between two byte strings.
pub fn edit_distance(a: &[u8], b: &[u8]) -> (r: usize)
    ensures
        r == edits(a@, b@, a@.len(), b@.len()),
{
    let mut before: Vec<usize> = Vec::new();
    let mut last: Vec<usize> = Vec::new();
    let mut j: usize = 0;
    while j < b.len()
        invariant
            j <= b@.len(),
            is_row(last@, a@, b@, 0, j as nat),
        decreases b@.len() - j,
    {
        last.push(j + 1);
        j += 1;
    }
    let mut i: usize = 0;
    while i < a.len()
        invariant
            i <= a@.len(),
            is_row(last@, a@, b@, i as nat, b@.len()),
            i > 0 ==> is_row(before@, a@, b@, (i - 1) as nat, b@.len()),
        decreases a@.len() - i,
    {
        let row = next_row(a, b, i + 1, &before, &last);
        before = last;
        last = row;
        i += 1;
    }
    cell(&last, a.len(), b.len(), Ghost(a@), Ghost(b@))
}

/// Optimal string alignment distance: the exchange of two adjacent characters
/// counts as one edit.
pub fn damerau(a: &str, b: &str) -> (r: usize)
    ensures
        r == distance(a@, b@),
{
    edit_distance(a.as_bytes(), b.as_bytes())
}

// ---------------------------------------------------------------------------
// Suggestions
// ---------------------------------------------------------------------------

/// The difference of two numbers, whichever is larger.
pub open spec fn gap(a: nat, b: nat) -> nat {
    if a >= b {
        (a - b) as nat
    } else {
        (b - a) as nat
    }
}

/// The first byte of a text, if any.
pub open spec fn first_byte_of(s: Seq<char>) -> Option<u8> {
    if encode_utf8(s).len() > 0 {
        Some(encode_utf8(s)[0])
    } else {
        None
    }
}

/// The candidate is close enough to be what was meant.
pub open spec fn is_close(name: Seq<char>, cand: Seq<char>) -> bool {
    gap(encode_utf8(cand).len(), encode_utf8(name).len()) <= 2 && distance(name, cand) <= 2
}

/// The candidates that are close enough.
pub open spec fn close_names(name: Seq<char>, cands: Seq<Seq<char>>) -> Seq<Seq<char>>
    decreases cands.len(),
{
    if cands.len() == 0 {
        seq![]
    } else if is_close(name, cands.last()) {
        close_names(name, cands.drop_last()).push(cands.last())
    } else {
        close_names(name, cands.drop_last())
    }
}

/// How far a candidate is from the name: by edits, by the first letter, by
/// length.
pub open spec fn closeness(name: Seq<char>, cand: Seq<char>) -> (nat, bool, nat) {
    (
        distance(name, cand),
        first_byte_of(cand) != first_byte_of(name),
        gap(encode_utf8(cand).len(), encode_utf8(name).len()),
    )
}

/// The order of suggestions: the closest first; names as close in their order.
pub open spec fn by_closeness(name: Seq<char>) -> spec_fn(Seq<char>, Seq<char>) -> bool {
    |a: Seq<char>, b: Seq<char>|
        {
            let (d, f, g) = closeness(name, a);
            let (e, h, k) = closeness(name, b);
            if d != e {
                d < e
            } else if f != h {
                h
            } else if g != k {
                g < k
            } else {
                text_le(a, b)
            }
        }
}

/// The suggestions are the three closest candidates, or fewer where there are
/// not so many.
pub open spec fn suggests(found: Seq<Seq<char>>, name: Seq<char>, cands: Seq<Seq<char>>) -> bool {
    exists|order: Seq<Seq<char>>|
        #[trigger] in_order(order, close_names(name, cands), by_closeness(name)) && found == if order.len()
            > 3 {
            order.take(3)
        } else {
            order
        }
}

/// The candidates for what a misspelt package name was meant to be.
pub open spec fn candidates(pkgnames: Option<Seq<char>>) -> Seq<Seq<char>> {
    match pkgnames {
        Some(t) => lines(t),
        None => seq![],
    }
}

struct Scored {
    edits: usize,
    other_first: bool,
    gap: usize,
    name: String,
}

impl Ranked for Scored {
    closed spec fn rank_le(&self, other: &Self) -> bool {
        if self.edits != other.edits {
            self.edits < other.edits
        } else if self.other_first != other.other_first {
            other.other_first
        } else if self.gap != other.gap {
            self.gap < other.gap
        } else {
            text_le(self.name@, other.name@)
        }
    }

    proof fn rank_total(a: &Self, b: &Self) {
        lemma_text_le_total(a.name@, b.name@);
    }

    proof fn rank_trans(a: &Self, b: &Self, c: &Self) {
        if text_le(a.name@, b.name@) && text_le(b.name@, c.name@) {
            lemma_text_le_trans(a.name@, b.name@, c.name@);
        }
    }

    fn at_most(&self, other: &Self) -> (r: bool) {
        if self.edits != other.edits {
            self.edits < other.edits
        } else if self.other_first != other.other_first {
            other.other_first
        } else if self.gap != other.gap {
            self.gap < other.gap
        } else {
            comes_first(self.name.as_str(), other.name.as_str())
        }
    }
}

fn gap_of(a: usize, b: usize) -> (r: usize)
    ensures
        r == gap(a as nat, b as nat),
{
    if a >= b {
        a - b
    } else {
        b - a
    }
}

fn other_first_of(a: &[u8], b: &[u8]) -> (r: bool)
    ensures
        r == ((a@.len() > 0) != (b@.len() > 0) || (a@.len() > 0 && b@.len() > 0 && a@[0] != b@[0])),
{
    if a.len() == 0 || b.len() == 0 {
        (a.len() == 0) != (b.len() == 0)
    } else {
        a[0] != b[0]
    }
}

/// Package names within two edits of `name`, the best first and three at most,
/// from the lines of `apt-cache pkgnames` if it could be run.
pub fn did_you_mean(name: &str, pkgnames: Option<&str>) -> (r: Vec<String>)
    ensures
        suggests(texts(r@), name@, candidates(opt_str(pkgnames))),
{
    let text: &str = match pkgnames {
        Some(t) => t,
        None => "",
    };
    proof {
        reveal_strlit("");
        if pkgnames is None {
            assert(text@ =~= seq![]);
            assert(lines(text@) =~= seq![]);
        }
    }
    let chars = chars_of(text);
    let ls = lines_of(chars.as_slice());
    let ghost all = pieces(ls@);
    let mut scored: Vec<Scored> = Vec::new();
    let ghost mut close: Seq<Seq<char>> = seq![];
    let mut i: usize = 0;
    assert(all.take(0) =~= seq![]);
    while i < ls.len()
        invariant
            all == pieces(ls@),
            i <= ls@.len(),
            close == close_names(name@, all.take(i as int)),
            scored@.len() == close.len(),
            forall|k: int|
                0 <= k < close.len() ==> (#[trigger] scored@[k]).name@ == close[k] && closeness(
                    name@,
                    close[k],
                ) == (scored@[k].edits as nat, scored@[k].other_first, scored@[k].gap as nat),
        decreases ls@.len() - i,
    {
        assert(all.take(i + 1).drop_last() =~= all.take(i as int));
        assert(all.take(i + 1).last() == ls@[i as int]@);
        let cand = string_of(ls[i]);
        let (x, y) = (cand.as_str().as_bytes(), name.as_bytes());
        let gap: usize = gap_of(x.len(), y.len());
        if gap <= 2 {
            let edits: usize = damerau(name, cand.as_str());
            if edits <= 2 {
                let other_first = other_first_of(x, y);
                proof {
                    close = close.push(cand@);
                }
                scored.push(Scored { edits, other_first, gap, name: cand });
            }
        }
        i += 1;
    }
    assert(all.take(all.len() as int) =~= all);
    let ghost given = scored@;
    let order = sort(scored);
    let ghost f = |s: Scored| s.name@;
    let ghost ov = order@.map_values(f);
    proof {
        assert forall|a: int, b: int|
            #![trigger given[a], given[b]]
            0 <= a < given.len() && 0 <= b < given.len() implies by_rank::<Scored>()(
            given[a],
            given[b],
        ) == by_closeness(name@)(f(given[a]), f(given[b])) by {
            assert(given[a].name@ == close[a] && given[b].name@ == close[b]);
        }
        lemma_in_order_mapped(order@, given, by_rank::<Scored>(), f, by_closeness(name@));
        assert(given.map_values(f) =~= close);
    }
    let mut out: Vec<String> = Vec::new();
    let mut k: usize = 0;
    assert(texts(out@) =~= ov.take(0));
    while k < order.len() && k < 3
        invariant
            ov == order@.map_values(f),
            f == (|s: Scored| s.name@),
            k <= order@.len(),
            k <= 3,
            texts(out@) == ov.take(k as int),
        decreases order@.len() - k,
    {
        broadcast use lemma_texts_push;

        out.push(order[k].name.clone());
        assert(texts(out@) =~= ov.take(k + 1));
        k += 1;
    }
    assert(ov.take(ov.len() as int) =~= ov);
    assert(in_order(ov, close_names(name@, all), by_closeness(name@)));
    out
}

pub proof fn lemma_close_names(name: Seq<char>, cands: Seq<Seq<char>>, c: Seq<char>)
    ensures
        close_names(name, cands).contains(c) <==> cands.contains(c) && is_close(name, c),
    decreases cands.len(),
{
    if cands.len() > 0 {
        let before = cands.drop_last();
        lemma_close_names(name, before, c);
        assert(cands =~= before.push(cands.last()));
        lemma_push_contains(before, cands.last(), c);
        lemma_push_contains(close_names(name, before), cands.last(), c);
    }
}

/// At most three packages are suggested; each of them exists and is within two
/// edits of what was typed. Where any package is as close, some are suggested.
pub proof fn suggestions_are_close(
    found: Seq<Seq<char>>,
    name: Seq<char>,
    cands: Seq<Seq<char>>,
    c: Seq<char>,
)
    requires
        suggests(found, name, cands),
    ensures
        found.len() <= 3,
        found.contains(c) ==> cands.contains(c) && distance(name, c) <= 2,
        cands.contains(c) && distance(name, c) <= 2 ==> found.len() > 0,
{
    let close = close_names(name, cands);
    let order = choose|order: Seq<Seq<char>>|
        #[trigger] in_order(order, close, by_closeness(name)) && found == if order.len() > 3 {
            order.take(3)
        } else {
            order
        };
    lemma_close_names(name, cands, c);
    lemma_in_order_contains(order, close, by_closeness(name), c);
    if found.contains(c) {
        let k = choose|k: int| 0 <= k < found.len() && found[k] == c;
        assert(order[k] == c);
    }
    if cands.contains(c) && distance(name, c) <= 2 {
        distance_is_bounded(name, c);
        assert(order.contains(c));
    }
}

// ---------------------------------------------------------------------------
// Hints
// ---------------------------------------------------------------------------

/// What stands in a text behind the first `start`, up to the next `end` or to
/// the end of the text.
pub open spec fn between(text: Seq<char>, start: Seq<char>, end: Seq<char>) -> Option<Seq<char>> {
    match cut(text, start) {
        None => None,
        Some((_, after)) => if end.len() == 0 {
            Some(after)
        } else {
            match cut(after, end) {
                Some((inside, _)) => Some(inside),
                None => Some(after),
            }
        },
    }
}

/// What stands in a text behind the first `start`, up to the next `end` or to
/// the end of the text.
pub fn capture_between<'a>(text: &'a [char], start: &str, end: &str) -> (r: Option<&'a [char]>)
    ensures
        opt_piece(r) == between(text@, start@, end@),
{
    match cut_at(text, start) {
        None => None,
        Some((_, after)) => {
            if chars_of(end).len() == 0 {
                Some(after)
            } else {
                match cut_at(after, end) {
                    Some((inside, _)) => Some(inside),
                    None => Some(after),
                }
            }
        },
    }
}

/// The package name that apt could not find.
pub open spec fn unknown_package(raw: Seq<char>) -> Option<Seq<char>> {
    match between(raw, "Unable to locate package "@, "\n"@) {
        Some(p) => Some(trim(p)),
        None => None,
    }
}

/// The hint for a package that does not exist.
pub open spec fn unknown_hint(pkg: Seq<char>, suggestions: Seq<Seq<char>>) -> Seq<char> {
    if suggestions.len() == 0 {
        "There is no package called '"@ + pkg + "'. Try `wrapt search "@ + pkg
            + "`, or run `wrapt update` if your package lists are stale."@
    } else {
        "No package '"@ + pkg + "'. Did you mean: "@ + join(suggestions, ", "@) + "?"@
    }
}

/// The hint for packages that conflict.
pub open spec fn conflict_hint(target: Seq<char>) -> Seq<char> {
    "apt can't find a set of package versions that satisfies this request — installing/removing "@
        + target
        + " would conflict with something already installed. Common fixes:\n    • run `wrapt update` first, in case your lists are out of date\n    • it may be an essential package other packages depend on — check `wrapt why "@
        + target + "`\n    • try `wrapt upgrade` to move conflicting packages forward together"@
}

/// The hint for a dependency that cannot be installed.
pub open spec fn dependency_hint(dep: Seq<char>) -> Seq<char> {
    "A required dependency ('"@ + dep
        + "') can't be installed. It might be missing from your enabled repositories, or held back. Try `wrapt update`, then `wrapt show "@
        + dep + "`."@
}

/// The hint for a package that no repository offers.
pub open spec fn candidate_hint() -> Seq<char> {
    "The package exists but no installable version is available from your repositories (it may have been removed, or needs a repo/PPA you haven't enabled)."@
}

/// What the user asked for, in a sentence.
pub open spec fn target_of(named: Seq<Seq<char>>) -> Seq<char> {
    if named.len() > 0 {
        named[0]
    } else {
        "that package"@
    }
}

/// The hint for a failure that is known, given the suggestions for an unknown
/// package.
pub open spec fn hint_text(
    raw: Seq<char>,
    named: Seq<Seq<char>>,
    suggestions: Seq<Seq<char>>,
) -> Option<Seq<char>> {
    if unknown_package(raw) is Some {
        Some(unknown_hint(unknown_package(raw)->0, suggestions))
    } else if has_text(raw, "conflicting assignments"@) || has_text(raw, "held broken packages"@) {
        Some(conflict_hint(target_of(named)))
    } else if between(raw, "Depends: "@, " but it is not"@) is Some {
        Some(dependency_hint(trim(between(raw, "Depends: "@, " but it is not"@)->0)))
    } else if has_text(raw, "has no installation candidate"@) {
        Some(candidate_hint())
    } else {
        None
    }
}

/// The package name that apt could not find.
pub fn unknown_in(raw: &str) -> (r: Option<String>)
    ensures
        opt_text(r) == unknown_package(raw@),
{
    let chars = chars_of(raw);
    match capture_between(chars.as_slice(), "Unable to locate package ", "\n") {
        Some(p) => Some(string_of(trim_of(p))),
        None => None,
    }
}

/// The hint for a failure that is known, given the suggestions for an unknown
/// package.
pub fn hint_with(raw: &str, named: &Vec<String>, suggestions: &Vec<String>) -> (r: Option<String>)
    ensures
        opt_text(r) == hint_text(raw@, texts(named@), texts(suggestions@)),
{
    if let Some(pkg) = unknown_in(raw) {
        assert(texts(suggestions@).len() == suggestions@.len());
        return Some(
            if suggestions.len() == 0 {
                cat5(
                    "There is no package called '",
                    pkg.as_str(),
                    "'. Try `wrapt search ",
                    pkg.as_str(),
                    "`, or run `wrapt update` if your package lists are stale.",
                )
            } else {
                cat5(
                    "No package '",
                    pkg.as_str(),
                    "'. Did you mean: ",
                    join_strings(suggestions, ", ").as_str(),
                    "?",
                )
            },
        );
    }
    let chars = chars_of(raw);
    let text = chars.as_slice();
    if holds(text, "conflicting assignments") || holds(text, "held broken packages") {
        let target = if named.len() > 0 {
            assert(texts(named@)[0] == named@[0]@);
            named[0].clone()
        } else {
            "that package".to_owned()
        };
        return Some(
            cat5(
                "apt can't find a set of package versions that satisfies this request — installing/removing ",
                target.as_str(),
                " would conflict with something already installed. Common fixes:\n    • run `wrapt update` first, in case your lists are out of date\n    • it may be an essential package other packages depend on — check `wrapt why ",
                target.as_str(),
                "`\n    • try `wrapt upgrade` to move conflicting packages forward together",
            ),
        );
    }
    if let Some(dep) = capture_between(text, "Depends: ", " but it is not") {
        let dep = string_of(trim_of(dep));
        return Some(
            cat5(
                "A required dependency ('",
                dep.as_str(),
                "') can't be installed. It might be missing from your enabled repositories, or held back. Try `wrapt update`, then `wrapt show ",
                dep.as_str(),
                "`.",
            ),
        );
    }
    if holds(text, "has no installation candidate") {
        return Some(
            "The package exists but no installable version is available from your repositories (it may have been removed, or needs a repo/PPA you haven't enabled).".to_owned(),
        );
    }
    None
}

/// The text is the hint for a failure, with the closest of the candidates where
/// a package is unknown.
pub open spec fn hints(
    hint: Option<Seq<char>>,
    raw: Seq<char>,
    named: Seq<Seq<char>>,
    pkgnames: Option<Seq<char>>,
) -> bool {
    exists|s: Seq<Seq<char>>|
        hint == #[trigger] hint_text(raw, named, s) && (unknown_package(raw) matches Some(pkg)
            ==> suggests(s, pkg, candidates(pkgnames)))
}

/// A hint for a known apt failure, or `None`. `pkgnames` is the text of
/// `apt-cache pkgnames`, if it could be run.
pub fn hint(raw: &str, named: &Vec<String>, pkgnames: Option<&str>) -> (r: Option<String>)
    ensures
        hints(opt_text(r), raw@, texts(named@), opt_str(pkgnames)),
{
    match unknown_in(raw) {
        Some(pkg) => {
            let suggestions = did_you_mean(pkg.as_str(), pkgnames);
            hint_with(raw, named, &suggestions)
        },
        None => {
            let none: Vec<String> = Vec::new();
            hint_with(raw, named, &none)
        },
    }
}

/// The error with a hint below it, where there is one.
pub open spec fn explained(raw: Seq<char>, hint: Option<Seq<char>>) -> Seq<char> {
    match hint {
        Some(h) => trim(raw) + "\n\n"@ + h,
        None => raw,
    }
}

/// The error message of apt with a friendlier explanation where it is a known
/// one.
pub fn explain(raw: &str, named: &Vec<String>, pkgnames: Option<&str>) -> (r: String)
    ensures
        exists|h: Option<Seq<char>>| #[trigger]
            hints(h, raw@, texts(named@), opt_str(pkgnames)) && r@ == explained(raw@, h),
{
    match hint(raw, named, pkgnames) {
        Some(h) => {
            assert(hints(Some(h@), raw@, texts(named@), opt_str(pkgnames)));
            let chars = chars_of(raw);
            cat3(string_of(trim_of(chars.as_slice())).as_str(), "\n\n", h.as_str())
        },
        None => {
            assert(hints(None, raw@, texts(named@), opt_str(pkgnames)));
            raw.to_owned()
        },
    }
}

// ---------------------------------------------------------------------------
// Configuration files to review
// ---------------------------------------------------------------------------

/// The configuration file that a maintainer's version beside it would replace.
pub open spec fn dist_original(name: Seq<char>) -> Option<Seq<char>> {
    if before_suffix(name, ".dpkg-dist"@) is Some {
        before_suffix(name, ".dpkg-dist"@)
    } else if before_suffix(name, ".dpkg-new"@) is Some {
        before_suffix(name, ".dpkg-new"@)
    } else {
        before_suffix(name, ".ucf-dist"@)
    }
}

/// The configuration file that a maintainer's version beside it would replace.
pub fn original_of(name: &str) -> (r: Option<String>)
    ensures
        opt_text(r) == dist_original(name@),
{
    let chars = chars_of(name);
    let s = chars.as_slice();
    if let Some(base) = strip_end(s, ".dpkg-dist") {
        Some(string_of(base))
    } else if let Some(base) = strip_end(s, ".dpkg-new") {
        Some(string_of(base))
    } else if let Some(base) = strip_end(s, ".ucf-dist") {
        Some(string_of(base))
    } else {
        None
    }
}

/// A line of a diff in the colour of its kind.
pub open spec fn diff_text(color: bool, line: Seq<char>) -> Seq<char> {
    if line.len() > 0 && line[0] == '+' {
        green_text(color, line)
    } else if line.len() > 0 && line[0] == '-' {
        red_text(color, line)
    } else if line.len() > 0 && line[0] == '@' {
        cyan_text(color, line)
    } else {
        dim_text(color, line)
    }
}

fn diff_line(color: bool, line: &[char]) -> (r: String)
    ensures
        r@ == diff_text(color, line@),
{
    let text = string_of(line);
    if line.len() > 0 && line[0] == '+' {
        green(color, text.as_str())
    } else if line.len() > 0 && line[0] == '-' {
        red(color, text.as_str())
    } else if line.len() > 0 && line[0] == '@' {
        cyan(color, text.as_str())
    } else {
        dimmed(color, text.as_str())
    }
}

/// The lines of a diff, below the given ones.
pub open spec fn diff_lines(above: Seq<LineView>, color: bool, ls: Seq<Seq<char>>) -> Seq<LineView>
    decreases ls.len(),
{
    if ls.len() == 0 {
        above
    } else {
        diff_lines(above, color, ls.drop_last()).push(
            LineView::Out("     "@ + diff_text(color, ls.last())),
        )
    }
}

/// The first twenty lines of a diff, if there is one.
pub open spec fn diff_head(diff: Option<Seq<char>>) -> Seq<Seq<char>> {
    match diff {
        Some(t) => if lines(t).len() > 20 {
            lines(t).take(20)
        } else {
            lines(t)
        },
        None => seq![],
    }
}

/// What is said of a configuration file to review.
pub open spec fn review(
    color: bool,
    new_file: Seq<char>,
    orig: Seq<char>,
    diff: Option<Seq<char>>,
) -> Seq<LineView> {
    let none: Seq<LineView> = seq![];
    let title = none.push(LineView::Out(""@)).push(
        LineView::Out(
            "   "@ + bold_text(color, orig) + " "@ + dim_text(color, "vs"@) + " "@ + yellow_text(
                color,
                new_file,
            ),
        ),
    );
    diff_lines(title, color, diff_head(diff)).push(
        LineView::Out(
            "   "@ + cyan_text(color, "→"@) + " keep yours: "@ + dim_text(color, "rm "@ + new_file)
                + "   use theirs: "@ + dim_text(color, "mv "@ + new_file + " "@ + orig),
        ),
    )
}

/// What is said of a configuration file to review: `diff` is the output of
/// `diff -u`, if it could be run.
pub fn review_lines(color: bool, new_file: &str, orig: &str, diff: Option<&str>) -> (out: Vec<Line>)
    ensures
        line_views(out@) == review(color, new_file@, orig@, opt_str(diff)),
{
    let mut out = no_lines();
    say(&mut out, "".to_owned());
    say(
        &mut out,
        cat6(
            "   ",
            bold(color, orig).as_str(),
            " ",
            dimmed(color, "vs").as_str(),
            " ",
            yellow(color, new_file).as_str(),
        ),
    );
    let ghost title = line_views(out@);
    if let Some(t) = diff {
        let chars = chars_of(t);
        let ls = lines_of(chars.as_slice());
        let ghost all = pieces(ls@);
        let mut i: usize = 0;
        assert(all.take(0) =~= seq![]);
        while i < ls.len() && i < 20
            invariant
                all == pieces(ls@),
                i <= ls@.len(),
                i <= 20,
                line_views(out@) == diff_lines(title, color, all.take(i as int)),
            decreases ls@.len() - i,
        {
            assert(all.take(i + 1).drop_last() =~= all.take(i as int));
            assert(all.take(i + 1).last() == ls@[i as int]@);
            say(&mut out, cat2("     ", diff_line(color, ls[i]).as_str()));
            i += 1;
        }
        assert(all.take(all.len() as int) =~= all);
    }
    say(
        &mut out,
        cat6(
            "   ",
            cyan(color, "→").as_str(),
            " keep yours: ",
            dimmed(color, cat2("rm ", new_file).as_str()).as_str(),
            "   use theirs: ",
            dimmed(color, cat4("mv ", new_file, " ", orig).as_str()).as_str(),
        ),
    );
    out
}

/// The line over the files to review, or the good news that there are none.
pub fn config_diff(color: bool, count: usize) -> (r: Line)
    ensures
        r@ == if count == 0 {
            LineView::Out(success_text(color, "No pending configuration files to review."@))
        } else {
            LineView::Out(
                header_text(color, decimal(count as nat) + " configuration file(s) to review"@),
            )
        },
{
    if count == 0 {
        Line::Out(success_line(color, "No pending configuration files to review."))
    } else {
        let title = cat2(decimal_usize(count).as_str(), " configuration file(s) to review");
        Line::Out(header_line(color, title.as_str()))
    }
}

} // verus!
