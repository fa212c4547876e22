//! Laws of the help with mistakes: how far apart names are, what is suggested,
//! and which hint a failure gets.

use vstd::prelude::*;
use vstd::utf8::{encode_utf8, is_ascii_chars, is_ascii_chars_encode_utf8};

use crate::laws::text::{a_text_is_held_where_it_is_put, trimming_gives_the_text_back};
use crate::laws::version::ascii_bytes;
use crate::order::{in_order, lemma_in_order_contains, lemma_in_order_len, puts_in_order, text_le};
use crate::resolve::{
    between, by_closeness, candidate_hint, close_names, closeness, conflict_hint, dependency_hint,
    diff_head, diff_text, dist_original, distance, distance_is_bounded, edits, explained, gap,
    hint_text, is_close, least, lemma_close_names, lemma_edits_zero, review, suggests, unknown_hint,
    unknown_package,
};
use crate::text::{
    before_suffix, cut, first_occurs_at, has_prefix, has_suffix, has_text, is_space, join,
    lemma_cut, lines, occurs_at, trim,
};
use crate::ui::LineView;

verus! {

// ---------------------------------------------------------------------------
// Distances
// ---------------------------------------------------------------------------

proof fn lemma_same_end(u: Seq<u8>, v: Seq<u8>, s: Seq<u8>, k: nat)
    requires
        k <= s.len(),
    ensures
        edits(u + s, v + s, u.len() + k, v.len() + k) <= edits(u + s, v + s, u.len(), v.len()),
    decreases k,
{
    if k > 0 {
        lemma_same_end(u, v, s, (k - 1) as nat);
        let (a, b) = (u + s, v + s);
        let (i, j) = (u.len() + k, v.len() + k);
        assert(a[i - 1] == s[k - 1]);
        assert(b[j - 1] == s[k - 1]);
    }
}

proof fn lemma_within(a: Seq<u8>, b: Seq<u8>, c: Seq<u8>, d: Seq<u8>, i: nat, j: nat)
    requires
        i <= a.len(),
        i <= c.len(),
        j <= b.len(),
        j <= d.len(),
        forall|k: int| 0 <= k < i ==> #[trigger] a[k] == c[k],
        forall|k: int| 0 <= k < j ==> #[trigger] b[k] == d[k],
    ensures
        edits(a, b, i, j) == edits(c, d, i, j),
    decreases i + j,
{
    if i > 0 && j > 0 {
        let (i1, j1) = ((i - 1) as nat, (j - 1) as nat);
        lemma_within(a, b, c, d, i1, j);
        lemma_within(a, b, c, d, i, j1);
        lemma_within(a, b, c, d, i1, j1);
        assert(a[i1 as int] == c[i1 as int]);
        assert(b[j1 as int] == d[j1 as int]);
        if i > 1 && j > 1 {
            lemma_within(a, b, c, d, (i - 2) as nat, (j - 2) as nat);
            assert(a[i - 2] == c[i - 2]);
            assert(b[j - 2] == d[j - 2]);
        }
    }
}

proof fn lemma_one_edit(u: Seq<u8>, v: Seq<u8>, s: Seq<u8>)
    requires
        u != v,
        edits(u, v, u.len(), v.len()) <= 1,
    ensures
        edits(u + s, v + s, (u + s).len(), (v + s).len()) == 1,
{
    let (a, b) = (u + s, v + s);
    lemma_same_end(u, v, s, s.len());
    assert forall|k: int| 0 <= k < u.len() implies #[trigger] u[k] == a[k] by {
    }
    assert forall|k: int| 0 <= k < v.len() implies #[trigger] v[k] == b[k] by {
    }
    lemma_within(u, v, a, b, u.len(), v.len());
    lemma_edits_zero(a, b, a.len(), b.len());
    if edits(a, b, a.len(), b.len()) == 0 {
        assert(a.take(a.len() as int) =~= a);
        assert(b.take(b.len() as int) =~= b);
        assert(a == b);
        assert(u =~= v) by {
            assert(u.len() == v.len());
            assert(a.take(u.len() as int) =~= u);
            assert(b.take(v.len() as int) =~= v);
        }
    }
}

/// One letter more, one letter less, one letter for another, or two neighbours
/// the other way round: each is one mistake, wherever it stands.
pub proof fn one_mistake_is_a_distance_of_one(p: Seq<u8>, x: u8, y: u8, s: Seq<u8>)
    requires
        x != y,
    ensures
        edits(p + seq![x] + s, p + s, (p + seq![x] + s).len(), (p + s).len()) == 1,
        edits(p + s, p + seq![x] + s, (p + s).len(), (p + seq![x] + s).len()) == 1,
        edits(
            p + seq![x] + s,
            p + seq![y] + s,
            (p + seq![x] + s).len(),
            (p + seq![y] + s).len(),
        ) == 1,
        edits(
            p + seq![x, y] + s,
            p + seq![y, x] + s,
            (p + seq![x, y] + s).len(),
            (p + seq![y, x] + s).len(),
        ) == 1,
{
    let (a, b) = (p + seq![x], p + seq![y]);
    let (c, d) = (p + seq![x, y], p + seq![y, x]);
    lemma_edits_zero(p, p, p.len(), p.len());
    lemma_within(p, p, a, p, p.len(), p.len());
    lemma_within(p, p, p, a, p.len(), p.len());
    lemma_within(p, p, a, b, p.len(), p.len());
    lemma_within(p, p, c, d, p.len(), p.len());
    assert(a != p && a != b && c != d) by {
        assert(a.len() == p.len() + 1);
        assert(a.last() == x && b.last() == y);
        assert(c.last() == y && d.last() == x);
    }
    assert(edits(a, p, a.len(), p.len()) <= 1);
    assert(edits(p, a, p.len(), a.len()) <= 1);
    assert(edits(a, b, a.len(), b.len()) <= 1);
    assert(edits(c, d, c.len(), d.len()) <= 1) by {
        let n = p.len() + 2;
        assert(c[n - 1] == y && c[n - 2] == x && d[n - 1] == x && d[n - 2] == y);
        assert((n - 2) as nat == p.len());
    }
    lemma_one_edit(a, p, s);
    lemma_one_edit(p, a, s);
    lemma_one_edit(a, b, s);
    lemma_one_edit(c, d, s);
}

/// The distance of names is counted over their bytes.
pub proof fn names_are_compared_by_their_bytes(a: Seq<char>, b: Seq<char>)
    requires
        is_ascii_chars(a),
        is_ascii_chars(b),
    ensures
        distance(a, b) == edits(ascii_bytes(a), ascii_bytes(b), a.len(), b.len()),
{
    is_ascii_chars_encode_utf8(a);
    is_ascii_chars_encode_utf8(b);
    assert(encode_utf8(a) =~= ascii_bytes(a));
    assert(encode_utf8(b) =~= ascii_bytes(b));
}

// ---------------------------------------------------------------------------
// Suggestions
// ---------------------------------------------------------------------------

/// With fewer than three suggestions every name within two mistakes is among
/// them; with three, whatever is left out is no closer than what is shown.
pub proof fn the_closest_names_are_suggested(
    found: Seq<Seq<char>>,
    name: Seq<char>,
    cands: Seq<Seq<char>>,
    shown: int,
    c: Seq<char>,
)
    requires
        suggests(found, name, cands),
        cands.contains(c),
        distance(name, c) <= 2,
        !found.contains(c),
    ensures
        found.len() == 3,
        0 <= shown < 3 ==> distance(name, found[shown]) <= distance(name, c),
{
    let close = close_names(name, cands);
    let order = choose|order: Seq<Seq<char>>|
        #[trigger] in_order(order, close, by_closeness(name)) && found == if order.len() > 3 {
            order.take(3)
        } else {
            order
        };
    distance_is_bounded(name, c);
    lemma_close_names(name, cands, c);
    lemma_in_order_contains(order, close, by_closeness(name), c);
    let p = choose|p: Seq<int>| #[trigger] puts_in_order(p, order, close, by_closeness(name));
    let k = choose|k: int| 0 <= k < order.len() && order[k] == c;
    if order.len() <= 3 || k < 3 {
        assert(found[k] == c);
    }
    if 0 <= shown < 3 {
        assert(found[shown] == order[shown]);
        assert(by_closeness(name)(order[shown], order[k]));
    }
}

/// The suggestions go from the closest on.
pub proof fn the_closest_name_is_suggested_first(
    found: Seq<Seq<char>>,
    name: Seq<char>,
    cands: Seq<Seq<char>>,
    i: int,
    j: int,
)
    requires
        suggests(found, name, cands),
        0 <= i < j < found.len(),
    ensures
        distance(name, found[i]) <= distance(name, found[j]),
{
    let close = close_names(name, cands);
    let order = choose|order: Seq<Seq<char>>|
        #[trigger] in_order(order, close, by_closeness(name)) && found == if order.len() > 3 {
            order.take(3)
        } else {
            order
        };
    let p = choose|p: Seq<int>| #[trigger] puts_in_order(p, order, close, by_closeness(name));
    assert(by_closeness(name)(order[i], order[j]));
}

/// Among names equally far off, one with the same first letter comes first, then
/// one nearer in length, then the earlier in the alphabet.
pub proof fn equally_close_names_go_by_their_looks(name: Seq<char>, a: Seq<char>, b: Seq<char>)
    requires
        distance(name, a) == distance(name, b),
        name.len() > 0,
        is_ascii_chars(name),
        is_ascii_chars(a),
        is_ascii_chars(b),
    ensures
        a.len() > 0 && a[0] == name[0] && (b.len() == 0 || b[0] != name[0]) ==> by_closeness(name)(
            a,
            b,
        ) && !by_closeness(name)(b, a),
        a.len() > 0 && b.len() > 0 && a[0] == name[0] && b[0] == name[0] && gap(
            a.len(),
            name.len(),
        ) < gap(b.len(), name.len()) ==> by_closeness(name)(a, b) && !by_closeness(name)(b, a),
        a.len() > 0 && b.len() > 0 && a[0] == name[0] && b[0] == name[0] && gap(
            a.len(),
            name.len(),
        ) == gap(b.len(), name.len()) ==> by_closeness(name)(a, b) == text_le(a, b),
{
    is_ascii_chars_encode_utf8(name);
    is_ascii_chars_encode_utf8(a);
    is_ascii_chars_encode_utf8(b);
    assert(encode_utf8(name)[0] == name[0] as u8);
    if a.len() > 0 {
        assert(encode_utf8(a)[0] == a[0] as u8);
    }
    if b.len() > 0 {
        assert(encode_utf8(b)[0] == b[0] as u8);
        assert(b[0] as u32 <= 127 && name[0] as u32 <= 127);
    }
}

// ---------------------------------------------------------------------------
// Hints
// ---------------------------------------------------------------------------

/// The unknown package is what stands behind apt's first complaint about one, up
/// to the end of that line, without the blanks around it.
pub proof fn the_unknown_package_is_read(a: Seq<char>, name: Seq<char>, b: Seq<char>)
    requires
        forall|j: int|
            0 <= j < a.len() ==> !occurs_at(
                a + "Unable to locate package "@ + (name + seq!['\n'] + b),
                "Unable to locate package "@,
                j,
            ),
        !name.contains('\n'),
        name.len() > 0,
        !is_space(name[0]),
        !is_space(name.last()),
    ensures
        unknown_package(a + "Unable to locate package "@ + (name + seq!['\n'] + b)) == Some(name),
{
    let p = "Unable to locate package "@;
    let rest = name + seq!['\n'] + b;
    let raw = a + p + rest;
    assert(raw.subrange(a.len() as int, a.len() as int + p.len()) =~= p);
    assert(first_occurs_at(raw, p, a.len() as int));
    lemma_cut(raw, p, a.len() as int);
    assert(raw.skip(a.len() as int + p.len()) =~= rest);
    reveal_strlit("\n");
    assert("\n"@ =~= seq!['\n']);
    crate::laws::text::a_cut_gives_the_parts_back(name, '\n', b);
    let e = Seq::<char>::empty();
    trimming_gives_the_text_back(e, name, e);
    assert(e + name + e =~= name);
}

/// A failure gets a hint exactly where apt's words show one of the known causes.
pub proof fn known_causes_get_a_hint(
    raw: Seq<char>,
    named: Seq<Seq<char>>,
    suggestions: Seq<Seq<char>>,
)
    ensures
        hint_text(raw, named, suggestions) is Some <==> (has_text(raw, "Unable to locate package "@)
            || has_text(raw, "conflicting assignments"@) || has_text(raw, "held broken packages"@)
            || has_text(raw, "Depends: "@) || has_text(raw, "has no installation candidate"@)),
{
    crate::laws::text::a_cut_is_made_at_the_first_place(raw, "Unable to locate package "@);
    crate::laws::text::a_cut_is_made_at_the_first_place(raw, "Depends: "@);
    lemma_cut_held(raw, "Unable to locate package "@);
    lemma_cut_held(raw, "Depends: "@);
}

proof fn lemma_cut_held(s: Seq<char>, p: Seq<char>)
    ensures
        cut(s, p) is Some <==> has_text(s, p),
{
    crate::laws::text::a_cut_is_made_at_the_first_place(s, p);
    if let Some((a, b)) = cut(s, p) {
        a_text_is_held_where_it_is_put(a, p, b);
    }
}

/// The hint for an unknown package names it, and every suggestion in its order.
pub proof fn the_hint_names_the_suggestions(pkg: Seq<char>, suggestions: Seq<Seq<char>>)
    ensures
        has_text(unknown_hint(pkg, suggestions), pkg),
        suggestions.len() > 0 ==> has_text(
            unknown_hint(pkg, suggestions),
            join(suggestions, ", "@),
        ),
{
    if suggestions.len() == 0 {
        let (a, b) = (
            "There is no package called '"@,
            "'. Try `wrapt search "@ + pkg
                + "`, or run `wrapt update` if your package lists are stale."@,
        );
        a_text_is_held_where_it_is_put(a, pkg, b);
        assert(unknown_hint(pkg, suggestions) =~= a + pkg + b);
    } else {
        let s = join(suggestions, ", "@);
        let a = "No package '"@;
        let b = "'. Did you mean: "@ + s + "?"@;
        a_text_is_held_where_it_is_put(a, pkg, b);
        assert(unknown_hint(pkg, suggestions) =~= a + pkg + b);
        let c = a + pkg + "'. Did you mean: "@;
        a_text_is_held_where_it_is_put(c, s, "?"@);
        assert(unknown_hint(pkg, suggestions) =~= c + s + "?"@);
    }
}

/// An unknown package is hinted at before anything else; a conflict before a
/// missing dependency, and that before a missing candidate.
pub proof fn the_first_cause_is_hinted_at(
    raw: Seq<char>,
    named: Seq<Seq<char>>,
    suggestions: Seq<Seq<char>>,
)
    ensures
        has_text(raw, "Unable to locate package "@) ==> hint_text(raw, named, suggestions) == Some(
            unknown_hint(unknown_package(raw)->0, suggestions),
        ),
        !has_text(raw, "Unable to locate package "@) && (has_text(raw, "conflicting assignments"@)
            || has_text(raw, "held broken packages"@)) && named.len() > 0 ==> hint_text(
            raw,
            named,
            suggestions,
        ) == Some(conflict_hint(named[0])),
        !has_text(raw, "Unable to locate package "@) && !has_text(raw, "conflicting assignments"@)
            && !has_text(raw, "held broken packages"@) && !has_text(raw, "Depends: "@) && has_text(
            raw,
            "has no installation candidate"@,
        ) ==> hint_text(raw, named, suggestions) == Some(candidate_hint()),
{
    lemma_cut_held(raw, "Unable to locate package "@);
    lemma_cut_held(raw, "Depends: "@);
}

/// The missing dependency is what stands between `Depends: ` and ` but it is not`.
pub proof fn the_missing_dependency_is_read(a: Seq<char>, dep: Seq<char>, b: Seq<char>)
    requires
        forall|j: int|
            0 <= j < a.len() ==> !occurs_at(
                a + "Depends: "@ + (dep + " but it is not"@ + b),
                "Depends: "@,
                j,
            ),
        forall|j: int|
            0 <= j < dep.len() ==> !occurs_at(dep + " but it is not"@ + b, " but it is not"@, j),
    ensures
        between(a + "Depends: "@ + (dep + " but it is not"@ + b), "Depends: "@, " but it is not"@)
            == Some(dep),
{
    let (p, q) = ("Depends: "@, " but it is not"@);
    let rest = dep + q + b;
    let raw = a + p + rest;
    assert(raw.subrange(a.len() as int, a.len() as int + p.len()) =~= p);
    assert(first_occurs_at(raw, p, a.len() as int));
    lemma_cut(raw, p, a.len() as int);
    assert(raw.skip(a.len() as int + p.len()) =~= rest);
    assert(rest.subrange(dep.len() as int, dep.len() as int + q.len()) =~= q);
    assert(first_occurs_at(rest, q, dep.len() as int));
    lemma_cut(rest, q, dep.len() as int);
    assert(rest.take(dep.len() as int) =~= dep);
    reveal_strlit(" but it is not");
}

/// An explained failure still says what apt said, and then the hint.
pub proof fn an_explained_failure_keeps_apts_words(raw: Seq<char>, hint: Seq<char>)
    ensures
        has_prefix(explained(raw, Some(hint)), trim(raw)),
        has_suffix(explained(raw, Some(hint)), hint),
        explained(raw, None) == raw,
{
    let t = trim(raw);
    a_text_is_held_where_it_is_put(seq![], t, "\n\n"@ + hint);
    assert(t + "\n\n"@ + hint =~= t + ("\n\n"@ + hint));
    a_text_is_held_where_it_is_put(t + "\n\n"@, hint, seq![]);
}

// ---------------------------------------------------------------------------
// Configuration files left behind
// ---------------------------------------------------------------------------

/// The file beside which dpkg or ucf left a new version is that name without the
/// suffix; any other file is none of them.
pub proof fn a_left_file_names_its_original(name: Seq<char>, other: Seq<char>)
    requires
        !has_suffix(other, ".dpkg-dist"@),
        !has_suffix(other, ".dpkg-new"@),
        !has_suffix(other, ".ucf-dist"@),
    ensures
        dist_original(name + ".dpkg-dist"@) == Some(name),
        dist_original(name + ".dpkg-new"@) == Some(name),
        dist_original(name + ".ucf-dist"@) == Some(name),
        dist_original(other) is None,
{
    a_text_is_held_where_it_is_put(name, ".dpkg-dist"@, seq![]);
    a_text_is_held_where_it_is_put(name, ".dpkg-new"@, seq![]);
    a_text_is_held_where_it_is_put(name, ".ucf-dist"@, seq![]);
    reveal_strlit(".dpkg-dist");
    reveal_strlit(".dpkg-new");
    reveal_strlit(".ucf-dist");
    let (b, c) = (name + ".dpkg-new"@, name + ".ucf-dist"@);
    if has_suffix(b, ".dpkg-dist"@) {
        assert(b.skip(b.len() - 10)[9] == b.last());
        assert(b.last() == 'w');
    }
    if has_suffix(c, ".dpkg-dist"@) {
        assert(c.skip(c.len() - 10)[4] == c[c.len() - 6]);
        assert(c[c.len() - 6] == 'f');
    }
    if has_suffix(c, ".dpkg-new"@) {
        assert(c.skip(c.len() - 9)[8] == c.last());
        assert(c.last() == 't');
    }
}

/// The first twenty lines of a difference are shown, and no more.
pub proof fn twenty_lines_of_a_difference_are_shown(diff: Seq<char>)
    ensures
        diff_head(Some(diff)).len() <= 20,
        diff_head(Some(diff)).len() == 20 || diff_head(Some(diff)).len() == lines(diff).len(),
        forall|i: int|
            0 <= i < diff_head(Some(diff)).len() ==> diff_head(Some(diff))[i] == lines(diff)[i],
        diff_head(None).len() == 0,
{
}

/// A hint about a conflict or a dependency names the package.
pub proof fn a_hint_names_its_package(name: Seq<char>)
    ensures
        has_text(conflict_hint(name), name),
        has_text(dependency_hint(name), name),
{
    let a = "apt can't find a set of package versions that satisfies this request — installing/removing "@;
    let h = conflict_hint(name);
    let b = h.skip(a.len() as int + name.len());
    a_text_is_held_where_it_is_put(a, name, b);
    assert(h =~= a + name + b);
    let c = "A required dependency ('"@;
    let g = dependency_hint(name);
    let d = g.skip(c.len() as int + name.len());
    a_text_is_held_where_it_is_put(c, name, d);
    assert(g =~= c + name + d);
}

/// A reviewed file ends in the two ways to settle it: to remove the new version,
/// or to put it in place of the own one.
pub proof fn a_review_ends_in_two_ways(new_file: Seq<char>, orig: Seq<char>, diff: Option<Seq<char>>)
    ensures
        review(false, new_file, orig, diff).last() == LineView::Out(
            "   "@ + "→"@ + " keep yours: "@ + ("rm "@ + new_file) + "   use theirs: "@ + ("mv "@
                + new_file + " "@ + orig),
        ),
{
}

/// An unknown package at the very end is read as well.
pub proof fn the_unknown_package_may_come_last(a: Seq<char>, name: Seq<char>)
    requires
        forall|j: int|
            0 <= j < a.len() ==> !occurs_at(
                a + "Unable to locate package "@ + name,
                "Unable to locate package "@,
                j,
            ),
        !name.contains('\n'),
        name.len() > 0,
        !is_space(name[0]),
        !is_space(name.last()),
    ensures
        unknown_package(a + "Unable to locate package "@ + name) == Some(name),
{
    let p = "Unable to locate package "@;
    let raw = a + p + name;
    assert(raw.subrange(a.len() as int, a.len() as int + p.len()) =~= p);
    assert(first_occurs_at(raw, p, a.len() as int));
    lemma_cut(raw, p, a.len() as int);
    assert(raw.skip(a.len() as int + p.len()) =~= name);
    reveal_strlit("\n");
    assert("\n"@ =~= seq!['\n']);
    crate::laws::text::a_cut_gives_the_parts_back(name, '\n', seq![]);
    let e = Seq::<char>::empty();
    trimming_gives_the_text_back(e, name, e);
    assert(e + name + e =~= name);
}

/// A missing dependency is hinted at where neither an unknown package nor a
/// conflict is the cause; a conflict without a named package speaks of `that
/// package`.
pub proof fn a_missing_dependency_is_hinted_at(
    raw: Seq<char>,
    named: Seq<Seq<char>>,
    suggestions: Seq<Seq<char>>,
)
    ensures
        !has_text(raw, "Unable to locate package "@) && !has_text(raw, "conflicting assignments"@)
            && !has_text(raw, "held broken packages"@) && has_text(raw, "Depends: "@) ==> hint_text(
            raw,
            named,
            suggestions,
        ) == Some(dependency_hint(trim(between(raw, "Depends: "@, " but it is not"@)->0))),
        !has_text(raw, "Unable to locate package "@) && (has_text(raw, "conflicting assignments"@)
            || has_text(raw, "held broken packages"@)) ==> hint_text(raw, seq![], suggestions)
            == Some(conflict_hint("that package"@)),
{
    lemma_cut_held(raw, "Unable to locate package "@);
    lemma_cut_held(raw, "Depends: "@);
}

} // verus!
