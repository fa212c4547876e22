//! Package search in apt's own list files.

use std::cmp::Ordering;

use vstd::hash_map::StringHashMap;
use vstd::prelude::*;
use vstd::utf8::encode_utf8;

use crate::apt::{arrange, by_match, lemma_results_push, results, ResultView, SearchResult};
use crate::names::Names;
use crate::order::{lemma_in_order_contains, puts_in_order};
use crate::text::{
    after_prefix, chars_of, decode_lossy, ends, has_suffix, has_text, holds, lemma_texts_push,
    lines, lines_of, lossy_text, lowercase, opt_piece, pieces, string_of, strip, texts,
};
use crate::version::{
    compare_versions, version_order_is_antisymmetric, version_order_is_reflexive,
    version_order_is_transitive, version_rel, Rel,
};

verus! {

// ---------------------------------------------------------------------------
// Versions
// ---------------------------------------------------------------------------

/// How two Debian versions compare.
pub open spec fn versions_rel(a: Seq<char>, b: Seq<char>) -> Rel {
    version_rel(encode_utf8(a), encode_utf8(b))
}

/// How two Debian versions compare.
pub fn relate(a: &str, b: &str) -> (r: Rel)
    ensures
        r == versions_rel(a@, b@),
{
    compare_versions(a.as_bytes(), b.as_bytes())
}

/// Compares two Debian versions, `[epoch:]upstream[-revision]`, as dpkg does.
pub fn deb_version_cmp(a: &str, b: &str) -> (r: Ordering)
    ensures
        r == match versions_rel(a@, b@) {
            Rel::Less => Ordering::Less,
            Rel::Equal => Ordering::Equal,
            Rel::Greater => Ordering::Greater,
        },
{
    match relate(a, b) {
        Rel::Less => Ordering::Less,
        Rel::Equal => Ordering::Equal,
        Rel::Greater => Ordering::Greater,
    }
}

// ---------------------------------------------------------------------------
// Scanning an index
// ---------------------------------------------------------------------------

/// Version and description of a package.
pub struct BestView {
    pub version: Seq<char>,
    pub description: Seq<char>,
}

/// What has been read of a stanza.
pub struct StanzaView {
    pub name: Option<Seq<char>>,
    pub version: Option<Seq<char>>,
    pub description: Option<Seq<char>>,
}

/// A stanza of which nothing has been read.
pub open spec fn no_stanza() -> StanzaView {
    StanzaView { name: None, version: None, description: None }
}

/// A stanza once one more line of it is read.
pub open spec fn stanza_step(st: StanzaView, line: Seq<char>) -> StanzaView {
    if after_prefix(line, "Package: "@) is Some {
        StanzaView { name: after_prefix(line, "Package: "@), ..st }
    } else if after_prefix(line, "Version: "@) is Some {
        StanzaView { version: after_prefix(line, "Version: "@), ..st }
    } else if after_prefix(line, "Description: "@) is Some {
        StanzaView { description: after_prefix(line, "Description: "@), ..st }
    } else if after_prefix(line, "Description-en: "@) is Some {
        StanzaView { description: after_prefix(line, "Description-en: "@), ..st }
    } else {
        st
    }
}

/// The packages found, with one more: of two versions the higher stays, of
/// equal ones the one that was there.
pub open spec fn merged(
    best: Map<Seq<char>, BestView>,
    name: Seq<char>,
    found: BestView,
) -> Map<Seq<char>, BestView> {
    if best.contains_key(name) && versions_rel(found.version, best[name].version) != Rel::Greater {
        best
    } else {
        best.insert(name, found)
    }
}

/// The packages found once a stanza is complete: it counts where it has a name
/// and a version, and the query is in the name or the description.
pub open spec fn finished(
    best: Map<Seq<char>, BestView>,
    st: StanzaView,
    query: Seq<char>,
) -> Map<Seq<char>, BestView> {
    match (st.name, st.version) {
        (Some(name), Some(version)) => {
            let description = match st.description {
                Some(d) => d,
                None => ""@,
            };
            if has_text(name, query) || has_text(lowercase(description), query) {
                merged(best, name, BestView { version, description })
            } else {
                best
            }
        },
        _ => best,
    }
}

/// The stanza at hand and the packages found, once the lines are read. An empty
/// line ends a stanza.
pub open spec fn scanned(
    ls: Seq<Seq<char>>,
    query: Seq<char>,
    best: Map<Seq<char>, BestView>,
) -> (StanzaView, Map<Seq<char>, BestView>)
    decreases ls.len(),
{
    if ls.len() == 0 {
        (no_stanza(), best)
    } else {
        let (st, found) = scanned(ls.drop_last(), query, best);
        if ls.last().len() == 0 {
            (no_stanza(), finished(found, st, query))
        } else {
            (stanza_step(st, ls.last()), found)
        }
    }
}

/// The packages found once an index is read.
pub open spec fn indexed(
    content: Seq<char>,
    query: Seq<char>,
    best: Map<Seq<char>, BestView>,
) -> Map<Seq<char>, BestView> {
    scanned(lines(content).push(""@), query, best).1
}

/// The packages found once several indexes are read, one after the other.
pub open spec fn all_indexed(contents: Seq<Seq<char>>, query: Seq<char>) -> Map<
    Seq<char>,
    BestView,
>
    decreases contents.len(),
{
    if contents.len() == 0 {
        Map::empty()
    } else {
        indexed(contents.last(), query, all_indexed(contents.drop_last(), query))
    }
}

/// No package is lost from what was found, and none goes down in version.
pub open spec fn keeps_best(
    before: Map<Seq<char>, BestView>,
    after: Map<Seq<char>, BestView>,
) -> bool {
    forall|n: Seq<char>| #[trigger]
        before.contains_key(n) ==> after.contains_key(n) && versions_rel(
            after[n].version,
            before[n].version,
        ) != Rel::Less
}

pub proof fn lemma_keeps_best_refl(best: Map<Seq<char>, BestView>)
    ensures
        keeps_best(best, best),
{
    assert forall|n: Seq<char>| #[trigger] best.contains_key(n) implies versions_rel(
        best[n].version,
        best[n].version,
    ) != Rel::Less by {
        version_order_is_reflexive(encode_utf8(best[n].version));
    }
}

pub proof fn lemma_keeps_best_trans(
    a: Map<Seq<char>, BestView>,
    b: Map<Seq<char>, BestView>,
    c: Map<Seq<char>, BestView>,
)
    requires
        keeps_best(a, b),
        keeps_best(b, c),
    ensures
        keeps_best(a, c),
{
    assert forall|n: Seq<char>| #[trigger] a.contains_key(n) implies c.contains_key(n)
        && versions_rel(c[n].version, a[n].version) != Rel::Less by {
        assert(b.contains_key(n));
        let x = encode_utf8(a[n].version);
        let y = encode_utf8(b[n].version);
        let z = encode_utf8(c[n].version);
        version_order_is_antisymmetric(z, y);
        version_order_is_antisymmetric(y, x);
        version_order_is_antisymmetric(z, x);
        version_order_is_transitive(x, y, z);
    }
}

/// Reading an index never loses a package that was found before, nor does it
/// lower its version.
pub proof fn scanning_keeps_the_best(
    content: Seq<char>,
    query: Seq<char>,
    best: Map<Seq<char>, BestView>,
)
    ensures
        keeps_best(best, indexed(content, query, best)),
{
    lemma_scanned_keeps(lines(content).push(""@), query, best);
}

proof fn lemma_merged_keeps(best: Map<Seq<char>, BestView>, name: Seq<char>, found: BestView)
    ensures
        keeps_best(best, merged(best, name, found)),
{
    lemma_keeps_best_refl(best);
}

proof fn lemma_scanned_keeps(
    ls: Seq<Seq<char>>,
    query: Seq<char>,
    best: Map<Seq<char>, BestView>,
)
    ensures
        keeps_best(best, scanned(ls, query, best).1),
    decreases ls.len(),
{
    if ls.len() == 0 {
        lemma_keeps_best_refl(best);
    } else {
        lemma_scanned_keeps(ls.drop_last(), query, best);
        let (st, found) = scanned(ls.drop_last(), query, best);
        if ls.last().len() == 0 {
            if let (Some(name), Some(version)) = (st.name, st.version) {
                let description = match st.description {
                    Some(d) => d,
                    None => ""@,
                };
                lemma_merged_keeps(found, name, BestView { version, description });
            }
            lemma_keeps_best_refl(found);
            lemma_keeps_best_trans(best, found, finished(found, st, query));
        }
    }
}

/// What has been read of the stanza that is not complete yet.
pub open spec fn reading(ls: Seq<Seq<char>>) -> StanzaView
    decreases ls.len(),
{
    if ls.len() == 0 || ls.last().len() == 0 {
        no_stanza()
    } else {
        stanza_step(reading(ls.drop_last()), ls.last())
    }
}

/// What a complete stanza offers to a query: a package with its version and
/// description.
pub open spec fn offer(st: StanzaView, query: Seq<char>) -> Seq<(Seq<char>, BestView)> {
    match (st.name, st.version) {
        (Some(name), Some(version)) => {
            let description = match st.description {
                Some(d) => d,
                None => ""@,
            };
            if has_text(name, query) || has_text(lowercase(description), query) {
                seq![(name, BestView { version, description })]
            } else {
                seq![]
            }
        },
        _ => seq![],
    }
}

/// What the stanzas of the lines offer to a query, one after the other.
pub open spec fn offers(ls: Seq<Seq<char>>, query: Seq<char>) -> Seq<(Seq<char>, BestView)>
    decreases ls.len(),
{
    if ls.len() == 0 {
        seq![]
    } else if ls.last().len() == 0 {
        offers(ls.drop_last(), query) + offer(reading(ls.drop_last()), query)
    } else {
        offers(ls.drop_last(), query)
    }
}

/// The packages found, with all that is offered.
pub open spec fn merged_all(
    best: Map<Seq<char>, BestView>,
    v: Seq<(Seq<char>, BestView)>,
) -> Map<Seq<char>, BestView>
    decreases v.len(),
{
    if v.len() == 0 {
        best
    } else {
        merged(merged_all(best, v.drop_last()), v.last().0, v.last().1)
    }
}

proof fn lemma_merged_all_add(
    best: Map<Seq<char>, BestView>,
    v: Seq<(Seq<char>, BestView)>,
    w: Seq<(Seq<char>, BestView)>,
)
    ensures
        merged_all(best, v + w) == merged_all(merged_all(best, v), w),
    decreases w.len(),
{
    if w.len() == 0 {
        assert(v + w =~= v);
    } else {
        assert((v + w).drop_last() =~= v + w.drop_last());
        lemma_merged_all_add(best, v, w.drop_last());
    }
}

/// Reading lines adds what their stanzas offer.
pub proof fn lemma_scanned_is_merged(
    ls: Seq<Seq<char>>,
    query: Seq<char>,
    best: Map<Seq<char>, BestView>,
)
    ensures
        scanned(ls, query, best) == (reading(ls), merged_all(best, offers(ls, query))),
    decreases ls.len(),
{
    if ls.len() > 0 {
        let before = ls.drop_last();
        lemma_scanned_is_merged(before, query, best);
        if ls.last().len() == 0 {
            let more = offer(reading(before), query);
            lemma_merged_all_add(best, offers(before, query), more);
            let found = merged_all(best, offers(before, query));
            if more.len() > 0 {
                assert(more.drop_last() =~= seq![]);
                assert(merged_all(found, more.drop_last()) == found);
            }
        }
    }
}

/// Of what is offered, nothing is better than what is found.
pub proof fn lemma_nothing_better(
    best: Map<Seq<char>, BestView>,
    v: Seq<(Seq<char>, BestView)>,
    k: int,
)
    requires
        0 <= k < v.len(),
    ensures
        merged_all(best, v).contains_key(v[k].0),
        versions_rel(merged_all(best, v)[v[k].0].version, v[k].1.version) != Rel::Less,
    decreases v.len(),
{
    let before = merged_all(best, v.drop_last());
    let after = merged_all(best, v);
    let (name, found) = v.last();
    let x = encode_utf8(v[k].1.version);
    if k < v.len() - 1 {
        lemma_nothing_better(best, v.drop_last(), k);
        assert(v.drop_last()[k] == v[k]);
        lemma_merged_keeps(before, name, found);
        assert(before.contains_key(v[k].0));
        let y = encode_utf8(before[v[k].0].version);
        let z = encode_utf8(after[v[k].0].version);
        version_order_is_antisymmetric(z, y);
        version_order_is_antisymmetric(y, x);
        version_order_is_antisymmetric(z, x);
        version_order_is_transitive(x, y, z);
    } else {
        version_order_is_reflexive(x);
        if before.contains_key(name) {
            version_order_is_antisymmetric(x, encode_utf8(before[name].version));
        }
    }
}

/// What is found was found before or is offered.
pub proof fn lemma_found_was_offered(
    best: Map<Seq<char>, BestView>,
    v: Seq<(Seq<char>, BestView)>,
    n: Seq<char>,
)
    requires
        merged_all(best, v).contains_key(n),
    ensures
        best.contains_key(n) || v.contains((n, merged_all(best, v)[n])),
    decreases v.len(),
{
    if v.len() > 0 {
        let before = merged_all(best, v.drop_last());
        let after = merged_all(best, v);
        if before.contains_key(n) && after[n] == before[n] {
            lemma_found_was_offered(best, v.drop_last(), n);
            if !best.contains_key(n) {
                let k = choose|k: int|
                    0 <= k < v.len() - 1 && v.drop_last()[k] == (n, before[n]);
                assert(v[k] == (n, after[n]));
            }
        } else {
            assert(v[v.len() - 1] == (n, after[n]));
        }
    }
}

/// One way of reading finds whatever another finds, in a version no lower, where
/// it is offered all that the other is.
proof fn lemma_no_worse(
    v: Seq<(Seq<char>, BestView)>,
    w: Seq<(Seq<char>, BestView)>,
    n: Seq<char>,
)
    requires
        forall|x: (Seq<char>, BestView)| #[trigger] v.contains(x) ==> w.contains(x),
        merged_all(Map::empty(), v).contains_key(n),
    ensures
        merged_all(Map::empty(), w).contains_key(n),
        versions_rel(
            merged_all(Map::empty(), w)[n].version,
            merged_all(Map::empty(), v)[n].version,
        ) != Rel::Less,
{
    let found = merged_all(Map::empty(), v)[n];
    lemma_found_was_offered(Map::empty(), v, n);
    assert(w.contains((n, found)));
    let k = choose|k: int| 0 <= k < w.len() && w[k] == (n, found);
    lemma_nothing_better(Map::empty(), w, k);
}

proof fn lemma_offered_again(best: Map<Seq<char>, BestView>, v: Seq<(Seq<char>, BestView)>)
    requires
        forall|k: int|
            0 <= k < v.len() ==> best.contains_key((#[trigger] v[k]).0) && versions_rel(
                best[v[k].0].version,
                v[k].1.version,
            ) != Rel::Less,
    ensures
        merged_all(best, v) == best,
    decreases v.len(),
{
    if v.len() > 0 {
        let before = v.drop_last();
        assert forall|k: int| 0 <= k < before.len() implies best.contains_key(
            (#[trigger] before[k]).0,
        ) && versions_rel(best[before[k].0].version, before[k].1.version) != Rel::Less by {
            assert(before[k] == v[k]);
        }
        lemma_offered_again(best, before);
        let (name, found) = v[v.len() - 1];
        version_order_is_antisymmetric(
            encode_utf8(best[name].version),
            encode_utf8(found.version),
        );
    }
}

/// The order in which two indexes are read does not matter: the same packages are
/// found, in versions that compare as equal.
pub proof fn the_order_of_indexes_does_not_matter(x: Seq<char>, y: Seq<char>, query: Seq<char>)
    ensures
        ({
            let one = all_indexed(seq![x, y], query);
            let other = all_indexed(seq![y, x], query);
            &&& one.dom() == other.dom()
            &&& forall|n: Seq<char>| #[trigger]
                one.contains_key(n) ==> versions_rel(one[n].version, other[n].version)
                    == Rel::Equal
        }),
{
    let one = all_indexed(seq![x, y], query);
    let other = all_indexed(seq![y, x], query);
    let v = offers(lines(x).push(""@), query);
    let w = offers(lines(y).push(""@), query);
    lemma_two_indexes(x, y, query);
    lemma_two_indexes(y, x, query);
    assert forall|t: (Seq<char>, BestView)| #[trigger] (v + w).contains(t) implies (w
        + v).contains(t) by {
        lemma_either_order(v, w, t);
    }
    assert forall|t: (Seq<char>, BestView)| #[trigger] (w + v).contains(t) implies (v
        + w).contains(t) by {
        lemma_either_order(w, v, t);
    }
    assert forall|n: Seq<char>| one.contains_key(n) == other.contains_key(n) by {
        if one.contains_key(n) {
            lemma_no_worse(v + w, w + v, n);
        }
        if other.contains_key(n) {
            lemma_no_worse(w + v, v + w, n);
        }
    }
    assert(one.dom() =~= other.dom());
    assert forall|n: Seq<char>| #[trigger] one.contains_key(n) implies versions_rel(
        one[n].version,
        other[n].version,
    ) == Rel::Equal by {
        lemma_no_worse(v + w, w + v, n);
        lemma_no_worse(w + v, v + w, n);
        version_order_is_antisymmetric(
            encode_utf8(one[n].version),
            encode_utf8(other[n].version),
        );
    }
}

proof fn lemma_either_order<A>(v: Seq<A>, w: Seq<A>, t: A)
    requires
        (v + w).contains(t),
    ensures
        (w + v).contains(t),
{
    let k = choose|k: int| 0 <= k < (v + w).len() && (v + w)[k] == t;
    if k < v.len() {
        assert((w + v)[k + w.len()] == t);
    } else {
        assert((w + v)[k - v.len()] == t);
    }
}

proof fn lemma_two_indexes(x: Seq<char>, y: Seq<char>, query: Seq<char>)
    ensures
        all_indexed(seq![x, y], query) == merged_all(
            Map::empty(),
            offers(lines(x).push(""@), query) + offers(lines(y).push(""@), query),
        ),
{
    let none: Map<Seq<char>, BestView> = Map::empty();
    let both = seq![x, y];
    assert(both.drop_last() =~= seq![x]);
    assert(seq![x].drop_last() =~= seq![]);
    assert(all_indexed(seq![x].drop_last(), query) == none);
    lemma_scanned_is_merged(lines(x).push(""@), query, none);
    let found = indexed(x, query, none);
    assert(all_indexed(seq![x], query) == found);
    lemma_scanned_is_merged(lines(y).push(""@), query, found);
    lemma_merged_all_add(
        none,
        offers(lines(x).push(""@), query),
        offers(lines(y).push(""@), query),
    );
}

/// Reading an index again changes nothing, whatever was read in between.
pub proof fn reading_an_index_again_changes_nothing(
    content: Seq<char>,
    between: Seq<Seq<char>>,
    query: Seq<char>,
    best: Map<Seq<char>, BestView>,
)
    ensures
        ({
            let found = all_read(between, query, indexed(content, query, best));
            indexed(content, query, found) == found
        }),
{
    let v = offers(lines(content).push(""@), query);
    let first = indexed(content, query, best);
    let found = all_read(between, query, first);
    lemma_scanned_is_merged(lines(content).push(""@), query, best);
    lemma_scanned_is_merged(lines(content).push(""@), query, found);
    lemma_all_read_keeps(between, query, first);
    assert forall|k: int| 0 <= k < v.len() implies found.contains_key((#[trigger] v[k]).0)
        && versions_rel(found[v[k].0].version, v[k].1.version) != Rel::Less by {
        lemma_nothing_better(best, v, k);
        let n = v[k].0;
        assert(first.contains_key(n));
        let a = encode_utf8(v[k].1.version);
        let b = encode_utf8(first[n].version);
        let c = encode_utf8(found[n].version);
        version_order_is_antisymmetric(c, b);
        version_order_is_antisymmetric(b, a);
        version_order_is_antisymmetric(c, a);
        version_order_is_transitive(a, b, c);
    }
    lemma_offered_again(found, v);
}

/// The packages found once several more indexes are read.
pub open spec fn all_read(
    contents: Seq<Seq<char>>,
    query: Seq<char>,
    best: Map<Seq<char>, BestView>,
) -> Map<Seq<char>, BestView>
    decreases contents.len(),
{
    if contents.len() == 0 {
        best
    } else {
        indexed(contents.last(), query, all_read(contents.drop_last(), query, best))
    }
}

proof fn lemma_all_read_keeps(
    contents: Seq<Seq<char>>,
    query: Seq<char>,
    best: Map<Seq<char>, BestView>,
)
    ensures
        keeps_best(best, all_read(contents, query, best)),
    decreases contents.len(),
{
    if contents.len() == 0 {
        lemma_keeps_best_refl(best);
    } else {
        let before = all_read(contents.drop_last(), query, best);
        lemma_all_read_keeps(contents.drop_last(), query, best);
        scanning_keeps_the_best(contents.last(), query, before);
        lemma_keeps_best_trans(best, before, all_read(contents, query, best));
    }
}

/// A package found, with its highest version so far.
struct Candidate {
    name: String,
    version: String,
    description: String,
}

/// The packages found so far.
pub struct Best {
    index: StringHashMap<usize>,
    list: Vec<Candidate>,
}

impl View for Best {
    type V = Map<Seq<char>, BestView>;

    closed spec fn view(&self) -> Map<Seq<char>, BestView> {
        Map::new(
            |n: Seq<char>| self.index@.contains_key(n),
            |n: Seq<char>|
                BestView {
                    version: self.list@[self.index@[n] as int].version@,
                    description: self.list@[self.index@[n] as int].description@,
                },
        )
    }
}

impl Best {
    /// Every package in the list has its place in the index.
    #[verifier::type_invariant]
    spec fn inv(&self) -> bool {
        placed(self.index@, self.list@)
    }

    /// No packages.
    pub fn new() -> (b: Self)
        ensures
            b@ == Map::<Seq<char>, BestView>::empty(),
    {
        let b = Best { index: StringHashMap::new(), list: Vec::new() };
        assert(b@ =~= Map::<Seq<char>, BestView>::empty());
        b
    }

    fn put(self, name: String, version: String, description: String) -> (b: Self)
        ensures
            b@ == merged(
                self@,
                name@,
                BestView { version: version@, description: description@ },
            ),
    {
        proof {
            use_type_invariant(&self);
        }
        let ghost before = self@;
        let ghost found = BestView { version: version@, description: description@ };
        let ghost n0 = name@;
        let mut index = self.index;
        let mut list = self.list;
        match index.get(name.as_str()) {
            Some(i) => {
                let at: usize = *i;
                let higher = match relate(version.as_str(), list[at].version.as_str()) {
                    Rel::Greater => true,
                    _ => false,
                };
                if higher {
                    list.set(at, Candidate { name, version, description });
                }
                let b = Best { index, list };
                assert(b@ =~= merged(before, n0, found));
                b
            },
            None => {
                let n: usize = list.len();
                index.insert(name.clone(), n);
                list.push(Candidate { name, version, description });
                let b = Best { index, list };
                assert(b@ =~= merged(before, n0, found));
                b
            },
        }
    }

    /// The packages, in no particular order.
    fn listed(&self, installed: &Names) -> (v: Vec<SearchResult>)
        ensures
            forall|i: int, j: int|
                0 <= i < j < v@.len() ==> (#[trigger] results(v@)[i]).name != (
                #[trigger] results(v@)[j]).name,
            forall|r: ResultView| #[trigger]
                results(v@).contains(r) <==> is_best(self@, installed@, r),
    {
        broadcast use lemma_results_push;

        proof {
            use_type_invariant(&*self);
        }
        let mut v: Vec<SearchResult> = Vec::new();
        let mut i: usize = 0;
        while i < self.list.len()
            invariant
                placed(self.index@, self.list@),
                i <= self.list@.len(),
                v@.len() == i,
                forall|k: int|
                    0 <= k < i ==> (#[trigger] results(v@)[k]) == candidate_result(
                        self.list@[k],
                        installed@,
                    ),
            decreases self.list@.len() - i,
        {
            broadcast use lemma_results_push;

            let c = &self.list[i];
            v.push(
                SearchResult {
                    name: c.name.clone(),
                    version: Some(c.version.clone()),
                    description: c.description.clone(),
                    installed: installed.contains(c.name.as_str()),
                },
            );
            i += 1;
        }
        proof {
            let rs = results(v@);
            assert forall|r: ResultView| #[trigger]
                rs.contains(r) <==> is_best(self@, installed@, r) by {
                if rs.contains(r) {
                    let k = choose|k: int| 0 <= k < rs.len() && rs[k] == r;
                    assert(self.index@[self.list@[k].name@] == k);
                }
                if is_best(self@, installed@, r) {
                    let k = self.index@[r.name] as int;
                    assert(rs[k] == r);
                }
            }
        }
        v
    }
}

spec fn candidate_result(c: Candidate, installed: Set<Seq<char>>) -> ResultView {
    ResultView {
        name: c.name@,
        version: Some(c.version@),
        description: c.description@,
        installed: installed.contains(c.name@),
    }
}

spec fn placed(index: Map<Seq<char>, usize>, list: Seq<Candidate>) -> bool {
    &&& forall|n: Seq<char>| #[trigger]
        index.contains_key(n) ==> index[n] < list.len() && list[index[n] as int].name@ == n
    &&& forall|k: int|
        0 <= k < list.len() ==> index.contains_key((#[trigger] list[k]).name@)
            && index[list[k].name@] == k
}

/// The result tells of a package found.
pub open spec fn is_best(
    best: Map<Seq<char>, BestView>,
    installed: Set<Seq<char>>,
    r: ResultView,
) -> bool {
    &&& best.contains_key(r.name)
    &&& r.version == Some(best[r.name].version)
    &&& r.description == best[r.name].description
    &&& r.installed == installed.contains(r.name)
}

/// Reads the stanzas of one Packages index and adds what matches to `best`,
/// keeping the highest version of a package.
pub fn scan_index(content: &str, query: &str, best: Best) -> (r: Best)
    ensures
        r@ == indexed(content@, query@, best@),
{
    let chars = chars_of(content);
    let mut ls = lines_of(chars.as_slice());
    let ghost given = pieces(ls@);
    let empty: Vec<char> = chars_of("");
    proof {
        reveal_strlit("");
    }
    ls.push(empty.as_slice());
    let ghost all = pieces(ls@);
    assert(all =~= given.push(""@));
    let ghost start = best@;
    let mut found = best;
    let mut name: Option<&[char]> = None;
    let mut version: Option<&[char]> = None;
    let mut description: Option<&[char]> = None;
    let mut i: usize = 0;
    while i < ls.len()
        invariant
            all == pieces(ls@),
            i <= ls@.len(),
            ({
                let (st, f) = scanned(all.take(i as int), query@, start);
                &&& st.name == opt_piece(name)
                &&& st.version == opt_piece(version)
                &&& st.description == opt_piece(description)
                &&& f == found@
            }),
        decreases ls@.len() - i,
    {
        assert(all.take(i + 1).drop_last() =~= all.take(i as int));
        assert(all.take(i + 1).last() == ls@[i as int]@);
        let line = ls[i];
        if line.len() == 0 {
            if let (Some(n), Some(v)) = (name, version) {
                let text = match description {
                    Some(d) => string_of(d),
                    None => "".to_owned(),
                };
                let lowered = chars_of(text.as_str().to_lowercase().as_str());
                if holds(n, query) || holds(lowered.as_slice(), query) {
                    found = found.put(string_of(n), string_of(v), text);
                }
            }
            name = None;
            version = None;
            description = None;
        } else if let Some(v) = strip(line, "Package: ") {
            name = Some(v);
        } else if let Some(v) = strip(line, "Version: ") {
            version = Some(v);
        } else if let Some(v) = strip(line, "Description: ") {
            description = Some(v);
        } else if let Some(v) = strip(line, "Description-en: ") {
            description = Some(v);
        }
        i += 1;
    }
    assert(all.take(all.len() as int) =~= all);
    found
}

/// Whether a file in apt's list directory is a package index.
pub fn is_index(file: &str) -> (r: bool)
    ensures
        r == has_suffix(file@, "_Packages"@),
{
    let chars = chars_of(file);
    ends(chars.as_slice(), "_Packages")
}

/// Searches the package indexes for a query in small letters.
pub fn search_lowered(query: &str, indexes: &Vec<String>, installed: &Names) -> (v: Vec<SearchResult>)
    ensures
        found_for(results(v@), texts(indexes@), query@, installed@),
{
    let ghost all = texts(indexes@);
    let mut best = Best::new();
    let mut i: usize = 0;
    assert(all.take(0) =~= seq![]);
    while i < indexes.len()
        invariant
            all == texts(indexes@),
            i <= indexes@.len(),
            best@ == all_indexed(all.take(i as int), query@),
        decreases indexes@.len() - i,
    {
        assert(all.take(i + 1).drop_last() =~= all.take(i as int));
        assert(all.take(i + 1).last() == indexes@[i as int]@);
        best = scan_index(indexes[i].as_str(), query, best);
        i += 1;
    }
    assert(all.take(all.len() as int) =~= all);
    let unsorted = best.listed(installed);
    let v = arrange(query, &unsorted);
    proof {
        let rs = results(v@);
        let us = results(unsorted@);
        let le = by_match(query@);
        assert forall|r: ResultView| #[trigger] rs.contains(r) <==> is_best(best@, installed@, r) by {
            lemma_in_order_contains(rs, us, le, r);
        }
        let p = choose|p: Seq<int>| #[trigger] puts_in_order(p, rs, us, le);
        assert forall|a: int, b: int| 0 <= a < b < rs.len() implies (#[trigger] rs[a]).name != (
        #[trigger] rs[b]).name && le(rs[a], rs[b]) by {
            assert(rs[a] == us[p[a]] && rs[b] == us[p[b]]);
            assert(p[a] != p[b]);
            if p[a] < p[b] {
                assert(us[p[a]].name != us[p[b]].name);
            } else {
                assert(us[p[b]].name != us[p[a]].name);
            }
        }
    }
    v
}

/// The results list, once each and the best matches first, what the indexes
/// hold for a query in small letters.
pub open spec fn found_for(
    found: Seq<ResultView>,
    contents: Seq<Seq<char>>,
    query: Seq<char>,
    installed: Set<Seq<char>>,
) -> bool {
    &&& forall|r: ResultView| #[trigger]
        found.contains(r) <==> is_best(all_indexed(contents, query), installed, r)
    &&& forall|a: int, b: int|
        0 <= a < b < found.len() ==> (#[trigger] found[a]).name != (#[trigger] found[b]).name
            && by_match(query)(found[a], found[b])
}

/// The texts of indexes, given as the bytes that they hold.
pub open spec fn index_texts(v: Seq<Vec<u8>>) -> Seq<Seq<char>> {
    v.map_values(|b: Vec<u8>| lossy_text(b@))
}

fn read_indexes(v: &Vec<Vec<u8>>) -> (r: Vec<String>)
    ensures
        texts(r@) == index_texts(v@),
{
    let mut out: Vec<String> = Vec::new();
    let mut i: usize = 0;
    while i < v.len()
        invariant
            i <= v@.len(),
            out@.len() == i,
            forall|k: int| 0 <= k < i ==> #[trigger] texts(out@)[k] == lossy_text(v@[k]@),
        decreases v@.len() - i,
    {
        broadcast use lemma_texts_push;

        out.push(decode_lossy(v[i].as_slice()));
        i += 1;
    }
    assert(texts(out@) =~= index_texts(v@));
    out
}

/// Searches every package index for `query` in the name or description. Fails
/// where there is no index to read.
pub fn search(query: &str, indexes: &Vec<Vec<u8>>, installed: &Names) -> (r: Result<
    Vec<SearchResult>,
    String,
>)
    ensures
        match r {
            Ok(v) => indexes@.len() > 0 && found_for(
                results(v@),
                index_texts(indexes@),
                lowercase(query@),
                installed@,
            ),
            Err(e) => indexes@.len() == 0 && e@ == "no package indexes found in /var/lib/apt/lists"@,
        },
{
    if indexes.len() == 0 {
        return Err("no package indexes found in /var/lib/apt/lists".to_owned());
    }
    let contents = read_indexes(indexes);
    Ok(search_lowered(query.to_lowercase().as_str(), &contents, installed))
}

} // verus!
