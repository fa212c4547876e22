//! `wrapt why <pkg>`: explains why a package is on the system. Either it was
//! installed directly, or it was pulled in as a dependency; then the chain is
//! traced back to a package that was installed on purpose.

use vstd::hash_map::StringHashMap;
use vstd::prelude::*;

use crate::apt::Output;
use crate::names::Names;
use crate::order::{
    ascending, lemma_push_contains, lemma_text_lt_trans, listing, sort_texts, text_lt,
};
use crate::text::{
    chars_of, copy_strings, is_space, lemma_texts_push, lines, lines_of, pieces, reads, same_str,
    space, split, split_at_char, string_of, take, texts, trim, trim_of,
};

verus! {

// ---------------------------------------------------------------------------
// Texts grouped under a key
// ---------------------------------------------------------------------------

/// Lists of texts, each under a key.
struct Groups {
    index: StringHashMap<usize>,
    lists: Vec<Vec<String>>,
}

impl Groups {
    /// Every key leads to a list of its own.
    spec fn wf(&self) -> bool {
        &&& forall|k: Seq<char>| #[trigger]
            self.index@.contains_key(k) ==> self.index@[k] < self.lists@.len()
        &&& forall|k: Seq<char>, l: Seq<char>|
            #![trigger self.index@[k], self.index@[l]]
            self.index@.contains_key(k) && self.index@.contains_key(l) && self.index@[k]
                == self.index@[l] ==> k == l
    }

    /// The texts under a key, in the order in which they were added.
    spec fn of(&self, key: Seq<char>) -> Seq<Seq<char>> {
        if self.index@.contains_key(key) {
            texts(self.lists@[self.index@[key] as int]@)
        } else {
            seq![]
        }
    }

    fn new() -> (r: Self)
        ensures
            r.wf(),
            forall|k: Seq<char>| #[trigger] r.of(k) == Seq::<Seq<char>>::empty(),
    {
        Groups { index: StringHashMap::new(), lists: Vec::new() }
    }

    /// Puts a text under a key, behind those that are there.
    fn put(&mut self, key: &str, text: &str)
        requires
            old(self).wf(),
        ensures
            final(self).wf(),
            forall|k: Seq<char>| #[trigger]
                final(self).of(k) == if k == key@ {
                    old(self).of(k).push(text@)
                } else {
                    old(self).of(k)
                },
    {
        broadcast use lemma_texts_push;

        let ghost before = *self;
        let at: usize = match self.index.get(key) {
            Some(i) => *i,
            None => {
                let n: usize = self.lists.len();
                let none: Vec<String> = Vec::new();
                assert(texts(none@) =~= seq![]);
                self.lists.push(none);
                self.index.insert(key.to_owned(), n);
                n
            },
        };
        let ghost middle = *self;
        assert(forall|k: Seq<char>| #[trigger] middle.of(k) == before.of(k));
        let list = &mut self.lists[at];
        list.push(text.to_owned());
    }

    /// The texts under a key.
    fn get(&self, key: &str) -> (r: Vec<String>)
        requires
            self.wf(),
        ensures
            texts(r@) == self.of(key@),
    {
        match self.index.get(key) {
            Some(i) => copy_strings(&self.lists[*i]),
            None => {
                let none: Vec<String> = Vec::new();
                assert(texts(none@) =~= seq![]);
                none
            },
        }
    }
}

// ---------------------------------------------------------------------------
// The graph
// ---------------------------------------------------------------------------

/// The installed packages and, for each name, the installed packages that
/// depend on it.
pub struct Graph {
    installed: Names,
    /// Packages apt marked as automatically installed.
    auto: Names,
    /// Every package that depends on something.
    dependents: Vec<String>,
    rdeps: Groups,
}

impl Graph {
    /// The names of the installed packages.
    pub closed spec fn installed(&self) -> Set<Seq<char>> {
        self.installed@
    }

    /// The names of the packages that came in as dependencies.
    pub closed spec fn auto(&self) -> Set<Seq<char>> {
        self.auto@
    }

    /// The packages that directly depend on `name`, in order.
    pub closed spec fn parents(&self, name: Seq<char>) -> Seq<Seq<char>> {
        self.rdeps.of(name)
    }

    /// The lists of dependents are in order, and every dependent is known.
    #[verifier::type_invariant]
    spec fn inv(&self) -> bool {
        &&& self.rdeps.wf()
        &&& forall|name: Seq<char>|
            ascending(#[trigger] self.parents(name)) && forall|i: int|
                0 <= i < self.parents(name).len() ==> texts(self.dependents@).contains(
                    #[trigger] self.parents(name)[i],
                )
    }
}

/// `path` leads from `target` to its last package, each package depending on
/// the one before it.
pub open spec fn climbs(g: Graph, target: Seq<char>, path: Seq<Seq<char>>) -> bool
    decreases path.len(),
{
    if path.len() == 0 {
        false
    } else if path.len() == 1 {
        path[0] == target
    } else {
        &&& climbs(g, target, path.drop_last())
        &&& g.parents(path.drop_last().last()).contains(path.last())
    }
}

/// The package is a reason of its own: it was installed on purpose.
pub open spec fn is_root(g: Graph, target: Seq<char>, name: Seq<char>) -> bool {
    name != target && !g.auto().contains(name)
}

/// `path` leads from `target` to a package installed on purpose.
pub open spec fn reaches_root(g: Graph, target: Seq<char>, path: Seq<Seq<char>>) -> bool {
    climbs(g, target, path) && is_root(g, target, path.last())
}

/// `p` comes before `q`, which is as long, in the dictionary order by names.
pub open spec fn path_lt(p: Seq<Seq<char>>, q: Seq<Seq<char>>) -> bool
    decreases p.len(),
{
    if p.len() == 0 || q.len() == 0 {
        false
    } else {
        ||| path_lt(p.drop_last(), q.drop_last())
        ||| p.drop_last() == q.drop_last() && text_lt(p.last(), q.last())
    }
}

/// `p` is shorter than `q`, or as long and before it by names.
pub open spec fn path_before(p: Seq<Seq<char>>, q: Seq<Seq<char>>) -> bool {
    p.len() < q.len() || (p.len() == q.len() && path_lt(p, q))
}

/// `p` is `q` or comes before it.
pub open spec fn path_up_to(p: Seq<Seq<char>>, q: Seq<Seq<char>>) -> bool {
    p == q || path_before(p, q)
}

/// `path` is the shortest path to a package installed on purpose, and among
/// the shortest the first by names.
pub open spec fn is_nearest(g: Graph, target: Seq<char>, path: Seq<Seq<char>>) -> bool {
    &&& reaches_root(g, target, path)
    &&& forall|q: Seq<Seq<char>>| #[trigger]
        reaches_root(g, target, q) ==> path_up_to(path, q)
}

proof fn lemma_path_lt_trans(p: Seq<Seq<char>>, q: Seq<Seq<char>>, r: Seq<Seq<char>>)
    requires
        p.len() == q.len() == r.len(),
        path_lt(p, q),
        path_lt(q, r),
    ensures
        path_lt(p, r),
    decreases p.len(),
{
    if path_lt(p.drop_last(), q.drop_last()) {
        if path_lt(q.drop_last(), r.drop_last()) {
            lemma_path_lt_trans(p.drop_last(), q.drop_last(), r.drop_last());
        }
    } else if !path_lt(q.drop_last(), r.drop_last()) {
        lemma_text_lt_trans(p.last(), q.last(), r.last());
    }
}

proof fn lemma_up_to_trans(p: Seq<Seq<char>>, q: Seq<Seq<char>>, r: Seq<Seq<char>>)
    requires
        path_up_to(p, q),
        path_up_to(q, r),
    ensures
        path_up_to(p, r),
{
    if p != q && q != r && p.len() == q.len() && q.len() == r.len() {
        lemma_path_lt_trans(p, q, r);
    }
}

proof fn lemma_before_push(p: Seq<Seq<char>>, x: Seq<char>, q: Seq<Seq<char>>, y: Seq<char>)
    requires
        path_before(p, q) || (p == q && text_lt(x, y)),
    ensures
        path_before(p.push(x), q.push(y)),
{
    assert(p.push(x).drop_last() =~= p);
    assert(q.push(y).drop_last() =~= q);
}

// ---------------------------------------------------------------------------
// Searching breadth first
// ---------------------------------------------------------------------------

/// What a breadth-first search knows: the packages found, in the order in which
/// they were found, and the first path to each.
pub open spec fn search_state(
    g: Graph,
    target: Seq<char>,
    found: Seq<Seq<char>>,
    paths: Seq<Seq<Seq<char>>>,
    from: Seq<int>,
) -> bool {
    &&& found.len() == paths.len() == from.len()
    &&& found.len() > 0
    &&& found[0] == target
    &&& paths[0] == seq![target]
    &&& found.no_duplicates()
    &&& forall|k: int|
        0 <= k < found.len() ==> climbs(g, target, #[trigger] paths[k]) && paths[k].last()
            == found[k]
    &&& forall|k: int|
        #![trigger from[k]]
        0 < k < found.len() ==> 0 <= from[k] < k && paths[k] == paths[from[k]].push(found[k])
            && g.parents(found[from[k]]).contains(found[k])
    &&& forall|a: int, b: int|
        0 <= a < b < found.len() ==> path_before(#[trigger] paths[a], #[trigger] paths[b])
}

/// Every dependent of the package found as number `k` has been found, by a path
/// that is no worse than the one through that package.
pub open spec fn expanded(
    g: Graph,
    found: Seq<Seq<char>>,
    paths: Seq<Seq<Seq<char>>>,
    k: int,
) -> bool {
    forall|x: Seq<char>| #[trigger]
        g.parents(found[k]).contains(x) ==> exists|m: int|
            0 <= m < found.len() && #[trigger] found[m] == x && path_up_to(
                paths[m],
                paths[k].push(x),
            )
}

/// Any path is covered by what has been found: it ends at an expanded package
/// that was found by a path no worse, or a package not yet expanded was found by
/// a path no worse.
proof fn lemma_covered(
    g: Graph,
    target: Seq<char>,
    found: Seq<Seq<char>>,
    paths: Seq<Seq<Seq<char>>>,
    from: Seq<int>,
    next: int,
    q: Seq<Seq<char>>,
)
    requires
        search_state(g, target, found, paths, from),
        0 <= next <= found.len(),
        forall|k: int| 0 <= k < next ==> #[trigger] expanded(g, found, paths, k),
        climbs(g, target, q),
    ensures
        (exists|k: int|
            0 <= k < next && #[trigger] found[k] == q.last() && path_up_to(paths[k], q)) || (exists|
            k: int,
        |
            next <= k < found.len() && path_up_to(#[trigger] paths[k], q)),
    decreases q.len(),
{
    if q.len() == 1 {
        assert(q =~= paths[0]);
        assert(found[0] == q.last());
        assert(path_up_to(paths[0], q));
    } else {
        let p = q.drop_last();
        let x = q.last();
        assert(q =~= p.push(x));
        lemma_covered(g, target, found, paths, from, next, p);
        if exists|k: int| next <= k < found.len() && path_up_to(#[trigger] paths[k], p) {
            let k = choose|k: int| next <= k < found.len() && path_up_to(#[trigger] paths[k], p);
            assert(path_before(p, q));
            lemma_up_to_trans(paths[k], p, q);
            assert(path_up_to(paths[k], q));
        } else {
            let k = choose|k: int|
                0 <= k < next && #[trigger] found[k] == p.last() && path_up_to(paths[k], p);
            assert(expanded(g, found, paths, k));
            assert(g.parents(found[k]).contains(x));
            let m = choose|m: int|
                0 <= m < found.len() && #[trigger] found[m] == x && path_up_to(
                    paths[m],
                    paths[k].push(x),
                );
            if paths[k] != p {
                lemma_before_push(paths[k], x, p, x);
            }
            lemma_up_to_trans(paths[m], paths[k].push(x), q);
            assert(path_up_to(paths[m], q));
        }
    }
}

proof fn lemma_found_bound(found: Seq<Seq<char>>, target: Seq<char>, known: Seq<Seq<char>>)
    requires
        found.no_duplicates(),
        found.len() > 0,
        found[0] == target,
        forall|k: int| 0 < k < found.len() ==> known.contains(#[trigger] found[k]),
    ensures
        found.len() <= known.len() + 1,
{
    let rest = found.skip(1);
    assert(rest.no_duplicates()) by {
        assert forall|i: int, j: int| 0 <= i < rest.len() && 0 <= j < rest.len() && i != j implies rest[i]
            != rest[j] by {
            assert(rest[i] == found[i + 1]);
            assert(rest[j] == found[j + 1]);
        }
    }
    rest.unique_seq_to_set();
    known.lemma_cardinality_of_set();
    assert(rest.to_set().subset_of(known.to_set())) by {
        assert forall|x: Seq<char>| rest.to_set().contains(x) implies known.to_set().contains(x) by {
            let i = choose|i: int| 0 <= i < rest.len() && rest[i] == x;
            assert(found[i + 1] == x);
        }
    }
    vstd::set_lib::lemma_len_subset(rest.to_set(), known.to_set());
}

impl Graph {
    /// The dependents of a package.
    fn parents_of(&self, name: &str) -> (r: Vec<String>)
        ensures
            texts(r@) == self.parents(name@),
    {
        proof {
            use_type_invariant(&*self);
        }
        self.rdeps.get(name)
    }

    /// The nearest package installed on purpose that pulls in `target`, down to
    /// `target`: `[root, ..., target]`. Empty where there is none.
    pub fn chain_to_root(&self, target: &str) -> (chain: Vec<String>)
        ensures
            chain@.len() == 0 ==> forall|q: Seq<Seq<char>>| !reaches_root(*self, target@, q),
            chain@.len() > 0 ==> is_nearest(*self, target@, texts(chain@).reverse()),
    {
        proof {
            use_type_invariant(&*self);
        }
        let ghost g = *self;
        let ghost t = target@;
        let mut found: Vec<String> = Vec::new();
        let mut came_from: Vec<usize> = Vec::new();
        let mut seen = Names::new();
        found.push(target.to_owned());
        came_from.push(0);
        seen.insert(target.to_owned());
        let ghost mut paths: Seq<Seq<Seq<char>>> = seq![seq![t]];
        let ghost mut from: Seq<int> = seq![0int];
        let mut next: usize = 0;
        proof {
            assert(seen@ =~= texts(found@).to_set()) by {
                assert forall|x: Seq<char>| seen@.contains(x) == texts(found@).contains(x) by {
                    if x == t {
                        assert(texts(found@)[0] == x);
                    }
                }
            }
        }
        while next < found.len()
            invariant
                g == *self,
                g.inv(),
                t == target@,
                next <= found@.len(),
                found@.len() == came_from@.len(),
                search_state(g, t, texts(found@), paths, from),
                seen@ == texts(found@).to_set(),
                forall|k: int| 0 <= k < came_from@.len() ==> came_from@[k] == #[trigger] from[k],
                forall|k: int|
                    0 < k < found@.len() ==> 0 <= #[trigger] from[k] < next,
                forall|k: int|
                    0 < k < found@.len() ==> texts(g.dependents@).contains(
                        #[trigger] texts(found@)[k],
                    ),
                forall|k: int| 0 <= k < next ==> #[trigger] expanded(g, texts(found@), paths, k),
                forall|k: int| 0 <= k < next ==> !is_root(g, t, #[trigger] texts(found@)[k]),
            decreases g.dependents@.len() + 1 - next,
        {
            proof {
                lemma_found_bound(texts(found@), t, texts(g.dependents@));
            }
            let node = found[next].clone();
            if !same_str(node.as_str(), target) && !self.auto.contains(node.as_str()) {
                let ghost best = paths[next as int];
                assert(texts(found@)[next as int] == node@);
                proof {
                    assert forall|q: Seq<Seq<char>>| #[trigger] reaches_root(g, t, q) implies path_up_to(
                        best,
                        q,
                    ) by {
                        lemma_covered(g, t, texts(found@), paths, from, next as int, q);
                        let k = choose|k: int|
                            next <= k < found@.len() && path_up_to(#[trigger] paths[k], q);
                        lemma_up_to_trans(best, paths[k], q);
                    }
                }
                return self.trace(&found, &came_from, next, target, Ghost(paths), Ghost(from));
            }
            let parents = self.parents_of(node.as_str());
            let ghost before = found@;
            let mut j: usize = 0;
            while j < parents.len()
                invariant
                    g == *self,
                    g.inv(),
                    t == target@,
                    texts(parents@) == g.parents(node@),
                    ascending(texts(parents@)),
                    j <= parents@.len(),
                    next < found@.len(),
                    texts(found@)[next as int] == node@,
                    found@.len() == came_from@.len(),
                    search_state(g, t, texts(found@), paths, from),
                    seen@ == texts(found@).to_set(),
                    forall|k: int|
                        0 <= k < came_from@.len() ==> came_from@[k] == #[trigger] from[k],
                    forall|k: int|
                        0 < k < found@.len() ==> 0 <= #[trigger] from[k] <= next,
                    forall|k: int, l: int|
                        #![trigger from[k], texts(parents@)[l]]
                        0 < k < found@.len() && from[k] == next && j <= l < parents@.len()
                            ==> text_lt(texts(found@)[k], texts(parents@)[l]),
                    forall|k: int|
                        0 < k < found@.len() ==> texts(g.dependents@).contains(
                            #[trigger] texts(found@)[k],
                        ),
                    forall|k: int|
                        0 <= k < next ==> #[trigger] expanded(g, texts(found@), paths, k),
                    forall|k: int| 0 <= k <= next ==> !is_root(g, t, #[trigger] texts(found@)[k]),
                    forall|l: int|
                        0 <= l < j ==> exists|m: int|
                            0 <= m < found@.len() && texts(found@)[m] == #[trigger] texts(
                                parents@,
                            )[l] && path_up_to(
                                #[trigger] paths[m],
                                paths[next as int].push(texts(parents@)[l]),
                            ),
                decreases parents@.len() - j,
            {
                let ghost x = texts(parents@)[j as int];
                let ghost f0 = texts(found@);
                let ghost p0 = paths;
                let ghost r0 = from;
                let ghost fresh = paths[next as int].push(x);
                assert(g.parents(node@)[j as int] == x);
                assert(g.parents(node@).contains(x));
                assert(texts(g.dependents@).contains(x));
                proof {
                    // Whatever has been found so far has a path before this one.
                    assert forall|a: int| 0 <= a < f0.len() implies path_before(
                        #[trigger] p0[a],
                        fresh,
                    ) by {
                        if a > 0 {
                            assert(0 <= r0[a] <= next);
                            assert(p0[a] == p0[r0[a]].push(f0[a]));
                            if r0[a] < next {
                                lemma_before_push(p0[r0[a]], f0[a], p0[next as int], x);
                            } else {
                                assert(text_lt(f0[a], texts(parents@)[j as int]));
                                lemma_before_push(p0[next as int], f0[a], p0[next as int], x);
                            }
                        } else {
                            assert(climbs(g, t, p0[next as int]));
                            assert(p0[0].len() == 1);
                        }
                    }
                }
                if seen.insert(parents[j].clone()) {
                    assert(!f0.contains(x));
                    found.push(parents[j].clone());
                    came_from.push(next);
                    proof {
                        broadcast use lemma_texts_push;

                        paths = paths.push(fresh);
                        from = from.push(next as int);
                        let f1 = texts(found@);
                        assert(f1 == f0.push(x));
                        assert(fresh.drop_last() =~= p0[next as int]);
                        assert(climbs(g, t, p0[next as int]) && p0[next as int].last() == f0[next as int]);
                        assert(climbs(g, t, fresh));
                        assert(f1.no_duplicates());
                        assert forall|k: int| 0 <= k < f1.len() implies climbs(
                            g,
                            t,
                            #[trigger] paths[k],
                        ) && paths[k].last() == f1[k] by {
                            if k < f0.len() {
                                assert(paths[k] == p0[k]);
                            }
                        }
                        assert forall|k: int| #![trigger from[k]] 0 < k < f1.len() implies 0 <= from[k] < k
                            && paths[k] == paths[from[k]].push(f1[k]) && g.parents(
                            f1[from[k]],
                        ).contains(f1[k]) by {
                            if k < f0.len() {
                                assert(from[k] == r0[k]);
                            }
                        }
                        assert(search_state(g, t, f1, paths, from));
                        assert(seen@ =~= f1.to_set()) by {
                            assert forall|y: Seq<char>| seen@.contains(y) == f1.to_set().contains(y) by {
                                lemma_push_contains(f0, x, y);
                            }
                        }
                        assert forall|k: int| 0 <= k < next implies #[trigger] expanded(g, f1, paths, k) by {
                            assert(expanded(g, f0, p0, k));
                            assert forall|y: Seq<char>| #[trigger]
                                g.parents(f1[k]).contains(y) implies exists|m: int|
                                0 <= m < f1.len() && #[trigger] f1[m] == y && path_up_to(
                                    paths[m],
                                    paths[k].push(y),
                                ) by {
                                assert(g.parents(f0[k]).contains(y));
                                let m = choose|m: int|
                                    0 <= m < f0.len() && #[trigger] f0[m] == y && path_up_to(
                                        p0[m],
                                        p0[k].push(y),
                                    );
                                assert(f1[m] == y && paths[m] == p0[m] && paths[k] == p0[k]);
                            }
                        }
                    }
                } else {
                    assert(seen@ =~= f0.to_set());
                }
                proof {
                    let f1 = texts(found@);
                    assert forall|l: int| 0 <= l < j + 1 implies exists|m: int|
                        0 <= m < found@.len() && f1[m] == #[trigger] texts(parents@)[l]
                            && path_up_to(
                            #[trigger] paths[m],
                            paths[next as int].push(texts(parents@)[l]),
                        ) by {
                        if l < j {
                            let m = choose|m: int|
                                0 <= m < f0.len() && f0[m] == texts(parents@)[l] && path_up_to(
                                    #[trigger] p0[m],
                                    p0[next as int].push(texts(parents@)[l]),
                                );
                            assert(f1[m] == f0[m] && paths[m] == p0[m]);
                        } else if f0.contains(x) {
                            let m = choose|m: int| 0 <= m < f0.len() && f0[m] == x;
                            assert(path_before(p0[m], fresh));
                            assert(f1[m] == x && paths[m] == p0[m]);
                        } else {
                            let m = f0.len() as int;
                            assert(f1[m] == x && paths[m] == fresh);
                        }
                    }
                    assert forall|k: int, l: int|
                        #![trigger from[k], texts(parents@)[l]]
                        0 < k < found@.len() && from[k] == next && j + 1 <= l
                            < parents@.len() implies text_lt(f1[k], texts(parents@)[l]) by {
                        if k < f0.len() {
                            assert(from[k] == r0[k]);
                        } else {
                            assert(f1[k] == texts(parents@)[j as int]);
                        }
                    }
                }
                j += 1;
            }
            proof {
                let f1 = texts(found@);
                assert(expanded(g, f1, paths, next as int)) by {
                    assert forall|x: Seq<char>| #[trigger]
                        g.parents(f1[next as int]).contains(x) implies exists|m: int|
                        0 <= m < f1.len() && #[trigger] f1[m] == x && path_up_to(
                            paths[m],
                            paths[next as int].push(x),
                        ) by {
                        let l = choose|l: int| 0 <= l < parents@.len() && texts(parents@)[l] == x;
                        assert(texts(parents@)[l] == x);
                        let m = choose|m: int|
                            0 <= m < found@.len() && f1[m] == texts(parents@)[l] && path_up_to(
                                #[trigger] paths[m],
                                paths[next as int].push(texts(parents@)[l]),
                            );
                        assert(f1[m] == x);
                    }
                }
            }
            next += 1;
        }
        proof {
            assert forall|q: Seq<Seq<char>>| !reaches_root(g, t, q) by {
                if reaches_root(g, t, q) {
                    lemma_covered(g, t, texts(found@), paths, from, next as int, q);
                }
            }
        }
        Vec::new()
    }

    /// The path to the package found as number `at`, from its end.
    fn trace(
        &self,
        found: &Vec<String>,
        came_from: &Vec<usize>,
        at: usize,
        target: &str,
        Ghost(paths): Ghost<Seq<Seq<Seq<char>>>>,
        Ghost(from): Ghost<Seq<int>>,
    ) -> (chain: Vec<String>)
        requires
            search_state(*self, target@, texts(found@), paths, from),
            at < found@.len(),
            found@.len() == came_from@.len(),
            forall|k: int| 0 <= k < came_from@.len() ==> came_from@[k] == #[trigger] from[k],
        ensures
            chain@.len() > 0,
            texts(chain@).reverse() == paths[at as int],
    {
        let mut chain: Vec<String> = Vec::new();
        chain.push(found[at].clone());
        let mut cur: usize = at;
        let ghost best = paths[at as int];
        proof {
            assert(climbs(*self, target@, best) && best.last() == texts(found@)[at as int]);
            assert(texts(chain@) =~= seq![best.last()]);
            assert(best.take(best.len() as int) =~= best);
        }
        while cur > 0
            invariant
                search_state(*self, target@, texts(found@), paths, from),
                best == paths[at as int],
                cur < found@.len(),
                found@.len() == came_from@.len(),
                forall|k: int| 0 <= k < came_from@.len() ==> came_from@[k] == #[trigger] from[k],
                0 < paths[cur as int].len() <= best.len(),
                chain@.len() == best.len() - paths[cur as int].len() + 1,
                paths[cur as int] == best.take(paths[cur as int].len() as int),
                forall|i: int|
                    0 <= i < chain@.len() ==> #[trigger] texts(chain@)[i] == best[best.len() - 1 - i],
            decreases cur,
        {
            broadcast use lemma_texts_push;

            let ghost here = paths[cur as int];
            assert(0 <= from[cur as int] < cur);
            let parent = came_from[cur];
            let ghost there = paths[parent as int];
            assert(here == there.push(texts(found@)[cur as int]));
            assert(climbs(*self, target@, there) && there.last() == texts(found@)[parent as int]);
            assert(there =~= best.take(there.len() as int));
            assert(there.last() == best[there.len() - 1]);
            chain.push(found[parent].clone());
            cur = parent;
        }
        assert(paths[0].len() == 1);
        assert(texts(chain@).reverse() =~= best);
        chain
    }
}

// ---------------------------------------------------------------------------
// Every package that is a reason
// ---------------------------------------------------------------------------

/// `path` leads from `target` to its last package, each depending on the one
/// before it, and no package before the last is a reason of its own.
pub open spec fn leads(g: Graph, target: Seq<char>, path: Seq<Seq<char>>) -> bool
    decreases path.len(),
{
    if path.len() == 0 {
        false
    } else if path.len() == 1 {
        path[0] == target
    } else {
        &&& leads(g, target, path.drop_last())
        &&& !is_root(g, target, path.drop_last().last())
        &&& g.parents(path.drop_last().last()).contains(path.last())
    }
}

/// `name` was installed on purpose and pulls `target` in, itself or through
/// packages that came in as dependencies.
pub open spec fn is_reason(g: Graph, target: Seq<char>, name: Seq<char>) -> bool {
    is_root(g, target, name) && exists|path: Seq<Seq<char>>| #[trigger]
        leads(g, target, path) && path.last() == name
}

proof fn lemma_leads_found(
    g: Graph,
    target: Seq<char>,
    found: Seq<Seq<char>>,
    path: Seq<Seq<char>>,
)
    requires
        found.contains(target),
        forall|k: int, x: Seq<char>|
            #![trigger g.parents(found[k]).contains(x)]
            0 <= k < found.len() && !is_root(g, target, found[k]) && g.parents(found[k]).contains(x)
                ==> found.contains(x),
        leads(g, target, path),
    ensures
        found.contains(path.last()),
    decreases path.len(),
{
    if path.len() > 1 {
        lemma_leads_found(g, target, found, path.drop_last());
        let k = choose|k: int| 0 <= k < found.len() && found[k] == path.drop_last().last();
        assert(g.parents(found[k]).contains(path.last()));
    }
}

impl Graph {
    /// Every package installed on purpose that pulls in `target`, in order. The
    /// search stops at each of them: it is reason enough.
    pub fn manual_roots(&self, target: &str) -> (roots: Vec<String>)
        ensures
            ascending(texts(roots@)),
            forall|name: Seq<char>| #[trigger]
                texts(roots@).contains(name) <==> is_reason(*self, target@, name),
    {
        broadcast use lemma_texts_push;

        proof {
            use_type_invariant(&*self);
        }
        let ghost g = *self;
        let ghost t = target@;
        let mut roots: Vec<String> = Vec::new();
        let mut found: Vec<String> = Vec::new();
        let mut seen = Names::new();
        found.push(target.to_owned());
        seen.insert(target.to_owned());
        let ghost mut paths: Seq<Seq<Seq<char>>> = seq![seq![t]];
        let mut next: usize = 0;
        proof {
            assert(texts(found@) =~= seq![t]);
            assert(texts(found@)[0] == t);
            assert(seen@ =~= texts(found@).to_set());
            assert(leads(g, t, paths[0]));
        }
        while next < found.len()
            invariant
                g == *self,
                g.inv(),
                t == target@,
                next <= found@.len(),
                found@.len() == paths.len(),
                found@.len() > 0,
                texts(found@)[0] == t,
                texts(found@).no_duplicates(),
                seen@ == texts(found@).to_set(),
                forall|k: int|
                    0 <= k < found@.len() ==> leads(g, t, #[trigger] paths[k]) && paths[k].last()
                        == texts(found@)[k],
                forall|k: int|
                    0 < k < found@.len() ==> texts(g.dependents@).contains(
                        #[trigger] texts(found@)[k],
                    ),
                forall|k: int, x: Seq<char>|
                    #![trigger g.parents(texts(found@)[k]).contains(x)]
                    0 <= k < next && !is_root(g, t, texts(found@)[k]) && g.parents(
                        texts(found@)[k],
                    ).contains(x) ==> texts(found@).contains(x),
                forall|x: Seq<char>| #[trigger]
                    texts(roots@).contains(x) <==> is_root(g, t, x) && exists|k: int|
                        0 <= k < next && #[trigger] texts(found@)[k] == x,
            decreases g.dependents@.len() + 1 - next,
        {
            proof {
                lemma_found_bound(texts(found@), t, texts(g.dependents@));
            }
            let node = found[next].clone();
            let ghost f0 = texts(found@);
            let ghost n = node@;
            assert(f0[next as int] == n);
            if !same_str(node.as_str(), target) && !self.auto.contains(node.as_str()) {
                let ghost r0 = texts(roots@);
                roots.push(node);
                proof {
                    assert(texts(roots@) == r0.push(n));
                    assert forall|x: Seq<char>| #[trigger]
                        texts(roots@).contains(x) <==> is_root(g, t, x) && exists|k: int|
                            0 <= k < next + 1 && #[trigger] f0[k] == x by {
                        lemma_push_contains(r0, n, x);
                        if x == n {
                            assert(f0[next as int] == x);
                        }
                    }
                }
                next += 1;
                continue;
            }
            let parents = self.parents_of(node.as_str());
            let mut j: usize = 0;
            while j < parents.len()
                invariant
                    g == *self,
                    g.inv(),
                    t == target@,
                    texts(parents@) == g.parents(n),
                    !is_root(g, t, n),
                    f0.len() <= found@.len(),
                    next < f0.len(),
                    f0[next as int] == n,
                    forall|k: int| 0 <= k < f0.len() ==> #[trigger] texts(found@)[k] == f0[k],
                    j <= parents@.len(),
                    found@.len() == paths.len(),
                    texts(found@)[0] == t,
                    texts(found@).no_duplicates(),
                    seen@ == texts(found@).to_set(),
                    forall|k: int|
                        0 <= k < found@.len() ==> leads(g, t, #[trigger] paths[k])
                            && paths[k].last() == texts(found@)[k],
                    forall|k: int|
                        0 < k < found@.len() ==> texts(g.dependents@).contains(
                            #[trigger] texts(found@)[k],
                        ),
                    forall|x: Seq<char>| #[trigger] f0.contains(x) ==> texts(found@).contains(x),
                    forall|l: int|
                        0 <= l < j ==> texts(found@).contains(#[trigger] texts(parents@)[l]),
                decreases parents@.len() - j,
            {
                broadcast use lemma_texts_push;

                let ghost x = texts(parents@)[j as int];
                let ghost f1 = texts(found@);
                assert(g.parents(n)[j as int] == x);
                assert(g.parents(n).contains(x));
                if seen.insert(parents[j].clone()) {
                    found.push(parents[j].clone());
                    proof {
                        let fresh = paths[next as int].push(x);
                        assert(fresh.drop_last() =~= paths[next as int]);
                        assert(f1[next as int] == n);
                        assert(leads(g, t, fresh));
                        paths = paths.push(fresh);
                        assert(!f1.contains(x));
                        assert(texts(found@) == f1.push(x));
                        assert(seen@ =~= f1.push(x).to_set()) by {
                            assert forall|y: Seq<char>| seen@.contains(y) == f1.push(x).to_set().contains(
                                y,
                            ) by {
                                lemma_push_contains(f1, x, y);
                            }
                        }
                        assert forall|y: Seq<char>| f1.contains(y) || y == x implies #[trigger] texts(
                            found@,
                        ).contains(y) by {
                            lemma_push_contains(f1, x, y);
                        }
                    }
                } else {
                    assert(seen@ =~= f1.to_set());
                }
                j += 1;
            }
            proof {
                assert forall|k: int, x: Seq<char>|
                    #![trigger g.parents(texts(found@)[k]).contains(x)]
                    0 <= k < next + 1 && !is_root(g, t, texts(found@)[k]) && g.parents(
                        texts(found@)[k],
                    ).contains(x) implies texts(found@).contains(x) by {
                    if k < next {
                        assert(g.parents(f0[k]).contains(x));
                        assert(f0.contains(x));
                    } else {
                        let l = choose|l: int| 0 <= l < parents@.len() && texts(parents@)[l] == x;
                        assert(texts(found@).contains(texts(parents@)[l]));
                    }
                }
                assert forall|x: Seq<char>| #[trigger]
                    texts(roots@).contains(x) <==> is_root(g, t, x) && exists|k: int|
                        0 <= k < next + 1 && #[trigger] texts(found@)[k] == x by {
                    if texts(roots@).contains(x) {
                        let k = choose|k: int| 0 <= k < next && #[trigger] f0[k] == x;
                        assert(texts(found@)[k] == x);
                    }
                    if is_root(g, t, x) && exists|k: int|
                        0 <= k < next + 1 && #[trigger] texts(found@)[k] == x {
                        let k = choose|k: int|
                            0 <= k < next + 1 && #[trigger] texts(found@)[k] == x;
                        assert(k < next);
                        assert(f0[k] == x);
                    }
                }
            }
            next += 1;
        }
        proof {
            let f = texts(found@);
            assert(f.contains(t));
            assert forall|name: Seq<char>| texts(roots@).to_set().contains(name) <==> is_reason(
                g,
                t,
                name,
            ) by {
                if texts(roots@).contains(name) {
                    let k = choose|k: int| 0 <= k < next && #[trigger] f[k] == name;
                    assert(leads(g, t, paths[k]));
                }
                if is_reason(g, t, name) {
                    let p = choose|p: Seq<Seq<char>>| #[trigger]
                        leads(g, t, p) && p.last() == name;
                    lemma_leads_found(g, t, f, p);
                    let k = choose|k: int| 0 <= k < f.len() && f[k] == name;
                    assert(f[k] == name);
                }
            }
        }
        let ghost all = texts(roots@).to_set();
        let sorted = sort_texts(roots);
        assert forall|name: Seq<char>| #[trigger]
            texts(sorted@).contains(name) <==> is_reason(*self, target@, name) by {
            assert(texts(sorted@).to_set().contains(name) == all.contains(name));
        }
        sorted
    }
}

// ---------------------------------------------------------------------------
// Reading package records
// ---------------------------------------------------------------------------

/// A package name without its architecture.
pub open spec fn bare_name(name: Seq<char>) -> Seq<char> {
    split(name, ':')[0]
}

/// Where a package name ends in a relationship.
pub open spec fn name_end(s: Seq<char>) -> int
    decreases s.len(),
{
    if s.len() == 0 || is_space(s[0]) || s[0] == '(' || s[0] == ':' {
        0
    } else {
        1 + name_end(s.skip(1))
    }
}

/// The package name of one alternative: `libc6` of ` libc6:amd64 (>= 2.38)`.
pub open spec fn alternative_name(alt: Seq<char>) -> Seq<char> {
    trim(trim(alt).take(name_end(trim(alt))))
}

/// The names of alternatives, without the empty ones.
pub open spec fn alternative_names(alts: Seq<Seq<char>>) -> Seq<Seq<char>>
    decreases alts.len(),
{
    if alts.len() == 0 {
        seq![]
    } else {
        let before = alternative_names(alts.drop_last());
        let name = alternative_name(alts.last());
        if name.len() == 0 {
            before
        } else {
            before.push(name)
        }
    }
}

/// The names in clauses, each clause a list of alternatives.
pub open spec fn clause_names(clauses: Seq<Seq<char>>) -> Seq<Seq<char>>
    decreases clauses.len(),
{
    if clauses.len() == 0 {
        seq![]
    } else {
        clause_names(clauses.drop_last()) + alternative_names(split(clauses.last(), '|'))
    }
}

/// The package names in a relationship field such as `a (>= 1), b | c`.
pub open spec fn relation_names(field: Seq<char>) -> Seq<Seq<char>> {
    clause_names(split(field, ','))
}

/// An installed package, with what it needs and what it provides.
#[verifier::ext_equal]
pub struct RecordView {
    pub package: Seq<char>,
    pub needs: Seq<Seq<char>>,
    pub provides: Seq<Seq<char>>,
}

/// The record of one line: state, package, then the four relationship fields,
/// separated by tabs. Lines that are short or not of an installed package have
/// none.
pub open spec fn line_record(line: Seq<char>) -> Option<RecordView> {
    let f = split(line, '\t');
    if f.len() < 6 || f[0] != "installed"@ {
        None
    } else {
        Some(
            RecordView {
                package: bare_name(f[1]),
                needs: relation_names(f[2]) + relation_names(f[3]) + relation_names(f[4]),
                provides: relation_names(f[5]),
            },
        )
    }
}

/// The records of the lines that have one.
pub open spec fn line_records(ls: Seq<Seq<char>>) -> Seq<RecordView>
    decreases ls.len(),
{
    if ls.len() == 0 {
        seq![]
    } else {
        let before = line_records(ls.drop_last());
        match line_record(ls.last()) {
            Some(r) => before.push(r),
            None => before,
        }
    }
}

/// There is a record of a package of that name.
pub open spec fn has_package(records: Seq<RecordView>, name: Seq<char>) -> bool {
    exists|i: int| 0 <= i < records.len() && (#[trigger] records[i]).package == name
}

/// A package of that name provides `what`.
pub open spec fn provides(records: Seq<RecordView>, name: Seq<char>, what: Seq<char>) -> bool {
    exists|i: int|
        0 <= i < records.len() && (#[trigger] records[i]).package == name
            && records[i].provides.contains(what)
}

/// The need `what` of the package `by` is met by `name`: it is an installed
/// package of that name, or another package that provides it.
pub open spec fn meets(
    records: Seq<RecordView>,
    name: Seq<char>,
    by: Seq<char>,
    what: Seq<char>,
) -> bool {
    ||| what == name && has_package(records, name)
    ||| name != by && provides(records, name, what)
}

/// The package `by` depends on the package `name`.
pub open spec fn depends(records: Seq<RecordView>, name: Seq<char>, by: Seq<char>) -> bool {
    exists|i: int, d: int|
        0 <= i < records.len() && (#[trigger] records[i]).package == by && 0 <= d
            < records[i].needs.len() && meets(records, name, by, #[trigger] records[i].needs[d])
}

/// The package that each line names, without its architecture.
pub open spec fn bare_lines(ls: Seq<Seq<char>>) -> Seq<Seq<char>> {
    ls.map_values(|l: Seq<char>| bare_name(trim(l)))
}

/// A record as it is read.
struct Record {
    package: String,
    needs: Vec<String>,
    provides: Vec<String>,
}

impl View for Record {
    type V = RecordView;

    closed spec fn view(&self) -> RecordView {
        RecordView {
            package: self.package@,
            needs: texts(self.needs@),
            provides: texts(self.provides@),
        }
    }
}

spec fn record_views(v: Seq<Record>) -> Seq<RecordView> {
    v.map_values(|r: Record| r@)
}

fn strip_arch_of(name: &[char]) -> (r: String)
    ensures
        r@ == bare_name(name@),
{
    let parts = split_at_char(name, ':');
    assert(pieces(parts@)[0] == parts@[0]@);
    string_of(parts[0])
}

/// The package name without its architecture: `libc6` of `libc6:amd64`.
pub fn strip_arch(name: &str) -> (r: String)
    ensures
        r@ == bare_name(name@),
{
    strip_arch_of(chars_of(name).as_slice())
}

fn name_end_of(s: &[char]) -> (r: usize)
    ensures
        r == name_end(s@),
        r <= s@.len(),
{
    let mut i: usize = 0;
    assert(s@.skip(0) =~= s@);
    while i < s.len() && !space(s[i]) && s[i] != '(' && s[i] != ':'
        invariant
            i <= s@.len(),
            name_end(s@) == i + name_end(s@.skip(i as int)),
        decreases s@.len() - i,
    {
        assert(s@.skip(i as int).skip(1) =~= s@.skip(i + 1));
        i += 1;
    }
    i
}

/// Adds the names of alternatives to `names`.
fn add_alternatives(alts: &Vec<&[char]>, names: &mut Vec<String>)
    ensures
        texts(final(names)@) == texts(old(names)@) + alternative_names(pieces(alts@)),
{
    broadcast use lemma_texts_push;

    let ghost all = pieces(alts@);
    let mut i: usize = 0;
    assert(all.take(0) =~= seq![]);
    assert(texts(names@) =~= texts(old(names)@) + seq![]);
    while i < alts.len()
        invariant
            all == pieces(alts@),
            i <= alts@.len(),
            texts(names@) == texts(old(names)@) + alternative_names(all.take(i as int)),
        decreases alts@.len() - i,
    {
        broadcast use lemma_texts_push;

        assert(all.take(i + 1).drop_last() =~= all.take(i as int));
        assert(all[i as int] == alts@[i as int]@);
        let alt = trim_of(alts[i]);
        let name = trim_of(take(alt, name_end_of(alt)));
        if name.len() > 0 {
            names.push(string_of(name));
            assert(texts(names@) =~= texts(old(names)@) + alternative_names(all.take(i + 1)));
        }
        i += 1;
    }
    assert(all.take(all.len() as int) =~= all);
}

/// The package names in a relationship field.
fn names_of(field: &[char]) -> (names: Vec<String>)
    ensures
        texts(names@) == relation_names(field@),
{
    let clauses = split_at_char(field, ',');
    let ghost all = pieces(clauses@);
    let mut names: Vec<String> = Vec::new();
    let mut i: usize = 0;
    assert(all.take(0) =~= seq![]);
    assert(texts(names@) =~= seq![]);
    while i < clauses.len()
        invariant
            all == pieces(clauses@),
            i <= clauses@.len(),
            texts(names@) == clause_names(all.take(i as int)),
        decreases clauses@.len() - i,
    {
        assert(all.take(i + 1).drop_last() =~= all.take(i as int));
        assert(all[i as int] == clauses@[i as int]@);
        let alts = split_at_char(clauses[i], '|');
        add_alternatives(&alts, &mut names);
        i += 1;
    }
    assert(all.take(all.len() as int) =~= all);
    names
}

/// The bare package names in a dpkg relationship field ("a (>= 1), b | c, d"):
/// alternatives are expanded, version constraints dropped.
pub fn parse_names(field: &str) -> (names: Vec<String>)
    ensures
        texts(names@) == relation_names(field@),
{
    names_of(chars_of(field).as_slice())
}

fn read_record(line: &[char]) -> (r: Option<Record>)
    ensures
        match r {
            Some(rec) => line_record(line@) == Some(rec@),
            None => line_record(line@) is None,
        },
{
    let f = split_at_char(line, '\t');
    let ghost fs = pieces(f@);
    if f.len() < 6 {
        return None;
    }
    assert(fs[0] == f@[0]@ && fs[1] == f@[1]@ && fs[2] == f@[2]@ && fs[3] == f@[3]@ && fs[4]
        == f@[4]@ && fs[5] == f@[5]@);
    if !reads(f[0], "installed") {
        return None;
    }
    let mut needs = names_of(f[2]);
    let mut pre = names_of(f[3]);
    let mut recommended = names_of(f[4]);
    let ghost n0 = needs@;
    let ghost n1 = pre@;
    let ghost n2 = recommended@;
    needs.append(&mut pre);
    needs.append(&mut recommended);
    assert(texts(needs@) =~= texts(n0) + texts(n1) + texts(n2));
    Some(Record { package: strip_arch_of(f[1]), needs, provides: names_of(f[5]) })
}

fn read_records(text: &str) -> (v: Vec<Record>)
    ensures
        record_views(v@) == line_records(lines(text@)),
{
    let chars = chars_of(text);
    let ls = lines_of(chars.as_slice());
    let ghost all = pieces(ls@);
    let mut v: Vec<Record> = Vec::new();
    let mut i: usize = 0;
    assert(all.take(0) =~= seq![]);
    assert(record_views(v@) =~= seq![]);
    while i < ls.len()
        invariant
            all == pieces(ls@),
            i <= ls@.len(),
            record_views(v@) == line_records(all.take(i as int)),
        decreases ls@.len() - i,
    {
        assert(all.take(i + 1).drop_last() =~= all.take(i as int));
        assert(all[i as int] == ls@[i as int]@);
        if let Some(rec) = read_record(ls[i]) {
            let ghost before = v@;
            v.push(rec);
            assert(record_views(v@) =~= record_views(before).push(rec@));
        }
        i += 1;
    }
    assert(all.take(all.len() as int) =~= all);
    v
}

// ---------------------------------------------------------------------------
// Building the graph
// ---------------------------------------------------------------------------

/// Among the edges is the one from `name` to the package `by` that depends on it.
pub open spec fn has_edge(edges: Seq<(String, String)>, name: Seq<char>, by: Seq<char>) -> bool {
    exists|i: int| 0 <= i < edges.len() && (#[trigger] edges[i]).0@ == name && edges[i].1@ == by
}

proof fn lemma_has_edge_push(
    edges: Seq<(String, String)>,
    e: (String, String),
    name: Seq<char>,
    by: Seq<char>,
)
    ensures
        has_edge(edges.push(e), name, by) <==> has_edge(edges, name, by) || (e.0@ == name && e.1@
            == by),
{
    let more = edges.push(e);
    if has_edge(edges, name, by) {
        let i = choose|i: int|
            0 <= i < edges.len() && (#[trigger] edges[i]).0@ == name && edges[i].1@ == by;
        assert(more[i] == edges[i]);
    }
    if e.0@ == name && e.1@ == by {
        assert(more[edges.len() as int] == e);
    }
    if has_edge(more, name, by) && !(e.0@ == name && e.1@ == by) {
        let i = choose|i: int|
            0 <= i < more.len() && (#[trigger] more[i]).0@ == name && more[i].1@ == by;
        assert(edges[i] == more[i]);
    }
}

impl Groups {
    /// Puts every list in order, each text once.
    fn sorted(self) -> (r: Self)
        requires
            self.wf(),
        ensures
            r.wf(),
            forall|k: Seq<char>| #[trigger] ascending(r.of(k)),
            forall|k: Seq<char>, t: Seq<char>| #[trigger]
                r.of(k).contains(t) <==> self.of(k).contains(t),
    {
        let mut lists: Vec<Vec<String>> = Vec::new();
        let mut i: usize = 0;
        while i < self.lists.len()
            invariant
                i <= self.lists@.len(),
                lists@.len() == i,
                forall|j: int|
                    0 <= j < i ==> listing(
                        texts((#[trigger] lists@[j])@),
                        texts(self.lists@[j]@).to_set(),
                    ),
            decreases self.lists@.len() - i,
        {
            lists.push(sort_texts(copy_strings(&self.lists[i])));
            i += 1;
        }
        let r = Groups { index: self.index, lists };
        proof {
            assert forall|k: Seq<char>| #[trigger] ascending(r.of(k)) by {
                if self.index@.contains_key(k) {
                    assert(listing(
                        texts(lists@[self.index@[k] as int]@),
                        texts(self.lists@[self.index@[k] as int]@).to_set(),
                    ));
                }
            }
            assert forall|k: Seq<char>, t: Seq<char>| #[trigger]
                r.of(k).contains(t) <==> self.of(k).contains(t) by {
                if self.index@.contains_key(k) {
                    let at = self.index@[k] as int;
                    assert(listing(texts(lists@[at]@), texts(self.lists@[at]@).to_set()));
                    assert(texts(lists@[at]@).contains(t) == texts(self.lists@[at]@).to_set().contains(t));
                }
            }
        }
        r
    }
}

/// `g` is the graph of the records, with the packages that apt marked as
/// automatically installed.
pub open spec fn is_graph_of(g: Graph, records: Seq<RecordView>, auto: Seq<Seq<char>>) -> bool {
    &&& forall|name: Seq<char>| #[trigger]
        g.installed().contains(name) <==> has_package(records, name)
    &&& g.auto() == auto.to_set()
    &&& forall|name: Seq<char>| #[trigger] ascending(g.parents(name))
    &&& forall|name: Seq<char>, by: Seq<char>| #[trigger]
        g.parents(name).contains(by) <==> depends(records, name, by)
}

impl Graph {
    /// The graph of the given packages; each edge names a package and another
    /// that depends on it.
    pub fn from_edges(
        installed: &Vec<String>,
        auto: &Vec<String>,
        edges: &Vec<(String, String)>,
    ) -> (g: Graph)
        ensures
            g.installed() == texts(installed@).to_set(),
            g.auto() == texts(auto@).to_set(),
            forall|name: Seq<char>| #[trigger] ascending(g.parents(name)),
            forall|name: Seq<char>, by: Seq<char>| #[trigger]
                g.parents(name).contains(by) <==> has_edge(edges@, name, by),
    {
        broadcast use lemma_texts_push;

        let mut dependents: Vec<String> = Vec::new();
        let mut rdeps = Groups::new();
        let mut i: usize = 0;
        assert(edges@.take(0) =~= seq![]);
        while i < edges.len()
            invariant
                i <= edges@.len(),
                rdeps.wf(),
                forall|name: Seq<char>, by: Seq<char>| #[trigger]
                    rdeps.of(name).contains(by) <==> has_edge(edges@.take(i as int), name, by),
                forall|name: Seq<char>, by: Seq<char>| #[trigger]
                    rdeps.of(name).contains(by) ==> texts(dependents@).contains(by),
            decreases edges@.len() - i,
        {
            broadcast use lemma_texts_push;

            let ghost before = rdeps;
            let ghost d0 = texts(dependents@);
            let e = &edges[i];
            rdeps.put(e.0.as_str(), e.1.as_str());
            dependents.push(e.1.clone());
            proof {
                let x = edges@[i as int];
                assert(edges@.take(i + 1) =~= edges@.take(i as int).push(x));
                assert forall|name: Seq<char>, by: Seq<char>| #[trigger]
                    rdeps.of(name).contains(by) <==> has_edge(edges@.take(i + 1), name, by) by {
                    lemma_has_edge_push(edges@.take(i as int), x, name, by);
                    lemma_push_contains(before.of(name), x.1@, by);
                    assert(before.of(name).contains(by) <==> has_edge(edges@.take(i as int), name, by));
                }
                assert forall|name: Seq<char>, by: Seq<char>| #[trigger]
                    rdeps.of(name).contains(by) implies texts(dependents@).contains(by) by {
                    lemma_push_contains(before.of(name), x.1@, by);
                    lemma_push_contains(d0, x.1@, by);
                    assert(before.of(name).contains(by) ==> d0.contains(by));
                }
            }
            i += 1;
        }
        assert(edges@.take(edges@.len() as int) =~= edges@);
        let ghost grouped = rdeps;
        let rdeps = rdeps.sorted();
        proof {
            assert forall|name: Seq<char>, by: Seq<char>| #[trigger]
                rdeps.of(name).contains(by) <==> has_edge(edges@, name, by) by {
                assert(grouped.of(name).contains(by) <==> has_edge(edges@, name, by));
            }
            assert forall|name: Seq<char>, k: int|
                0 <= k < rdeps.of(name).len() implies texts(dependents@).contains(
                #[trigger] rdeps.of(name)[k],
            ) by {
                let by = rdeps.of(name)[k];
                assert(rdeps.of(name).contains(by));
                assert(grouped.of(name).contains(by));
            }
        }
        Graph { installed: Names::of(installed), auto: Names::of(auto), dependents, rdeps }
    }

    /// The graph of the packages in the output of `dpkg-query`, one line for each
    /// with the fields state, package, depends, pre-depends, recommends and
    /// provides; `auto` is the text of `apt-mark showauto`.
    pub fn build(packages: &Output, auto: &str) -> (r: Result<Graph, String>)
        ensures
            match r {
                Ok(g) => packages.success && is_graph_of(
                    g,
                    line_records(lines(packages.stdout@)),
                    bare_lines(lines(auto@)),
                ),
                Err(e) => !packages.success && e@ == "dpkg-query failed"@,
            },
    {
        if !packages.success {
            return Err("dpkg-query failed".to_owned());
        }
        let records = read_records(packages.stdout.as_str());
        let auto_names = auto_set(auto);
        let names = packages_of(&records);
        let edges = edges_of(&records, &names);
        let g = Graph::from_edges(&names, &auto_names, &edges);
        proof {
            let rv = record_views(records@);
            assert forall|name: Seq<char>| #[trigger]
                g.installed().contains(name) <==> has_package(rv, name) by {
                lemma_package_listed(records@, texts(names@), name);
            }
        }
        Ok(g)
    }

    /// Why `package` is on the system. With `all`, every reason is listed,
    /// without it one chain that leads to the nearest.
    pub fn explain(&self, package: &str, all: bool) -> (e: Explanation)
        ensures
            ({
                let name = bare_name(package@);
                let here = self.installed().contains(name);
                let manual = here && !self.auto().contains(name);
                &&& e.package@ == name
                &&& e.installed == here
                &&& e.manual == manual
                &&& texts(e.required_by@) == if here {
                    self.parents(name)
                } else {
                    seq![]
                }
                &&& if here && !manual && !all {
                    &&& e.chain@.len() == 0 ==> forall|q: Seq<Seq<char>>|
                        !reaches_root(*self, name, q)
                    &&& e.chain@.len() > 0 ==> is_nearest(*self, name, texts(e.chain@).reverse())
                } else {
                    e.chain@.len() == 0
                }
                &&& if here && !manual && all {
                    &&& ascending(texts(e.roots@))
                    &&& forall|n: Seq<char>| #[trigger]
                        texts(e.roots@).contains(n) <==> is_reason(*self, name, n)
                } else {
                    e.roots@.len() == 0
                }
            }),
    {
        let name = strip_arch(package);
        if !self.installed.contains(name.as_str()) {
            let none: Vec<String> = Vec::new();
            assert(texts(none@) =~= seq![]);
            return Explanation {
                package: name,
                installed: false,
                manual: false,
                required_by: none,
                chain: Vec::new(),
                roots: Vec::new(),
            };
        }
        let manual = !self.auto.contains(name.as_str());
        let required_by = self.parents_of(name.as_str());
        let chain = if !manual && !all {
            self.chain_to_root(name.as_str())
        } else {
            Vec::new()
        };
        let roots = if !manual && all {
            self.manual_roots(name.as_str())
        } else {
            Vec::new()
        };
        Explanation { package: name, installed: true, manual, required_by, chain, roots }
    }
}

/// Why a package is on the system.
#[derive(Debug)]
pub struct Explanation {
    pub package: String,
    pub installed: bool,
    pub manual: bool,
    /// Installed packages that directly depend on the target.
    pub required_by: Vec<String>,
    /// A chain from a package installed on purpose down to the target. Empty if
    /// the target is such a package itself.
    pub chain: Vec<String>,
    /// Every package installed on purpose that pulls in the target, where all
    /// are asked for.
    pub roots: Vec<String>,
}

pub struct ExplanationView {
    pub package: Seq<char>,
    pub installed: bool,
    pub manual: bool,
    pub required_by: Seq<Seq<char>>,
    pub chain: Seq<Seq<char>>,
    pub roots: Seq<Seq<char>>,
}

impl View for Explanation {
    type V = ExplanationView;

    open spec fn view(&self) -> ExplanationView {
        ExplanationView {
            package: self.package@,
            installed: self.installed,
            manual: self.manual,
            required_by: texts(self.required_by@),
            chain: texts(self.chain@),
            roots: texts(self.roots@),
        }
    }
}

/// Names apt marked as automatically installed, one in each line.
pub fn auto_set(text: &str) -> (names: Vec<String>)
    ensures
        texts(names@) == bare_lines(lines(text@)),
{
    broadcast use lemma_texts_push;

    let chars = chars_of(text);
    let ls = lines_of(chars.as_slice());
    let ghost all = pieces(ls@);
    let mut names: Vec<String> = Vec::new();
    let mut i: usize = 0;
    assert(texts(names@) =~= bare_lines(all.take(0)));
    while i < ls.len()
        invariant
            all == pieces(ls@),
            i <= ls@.len(),
            texts(names@) == bare_lines(all.take(i as int)),
        decreases ls@.len() - i,
    {
        broadcast use lemma_texts_push;

        assert(all[i as int] == ls@[i as int]@);
        names.push(strip_arch_of(trim_of(ls[i])));
        assert(texts(names@) =~= bare_lines(all.take(i + 1)));
        i += 1;
    }
    assert(all.take(all.len() as int) =~= all);
    names
}

fn packages_of(records: &Vec<Record>) -> (names: Vec<String>)
    ensures
        texts(names@) == record_views(records@).map_values(|r: RecordView| r.package),
{
    broadcast use lemma_texts_push;

    let mut names: Vec<String> = Vec::new();
    let mut i: usize = 0;
    while i < records.len()
        invariant
            i <= records@.len(),
            texts(names@) == record_views(records@).take(i as int).map_values(
                |r: RecordView| r.package,
            ),
        decreases records@.len() - i,
    {
        broadcast use lemma_texts_push;

        names.push(records[i].package.clone());
        assert(texts(names@) =~= record_views(records@).take(i + 1).map_values(
            |r: RecordView| r.package,
        ));
        i += 1;
    }
    assert(record_views(records@).take(records@.len() as int) =~= record_views(records@));
    names
}

proof fn lemma_package_listed(records: Seq<Record>, names: Seq<Seq<char>>, name: Seq<char>)
    requires
        names == record_views(records).map_values(|r: RecordView| r.package),
    ensures
        names.contains(name) <==> has_package(record_views(records), name),
{
    let rv = record_views(records);
    if names.contains(name) {
        let i = choose|i: int| 0 <= i < names.len() && names[i] == name;
        assert(rv[i].package == name);
    }
    if has_package(rv, name) {
        let i = choose|i: int| 0 <= i < rv.len() && (#[trigger] rv[i]).package == name;
        assert(names[i] == name);
    }
}

/// As `provides`, of the first `n` records.
spec fn provides_in(rv: Seq<RecordView>, n: int, name: Seq<char>, what: Seq<char>) -> bool {
    exists|i: int|
        0 <= i < n && (#[trigger] rv[i]).package == name && rv[i].provides.contains(what)
}

/// For each name, the packages that provide it.
fn providers_of(records: &Vec<Record>) -> (g: Groups)
    ensures
        g.wf(),
        forall|what: Seq<char>, name: Seq<char>| #[trigger]
            g.of(what).contains(name) <==> provides(record_views(records@), name, what),
{
    let ghost rv = record_views(records@);
    let mut g = Groups::new();
    let mut i: usize = 0;
    while i < records.len()
        invariant
            rv == record_views(records@),
            i <= records@.len(),
            g.wf(),
            forall|what: Seq<char>, name: Seq<char>| #[trigger]
                g.of(what).contains(name) <==> provides_in(rv, i as int, name, what),
        decreases records@.len() - i,
    {
        let rec = &records[i];
        let ghost g0 = g;
        let ghost own = texts(rec.provides@);
        assert(rv[i as int] == rec@);
        let mut k: usize = 0;
        while k < rec.provides.len()
            invariant
                k <= rec.provides@.len(),
                own == texts(rec.provides@),
                g.wf(),
                forall|what: Seq<char>, name: Seq<char>| #[trigger]
                    g.of(what).contains(name) <==> g0.of(what).contains(name) || (name
                        == rec.package@ && own.take(k as int).contains(what)),
            decreases rec.provides@.len() - k,
        {
            let ghost g1 = g;
            g.put(rec.provides[k].as_str(), rec.package.as_str());
            proof {
                assert(own.take(k + 1) =~= own.take(k as int).push(own[k as int]));
                assert forall|what: Seq<char>, name: Seq<char>| #[trigger]
                    g.of(what).contains(name) <==> g0.of(what).contains(name) || (name
                        == rec.package@ && own.take(k + 1).contains(what)) by {
                    lemma_push_contains(own.take(k as int), own[k as int], what);
                    lemma_push_contains(g1.of(what), rec.package@, name);
                    assert(g1.of(what).contains(name) <==> g0.of(what).contains(name) || (name
                        == rec.package@ && own.take(k as int).contains(what)));
                }
            }
            k += 1;
        }
        proof {
            assert(own.take(own.len() as int) =~= own);
            assert forall|what: Seq<char>, name: Seq<char>| #[trigger]
                g.of(what).contains(name) <==> provides_in(rv, i + 1, name, what) by {
                assert(g0.of(what).contains(name) <==> provides_in(rv, i as int, name, what));
                if provides_in(rv, i as int, name, what) {
                    let j = choose|j: int|
                        0 <= j < i && (#[trigger] rv[j]).package == name && rv[j].provides.contains(
                            what,
                        );
                    assert(rv[j].package == name);
                }
                if name == rec.package@ && own.contains(what) {
                    assert(rv[i as int].package == name);
                }
                if provides_in(rv, i + 1, name, what) {
                    let j = choose|j: int|
                        0 <= j < i + 1 && (#[trigger] rv[j]).package == name
                            && rv[j].provides.contains(what);
                    assert(rv[j].package == name);
                }
            }
        }
        i += 1;
    }
    proof {
        assert forall|what: Seq<char>, name: Seq<char>| #[trigger]
            g.of(what).contains(name) <==> provides(rv, name, what) by {
            assert(provides_in(rv, rv.len() as int, name, what) <==> provides(rv, name, what));
        }
    }
    g
}

/// As `depends`, of the needs before number `d` of record `n`.
spec fn depends_in(rv: Seq<RecordView>, n: int, d: int, name: Seq<char>, by: Seq<char>) -> bool {
    exists|i: int, k: int|
        0 <= i < rv.len() && (i < n || (i == n && k < d)) && (#[trigger] rv[i]).package == by && 0
            <= k < rv[i].needs.len() && meets(rv, name, by, #[trigger] rv[i].needs[k])
}

proof fn lemma_depends_step(rv: Seq<RecordView>, n: int, d: int, name: Seq<char>, by: Seq<char>)
    requires
        0 <= n < rv.len(),
        0 <= d < rv[n].needs.len(),
    ensures
        depends_in(rv, n, d + 1, name, by) <==> depends_in(rv, n, d, name, by) || (rv[n].package
            == by && meets(rv, name, by, rv[n].needs[d])),
{
    if depends_in(rv, n, d, name, by) {
        let (i, k) = choose|i: int, k: int|
            0 <= i < rv.len() && (i < n || (i == n && k < d)) && (#[trigger] rv[i]).package == by
                && 0 <= k < rv[i].needs.len() && meets(rv, name, by, #[trigger] rv[i].needs[k]);
        assert(rv[i].package == by && meets(rv, name, by, rv[i].needs[k]));
    }
    if rv[n].package == by && meets(rv, name, by, rv[n].needs[d]) {
        assert(depends_in(rv, n, d + 1, name, by));
    }
    if depends_in(rv, n, d + 1, name, by) {
        let (i, k) = choose|i: int, k: int|
            0 <= i < rv.len() && (i < n || (i == n && k < d + 1)) && (#[trigger] rv[i]).package
                == by && 0 <= k < rv[i].needs.len() && meets(
                rv,
                name,
                by,
                #[trigger] rv[i].needs[k],
            );
        assert(rv[i].package == by && meets(rv, name, by, rv[i].needs[k]));
    }
}

proof fn lemma_depends_next(rv: Seq<RecordView>, n: int, name: Seq<char>, by: Seq<char>)
    requires
        0 <= n < rv.len(),
    ensures
        depends_in(rv, n + 1, 0, name, by) <==> depends_in(
            rv,
            n,
            rv[n].needs.len() as int,
            name,
            by,
        ),
{
    let len = rv[n].needs.len() as int;
    if depends_in(rv, n + 1, 0, name, by) {
        let (i, k) = choose|i: int, k: int|
            0 <= i < rv.len() && (i < n + 1 || (i == n + 1 && k < 0)) && (
            #[trigger] rv[i]).package == by && 0 <= k < rv[i].needs.len() && meets(
                rv,
                name,
                by,
                #[trigger] rv[i].needs[k],
            );
        assert(rv[i].package == by && meets(rv, name, by, rv[i].needs[k]));
    }
    if depends_in(rv, n, len, name, by) {
        let (i, k) = choose|i: int, k: int|
            0 <= i < rv.len() && (i < n || (i == n && k < len)) && (#[trigger] rv[i]).package == by
                && 0 <= k < rv[i].needs.len() && meets(rv, name, by, #[trigger] rv[i].needs[k]);
        assert(rv[i].package == by && meets(rv, name, by, rv[i].needs[k]));
    }
}

/// Adds an edge from each provider, other than the package itself.
fn add_providers(providers: &Vec<String>, by: &String, edges: &mut Vec<(String, String)>)
    ensures
        forall|n: Seq<char>, b: Seq<char>| #[trigger]
            has_edge(final(edges)@, n, b) <==> has_edge(old(edges)@, n, b) || (b == by@ && n != by@
                && texts(providers@).contains(n)),
{
    let ghost all = texts(providers@);
    let mut k: usize = 0;
    while k < providers.len()
        invariant
            k <= providers@.len(),
            all == texts(providers@),
            forall|n: Seq<char>, b: Seq<char>| #[trigger]
                has_edge(edges@, n, b) <==> has_edge(old(edges)@, n, b) || (b == by@ && n != by@
                    && all.take(k as int).contains(n)),
        decreases providers@.len() - k,
    {
        let ghost e1 = edges@;
        let ghost x = all[k as int];
        let ghost mut pushed = false;
        if !same_str(providers[k].as_str(), by.as_str()) {
            edges.push((providers[k].clone(), by.clone()));
            proof {
                pushed = true;
            }
        }
        proof {
            assert(all.take(k + 1) =~= all.take(k as int).push(x));
            assert forall|n: Seq<char>, b: Seq<char>| #[trigger]
                has_edge(edges@, n, b) <==> has_edge(old(edges)@, n, b) || (b == by@ && n != by@
                    && all.take(k + 1).contains(n)) by {
                lemma_push_contains(all.take(k as int), x, n);
                assert(has_edge(e1, n, b) <==> has_edge(old(edges)@, n, b) || (b == by@ && n != by@
                    && all.take(k as int).contains(n)));
                if pushed {
                    lemma_has_edge_push(e1, edges@.last(), n, b);
                    assert(edges@ == e1.push(edges@.last()));
                }
            }
        }
        k += 1;
    }
    assert(all.take(all.len() as int) =~= all);
}

/// An edge for each package and each of its needs, to the package that needs it.
fn edges_of(records: &Vec<Record>, names: &Vec<String>) -> (edges: Vec<(String, String)>)
    requires
        texts(names@) == record_views(records@).map_values(|r: RecordView| r.package),
    ensures
        forall|name: Seq<char>, by: Seq<char>| #[trigger]
            has_edge(edges@, name, by) <==> depends(record_views(records@), name, by),
{
    let ghost rv = record_views(records@);
    let installed = Names::of(names);
    let providers = providers_of(records);
    let mut edges: Vec<(String, String)> = Vec::new();
    let mut i: usize = 0;
    while i < records.len()
        invariant
            rv == record_views(records@),
            i <= records@.len(),
            texts(names@) == rv.map_values(|r: RecordView| r.package),
            installed@ == texts(names@).to_set(),
            providers.wf(),
            forall|what: Seq<char>, name: Seq<char>| #[trigger]
                providers.of(what).contains(name) <==> provides(rv, name, what),
            forall|name: Seq<char>, by: Seq<char>| #[trigger]
                has_edge(edges@, name, by) <==> depends_in(rv, i as int, 0, name, by),
        decreases records@.len() - i,
    {
        let rec = &records[i];
        assert(rv[i as int] == rec@);
        let mut d: usize = 0;
        while d < rec.needs.len()
            invariant
                rv == record_views(records@),
                i < records@.len(),
                rv[i as int] == rec@,
                d <= rec.needs@.len(),
                texts(names@) == rv.map_values(|r: RecordView| r.package),
                installed@ == texts(names@).to_set(),
                providers.wf(),
                forall|what: Seq<char>, name: Seq<char>| #[trigger]
                    providers.of(what).contains(name) <==> provides(rv, name, what),
                forall|name: Seq<char>, by: Seq<char>| #[trigger]
                    has_edge(edges@, name, by) <==> depends_in(rv, i as int, d as int, name, by),
            decreases rec.needs@.len() - d,
        {
            let need = rec.needs[d].as_str();
            let ghost e0 = edges@;
            let ghost mut pushed = false;
            assert(rv[i as int].needs[d as int] == need@);
            if installed.contains(need) {
                edges.push((need.to_owned(), rec.package.clone()));
                proof {
                    pushed = true;
                }
            }
            let ghost e1 = edges@;
            let who = providers.get(need);
            add_providers(&who, &rec.package, &mut edges);
            proof {
                assert forall|name: Seq<char>, by: Seq<char>| #[trigger]
                    has_edge(edges@, name, by) <==> depends_in(rv, i as int, d + 1, name, by) by {
                    lemma_depends_step(rv, i as int, d as int, name, by);
                    lemma_package_listed(records@, texts(names@), need@);
                    if pushed {
                        lemma_has_edge_push(e0, e1.last(), name, by);
                        assert(e1 == e0.push(e1.last()));
                    }
                    assert(has_edge(e0, name, by) <==> depends_in(rv, i as int, d as int, name, by));
                    assert(has_edge(edges@, name, by) <==> has_edge(e1, name, by) || (by
                        == rec.package@ && name != by && providers.of(need@).contains(name)));
                    assert(installed@.contains(need@) <==> has_package(rv, need@));
                }
            }
            d += 1;
        }
        proof {
            assert forall|name: Seq<char>, by: Seq<char>| #[trigger]
                has_edge(edges@, name, by) <==> depends_in(rv, i + 1, 0, name, by) by {
                lemma_depends_next(rv, i as int, name, by);
            }
        }
        i += 1;
    }
    proof {
        assert forall|name: Seq<char>, by: Seq<char>| #[trigger]
            has_edge(edges@, name, by) <==> depends(rv, name, by) by {
            if depends(rv, name, by) {
                let (a, k) = choose|a: int, k: int|
                    0 <= a < rv.len() && (#[trigger] rv[a]).package == by && 0 <= k
                        < rv[a].needs.len() && meets(rv, name, by, #[trigger] rv[a].needs[k]);
                assert(rv[a].package == by && meets(rv, name, by, rv[a].needs[k]));
                assert(depends_in(rv, rv.len() as int, 0, name, by));
            }
            if depends_in(rv, rv.len() as int, 0, name, by) {
                let (a, k) = choose|a: int, k: int|
                    0 <= a < rv.len() && (a < rv.len() || (a == rv.len() && k < 0)) && (
                    #[trigger] rv[a]).package == by && 0 <= k < rv[a].needs.len() && meets(
                        rv,
                        name,
                        by,
                        #[trigger] rv[a].needs[k],
                    );
                assert(rv[a].package == by && meets(rv, name, by, rv[a].needs[k]));
            }
        }
    }
    edges
}

// ---------------------------------------------------------------------------
// Laws
// ---------------------------------------------------------------------------

proof fn lemma_climbs_take(g: Graph, target: Seq<char>, path: Seq<Seq<char>>, k: int)
    requires
        climbs(g, target, path),
        1 <= k <= path.len(),
    ensures
        climbs(g, target, path.take(k)),
    decreases path.len(),
{
    if k < path.len() {
        lemma_climbs_take(g, target, path.drop_last(), k);
        assert(path.drop_last().take(k) =~= path.take(k));
    } else {
        assert(path.take(k) =~= path);
    }
}

/// A chain begins at a package that was installed on purpose and ends at the one
/// that was asked about; each package in it depends on the next.
pub proof fn a_chain_leads_from_a_root_to_the_package(
    g: Graph,
    target: Seq<char>,
    chain: Seq<Seq<char>>,
)
    requires
        is_nearest(g, target, chain.reverse()),
    ensures
        chain.len() >= 2,
        !g.auto().contains(chain[0]),
        chain.last() == target,
        forall|i: int|
            0 <= i < chain.len() - 1 ==> g.parents(chain[i + 1]).contains(#[trigger] chain[i]),
{
    let path = chain.reverse();
    assert(path.last() == chain[0]);
    lemma_climbs_take(g, target, path, 1);
    assert(path.take(1)[0] == path[0]);
    assert forall|i: int| 0 <= i < chain.len() - 1 implies g.parents(chain[i + 1]).contains(
        #[trigger] chain[i],
    ) by {
        let k = chain.len() - i;
        lemma_climbs_take(g, target, path, k);
        let up = path.take(k);
        assert(up.last() == chain[i]);
        assert(up.drop_last().last() == chain[i + 1]);
    }
}

proof fn lemma_nearest_leads(g: Graph, target: Seq<char>, path: Seq<Seq<char>>, k: int)
    requires
        is_nearest(g, target, path),
        1 <= k <= path.len(),
    ensures
        leads(g, target, path.take(k)),
    decreases k,
{
    lemma_climbs_take(g, target, path, k);
    let up = path.take(k);
    if k > 1 {
        lemma_nearest_leads(g, target, path, k - 1);
        assert(up.drop_last() =~= path.take(k - 1));
        lemma_climbs_take(g, target, path, k - 1);
        if is_root(g, target, path.take(k - 1).last()) {
            assert(reaches_root(g, target, path.take(k - 1)));
            assert(path_up_to(path, path.take(k - 1)));
        }
    }
}

/// The package that a chain begins at is one of the reasons that are listed
/// where all are asked for.
pub proof fn a_chain_begins_at_a_reason(g: Graph, target: Seq<char>, chain: Seq<Seq<char>>)
    requires
        is_nearest(g, target, chain.reverse()),
    ensures
        is_reason(g, target, chain[0]),
{
    let path = chain.reverse();
    lemma_nearest_leads(g, target, path, path.len() as int);
    assert(path.take(path.len() as int) =~= path);
    assert(path.last() == chain[0]);
}

proof fn lemma_leads_or_reason(g: Graph, target: Seq<char>, path: Seq<Seq<char>>)
    requires
        climbs(g, target, path),
    ensures
        leads(g, target, path) || exists|n: Seq<char>| is_reason(g, target, n),
    decreases path.len(),
{
    if path.len() > 1 {
        let before = path.drop_last();
        lemma_leads_or_reason(g, target, before);
        if leads(g, target, before) && is_root(g, target, before.last()) {
            assert(is_reason(g, target, before.last()));
        }
    }
}

proof fn lemma_leads_climbs(g: Graph, target: Seq<char>, path: Seq<Seq<char>>)
    requires
        leads(g, target, path),
    ensures
        climbs(g, target, path),
    decreases path.len(),
{
    if path.len() > 1 {
        lemma_leads_climbs(g, target, path.drop_last());
    }
}

/// There is a chain exactly where there is a reason.
pub proof fn a_chain_is_found_where_there_is_a_reason(g: Graph, target: Seq<char>)
    ensures
        (exists|n: Seq<char>| is_reason(g, target, n)) <==> (exists|q: Seq<Seq<char>>|
            reaches_root(g, target, q)),
{
    if exists|n: Seq<char>| is_reason(g, target, n) {
        let n = choose|n: Seq<char>| is_reason(g, target, n);
        let path = choose|path: Seq<Seq<char>>| #[trigger]
            leads(g, target, path) && path.last() == n;
        lemma_leads_climbs(g, target, path);
        assert(reaches_root(g, target, path));
    }
    if exists|q: Seq<Seq<char>>| reaches_root(g, target, q) {
        let q = choose|q: Seq<Seq<char>>| reaches_root(g, target, q);
        lemma_leads_or_reason(g, target, q);
        if leads(g, target, q) {
            assert(is_reason(g, target, q.last()));
        }
    }
}

} // verus!
