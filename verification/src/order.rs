//! Ordering texts, and stable sorting.

use vstd::prelude::*;

use crate::text::{chars_of, same_str, texts};

verus! {

// ---------------------------------------------------------------------------
// The order of texts
// ---------------------------------------------------------------------------

/// `a` comes no later than `b` in the dictionary order by code point, which is
/// the order of strings by their bytes in UTF-8.
pub open spec fn text_le(a: Seq<char>, b: Seq<char>) -> bool
    decreases a.len(),
{
    if a.len() == 0 {
        true
    } else if b.len() == 0 {
        false
    } else if a[0] == b[0] {
        text_le(a.skip(1), b.skip(1))
    } else {
        (a[0] as int) < (b[0] as int)
    }
}

/// `a` comes before `b`.
pub open spec fn text_lt(a: Seq<char>, b: Seq<char>) -> bool {
    text_le(a, b) && a != b
}

pub proof fn lemma_text_le_refl(a: Seq<char>)
    ensures
        text_le(a, a),
    decreases a.len(),
{
    if a.len() > 0 {
        lemma_text_le_refl(a.skip(1));
    }
}

pub proof fn lemma_text_le_total(a: Seq<char>, b: Seq<char>)
    ensures
        text_le(a, b) || text_le(b, a),
    decreases a.len(),
{
    if a.len() > 0 && b.len() > 0 && a[0] == b[0] {
        lemma_text_le_total(a.skip(1), b.skip(1));
    }
}

pub proof fn lemma_text_le_antisym(a: Seq<char>, b: Seq<char>)
    requires
        text_le(a, b),
        text_le(b, a),
    ensures
        a == b,
    decreases a.len(),
{
    if a.len() > 0 && b.len() > 0 {
        lemma_text_le_antisym(a.skip(1), b.skip(1));
        assert(a =~= seq![a[0]] + a.skip(1));
        assert(b =~= seq![b[0]] + b.skip(1));
    } else {
        assert(a =~= b);
    }
}

pub proof fn lemma_text_le_trans(a: Seq<char>, b: Seq<char>, c: Seq<char>)
    requires
        text_le(a, b),
        text_le(b, c),
    ensures
        text_le(a, c),
    decreases a.len(),
{
    if a.len() > 0 && b.len() > 0 && c.len() > 0 && a[0] == b[0] && b[0] == c[0] {
        lemma_text_le_trans(a.skip(1), b.skip(1), c.skip(1));
    }
}

pub proof fn lemma_text_lt_trans(a: Seq<char>, b: Seq<char>, c: Seq<char>)
    requires
        text_lt(a, b),
        text_le(b, c),
    ensures
        text_lt(a, c),
{
    lemma_text_le_trans(a, b, c);
    if a == c {
        lemma_text_le_antisym(a, b);
    }
}

/// `a` has the smaller code point.
fn earlier(a: char, b: char) -> (r: bool)
    ensures
        r == ((a as int) < (b as int)),
{
    (a as u32) < (b as u32)
}

/// `a` comes no later than `b`.
pub fn comes_first(a: &str, b: &str) -> (r: bool)
    ensures
        r == text_le(a@, b@),
{
    let first = chars_of(a);
    let second = chars_of(b);
    let mut i: usize = 0;
    assert(first@.skip(0) =~= a@);
    assert(second@.skip(0) =~= b@);
    loop
        invariant
            i <= first@.len(),
            i <= second@.len(),
            text_le(a@, b@) == text_le(first@.skip(i as int), second@.skip(i as int)),
        decreases first@.len() - i,
    {
        if i == first.len() {
            return true;
        }
        if i == second.len() {
            return false;
        }
        assert(first@.skip(i as int).skip(1) =~= first@.skip(i + 1));
        assert(second@.skip(i as int).skip(1) =~= second@.skip(i + 1));
        if first[i] != second[i] {
            return earlier(first[i], second[i]);
        }
        i += 1;
    }
}

// ---------------------------------------------------------------------------
// Stable sorting
// ---------------------------------------------------------------------------

/// A type whose values are ranked, so that any two can be put in order. Values
/// of one rank need not be equal.
pub trait Ranked: Sized {
    /// `self` ranks no later than `other`.
    spec fn rank_le(&self, other: &Self) -> bool;

    proof fn rank_total(a: &Self, b: &Self)
        ensures
            a.rank_le(b) || b.rank_le(a),
    ;

    proof fn rank_trans(a: &Self, b: &Self, c: &Self)
        requires
            a.rank_le(b),
            b.rank_le(c),
        ensures
            a.rank_le(c),
    ;

    /// Whether `self` ranks no later than `other`.
    fn at_most(&self, other: &Self) -> (r: bool)
        ensures
            r == self.rank_le(other),
    ;
}

/// `p` says where in `s` each item of `out` comes from: every item of `s` comes
/// once, earlier items come no later by `le` than later ones, and items of which
/// neither comes first keep the order that they have in `s`.
pub open spec fn puts_in_order<A>(
    p: Seq<int>,
    out: Seq<A>,
    s: Seq<A>,
    le: spec_fn(A, A) -> bool,
) -> bool {
    &&& p.len() == out.len()
    &&& p.len() == s.len()
    &&& p.no_duplicates()
    &&& forall|i: int| 0 <= i < p.len() ==> 0 <= #[trigger] p[i] < s.len() && out[i] == s[p[i]]
    &&& forall|i: int, j: int|
        #![trigger out[i], out[j]]
        #![trigger p[i], p[j]]
        0 <= i < j < p.len() ==> le(out[i], out[j]) && (le(out[j], out[i]) ==> p[i] < p[j])
}

/// `out` holds the items of `s` in order by `le`, and items of which neither
/// comes first in the order in which `s` has them.
pub open spec fn in_order<A>(out: Seq<A>, s: Seq<A>, le: spec_fn(A, A) -> bool) -> bool {
    exists|p: Seq<int>| #[trigger] puts_in_order(p, out, s, le)
}

/// The order of ranks.
pub open spec fn by_rank<T: Ranked>() -> spec_fn(T, T) -> bool {
    |a: T, b: T| a.rank_le(&b)
}

/// Every position is where some item comes from.
proof fn lemma_all_placed(p: Seq<int>, n: int, x: int)
    requires
        p.len() == n,
        p.no_duplicates(),
        forall|i: int| 0 <= i < p.len() ==> 0 <= #[trigger] p[i] < n,
        0 <= x < n,
    ensures
        p.contains(x),
{
    let range = vstd::set_lib::set_int_range(0, n);
    vstd::set_lib::lemma_int_range(0, n);
    p.unique_seq_to_set();
    assert(p.to_set().subset_of(range));
    vstd::set_lib::lemma_subset_equality(p.to_set(), range);
    assert(range.contains(x));
}

/// What is put in order holds the same items.
pub proof fn lemma_in_order_contains<A>(out: Seq<A>, s: Seq<A>, le: spec_fn(A, A) -> bool, x: A)
    requires
        in_order(out, s, le),
    ensures
        out.contains(x) <==> s.contains(x),
        out.len() == s.len(),
{
    let p = choose|p: Seq<int>| #[trigger] puts_in_order(p, out, s, le);
    if out.contains(x) {
        let i = choose|i: int| 0 <= i < out.len() && out[i] == x;
        assert(s[p[i]] == x);
    }
    if s.contains(x) {
        let k = choose|k: int| 0 <= k < s.len() && s[k] == x;
        lemma_all_placed(p, s.len() as int, k);
        let i = choose|i: int| 0 <= i < p.len() && p[i] == k;
        assert(out[i] == x);
    }
}

/// What is put in order holds as many items.
pub proof fn lemma_in_order_len<A>(out: Seq<A>, s: Seq<A>, le: spec_fn(A, A) -> bool)
    requires
        in_order(out, s, le),
    ensures
        out.len() == s.len(),
{
    let p = choose|p: Seq<int>| #[trigger] puts_in_order(p, out, s, le);
    assert(p.len() == s.len());
}

/// What is put in order is in order under another view of the items, too.
pub proof fn lemma_in_order_mapped<A, B>(
    out: Seq<A>,
    s: Seq<A>,
    le: spec_fn(A, A) -> bool,
    f: spec_fn(A) -> B,
    le2: spec_fn(B, B) -> bool,
)
    requires
        in_order(out, s, le),
        forall|i: int, j: int|
            #![trigger s[i], s[j]]
            0 <= i < s.len() && 0 <= j < s.len() ==> le(s[i], s[j]) == le2(f(s[i]), f(s[j])),
    ensures
        in_order(out.map_values(f), s.map_values(f), le2),
{
    let p = choose|p: Seq<int>| #[trigger] puts_in_order(p, out, s, le);
    let o2 = out.map_values(f);
    let s2 = s.map_values(f);
    assert forall|i: int, j: int|
        #![trigger o2[i], o2[j]]
        #![trigger p[i], p[j]]
        0 <= i < j < p.len() implies le2(o2[i], o2[j]) && (le2(o2[j], o2[i]) ==> p[i] < p[j]) by {
        assert(o2[i] == f(out[i]) && o2[j] == f(out[j]));
        assert(out[i] == s[p[i]] && out[j] == s[p[j]]);
    }
    assert(puts_in_order(p, o2, s2, le2));
}

proof fn lemma_same_places<A>(p: Seq<int>, q: Seq<int>, s: Seq<A>, le: spec_fn(A, A) -> bool)
    requires
        p.len() == q.len(),
        forall|i: int, j: int|
            #![trigger s[p[i]], s[p[j]]]
            #![trigger p[i], p[j]]
            0 <= i < j < p.len() ==> le(s[p[i]], s[p[j]]) && (le(s[p[j]], s[p[i]]) ==> p[i] < p[j]),
        forall|i: int, j: int|
            #![trigger s[q[i]], s[q[j]]]
            #![trigger q[i], q[j]]
            0 <= i < j < q.len() ==> le(s[q[i]], s[q[j]]) && (le(s[q[j]], s[q[i]]) ==> q[i] < q[j]),
        p.no_duplicates(),
        q.no_duplicates(),
        forall|x: int| #[trigger] p.contains(x) <==> q.contains(x),
    ensures
        p == q,
    decreases p.len(),
{
    if p.len() > 0 {
        let a = p.last();
        let b = q.last();
        assert(p.contains(a) && q.contains(b));
        assert(q.contains(a) && p.contains(b));
        let i = choose|i: int| 0 <= i < p.len() && p[i] == b;
        let j = choose|j: int| 0 <= j < q.len() && q[j] == a;
        if a != b {
            assert(i < p.len() - 1 && j < q.len() - 1);
            let last = p.len() - 1;
            assert(p[i] == b && p[last] == a);
            assert(q[j] == a && q[last] == b);
        }
        assert(a == b);
        let p1 = p.drop_last();
        let q1 = q.drop_last();
        assert forall|x: int| #[trigger] p1.contains(x) <==> q1.contains(x) by {
            if p1.contains(x) {
                let k = choose|k: int| 0 <= k < p1.len() && p1[k] == x;
                assert(p[k] == x);
                assert(p.contains(x));
                assert(q.contains(x));
                let m = choose|m: int| 0 <= m < q.len() && q[m] == x;
                assert(q1[m] == x);
            }
            if q1.contains(x) {
                let k = choose|k: int| 0 <= k < q1.len() && q1[k] == x;
                assert(q[k] == x);
                assert(p.contains(x));
                let m = choose|m: int| 0 <= m < p.len() && p[m] == x;
                assert(p1[m] == x);
            }
        }
        lemma_same_places(p1, q1, s, le);
        assert(p =~= p1.push(a));
        assert(q =~= q1.push(b));
    }
}

/// There is one way only to put items in order.
pub proof fn order_is_unique<A>(out: Seq<A>, other: Seq<A>, s: Seq<A>, le: spec_fn(A, A) -> bool)
    requires
        in_order(out, s, le),
        in_order(other, s, le),
    ensures
        out == other,
{
    let p = choose|p: Seq<int>| #[trigger] puts_in_order(p, out, s, le);
    let q = choose|q: Seq<int>| #[trigger] puts_in_order(q, other, s, le);
    assert forall|x: int| #[trigger] p.contains(x) <==> q.contains(x) by {
        if p.contains(x) {
            lemma_all_placed(q, s.len() as int, x);
        }
        if q.contains(x) {
            lemma_all_placed(p, s.len() as int, x);
        }
    }
    assert forall|i: int, j: int|
        #![trigger s[p[i]], s[p[j]]]
        #![trigger p[i], p[j]]
        0 <= i < j < p.len() implies le(s[p[i]], s[p[j]]) && (le(s[p[j]], s[p[i]]) ==> p[i]
        < p[j]) by {
        assert(out[i] == s[p[i]] && out[j] == s[p[j]]);
    }
    assert forall|i: int, j: int|
        #![trigger s[q[i]], s[q[j]]]
        #![trigger q[i], q[j]]
        0 <= i < j < q.len() implies le(s[q[i]], s[q[j]]) && (le(s[q[j]], s[q[i]]) ==> q[i]
        < q[j]) by {
        assert(other[i] == s[q[i]] && other[j] == s[q[j]]);
    }
    lemma_same_places(p, q, s, le);
    assert forall|i: int| 0 <= i < out.len() implies out[i] == other[i] by {
        assert(out[i] == s[p[i]] && other[i] == s[q[i]]);
    }
    assert(out =~= other);
}

/// Earlier items rank no later than later ones.
pub open spec fn ranked_up<T: Ranked>(s: Seq<T>) -> bool {
    forall|i: int, j: int|
        #![trigger s[i], s[j]]
        0 <= i < j < s.len() ==> s[i].rank_le(&s[j])
}

pub proof fn lemma_in_order_ranked<T: Ranked>(out: Seq<T>, s: Seq<T>)
    requires
        in_order(out, s, by_rank::<T>()),
    ensures
        ranked_up(out),
{
    let p = choose|p: Seq<int>| #[trigger] puts_in_order(p, out, s, by_rank::<T>());
    assert forall|i: int, j: int|
        #![trigger out[i], out[j]]
        0 <= i < j < out.len() implies out[i].rank_le(&out[j]) by {
        assert(0 <= p[i] && 0 <= p[j]);
    }
}

/// The merge of two runs, of which the first goes before the second where the
/// ranks are the same.
fn merge_runs<T: Ranked>(left: Vec<T>, right: Vec<T>) -> (out: Vec<T>)
    requires
        ranked_up(left@),
        ranked_up(right@),
    ensures
        in_order(out@, left@ + right@, by_rank::<T>()),
{
    let ghost l0 = left@;
    let ghost r0 = right@;
    let ghost all = l0 + r0;
    let ghost n = l0.len() as int;
    let mut left = left;
    let mut right = right;
    // The largest items found so far, the largest first.
    let mut down: Vec<T> = Vec::new();
    let ghost mut up: Seq<T> = seq![];
    let ghost mut q: Seq<int> = seq![];
    loop
        invariant
            ranked_up(l0),
            ranked_up(r0),
            n == l0.len(),
            all == l0 + r0,
            left@.len() <= l0.len(),
            right@.len() <= r0.len(),
            left@ == l0.take(left@.len() as int),
            right@ == r0.take(right@.len() as int),
            up.len() == down@.len(),
            up.len() == q.len(),
            left@.len() + right@.len() + up.len() == all.len(),
            forall|i: int| 0 <= i < up.len() ==> #[trigger] up[i] == down@[up.len() - 1 - i],
            q.no_duplicates(),
            forall|k: int|
                0 <= k < q.len() ==> (left@.len() <= #[trigger] q[k] < n || n + right@.len() <= q[k]
                    < all.len()) && up[k] == all[q[k]],
            forall|i: int, j: int|
                #![trigger up[i], up[j]]
                0 <= i < j < q.len() ==> up[i].rank_le(&up[j]) && (up[j].rank_le(&up[i]) ==> q[i]
                    < q[j]),
            forall|i: int, j: int|
                #![trigger l0[i], up[j]]
                0 <= i < left@.len() && 0 <= j < up.len() ==> l0[i].rank_le(&up[j]),
            forall|i: int, j: int|
                #![trigger r0[i], up[j]]
                0 <= i < right@.len() && 0 <= j < up.len() ==> r0[i].rank_le(&up[j]) && (q[j] < n
                    ==> !up[j].rank_le(&r0[i])),
        ensures
            left@.len() == 0,
            right@.len() == 0,
        decreases left@.len() + right@.len(),
    {
        let ghost a = left@.len() as int;
        let ghost b = right@.len() as int;
        let ghost u1 = up;
        let ghost q1 = q;
        if left.len() == 0 && right.len() == 0 {
            break;
        }
        let from_left = if left.len() == 0 {
            false
        } else if right.len() == 0 {
            true
        } else {
            // The last of the left run comes out last only if it ranks later.
            !left[left.len() - 1].at_most(&right[right.len() - 1])
        };
        if from_left {
            let item = left.pop().unwrap();
            proof {
                assert(item == l0[a - 1]);
                up = seq![item] + u1;
                q = seq![a - 1] + q1;
                assert(left@ =~= l0.take(a - 1));
                assert(all[a - 1] == item);
                assert forall|i: int| 0 <= i < b implies (#[trigger] r0[i]).rank_le(&item)
                    && !item.rank_le(&r0[i]) by {
                    let last = r0[b - 1];
                    T::rank_total(&item, &last);
                    if i < b - 1 {
                        assert(r0[i].rank_le(&r0[b - 1]));
                        T::rank_trans(&r0[i], &last, &item);
                        if item.rank_le(&r0[i]) {
                            T::rank_trans(&item, &r0[i], &last);
                        }
                    }
                }
                assert forall|i: int| 0 <= i < a - 1 implies (#[trigger] l0[i]).rank_le(&item) by {
                    assert(l0[i].rank_le(&l0[a - 1]));
                }
                assert forall|j: int| 0 <= j < q1.len() implies item.rank_le(&u1[j]) && a - 1
                    < #[trigger] q1[j] by {
                    assert(l0[a - 1].rank_le(&u1[j]));
                }
                assert forall|k: int| 0 < k < q.len() implies #[trigger] q[k] == q1[k - 1] && up[k]
                    == u1[k - 1] by {
                }
            }
            down.push(item);
        } else {
            let item = right.pop().unwrap();
            proof {
                assert(item == r0[b - 1]);
                up = seq![item] + u1;
                q = seq![n + b - 1] + q1;
                assert(right@ =~= r0.take(b - 1));
                assert(all[n + b - 1] == item);
                assert forall|i: int| 0 <= i < a implies (#[trigger] l0[i]).rank_le(&item) by {
                    if i < a - 1 {
                        assert(l0[i].rank_le(&l0[a - 1]));
                        T::rank_trans(&l0[i], &l0[a - 1], &item);
                    }
                }
                assert forall|i: int| 0 <= i < b - 1 implies (#[trigger] r0[i]).rank_le(&item) by {
                    assert(r0[i].rank_le(&r0[b - 1]));
                }
                assert forall|j: int| 0 <= j < q1.len() implies item.rank_le(&u1[j]) && (
                u1[j].rank_le(&item) ==> n + b - 1 < #[trigger] q1[j]) by {
                    assert(r0[b - 1].rank_le(&u1[j]));
                }
                assert forall|k: int| 0 < k < q.len() implies #[trigger] q[k] == q1[k - 1] && up[k]
                    == u1[k - 1] by {
                }
            }
            down.push(item);
        }
    }
    let mut out: Vec<T> = Vec::new();
    loop
        invariant
            up.len() == out@.len() + down@.len(),
            forall|i: int| 0 <= i < out@.len() ==> out@[i] == up[i],
            forall|i: int| out@.len() <= i < up.len() ==> #[trigger] up[i] == down@[up.len() - 1 - i],
        ensures
            out@ =~= up,
        decreases down@.len(),
    {
        match down.pop() {
            Some(item) => out.push(item),
            None => {
                break;
            },
        }
    }
    assert(puts_in_order(q, out@, l0 + r0, by_rank::<T>()));
    out
}

/// The items in order of rank, items of one rank in the order given.
pub fn sort<T: Ranked>(items: Vec<T>) -> (out: Vec<T>)
    ensures
        in_order(out@, items@, by_rank::<T>()),
    decreases items@.len(),
{
    if items.len() <= 1 {
        proof {
            let p: Seq<int> = Seq::new(items@.len(), |i: int| i);
            assert(puts_in_order(p, items@, items@, by_rank::<T>()));
        }
        return items;
    }
    let ghost all = items@;
    let mut left = items;
    let mid: usize = left.len() / 2;
    let right = left.split_off(mid);
    assert(all =~= left@ + right@);
    let ghost l0 = left@;
    let ghost r0 = right@;
    let left = sort(left);
    let right = sort(right);
    let ghost l1 = left@;
    let ghost r1 = right@;
    proof {
        lemma_in_order_ranked(l1, l0);
        lemma_in_order_ranked(r1, r0);
    }
    let out = merge_runs(left, right);
    proof {
        lemma_merged(out@, l1, r1, l0, r0);
    }
    out
}

proof fn lemma_merged<T: Ranked>(out: Seq<T>, l1: Seq<T>, r1: Seq<T>, l0: Seq<T>, r0: Seq<T>)
    requires
        in_order(out, l1 + r1, by_rank::<T>()),
        in_order(l1, l0, by_rank::<T>()),
        in_order(r1, r0, by_rank::<T>()),
    ensures
        in_order(out, l0 + r0, by_rank::<T>()),
{
    let le = by_rank::<T>();
    let q = choose|q: Seq<int>| #[trigger] puts_in_order(q, out, l1 + r1, le);
    let pl = choose|p: Seq<int>| #[trigger] puts_in_order(p, l1, l0, le);
    let pr = choose|p: Seq<int>| #[trigger] puts_in_order(p, r1, r0, le);
    let n = l0.len() as int;
    let p: Seq<int> = Seq::new(
        q.len(),
        |k: int|
            if q[k] < n {
                pl[q[k]]
            } else {
                n + pr[q[k] - n]
            },
    );
    let all = l0 + r0;
    assert forall|k: int| 0 <= k < p.len() implies 0 <= #[trigger] p[k] < all.len() && out[k]
        == all[p[k]] by {
        assert(0 <= q[k] < l1.len() + r1.len());
        if q[k] < n {
            assert(0 <= pl[q[k]] < n && l1[q[k]] == l0[pl[q[k]]]);
        } else {
            assert(0 <= pr[q[k] - n] < r0.len() && r1[q[k] - n] == r0[pr[q[k] - n]]);
        }
    }
    assert forall|i: int, j: int| 0 <= i < p.len() && 0 <= j < p.len() && i != j implies p[i]
        != p[j] by {
        assert(q[i] != q[j]);
        if q[i] < n {
            assert(0 <= pl[q[i]] < n);
        } else {
            assert(0 <= pr[q[i] - n] < r0.len());
        }
        if q[j] < n {
            assert(0 <= pl[q[j]] < n);
        } else {
            assert(0 <= pr[q[j] - n] < r0.len());
        }
    }
    assert forall|i: int, j: int|
        #![trigger out[i], out[j]]
        #![trigger p[i], p[j]]
        0 <= i < j < p.len() implies le(out[i], out[j]) && (le(out[j], out[i]) ==> p[i] < p[j]) by {
        assert(0 <= q[i] && 0 <= q[j]);
        if le(out[j], out[i]) {
            assert(q[i] < q[j]);
            if q[j] < n {
                assert(0 <= pl[q[i]] && 0 <= pl[q[j]]);
            } else if q[i] < n {
                assert(0 <= pl[q[i]] < n && 0 <= pr[q[j] - n]);
            } else {
                assert(0 <= pr[q[i] - n] && 0 <= pr[q[j] - n]);
            }
        }
    }
    assert(puts_in_order(p, out, all, le));
}

// ---------------------------------------------------------------------------
// Lists of texts in order
// ---------------------------------------------------------------------------

impl Ranked for String {
    open spec fn rank_le(&self, other: &Self) -> bool {
        text_le(self@, other@)
    }

    proof fn rank_total(a: &Self, b: &Self) {
        lemma_text_le_total(a@, b@);
    }

    proof fn rank_trans(a: &Self, b: &Self, c: &Self) {
        lemma_text_le_trans(a@, b@, c@);
    }

    fn at_most(&self, other: &Self) -> (r: bool) {
        comes_first(self.as_str(), other.as_str())
    }
}

/// Each text comes before the next.
pub open spec fn ascending(v: Seq<Seq<char>>) -> bool {
    forall|i: int, j: int| 0 <= i < j < v.len() ==> text_lt(#[trigger] v[i], #[trigger] v[j])
}

/// `v` lists the texts of `all`, each once, in order.
pub open spec fn listing(v: Seq<Seq<char>>, all: Set<Seq<char>>) -> bool {
    &&& ascending(v)
    &&& forall|t: Seq<char>| #[trigger] v.contains(t) <==> all.contains(t)
}

/// There is one way only to list the texts of a set in order.
pub proof fn listing_is_unique(v: Seq<Seq<char>>, w: Seq<Seq<char>>, all: Set<Seq<char>>)
    requires
        listing(v, all),
        listing(w, all),
    ensures
        v == w,
    decreases v.len(),
{
    if v.len() == 0 {
        if w.len() > 0 {
            assert(w.contains(w[0]));
            assert(v.contains(w[0]));
        }
        assert(v =~= w);
    } else {
        assert(v.contains(v.last()));
        assert(w.contains(v.last()));
        let k = choose|k: int| 0 <= k < w.len() && w[k] == v.last();
        if k < w.len() - 1 {
            assert(w.contains(w.last()));
            assert(v.contains(w.last()));
            let m = choose|m: int| 0 <= m < v.len() && v[m] == w.last();
            assert(text_lt(w[k], w[w.len() - 1]));
            if m < v.len() - 1 {
                assert(text_lt(v[m], v[v.len() - 1]));
                lemma_text_le_antisym(v.last(), w.last());
            }
        }
        assert(w.last() == v.last());
        let v1 = v.drop_last();
        let w1 = w.drop_last();
        let rest = all.remove(v.last());
        assert forall|t: Seq<char>| #[trigger] v1.contains(t) <==> rest.contains(t) by {
            lemma_without_last(v, t);
        }
        assert forall|t: Seq<char>| #[trigger] w1.contains(t) <==> rest.contains(t) by {
            lemma_without_last(w, t);
        }
        listing_is_unique(v1, w1, rest);
        assert(v =~= v1.push(v.last()));
        assert(w =~= w1.push(w.last()));
    }
}

proof fn lemma_without_last(v: Seq<Seq<char>>, t: Seq<char>)
    requires
        ascending(v),
        v.len() > 0,
    ensures
        v.drop_last().contains(t) <==> (v.contains(t) && t != v.last()),
{
    if v.drop_last().contains(t) {
        let i = choose|i: int| 0 <= i < v.len() - 1 && v.drop_last()[i] == t;
        assert(v[i] == t);
        assert(text_lt(v[i], v[v.len() - 1]));
    }
    if v.contains(t) && t != v.last() {
        let i = choose|i: int| 0 <= i < v.len() && v[i] == t;
        assert(v.drop_last()[i] == t);
    }
}

/// The texts of a list in order, each once.
pub fn sort_texts(v: Vec<String>) -> (r: Vec<String>)
    ensures
        listing(texts(r@), texts(v@).to_set()),
{
    let ghost given = v@;
    let sorted = sort(v);
    let ghost all = texts(sorted@);
    proof {
        lemma_in_order_ranked(sorted@, given);
        assert forall|t: Seq<char>| #[trigger] all.contains(t) <==> texts(given).contains(t) by {
            if all.contains(t) {
                let k = choose|k: int| 0 <= k < all.len() && all[k] == t;
                assert(sorted@.contains(sorted@[k]));
                lemma_in_order_contains(sorted@, given, by_rank::<String>(), sorted@[k]);
                let m = choose|m: int| 0 <= m < given.len() && given[m] == sorted@[k];
                assert(texts(given)[m] == t);
            }
            if texts(given).contains(t) {
                let k = choose|k: int| 0 <= k < given.len() && texts(given)[k] == t;
                assert(given.contains(given[k]));
                lemma_in_order_contains(sorted@, given, by_rank::<String>(), given[k]);
                let m = choose|m: int| 0 <= m < sorted@.len() && sorted@[m] == given[k];
                assert(all[m] == t);
            }
        }
    }
    let mut out: Vec<String> = Vec::new();
    let mut i: usize = 0;
    while i < sorted.len()
        invariant
            i <= sorted@.len(),
            all == texts(sorted@),
            ranked_up(sorted@),
            ascending(texts(out@)),
            out@.len() == 0 <==> i == 0,
            i > 0 ==> texts(out@).last() == all[i - 1],
            forall|t: Seq<char>| #[trigger] texts(out@).contains(t) <==> all.take(i as int).contains(t),
        decreases sorted@.len() - i,
    {
        broadcast use crate::text::lemma_texts_push;

        let ghost before = texts(out@);
        let repeated = if out.len() > 0 {
            same_str(out[out.len() - 1].as_str(), sorted[i].as_str())
        } else {
            false
        };
        let ghost item = all[i as int];
        if !repeated {
            proof {
                if i > 0 {
                    assert(sorted@[i - 1].rank_le(&sorted@[i as int]));
                    assert(text_lt(before.last(), item));
                    assert forall|k: int| 0 <= k < before.len() implies text_lt(
                        #[trigger] before[k],
                        item,
                    ) by {
                        if k < before.len() - 1 {
                            assert(text_lt(before[k], before[before.len() - 1]));
                            lemma_text_lt_trans(before[k], before.last(), item);
                        }
                    }
                }
            }
            out.push(sorted[i].clone());
            assert(texts(out@) == before.push(item));
        }
        proof {
            let now = texts(out@);
            assert forall|t: Seq<char>| #[trigger] now.contains(t) <==> all.take(i + 1).contains(t) by {
                assert(all.take(i + 1) =~= all.take(i as int).push(item));
                lemma_push_contains(all.take(i as int), item, t);
                if !repeated {
                    lemma_push_contains(before, item, t);
                } else if t == item {
                    assert(before[before.len() - 1] == t);
                }
                assert(before.contains(t) <==> all.take(i as int).contains(t));
            }
        }
        i += 1;
    }
    assert(all.take(all.len() as int) =~= all);
    out
}

/// What a list holds once an item is added at its end.
pub proof fn lemma_push_contains<A>(v: Seq<A>, item: A, t: A)
    ensures
        v.push(item).contains(t) <==> (v.contains(t) || t == item),
{
    if v.contains(t) {
        let k = choose|k: int| 0 <= k < v.len() && v[k] == t;
        assert(v.push(item)[k] == t);
    }
    if t == item {
        assert(v.push(item)[v.len() as int] == t);
    }
    if v.push(item).contains(t) && t != item {
        let k = choose|k: int| 0 <= k < v.push(item).len() && v.push(item)[k] == t;
        assert(v[k] == t);
    }
}

} // verus!
