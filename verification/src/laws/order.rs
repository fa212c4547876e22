//! Laws of order: how texts are compared, and what is put in order.

use vstd::prelude::*;

use crate::order::{
    ascending, in_order, lemma_in_order_contains, lemma_in_order_len, listing, puts_in_order,
    text_le, text_lt,
};

verus! {

/// Texts are compared at their first difference by the codes there, and a text
/// comes before every longer one that begins with it.
pub proof fn the_first_difference_decides(
    p: Seq<char>,
    a: char,
    s: Seq<char>,
    b: char,
    t: Seq<char>,
)
    requires
        (a as int) < (b as int),
    ensures
        text_le(p + seq![a] + s, p + seq![b] + t),
        !text_le(p + seq![b] + t, p + seq![a] + s),
        text_le(p, p + s),
        s.len() > 0 ==> !text_le(p + s, p),
    decreases p.len(),
{
    let (x, y, z) = (p + seq![a] + s, p + seq![b] + t, p + s);
    if p.len() == 0 {
        assert(x[0] == a && y[0] == b);
        assert(z =~= s);
    } else {
        let q = p.skip(1);
        the_first_difference_decides(q, a, s, b, t);
        assert(x.skip(1) =~= q + seq![a] + s);
        assert(y.skip(1) =~= q + seq![b] + t);
        assert(z.skip(1) =~= q + s);
        assert(x[0] == p[0] && y[0] == p[0] && z[0] == p[0]);
    }
}

/// Putting in order keeps every item and adds none, and no later item comes before
/// an earlier one.
pub proof fn order_keeps_every_item<A>(
    out: Seq<A>,
    s: Seq<A>,
    le: spec_fn(A, A) -> bool,
    x: A,
    i: int,
    j: int,
)
    requires
        in_order(out, s, le),
    ensures
        out.len() == s.len(),
        out.contains(x) <==> s.contains(x),
        0 <= i < j < out.len() ==> le(out[i], out[j]),
{
    lemma_in_order_contains(out, s, le, x);
    lemma_in_order_len(out, s, le);
    let p = choose|p: Seq<int>| #[trigger] puts_in_order(p, out, s, le);
    if 0 <= i < j < out.len() {
        assert(le(out[i], out[j]));
    }
}

/// A list in order holds each text once, the earlier before the later.
pub proof fn a_list_holds_each_text_once(v: Seq<Seq<char>>, all: Set<Seq<char>>, i: int, j: int)
    requires
        listing(v, all),
        0 <= i < j < v.len(),
    ensures
        v[i] != v[j],
        text_le(v[i], v[j]),
        all.contains(v[i]),
{
    assert(text_lt(v[i], v[j]));
    assert(v.contains(v[i]));
}

} // verus!
