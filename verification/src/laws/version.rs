//! Laws of the order of versions: what sorts before what.

use vstd::prelude::*;
use vstd::utf8::{encode_utf8, is_ascii_chars, is_ascii_chars_encode_utf8};

use crate::lists::versions_rel;
use crate::number::{decimal, unsigned_up_to};
use crate::version::{
    after_epoch, byte_chars, digit_byte, digit_run, epoch, first_byte, head, int_rel, key_rel,
    last_byte, letter_byte, part_key, part_rel, revision, run_value, tail, upstream, version_rel,
    weight, Rel,
};

verus! {

/// Bytes with no digit among the first, so that a run of digits before them ends.
pub open spec fn no_digit_first(s: Seq<u8>) -> bool {
    s.len() == 0 || !(0x30 <= s[0] <= 0x39)
}

/// Nothing but digits, at least one of them.
pub open spec fn is_run(s: Seq<u8>) -> bool {
    s.len() > 0 && forall|i: int| 0 <= i < s.len() ==> 0x30 <= #[trigger] s[i] <= 0x39
}

/// Bytes that a run of digits behind them begins anew.
pub open spec fn no_digit_last(s: Seq<u8>) -> bool {
    s.len() == 0 || !(0x30 <= s.last() <= 0x39)
}

proof fn lemma_run(d: Seq<u8>, s: Seq<u8>)
    requires
        forall|i: int| 0 <= i < d.len() ==> digit_byte(#[trigger] d[i]),
        no_digit_first(s),
    ensures
        digit_run(d + s) == d.len(),
    decreases d.len(),
{
    if d.len() == 0 {
        assert(d + s =~= s);
    } else {
        assert((d + s).skip(1) =~= d.skip(1) + s);
        assert((d + s)[0] == d[0]);
        lemma_run(d.skip(1), s);
    }
}

proof fn lemma_run_parts(s: Seq<u8>)
    ensures
        digit_run(s) <= s.len(),
        forall|i: int| 0 <= i < digit_run(s) ==> digit_byte(#[trigger] s[i]),
        digit_run(s) < s.len() ==> !digit_byte(s[digit_run(s) as int]),
    decreases s.len(),
{
    if s.len() > 0 && digit_byte(s[0]) {
        let t = s.skip(1);
        lemma_run_parts(t);
        assert forall|i: int| 0 <= i < digit_run(s) implies digit_byte(#[trigger] s[i]) by {
            if i > 0 {
                assert(t[i - 1] == s[i]);
            }
        }
        if digit_run(s) < s.len() {
            assert(t[digit_run(t) as int] == s[digit_run(s) as int]);
        }
    }
}

proof fn lemma_key_parts(p: Seq<u8>, x: Seq<u8>)
    requires
        no_digit_first(x) || no_digit_last(p),
    ensures
        part_key(p + x) == part_key(p) + part_key(x),
    decreases p.len(),
{
    let s = p + x;
    if p.len() == 0 {
        assert(s =~= x);
        assert(part_key(p) + part_key(x) =~= part_key(x));
    } else if digit_byte(p[0]) {
        lemma_run_parts(p);
        let n = digit_run(p) as int;
        let q = p.skip(n);
        let d = p.take(n);
        assert(n < p.len() || no_digit_first(x)) by {
            if n == p.len() {
                assert(digit_byte(p[p.len() - 1]));
            }
        }
        assert(no_digit_first(q + x)) by {
            if n < p.len() {
                assert((q + x)[0] == p[n]);
            } else {
                assert(q + x =~= x);
            }
        }
        assert(s =~= d + (q + x));
        lemma_run(d, q + x);
        assert(digit_run(s) == n);
        assert(s.take(n) =~= d);
        assert(s.skip(n) =~= q + x);
        assert(n > 0);
        assert(no_digit_last(p) ==> no_digit_last(q)) by {
            if q.len() > 0 {
                assert(q.last() == p.last());
            }
        }
        lemma_key_parts(q, x);
        assert(s[0] == p[0]);
        assert(part_key(s) =~= part_key(p) + part_key(x));
    } else {
        let q = p.skip(1);
        assert(s.skip(1) =~= q + x);
        assert(no_digit_last(p) ==> no_digit_last(q)) by {
            if q.len() > 0 {
                assert(q.last() == p.last());
            }
        }
        lemma_key_parts(q, x);
        assert(s[0] == p[0]);
        assert(part_key(s) =~= part_key(p) + part_key(x));
    }
}

proof fn lemma_same_start(k: Seq<int>, a: Seq<int>, b: Seq<int>)
    ensures
        key_rel(k + a, k + b) == key_rel(a, b),
    decreases k.len(),
{
    if k.len() == 0 {
        assert(k + a =~= a);
        assert(k + b =~= b);
    } else {
        assert((k + a).skip(1) =~= k.skip(1) + a);
        assert((k + b).skip(1) =~= k.skip(1) + b);
        assert((k + a)[0] == k[0] && (k + b)[0] == k[0]);
        lemma_same_start(k.skip(1), a, b);
    }
}

/// What two parts begin with in common makes no difference to their order.
pub proof fn a_common_start_makes_no_difference(p: Seq<u8>, s: Seq<u8>, t: Seq<u8>)
    requires
        no_digit_last(p) || (no_digit_first(s) && no_digit_first(t)),
    ensures
        part_rel(p + s, p + t) == part_rel(s, t),
{
    lemma_key_parts(p, s);
    lemma_key_parts(p, t);
    lemma_same_start(part_key(p), part_key(s), part_key(t));
}

/// At the first difference outside runs of digits, a letter sorts before every
/// byte that is neither a letter, a digit, a tilde nor the end.
pub proof fn a_letter_sorts_before_other_bytes(
    p: Seq<u8>,
    l: u8,
    s: Seq<u8>,
    c: u8,
    t: Seq<u8>,
)
    requires
        (0x41 <= l <= 0x5a) || (0x61 <= l <= 0x7a),
        !((0x41 <= c <= 0x5a) || (0x61 <= c <= 0x7a)),
        !(0x30 <= c <= 0x39),
        c != 0x7e,
    ensures
        part_rel(p + seq![l] + s, p + seq![c] + t) == Rel::Less,
        part_rel(p + seq![c] + t, p + seq![l] + s) == Rel::Greater,
{
    let (x, y) = (seq![l] + s, seq![c] + t);
    assert(p + seq![l] + s =~= p + x);
    assert(p + seq![c] + t =~= p + y);
    a_common_start_makes_no_difference(p, x, y);
    a_common_start_makes_no_difference(p, y, x);
}

/// A tilde sorts before everything else, even before the end.
pub proof fn a_tilde_sorts_first(p: Seq<u8>, s: Seq<u8>, c: u8, t: Seq<u8>)
    requires
        c != 0x7e,
        !(0x30 <= c <= 0x39) || no_digit_last(p),
    ensures
        part_rel(p + seq![0x7eu8] + s, p) == Rel::Less,
        part_rel(p, p + seq![0x7eu8] + s) == Rel::Greater,
        part_rel(p + seq![0x7eu8] + s, p + seq![c] + t) == Rel::Less,
        part_rel(p + seq![c] + t, p + seq![0x7eu8] + s) == Rel::Greater,
{
    let (x, y, e) = (seq![0x7eu8] + s, seq![c] + t, Seq::<u8>::empty());
    assert(p + seq![0x7eu8] + s =~= p + x);
    assert(p + seq![c] + t =~= p + y);
    assert(p + e =~= p);
    a_common_start_makes_no_difference(p, x, y);
    a_common_start_makes_no_difference(p, y, x);
    a_common_start_makes_no_difference(p, x, e);
    a_common_start_makes_no_difference(p, e, x);
    assert(part_key(e) =~= seq![]);
    assert(part_key(x)[0] == -1);
    assert(part_key(y)[0] >= 0);
}

/// The end sorts before letters and before every other byte but a tilde; so does
/// a run of digits.
pub proof fn the_end_sorts_before_all_but_a_tilde(p: Seq<u8>, c: u8, t: Seq<u8>, d: u8, s: Seq<u8>)
    requires
        c != 0x7e,
        !(0x30 <= c <= 0x39),
        0x30 <= d <= 0x39,
    ensures
        part_rel(p, p + seq![c] + t) == Rel::Less,
        part_rel(p + seq![c] + t, p) == Rel::Greater,
        no_digit_last(p) && c != 0 ==> part_rel(p + seq![d] + s, p + seq![c] + t) == Rel::Less,
{
    let (y, e, x) = (seq![c] + t, Seq::<u8>::empty(), seq![d] + s);
    assert(p + seq![c] + t =~= p + y);
    assert(p + seq![d] + s =~= p + x);
    assert(p + e =~= p);
    a_common_start_makes_no_difference(p, e, y);
    a_common_start_makes_no_difference(p, y, e);
    assert(part_key(e) =~= seq![]);
    if no_digit_last(p) {
        a_common_start_makes_no_difference(p, x, y);
        assert(part_key(x)[0] == 0);
    }
}

/// Two letters, and two bytes that are neither letters, digits nor tildes, sort
/// by their codes.
pub proof fn bytes_of_a_sort_go_by_their_codes(p: Seq<u8>, a: u8, s: Seq<u8>, b: u8, t: Seq<u8>)
    requires
        a < b,
        !(0x30 <= a <= 0x39),
        !(0x30 <= b <= 0x39),
        a != 0x7e,
        b != 0x7e,
        ((0x41 <= a <= 0x5a) || (0x61 <= a <= 0x7a)) == ((0x41 <= b <= 0x5a) || (0x61 <= b
            <= 0x7a)),
    ensures
        part_rel(p + seq![a] + s, p + seq![b] + t) == Rel::Less,
        part_rel(p + seq![b] + t, p + seq![a] + s) == Rel::Greater,
{
    let (x, y) = (seq![a] + s, seq![b] + t);
    assert(p + seq![a] + s =~= p + x);
    assert(p + seq![b] + t =~= p + y);
    a_common_start_makes_no_difference(p, x, y);
    a_common_start_makes_no_difference(p, y, x);
}

// ---------------------------------------------------------------------------
// Numbers
// ---------------------------------------------------------------------------

proof fn lemma_run_key(d: Seq<u8>, s: Seq<u8>)
    requires
        is_run(d),
        no_digit_first(s),
    ensures
        part_key(d + s) == seq![0int, run_value(d) as int] + part_key(s),
{
    lemma_run(d, s);
    let n = d.len() as int;
    assert((d + s).take(n) =~= d);
    assert((d + s).skip(n) =~= s);
    assert((d + s)[0] == d[0]);
}

proof fn lemma_zeros(d: Seq<u8>)
    requires
        is_run(d),
    ensures
        run_value(seq![0x30u8] + d) == run_value(d),
    decreases d.len(),
{
    let z = seq![0x30u8] + d;
    assert(z.last() == d.last());
    if d.len() == 1 {
        assert(z.drop_last() =~= seq![0x30u8]);
        assert(seq![0x30u8].drop_last() =~= seq![]);
        assert(d.drop_last() =~= seq![]);
        assert(run_value(seq![]) == 0);
        assert(run_value(seq![0x30u8]) == 0);
    } else {
        assert(z.drop_last() =~= seq![0x30u8] + d.drop_last());
        lemma_zeros(d.drop_last());
    }
}

spec fn tens(n: nat) -> nat
    decreases n,
{
    if n == 0 {
        1
    } else {
        10 * tens((n - 1) as nat)
    }
}

proof fn lemma_run_bounds(d: Seq<u8>)
    requires
        forall|i: int| 0 <= i < d.len() ==> 0x30 <= #[trigger] d[i] <= 0x39,
    ensures
        run_value(d) < tens(d.len()),
        d.len() > 0 && d[0] != 0x30 ==> run_value(d) >= tens((d.len() - 1) as nat),
    decreases d.len(),
{
    if d.len() > 0 {
        assert(0x30 <= d[d.len() - 1] <= 0x39);
        lemma_run_bounds(d.drop_last());
        if d.len() == 1 {
            assert(d.drop_last() =~= seq![]);
            assert(run_value(d.drop_last()) == 0);
            assert(tens(1) == 10 * tens(0));
        }
    }
}

proof fn lemma_tens_grow(a: nat, b: nat)
    requires
        a <= b,
    ensures
        tens(a) <= tens(b),
    decreases b,
{
    if a < b {
        lemma_tens_grow(a, (b - 1) as nat);
    }
}

proof fn lemma_run_order(e: Seq<u8>, a: u8, x: Seq<u8>, b: u8, y: Seq<u8>)
    requires
        a < b,
        0x30 <= a,
        b <= 0x39,
        x.len() == y.len(),
        forall|i: int| 0 <= i < e.len() ==> 0x30 <= #[trigger] e[i] <= 0x39,
        forall|i: int| 0 <= i < x.len() ==> 0x30 <= #[trigger] x[i] <= 0x39,
        forall|i: int| 0 <= i < y.len() ==> 0x30 <= #[trigger] y[i] <= 0x39,
    ensures
        run_value(e + seq![a] + x) < run_value(e + seq![b] + y),
    decreases x.len(),
{
    let (c, d) = (e + seq![a] + x, e + seq![b] + y);
    if x.len() == 0 {
        assert(c.drop_last() =~= e);
        assert(d.drop_last() =~= e);
    } else {
        assert(c.drop_last() =~= e + seq![a] + x.drop_last());
        assert(d.drop_last() =~= e + seq![b] + y.drop_last());
        assert(0x30 <= x[x.len() - 1] <= 0x39);
        assert(0x30 <= y[y.len() - 1] <= 0x39);
        lemma_run_order(e, a, x.drop_last(), b, y.drop_last());
    }
}

/// A leading zero makes no difference to a number.
pub proof fn a_leading_zero_makes_no_difference(p: Seq<u8>, d: Seq<u8>, s: Seq<u8>)
    requires
        no_digit_last(p),
        is_run(d),
        no_digit_first(s),
    ensures
        part_rel(p + (seq![0x30u8] + d) + s, p + d + s) == Rel::Equal,
{
    let z = seq![0x30u8] + d;
    assert(p + z + s =~= p + (z + s));
    assert(p + d + s =~= p + (d + s));
    a_common_start_makes_no_difference(p, z + s, d + s);
    lemma_run_key(z, s);
    lemma_run_key(d, s);
    lemma_zeros(d);
    lemma_same_start(part_key(d + s), seq![], seq![]);
    assert(part_key(d + s) + seq![] =~= part_key(d + s));
}

/// Of two numbers the one with more digits is the greater, whatever they are.
pub proof fn a_longer_number_is_greater(
    p: Seq<u8>,
    d: Seq<u8>,
    s: Seq<u8>,
    e: Seq<u8>,
    t: Seq<u8>,
)
    requires
        no_digit_last(p),
        is_run(d),
        is_run(e),
        e[0] != 0x30,
        d.len() < e.len(),
        no_digit_first(s),
        no_digit_first(t),
    ensures
        part_rel(p + d + s, p + e + t) == Rel::Less,
        part_rel(p + e + t, p + d + s) == Rel::Greater,
{
    lemma_run_bounds(d);
    lemma_run_bounds(e);
    lemma_tens_grow(d.len(), (e.len() - 1) as nat);
    lemma_numbers(p, d, s, e, t);
    lemma_numbers(p, e, t, d, s);
}

proof fn lemma_numbers(p: Seq<u8>, d: Seq<u8>, s: Seq<u8>, e: Seq<u8>, t: Seq<u8>)
    requires
        no_digit_last(p),
        is_run(d),
        is_run(e),
        no_digit_first(s),
        no_digit_first(t),
        run_value(d) != run_value(e),
    ensures
        part_rel(p + d + s, p + e + t) == int_rel(run_value(d) as int, run_value(e) as int),
{
    assert(p + d + s =~= p + (d + s));
    assert(p + e + t =~= p + (e + t));
    a_common_start_makes_no_difference(p, d + s, e + t);
    lemma_run_key(d, s);
    lemma_run_key(e, t);
    let (a, b) = (part_key(d + s), part_key(e + t));
    assert(a[0] == 0 && b[0] == 0);
    assert(a.skip(1) =~= seq![run_value(d) as int] + part_key(s));
    assert(b.skip(1) =~= seq![run_value(e) as int] + part_key(t));
    assert(key_rel(a, b) == key_rel(a.skip(1), b.skip(1)));
}

/// Of two numbers with as many digits, the first digit that differs decides,
/// whatever follows.
pub proof fn the_first_differing_digit_decides(
    p: Seq<u8>,
    e: Seq<u8>,
    a: u8,
    x: Seq<u8>,
    s: Seq<u8>,
    b: u8,
    y: Seq<u8>,
    t: Seq<u8>,
)
    requires
        no_digit_last(p),
        0x30 <= a < b <= 0x39,
        x.len() == y.len(),
        forall|i: int| 0 <= i < e.len() ==> 0x30 <= #[trigger] e[i] <= 0x39,
        forall|i: int| 0 <= i < x.len() ==> 0x30 <= #[trigger] x[i] <= 0x39,
        forall|i: int| 0 <= i < y.len() ==> 0x30 <= #[trigger] y[i] <= 0x39,
        no_digit_first(s),
        no_digit_first(t),
    ensures
        part_rel(p + (e + seq![a] + x) + s, p + (e + seq![b] + y) + t) == Rel::Less,
        part_rel(p + (e + seq![b] + y) + t, p + (e + seq![a] + x) + s) == Rel::Greater,
{
    lemma_run_order(e, a, x, b, y);
    lemma_numbers(p, e + seq![a] + x, s, e + seq![b] + y, t);
    lemma_numbers(p, e + seq![b] + y, t, e + seq![a] + x, s);
}

// ---------------------------------------------------------------------------
// Whole versions
// ---------------------------------------------------------------------------

pub proof fn lemma_first_byte(s: Seq<u8>, b: u8, k: int)
    requires
        0 <= k <= s.len(),
        forall|i: int| 0 <= i < k ==> #[trigger] s[i] != b,
        k < s.len() ==> s[k] == b,
    ensures
        first_byte(s, b) == k,
    decreases s.len(),
{
    if k > 0 {
        assert(s[0] != b);
        let t = s.skip(1);
        assert forall|i: int| 0 <= i < k - 1 implies #[trigger] t[i] != b by {
            assert(t[i] == s[i + 1]);
        }
        lemma_first_byte(t, b, k - 1);
    }
}

proof fn lemma_last_byte(s: Seq<u8>, b: u8, k: int)
    requires
        -1 <= k < s.len(),
        forall|i: int| k < i < s.len() ==> #[trigger] s[i] != b,
        k >= 0 ==> s[k] == b,
    ensures
        last_byte(s, b) == k,
    decreases s.len(),
{
    if s.len() > 0 && k < s.len() - 1 {
        assert(s[s.len() - 1] != b);
        lemma_last_byte(s.drop_last(), b, k);
    }
}

proof fn lemma_no_epoch(s: Seq<u8>)
    requires
        !s.contains(0x3a),
    ensures
        epoch(s) == 0,
        after_epoch(s) == s,
{
    assert forall|i: int| 0 <= i < s.len() implies #[trigger] s[i] != 0x3a by {
        assert(s.contains(s[i]));
    }
    lemma_first_byte(s, 0x3a, s.len() as int);
}

proof fn lemma_revised(u: Seq<u8>, r: Seq<u8>)
    requires
        !r.contains(0x2d),
    ensures
        upstream(u + seq![0x2du8] + r) == u,
        revision(u + seq![0x2du8] + r) == r,
{
    let s = u + seq![0x2du8] + r;
    assert forall|i: int| u.len() < i < s.len() implies #[trigger] s[i] != 0x2d by {
        assert(s[i] == r[i - u.len() - 1]);
    }
    lemma_last_byte(s, 0x2d, u.len() as int);
    assert(s.take(u.len() as int) =~= u);
    assert(s.skip(u.len() + 1int) =~= r);
}

proof fn lemma_unrevised(u: Seq<u8>)
    requires
        !u.contains(0x2d),
    ensures
        upstream(u) == u,
        revision(u) == Seq::<u8>::empty(),
{
    assert forall|i: int| -1 < i < u.len() implies #[trigger] u[i] != 0x2d by {
        assert(u.contains(u[i]));
    }
    lemma_last_byte(u, 0x2d, -1);
}

/// Of two versions without epochs the upstream parts decide, and the revisions
/// behind the last hyphen only where those are equal.
pub proof fn the_upstream_part_decides_first(u: Seq<u8>, r: Seq<u8>, w: Seq<u8>, q: Seq<u8>)
    requires
        !r.contains(0x2d),
        !q.contains(0x2d),
        !u.contains(0x3a),
        !w.contains(0x3a),
        !r.contains(0x3a),
        !q.contains(0x3a),
    ensures
        part_rel(u, w) != Rel::Equal ==> version_rel(u + seq![0x2du8] + r, w + seq![0x2du8] + q)
            == part_rel(u, w),
        part_rel(u, w) == Rel::Equal ==> version_rel(u + seq![0x2du8] + r, w + seq![0x2du8] + q)
            == part_rel(r, q),
{
    lemma_revised(u, r);
    lemma_revised(w, q);
    lemma_whole(u, r);
    lemma_whole(w, q);
}

proof fn lemma_whole(u: Seq<u8>, r: Seq<u8>)
    requires
        !u.contains(0x3a),
        !r.contains(0x3a),
    ensures
        !(u + seq![0x2du8] + r).contains(0x3a),
        epoch(u + seq![0x2du8] + r) == 0,
        after_epoch(u + seq![0x2du8] + r) == u + seq![0x2du8] + r,
{
    let s = u + seq![0x2du8] + r;
    if s.contains(0x3a) {
        let i = choose|i: int| 0 <= i < s.len() && s[i] == 0x3a;
        if i < u.len() {
            assert(u[i] == 0x3a);
        } else if i > u.len() {
            assert(r[i - u.len() - 1] == 0x3a);
        }
        assert(false);
    }
    lemma_no_epoch(s);
}

/// A version without a revision is the one with the revision 0, and with neither
/// epoch nor revision the upstream parts alone decide.
pub proof fn no_revision_is_revision_zero(u: Seq<u8>, w: Seq<u8>)
    requires
        !u.contains(0x2d),
        !u.contains(0x3a),
        !w.contains(0x2d),
        !w.contains(0x3a),
    ensures
        version_rel(u, u + seq![0x2du8] + seq![0x30u8]) == Rel::Equal,
        version_rel(u, w) == part_rel(u, w),
{
    let (z, e) = (seq![0x30u8], Seq::<u8>::empty());
    lemma_unrevised(u);
    lemma_unrevised(w);
    lemma_no_epoch(u);
    lemma_no_epoch(w);
    assert(!z.contains(0x2d) && !z.contains(0x3a));
    lemma_revised(u, z);
    lemma_whole(u, z);
    lemma_run_key(z, e);
    assert(z + e =~= z);
    assert(part_key(e) =~= seq![]);
    assert(z.drop_last() =~= e);
    assert(run_value(e) == 0);
    assert(run_value(z) == 0);
    assert(part_key(z) =~= seq![0int, 0int]);
    let k = seq![0int, 0int];
    assert(k.skip(1) =~= seq![0int]);
    assert(k.skip(1).skip(1) =~= seq![]);
    assert(key_rel(seq![], seq![]) == Rel::Equal);
    assert(tail(Seq::<int>::empty()) =~= seq![]);
    assert(tail(seq![0int]) =~= seq![]);
    assert(key_rel(seq![], seq![0int]) == Rel::Equal);
    assert(key_rel(seq![], k) == Rel::Equal);
    lemma_same_start(part_key(u), seq![], seq![]);
    assert(part_key(u) + seq![] =~= part_key(u));
    assert(part_rel(u, u) == Rel::Equal);
    lemma_same_start(part_key(e), seq![], seq![]);
}

/// A version behind an epoch: the number, a colon, the rest. The higher epoch is
/// the later version whatever follows it; with one epoch the rest decides, and
/// the epoch 0 may be left out.
pub proof fn the_epoch_decides_first(d: Seq<u8>, s: Seq<u8>, e: Seq<u8>, t: Seq<u8>, m: nat, n: nat)
    requires
        byte_chars(d) == decimal(m),
        byte_chars(e) == decimal(n),
        !d.contains(0x3a),
        !e.contains(0x3a),
        m <= u64::MAX,
        n <= u64::MAX,
    ensures
        m < n ==> version_rel(d + seq![0x3au8] + s, e + seq![0x3au8] + t) == Rel::Less,
        m > n ==> version_rel(d + seq![0x3au8] + s, e + seq![0x3au8] + t) == Rel::Greater,
        m == n && !s.contains(0x3a) && !t.contains(0x3a) ==> version_rel(
            d + seq![0x3au8] + s,
            e + seq![0x3au8] + t,
        ) == version_rel(s, t),
        m == 0 && !s.contains(0x3a) && !t.contains(0x3a) ==> version_rel(d + seq![0x3au8] + s, t)
            == version_rel(s, t),
{
    lemma_epoch(d, s, m);
    lemma_epoch(e, t, n);
    if !s.contains(0x3a) && !t.contains(0x3a) {
        lemma_no_epoch(s);
        lemma_no_epoch(t);
    }
}

proof fn lemma_epoch(d: Seq<u8>, s: Seq<u8>, n: nat)
    requires
        byte_chars(d) == decimal(n),
        !d.contains(0x3a),
        n <= u64::MAX,
    ensures
        epoch(d + seq![0x3au8] + s) == n,
        after_epoch(d + seq![0x3au8] + s) == s,
{
    let v = d + seq![0x3au8] + s;
    assert forall|i: int| 0 <= i < d.len() implies #[trigger] v[i] != 0x3a by {
        assert(v[i] == d[i]);
        assert(d.contains(d[i]));
    }
    lemma_first_byte(v, 0x3a, d.len() as int);
    assert(v.take(d.len() as int) =~= d);
    assert(v.skip(d.len() + 1int) =~= s);
    crate::laws::text::a_number_is_read_back(n);
    assert(unsigned_up_to(decimal(n), u64::MAX as nat) == Some(n));
}

// ---------------------------------------------------------------------------
// Versions as texts
// ---------------------------------------------------------------------------

/// The bytes of an ASCII text.
pub open spec fn ascii_bytes(s: Seq<char>) -> Seq<u8> {
    Seq::new(s.len(), |i: int| s[i] as u8)
}

/// The texts of versions are compared by their bytes.
pub proof fn texts_are_compared_by_their_bytes(a: Seq<char>, b: Seq<char>)
    requires
        is_ascii_chars(a),
        is_ascii_chars(b),
    ensures
        versions_rel(a, b) == version_rel(ascii_bytes(a), ascii_bytes(b)),
{
    is_ascii_chars_encode_utf8(a);
    is_ascii_chars_encode_utf8(b);
    assert(encode_utf8(a) =~= ascii_bytes(a));
    assert(encode_utf8(b) =~= ascii_bytes(b));
}

proof fn lemma_ascii_contains(s: Seq<char>, c: char)
    requires
        is_ascii_chars(s),
        !s.contains(c),
        c as u32 <= 127,
    ensures
        !ascii_bytes(s).contains(c as u8),
{
    if ascii_bytes(s).contains(c as u8) {
        let i = choose|i: int| 0 <= i < s.len() && ascii_bytes(s)[i] == c as u8;
        assert(s.contains(s[i]));
        assert(s[i] as u32 <= 127);
        assert(s[i] == c);
    }
}

/// Behind one upstream version, at the first difference outside runs of digits,
/// a revision with a letter sorts before one with any other sign but a tilde; so
/// do upstream versions without revisions.
pub proof fn a_letter_in_a_text_sorts_before_other_signs(
    u: Seq<char>,
    p: Seq<char>,
    l: char,
    s: Seq<char>,
    c: char,
    t: Seq<char>,
)
    requires
        is_ascii_chars(u),
        is_ascii_chars(p),
        is_ascii_chars(s),
        is_ascii_chars(t),
        ('a' <= l <= 'z') || ('A' <= l <= 'Z'),
        c as u32 <= 127,
        !(('a' <= c <= 'z') || ('A' <= c <= 'Z') || ('0' <= c <= '9')),
        c != '~' && c != '-' && c != ':',
        !u.contains(':'),
        !(p + s + t).contains('-'),
        !(p + s + t).contains(':'),
    ensures
        versions_rel(u + seq!['-'] + (p + seq![l] + s), u + seq!['-'] + (p + seq![c] + t))
            == Rel::Less,
        versions_rel(p + seq![l] + s, p + seq![c] + t) == Rel::Less,
{
    let (x, y) = (p + seq![l] + s, p + seq![c] + t);
    let all = p + s + t;
    assert(is_ascii_chars(x)) by {
        assert forall|i: int| 0 <= i < x.len() implies '\0' <= #[trigger] x[i] <= '\u{7f}' by {
            if i < p.len() {
                assert(x[i] == p[i]);
            } else if i > p.len() {
                assert(x[i] == s[i - p.len() - 1]);
            }
        }
    }
    assert(is_ascii_chars(y)) by {
        assert forall|i: int| 0 <= i < y.len() implies '\0' <= #[trigger] y[i] <= '\u{7f}' by {
            if i < p.len() {
                assert(y[i] == p[i]);
            } else if i > p.len() {
                assert(y[i] == t[i - p.len() - 1]);
            }
        }
    }
    assert forall|d: char| d == '-' || d == ':' implies !(#[trigger] x.contains(d)) && !y.contains(
        d,
    ) by {
        assert(!all.contains(d));
        if x.contains(d) {
            let i = choose|i: int| 0 <= i < x.len() && x[i] == d;
            if i < p.len() {
                assert(all[i] == d);
            } else if i > p.len() {
                assert(all[i - 1] == d);
            }
        }
        if y.contains(d) {
            let i = choose|i: int| 0 <= i < y.len() && y[i] == d;
            if i < p.len() {
                assert(all[i] == d);
            } else if i > p.len() {
                assert(all[i - 1 + s.len()] == d);
            }
        }
    }
    assert(!x.contains('-') && !x.contains(':') && !y.contains('-') && !y.contains(':'));
    lemma_ascii_contains(u, ':');
    lemma_ascii_contains(x, '-');
    lemma_ascii_contains(x, ':');
    lemma_ascii_contains(y, '-');
    lemma_ascii_contains(y, ':');
    let (bu, bx, by) = (ascii_bytes(u), ascii_bytes(x), ascii_bytes(y));
    assert(bx =~= ascii_bytes(p) + seq![l as u8] + ascii_bytes(s));
    assert(by =~= ascii_bytes(p) + seq![c as u8] + ascii_bytes(t));
    a_letter_sorts_before_other_bytes(
        ascii_bytes(p),
        l as u8,
        ascii_bytes(s),
        c as u8,
        ascii_bytes(t),
    );
    let (v, w) = (u + seq!['-'] + x, u + seq!['-'] + y);
    assert(is_ascii_chars(v)) by {
        assert forall|i: int| 0 <= i < v.len() implies '\0' <= #[trigger] v[i] <= '\u{7f}' by {
            if i < u.len() {
                assert(v[i] == u[i]);
            } else if i > u.len() {
                assert(v[i] == x[i - u.len() - 1]);
            }
        }
    }
    assert(is_ascii_chars(w)) by {
        assert forall|i: int| 0 <= i < w.len() implies '\0' <= #[trigger] w[i] <= '\u{7f}' by {
            if i < u.len() {
                assert(w[i] == u[i]);
            } else if i > u.len() {
                assert(w[i] == y[i - u.len() - 1]);
            }
        }
    }
    texts_are_compared_by_their_bytes(v, w);
    texts_are_compared_by_their_bytes(x, y);
    assert(ascii_bytes(v) =~= bu + seq![0x2du8] + bx);
    assert(ascii_bytes(w) =~= bu + seq![0x2du8] + by);
    the_upstream_part_decides_first(bu, bx, bu, by);
    lemma_same_start(part_key(bu), seq![], seq![]);
    assert(part_key(bu) + seq![] =~= part_key(bu));
    no_revision_is_revision_zero(bx, by);
}

/// An epoch that is no number counts as none.
pub proof fn an_epoch_that_is_no_number_counts_as_none(d: Seq<u8>, s: Seq<u8>, t: Seq<u8>)
    requires
        !d.contains(0x3a),
        unsigned_up_to(byte_chars(d), u64::MAX as nat) is None,
        !s.contains(0x3a),
        !t.contains(0x3a),
    ensures
        version_rel(d + seq![0x3au8] + s, t) == version_rel(s, t),
        version_rel(t, d + seq![0x3au8] + s) == version_rel(t, s),
{
    let v = d + seq![0x3au8] + s;
    assert forall|i: int| 0 <= i < d.len() implies #[trigger] v[i] != 0x3a by {
        assert(v[i] == d[i]);
        assert(d.contains(d[i]));
    }
    lemma_first_byte(v, 0x3a, d.len() as int);
    assert(v.take(d.len() as int) =~= d);
    assert(v.skip(d.len() + 1int) =~= s);
    lemma_no_epoch(s);
    lemma_no_epoch(t);
}

} // verus!
