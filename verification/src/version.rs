//! The order of Debian version numbers, `[epoch:]upstream[-revision]`, as
//! deb-version(7) describes it.
//!
//! A version is a sequence of bytes. The upstream part and the revision are
//! compared by a key each: every byte outside a digit run gives its weight, and
//! every digit run gives a zero followed by its number. Keys compare as
//! dictionaries do, where a key that has ended goes on with zeros: so `~`, whose
//! weight is negative, sorts before the end, and everything else after it.

use vstd::prelude::*;

use crate::number::{parse_u64, unsigned_up_to};

verus! {

/// How one value compares with another.
#[derive(Clone, Copy, Debug, PartialEq, Eq, Structural)]
pub enum Rel {
    Less,
    Equal,
    Greater,
}

/// The comparison with the sides exchanged.
pub open spec fn turned(r: Rel) -> Rel {
    match r {
        Rel::Less => Rel::Greater,
        Rel::Equal => Rel::Equal,
        Rel::Greater => Rel::Less,
    }
}

/// How two numbers compare.
pub open spec fn int_rel(a: int, b: int) -> Rel {
    if a < b {
        Rel::Less
    } else if a > b {
        Rel::Greater
    } else {
        Rel::Equal
    }
}

/// The first comparison, and the second where that finds no difference.
pub open spec fn and_else(first: Rel, second: Rel) -> Rel {
    match first {
        Rel::Equal => second,
        _ => first,
    }
}

// ---------------------------------------------------------------------------
// Keys
// ---------------------------------------------------------------------------

/// The ASCII decimal digits.
pub open spec fn digit_byte(b: u8) -> bool {
    0x30 <= b <= 0x39
}

/// The ASCII letters.
pub open spec fn letter_byte(b: u8) -> bool {
    0x41 <= b <= 0x5a || 0x61 <= b <= 0x7a
}

/// The weight of a byte outside a digit run: the tilde before the end of the
/// text, then letters, then everything else.
pub open spec fn weight(b: u8) -> int {
    if b == 0x7e {
        -1
    } else if letter_byte(b) {
        b as int
    } else {
        b + 256
    }
}

/// The length of the digit run at the start of `s`.
pub open spec fn digit_run(s: Seq<u8>) -> nat
    decreases s.len(),
{
    if s.len() == 0 || !digit_byte(s[0]) {
        0
    } else {
        1 + digit_run(s.skip(1))
    }
}

/// The number that decimal digits write.
pub open spec fn run_value(s: Seq<u8>) -> nat
    decreases s.len(),
{
    if s.len() == 0 {
        0
    } else {
        run_value(s.drop_last()) * 10 + (s.last() - 0x30) as nat
    }
}

pub proof fn lemma_digit_run(s: Seq<u8>)
    ensures
        digit_run(s) <= s.len(),
        forall|i: int| 0 <= i < digit_run(s) ==> digit_byte(#[trigger] s[i]),
        digit_run(s) < s.len() ==> !digit_byte(s[digit_run(s) as int]),
    decreases s.len(),
{
    if s.len() > 0 && digit_byte(s[0]) {
        let t = s.skip(1);
        lemma_digit_run(t);
        assert forall|i: int| 0 <= i < digit_run(s) implies digit_byte(#[trigger] s[i]) by {
            if i > 0 {
                assert(t[i - 1] == s[i]);
            }
        }
    }
}

/// The key by which an upstream part or a revision is compared.
pub open spec fn part_key(s: Seq<u8>) -> Seq<int>
    decreases s.len(),
{
    if s.len() == 0 {
        seq![]
    } else if digit_byte(s[0]) {
        proof {
            lemma_digit_run(s);
        }
        let n = digit_run(s) as int;
        seq![0int, run_value(s.take(n)) as int] + part_key(s.skip(n))
    } else {
        seq![weight(s[0])] + part_key(s.skip(1))
    }
}

/// The first number of a key; zero where it has ended.
pub open spec fn head(k: Seq<int>) -> int {
    if k.len() == 0 {
        0
    } else {
        k[0]
    }
}

/// A key without its first number.
pub open spec fn tail(k: Seq<int>) -> Seq<int> {
    if k.len() == 0 {
        k
    } else {
        k.skip(1)
    }
}

/// How two keys compare, the shorter one going on with zeros.
pub open spec fn key_rel(a: Seq<int>, b: Seq<int>) -> Rel
    decreases a.len() + b.len(),
{
    if a.len() == 0 && b.len() == 0 {
        Rel::Equal
    } else if head(a) != head(b) {
        int_rel(head(a), head(b))
    } else {
        key_rel(tail(a), tail(b))
    }
}

/// How two upstream parts, or two revisions, compare.
pub open spec fn part_rel(a: Seq<u8>, b: Seq<u8>) -> Rel {
    key_rel(part_key(a), part_key(b))
}

proof fn lemma_key_rel_step(a: Seq<int>, b: Seq<int>)
    requires
        head(a) == head(b),
    ensures
        key_rel(a, b) == key_rel(tail(a), tail(b)),
{
}

pub proof fn lemma_key_rel_refl(a: Seq<int>)
    ensures
        key_rel(a, a) == Rel::Equal,
    decreases a.len(),
{
    if a.len() > 0 {
        lemma_key_rel_refl(tail(a));
    }
}

pub proof fn lemma_key_rel_turned(a: Seq<int>, b: Seq<int>)
    ensures
        key_rel(b, a) == turned(key_rel(a, b)),
    decreases a.len() + b.len(),
{
    if a.len() + b.len() > 0 && head(a) == head(b) {
        lemma_key_rel_turned(tail(a), tail(b));
    }
}

/// Comparing through a third key: the first difference on either side decides.
pub proof fn lemma_key_rel_trans(a: Seq<int>, b: Seq<int>, c: Seq<int>)
    requires
        key_rel(a, b) != Rel::Greater,
        key_rel(b, c) != Rel::Greater,
    ensures
        key_rel(a, c) != Rel::Greater,
        key_rel(a, c) == Rel::Equal ==> key_rel(a, b) == Rel::Equal && key_rel(b, c) == Rel::Equal,
        key_rel(a, b) == Rel::Equal && key_rel(b, c) == Rel::Equal ==> key_rel(a, c) == Rel::Equal,
    decreases a.len() + b.len() + c.len(),
{
    if a.len() + b.len() + c.len() > 0 {
        if head(a) == head(b) && head(b) == head(c) {
            lemma_key_rel_step(a, b);
            lemma_key_rel_step(b, c);
            lemma_key_rel_step(a, c);
            lemma_key_rel_trans(tail(a), tail(b), tail(c));
        }
    }
}

// ---------------------------------------------------------------------------
// Versions
// ---------------------------------------------------------------------------

/// The position of the first byte `b`; the length where there is none.
pub open spec fn first_byte(s: Seq<u8>, b: u8) -> int
    decreases s.len(),
{
    if s.len() == 0 || s[0] == b {
        0
    } else {
        1 + first_byte(s.skip(1), b)
    }
}

/// The position of the last byte `b`; `-1` where there is none.
pub open spec fn last_byte(s: Seq<u8>, b: u8) -> int
    decreases s.len(),
{
    if s.len() == 0 || s.last() == b {
        s.len() - 1
    } else {
        last_byte(s.drop_last(), b)
    }
}

/// Bytes as the characters with these code points.
pub open spec fn byte_chars(s: Seq<u8>) -> Seq<char> {
    Seq::new(s.len(), |i: int| s[i] as char)
}

/// The epoch of a version: the number before its first colon, and zero where
/// there is none or where that is no number.
pub open spec fn epoch(s: Seq<u8>) -> nat {
    let k = first_byte(s, 0x3a);
    if 0 <= k < s.len() {
        match unsigned_up_to(byte_chars(s.take(k)), u64::MAX as nat) {
            Some(n) => n,
            None => 0,
        }
    } else {
        0
    }
}

/// A version without its epoch.
pub open spec fn after_epoch(s: Seq<u8>) -> Seq<u8> {
    let k = first_byte(s, 0x3a);
    if 0 <= k < s.len() {
        s.skip(k + 1)
    } else {
        s
    }
}

/// The upstream part: what precedes the last hyphen.
pub open spec fn upstream(s: Seq<u8>) -> Seq<u8> {
    let k = last_byte(s, 0x2d);
    if k < 0 {
        s
    } else {
        s.take(k)
    }
}

/// The revision: what follows the last hyphen.
pub open spec fn revision(s: Seq<u8>) -> Seq<u8> {
    let k = last_byte(s, 0x2d);
    if k < 0 {
        seq![]
    } else {
        s.skip(k + 1)
    }
}

/// How two versions compare: by epoch, then by upstream part, then by revision.
pub open spec fn version_rel(a: Seq<u8>, b: Seq<u8>) -> Rel {
    and_else(
        int_rel(epoch(a) as int, epoch(b) as int),
        and_else(
            part_rel(upstream(after_epoch(a)), upstream(after_epoch(b))),
            part_rel(revision(after_epoch(a)), revision(after_epoch(b))),
        ),
    )
}

/// A version compares as equal with itself.
pub proof fn version_order_is_reflexive(a: Seq<u8>)
    ensures
        version_rel(a, a) == Rel::Equal,
{
    lemma_key_rel_refl(part_key(upstream(after_epoch(a))));
    lemma_key_rel_refl(part_key(revision(after_epoch(a))));
}

/// Exchanging two versions turns their comparison round.
pub proof fn version_order_is_antisymmetric(a: Seq<u8>, b: Seq<u8>)
    ensures
        version_rel(b, a) == turned(version_rel(a, b)),
{
    let (x, y) = (after_epoch(a), after_epoch(b));
    lemma_key_rel_turned(part_key(upstream(x)), part_key(upstream(y)));
    lemma_key_rel_turned(part_key(revision(x)), part_key(revision(y)));
}

/// A version no later than a second, which is no later than a third, is no
/// later than the third; and it compares as equal with the third exactly where
/// all three compare as equal.
pub proof fn version_order_is_transitive(a: Seq<u8>, b: Seq<u8>, c: Seq<u8>)
    requires
        version_rel(a, b) != Rel::Greater,
        version_rel(b, c) != Rel::Greater,
    ensures
        version_rel(a, c) != Rel::Greater,
        version_rel(a, c) == Rel::Equal <==> (version_rel(a, b) == Rel::Equal && version_rel(b, c)
            == Rel::Equal),
{
    if epoch(a) == epoch(b) && epoch(b) == epoch(c) {
        let (x, y, z) = (after_epoch(a), after_epoch(b), after_epoch(c));
        lemma_key_rel_trans(
            part_key(upstream(x)),
            part_key(upstream(y)),
            part_key(upstream(z)),
        );
        if part_rel(upstream(x), upstream(y)) == Rel::Equal && part_rel(upstream(y), upstream(z))
            == Rel::Equal {
            lemma_key_rel_trans(
                part_key(revision(x)),
                part_key(revision(y)),
                part_key(revision(z)),
            );
        }
    }
}

// ---------------------------------------------------------------------------
// Comparing
// ---------------------------------------------------------------------------

fn is_digit_byte(b: u8) -> (r: bool)
    ensures
        r == digit_byte(b),
{
    0x30 <= b && b <= 0x39
}

/// The weight of the byte at `i`; zero for a digit and past the end.
fn weight_at(s: &[u8], i: usize) -> (r: i32)
    requires
        i <= s@.len(),
    ensures
        r == head(part_key(s@.skip(i as int))),
        i < s@.len() && !digit_byte(s@[i as int]) ==> r == weight(s@[i as int]),
        !(i < s@.len() && !digit_byte(s@[i as int])) ==> r == 0,
{
    if i >= s.len() || is_digit_byte(s[i]) {
        return 0;
    }
    let b: u8 = s[i];
    if b == 0x7e {
        -1
    } else if (0x41 <= b && b <= 0x5a) || (0x61 <= b && b <= 0x7a) {
        b as i32
    } else {
        b as i32 + 256
    }
}

/// The end of the digit run that starts at `i`.
fn run_end(s: &[u8], i: usize) -> (r: usize)
    requires
        i <= s@.len(),
    ensures
        i <= r <= s@.len(),
        r - i == digit_run(s@.skip(i as int)),
        forall|k: int| i <= k < r ==> digit_byte(#[trigger] s@[k]),
        r < s@.len() ==> !digit_byte(s@[r as int]),
    decreases s@.len() - i,
{
    if i >= s.len() || !is_digit_byte(s[i]) {
        return i;
    }
    assert(s@.skip(i as int).skip(1) =~= s@.skip(i + 1));
    run_end(s, i + 1)
}

proof fn lemma_run_value_skip_zero(s: Seq<u8>)
    requires
        s.len() > 0,
        s[0] == 0x30,
    ensures
        run_value(s) == run_value(s.skip(1)),
    decreases s.len(),
{
    if s.len() > 1 {
        lemma_run_value_skip_zero(s.drop_last());
        assert(s.drop_last().skip(1) =~= s.skip(1).drop_last());
    } else {
        assert(s.drop_last() =~= seq![]);
        assert(s.skip(1) =~= seq![]);
    }
}

/// The digit run from `i` to `end` without its leading zeros.
fn skip_zeros(s: &[u8], i: usize, end: usize) -> (r: usize)
    requires
        i <= end <= s@.len(),
    ensures
        i <= r <= end,
        run_value(s@.subrange(r as int, end as int)) == run_value(s@.subrange(i as int, end as int)),
        r < end ==> s@[r as int] != 0x30,
{
    let mut k: usize = i;
    while k < end && s[k] == 0x30
        invariant
            i <= k <= end <= s@.len(),
            run_value(s@.subrange(k as int, end as int)) == run_value(
                s@.subrange(i as int, end as int),
            ),
        decreases end - k,
    {
        proof {
            lemma_run_value_skip_zero(s@.subrange(k as int, end as int));
            assert(s@.subrange(k as int, end as int).skip(1) =~= s@.subrange(k + 1, end as int));
        }
        k += 1;
    }
    k
}

proof fn lemma_run_value_grows(s: Seq<u8>, k: int)
    requires
        0 <= k < s.len(),
    ensures
        run_value(s.take(k)) * 10 <= run_value(s),
        run_value(s.take(k + 1)) <= run_value(s),
    decreases s.len() - k,
{
    let t = s.take(k + 1);
    assert(t.drop_last() =~= s.take(k));
    if k + 1 < s.len() {
        lemma_run_value_grows(s, k + 1);
    } else {
        assert(s.take(k + 1) =~= s);
    }
}

/// How the numbers of two digit runs without leading zeros compare.
fn compare_runs(a: &[u8], b: &[u8]) -> (r: Rel)
    requires
        forall|k: int| 0 <= k < a@.len() ==> digit_byte(#[trigger] a@[k]),
        forall|k: int| 0 <= k < b@.len() ==> digit_byte(#[trigger] b@[k]),
        a@.len() > 0 ==> a@[0] != 0x30,
        b@.len() > 0 ==> b@[0] != 0x30,
    ensures
        r == int_rel(run_value(a@) as int, run_value(b@) as int),
{
    let mut first = Rel::Equal;
    let mut k: usize = 0;
    while k < a.len() && k < b.len()
        invariant
            k <= a@.len(),
            k <= b@.len(),
            forall|j: int| 0 <= j < a@.len() ==> digit_byte(#[trigger] a@[j]),
            forall|j: int| 0 <= j < b@.len() ==> digit_byte(#[trigger] b@[j]),
            a@.len() > 0 ==> a@[0] != 0x30,
            b@.len() > 0 ==> b@[0] != 0x30,
            first == int_rel(
                run_value(a@.take(k as int)) as int,
                run_value(b@.take(k as int)) as int,
            ),
            k > 0 ==> run_value(b@.take(k as int)) < 10 * run_value(a@.take(k as int)),
            k > 0 ==> run_value(a@.take(k as int)) < 10 * run_value(b@.take(k as int)),
        decreases a@.len() - k,
    {
        let (x, y) = (a[k], b[k]);
        assert(digit_byte(a@[k as int]) && digit_byte(b@[k as int]));
        proof {
            assert(a@.take(k + 1).drop_last() =~= a@.take(k as int));
            assert(b@.take(k + 1).drop_last() =~= b@.take(k as int));
        }
        if first == Rel::Equal {
            first =
            if x < y {
                Rel::Less
            } else if x > y {
                Rel::Greater
            } else {
                Rel::Equal
            };
        }
        k += 1;
    }
    if k < a.len() {
        proof {
            lemma_run_value_grows(a@, k as int);
            assert(b@.take(k as int) =~= b@);
            if k == 0 {
                lemma_run_value_grows(a@, 0);
                assert(a@.take(1).drop_last() =~= seq![]);
            }
        }
        return Rel::Greater;
    }
    if k < b.len() {
        proof {
            lemma_run_value_grows(b@, k as int);
            assert(a@.take(k as int) =~= a@);
            if k == 0 {
                lemma_run_value_grows(b@, 0);
                assert(b@.take(1).drop_last() =~= seq![]);
            }
        }
        return Rel::Less;
    }
    assert(a@.take(k as int) =~= a@);
    assert(b@.take(k as int) =~= b@);
    first
}

proof fn lemma_part_key_at_run(s: Seq<u8>, i: int, end: int)
    requires
        0 <= i <= end <= s.len(),
        end - i == digit_run(s.skip(i)),
        i < s.len() ==> digit_byte(s[i]),
    ensures
        head(part_key(s.skip(i))) == 0,
        head(tail(part_key(s.skip(i)))) == run_value(s.subrange(i, end)),
        tail(tail(part_key(s.skip(i)))) == part_key(s.skip(end)),
{
    let t = s.skip(i);
    if i < s.len() {
        lemma_digit_run(t);
        assert(t.take(end - i) =~= s.subrange(i, end));
        assert(t.skip(end - i) =~= s.skip(end));
        let k = seq![0int, run_value(s.subrange(i, end)) as int] + part_key(s.skip(end));
        assert(part_key(t) == k);
        assert(k.skip(1) =~= seq![run_value(s.subrange(i, end)) as int] + part_key(s.skip(end)));
        assert(k.skip(1).skip(1) =~= part_key(s.skip(end)));
    } else {
        assert(t =~= seq![]);
        assert(s.subrange(i, end) =~= seq![]);
        assert(s.skip(end) =~= seq![]);
    }
}

/// How two upstream parts, or two revisions, compare.
pub fn compare_parts(a: &[u8], b: &[u8]) -> (r: Rel)
    ensures
        r == part_rel(a@, b@),
{
    let mut i: usize = 0;
    let mut j: usize = 0;
    assert(a@.skip(0) =~= a@);
    assert(b@.skip(0) =~= b@);
    while i < a.len() || j < b.len()
        invariant
            i <= a@.len(),
            j <= b@.len(),
            part_rel(a@, b@) == part_rel(a@.skip(i as int), b@.skip(j as int)),
        decreases a@.len() + b@.len() - i - j,
    {
        let ghost i0 = i;
        let ghost j0 = j;
        while (i < a.len() && !is_digit_byte(a[i])) || (j < b.len() && !is_digit_byte(b[j]))
            invariant
                i0 <= i <= a@.len(),
                j0 <= j <= b@.len(),
                part_rel(a@, b@) == part_rel(a@.skip(i as int), b@.skip(j as int)),
            decreases a@.len() + b@.len() - i - j,
        {
            let end: usize = b.len();
            let (x, y) = (weight_at(a, i), weight_at(b, j));
            if x != y {
                return if x < y {
                    Rel::Less
                } else {
                    Rel::Greater
                };
            }
            // Only a byte outside a digit run has a weight other than zero.
            assert(i < a@.len() && !digit_byte(a@[i as int]));
            assert(j < end && !digit_byte(b@[j as int]));
            proof {
                let (s, t) = (a@.skip(i as int), b@.skip(j as int));
                assert(s.skip(1) =~= a@.skip(i + 1));
                assert(t.skip(1) =~= b@.skip(j + 1));
                assert(tail(part_key(s)) =~= part_key(s.skip(1)));
                assert(tail(part_key(t)) =~= part_key(t.skip(1)));
            }
            i += 1;
            j += 1;
        }
        let (m, n) = (run_end(a, i), run_end(b, j));
        let (x, y) = (skip_zeros(a, i, m), skip_zeros(b, j, n));
        let (p, q) = (
            vstd::slice::slice_subrange(a, x, m),
            vstd::slice::slice_subrange(b, y, n),
        );
        let r = compare_runs(p, q);
        proof {
            lemma_part_key_at_run(a@, i as int, m as int);
            lemma_part_key_at_run(b@, j as int, n as int);
            let (s, t) = (part_key(a@.skip(i as int)), part_key(b@.skip(j as int)));
            lemma_key_rel_step(s, t);
            if r == Rel::Equal {
                lemma_key_rel_step(tail(s), tail(t));
            }
        }
        if r != Rel::Equal {
            return r;
        }
        i = m;
        j = n;
    }
    assert(a@.skip(i as int) =~= seq![]);
    assert(b@.skip(j as int) =~= seq![]);
    Rel::Equal
}

pub proof fn lemma_first_byte(s: Seq<u8>, b: u8, k: int)
    requires
        0 <= k <= s.len(),
        forall|j: int| 0 <= j < k ==> s[j] != b,
        k < s.len() ==> s[k] == b,
    ensures
        first_byte(s, b) == k,
    decreases s.len(),
{
    if k > 0 {
        let t = s.skip(1);
        assert forall|j: int| 0 <= j < k - 1 implies t[j] != b by {
            assert(t[j] == s[j + 1]);
        }
        lemma_first_byte(t, b, k - 1);
    }
}

proof fn lemma_last_byte(s: Seq<u8>, b: u8, k: int)
    requires
        -1 <= k < s.len(),
        forall|j: int| k < j < s.len() ==> s[j] != b,
        k >= 0 ==> s[k] == b,
    ensures
        last_byte(s, b) == k,
    decreases s.len(),
{
    if k + 1 < s.len() {
        let t = s.drop_last();
        assert forall|j: int| k < j < t.len() implies t[j] != b by {
            assert(t[j] == s[j]);
        }
        lemma_last_byte(t, b, k);
    }
}

/// The epoch of a version, and what follows it.
pub fn split_epoch(v: &[u8]) -> (r: (u64, &[u8]))
    ensures
        r.0 == epoch(v@),
        r.1@ == after_epoch(v@),
{
    let mut k: usize = 0;
    let mut before: Vec<char> = Vec::new();
    while k < v.len()
        invariant
            k <= v@.len(),
            before@ == byte_chars(v@.take(k as int)),
            forall|j: int| 0 <= j < k ==> v@[j] != 0x3a,
        decreases v@.len() - k,
    {
        if v[k] == 0x3a {
            proof {
                lemma_first_byte(v@, 0x3a, k as int);
            }
            let n = match parse_u64(before.as_slice()) {
                Some(n) => n,
                None => 0,
            };
            return (n, vstd::slice::slice_subrange(v, k + 1, v.len()));
        }
        before.push(v[k] as char);
        k += 1;
        assert(before@ =~= byte_chars(v@.take(k as int)));
    }
    proof {
        lemma_first_byte(v@, 0x3a, k as int);
    }
    (0, v)
}

/// The upstream part and the revision of a version without epoch.
pub fn split_revision(v: &[u8]) -> (r: (&[u8], &[u8]))
    ensures
        r.0@ == upstream(v@),
        r.1@ == revision(v@),
{
    let mut k: usize = v.len();
    while k > 0
        invariant
            k <= v@.len(),
            forall|j: int| k <= j < v@.len() ==> v@[j] != 0x2d,
        decreases k,
    {
        k -= 1;
        if v[k] == 0x2d {
            proof {
                lemma_last_byte(v@, 0x2d, k as int);
            }
            return (
                vstd::slice::slice_subrange(v, 0, k),
                vstd::slice::slice_subrange(v, k + 1, v.len()),
            );
        }
    }
    proof {
        lemma_last_byte(v@, 0x2d, -1);
    }
    let none = vstd::slice::slice_subrange(v, 0, 0);
    assert(none@ =~= seq![]);
    (v, none)
}

/// How two versions compare.
pub fn compare_versions(a: &[u8], b: &[u8]) -> (r: Rel)
    ensures
        r == version_rel(a@, b@),
{
    let (m, x) = split_epoch(a);
    let (n, y) = split_epoch(b);
    if m < n {
        return Rel::Less;
    }
    if m > n {
        return Rel::Greater;
    }
    let (p, v) = split_revision(x);
    let (q, w) = split_revision(y);
    match compare_parts(p, q) {
        Rel::Equal => compare_parts(v, w),
        r => r,
    }
}

} // verus!
