//! Text as sequences of characters.
//!
//! The views of `&str` and `String` are sequences of `char`. The spec functions
//! here say what splitting, trimming and searching mean on such sequences; the
//! executable functions work on slices of characters, so that a piece of a text
//! can be passed on without copying it.

use vstd::prelude::*;
use vstd::slice::slice_subrange;
use vstd::string::StringExecFns;
use vstd::utf8::{decode_utf8, is_ascii_chars, valid_utf8};

verus! {

// ---------------------------------------------------------------------------
// Views of lists and options of text
// ---------------------------------------------------------------------------

/// The texts held by a list of strings.
pub open spec fn texts(v: Seq<String>) -> Seq<Seq<char>> {
    Seq::new(v.len(), |i: int| v[i]@)
}

/// The texts of string slices.
pub open spec fn strs(v: Seq<&'static str>) -> Seq<Seq<char>> {
    v.map_values(|s: &'static str| s@)
}

/// The texts held by a list of character slices.
pub open spec fn pieces(v: Seq<&[char]>) -> Seq<Seq<char>> {
    Seq::new(v.len(), |i: int| v[i]@)
}

/// The text held by an optional string.
pub open spec fn opt_text(o: Option<String>) -> Option<Seq<char>> {
    match o {
        Some(s) => Some(s@),
        None => None,
    }
}

/// The text held by an optional string slice.
pub open spec fn opt_str(o: Option<&str>) -> Option<Seq<char>> {
    match o {
        Some(s) => Some(s@),
        None => None,
    }
}

/// The text held by an optional character slice.
pub open spec fn opt_piece(o: Option<&[char]>) -> Option<Seq<char>> {
    match o {
        Some(s) => Some(s@),
        None => None,
    }
}

/// The list held by an optional list of strings.
pub open spec fn opt_texts(o: Option<Vec<String>>) -> Option<Seq<Seq<char>>> {
    match o {
        Some(v) => Some(texts(v@)),
        None => None,
    }
}

pub broadcast proof fn lemma_texts_push(v: Seq<String>, s: String)
    ensures
        #[trigger] texts(v.push(s)) == texts(v).push(s@),
{
    assert(texts(v.push(s)) =~= texts(v).push(s@));
}

pub broadcast proof fn lemma_pieces_push(v: Seq<&[char]>, s: &[char])
    ensures
        #[trigger] pieces(v.push(s)) == pieces(v).push(s@),
{
    assert(pieces(v.push(s)) =~= pieces(v).push(s@));
}

// ---------------------------------------------------------------------------
// Character classes
// ---------------------------------------------------------------------------

/// The characters with the Unicode property `White_Space`.
pub open spec fn is_space(c: char) -> bool {
    ||| 0x9 <= c as u32 <= 0xd
    ||| c as u32 == 0x20
    ||| c as u32 == 0x85
    ||| c as u32 == 0xa0
    ||| c as u32 == 0x1680
    ||| 0x2000 <= c as u32 <= 0x200a
    ||| c as u32 == 0x2028
    ||| c as u32 == 0x2029
    ||| c as u32 == 0x202f
    ||| c as u32 == 0x205f
    ||| c as u32 == 0x3000
}

/// The ASCII decimal digits.
pub open spec fn is_digit(c: char) -> bool {
    '0' as u32 <= c as u32 <= '9' as u32
}

/// The ASCII letters.
pub open spec fn is_letter(c: char) -> bool {
    ||| 'a' as u32 <= c as u32 <= 'z' as u32
    ||| 'A' as u32 <= c as u32 <= 'Z' as u32
}

/// ASCII capitals in lower case; every other character as it is.
pub open spec fn lower_char(c: char) -> char {
    if 'A' as u32 <= c as u32 <= 'Z' as u32 {
        (c as u32 + 32) as char
    } else {
        c
    }
}

/// ASCII small letters in upper case; every other character as it is.
pub open spec fn upper_char(c: char) -> char {
    if 'a' as u32 <= c as u32 <= 'z' as u32 {
        (c as u32 - 32) as char
    } else {
        c
    }
}

/// A text with its ASCII capitals in lower case.
pub open spec fn ascii_lower(s: Seq<char>) -> Seq<char> {
    Seq::new(s.len(), |i: int| lower_char(s[i]))
}

/// A text with its ASCII small letters in upper case.
pub open spec fn ascii_upper(s: Seq<char>) -> Seq<char> {
    Seq::new(s.len(), |i: int| upper_char(s[i]))
}

pub fn space(c: char) -> (r: bool)
    ensures
        r == is_space(c),
{
    let n: u32 = c as u32;
    (0x9 <= n && n <= 0xd) || n == 0x20 || n == 0x85 || n == 0xa0 || n == 0x1680
        || (0x2000 <= n && n <= 0x200a) || n == 0x2028 || n == 0x2029 || n == 0x202f || n == 0x205f
        || n == 0x3000
}

pub fn digit(c: char) -> (r: bool)
    ensures
        r == is_digit(c),
{
    let n: u32 = c as u32;
    0x30 <= n && n <= 0x39
}

pub fn letter(c: char) -> (r: bool)
    ensures
        r == is_letter(c),
{
    let n: u32 = c as u32;
    (0x61 <= n && n <= 0x7a) || (0x41 <= n && n <= 0x5a)
}

// ---------------------------------------------------------------------------
// Between strings and slices of characters
// ---------------------------------------------------------------------------

/// `String::push` appends one character at the end.
pub assume_specification[ String::push ](text: &mut String, c: char)
    ensures
        final(text)@ == old(text)@.push(c),
;

/// The name of what `str::to_lowercase` returns: the Unicode lower-case form.
pub uninterp spec fn lowercase(s: Seq<char>) -> Seq<char>;

/// `str::to_lowercase` returns the Unicode lower-case form of a text, which is
/// a function of the text alone. On ASCII text it changes the capitals only.
pub assume_specification[ str::to_lowercase ](s: &str) -> (r: String)
    ensures
        r@ == lowercase(s@),
        is_ascii_chars(s@) ==> r@ == ascii_lower(s@),
;

/// The name of what `str::to_uppercase` returns: the Unicode upper-case form.
pub uninterp spec fn uppercase(s: Seq<char>) -> Seq<char>;

/// `str::to_uppercase` returns the Unicode upper-case form of a text, which is
/// a function of the text alone. On ASCII text it changes the small letters only.
pub assume_specification[ str::to_uppercase ](s: &str) -> (r: String)
    ensures
        r@ == uppercase(s@),
        is_ascii_chars(s@) ==> r@ == ascii_upper(s@),
;

/// The name of what `String::from_utf8_lossy` makes of bytes.
pub uninterp spec fn lossy_text(bytes: Seq<u8>) -> Seq<char>;

/// `String::from_utf8_lossy` decodes bytes, with the replacement character U+FFFD
/// in place of what is no UTF-8. The text depends on the bytes alone; of valid
/// UTF-8 it is the text encoded. A character of ASCII comes from a byte that
/// encodes it.
#[verifier::external_body]
pub(crate) fn decode_lossy(bytes: &[u8]) -> (r: String)
    ensures
        r@ == lossy_text(bytes@),
        valid_utf8(bytes@) ==> r@ == decode_utf8(bytes@),
        forall|k: int|
            0 <= k < r@.len() && (r@[k] as u32) < 128 ==> bytes@.contains(#[trigger] r@[k] as u8),
{
    String::from_utf8_lossy(bytes).into_owned()
}

/// The characters of a string.
pub fn chars_of(s: &str) -> (r: Vec<char>)
    ensures
        r@ == s@,
{
    let mut out: Vec<char> = Vec::new();
    for c in it: s.chars()
        invariant
            it.seq() == s@,
            out@ == s@.take(it.index()),
    {
        out.push(c);
        assert(out@ == s@.take(it.index() + 1));
    }
    assert(out@ == s@);
    out
}

/// The string made of the given characters.
pub fn string_of(s: &[char]) -> (r: String)
    ensures
        r@ == s@,
{
    let mut out = String::new();
    let mut i: usize = 0;
    while i < s.len()
        invariant
            i <= s@.len(),
            out@ == s@.take(i as int),
        decreases s@.len() - i,
    {
        out.push(s[i]);
        i += 1;
        assert(out@ == s@.take(i as int));
    }
    assert(out@ == s@);
    out
}

/// The strings made of the given pieces.
pub fn strings_of(v: &Vec<&[char]>) -> (r: Vec<String>)
    ensures
        texts(r@) == pieces(v@),
{
    let mut out: Vec<String> = Vec::new();
    let mut i: usize = 0;
    while i < v.len()
        invariant
            i <= v@.len(),
            texts(out@) == pieces(v@).take(i as int),
        decreases v@.len() - i,
    {
        broadcast use lemma_texts_push;

        out.push(string_of(v[i]));
        i += 1;
        assert(texts(out@) == pieces(v@).take(i as int));
    }
    assert(pieces(v@).take(v@.len() as int) == pieces(v@));
    out
}

/// A copy of a list of strings.
pub fn copy_strings(v: &Vec<String>) -> (r: Vec<String>)
    ensures
        texts(r@) == texts(v@),
{
    let mut out: Vec<String> = Vec::new();
    let mut i: usize = 0;
    while i < v.len()
        invariant
            i <= v@.len(),
            texts(out@) == texts(v@).take(i as int),
        decreases v@.len() - i,
    {
        broadcast use lemma_texts_push;

        out.push(v[i].clone());
        i += 1;
        assert(texts(out@) == texts(v@).take(i as int));
    }
    assert(texts(v@).take(v@.len() as int) == texts(v@));
    out
}

/// A copy of an optional string.
pub fn copy_option(o: &Option<String>) -> (r: Option<String>)
    ensures
        opt_text(r) == opt_text(*o),
{
    match o {
        Some(s) => Some(s.clone()),
        None => None,
    }
}

// ---------------------------------------------------------------------------
// Equality, prefixes, suffixes, occurrences
// ---------------------------------------------------------------------------

/// `p` stands at the start of `s`.
pub open spec fn has_prefix(s: Seq<char>, p: Seq<char>) -> bool {
    p.len() <= s.len() && s.take(p.len() as int) == p
}

/// `p` stands at the end of `s`.
pub open spec fn has_suffix(s: Seq<char>, p: Seq<char>) -> bool {
    p.len() <= s.len() && s.skip(s.len() - p.len()) == p
}

/// `p` stands in `s` at position `i`.
pub open spec fn occurs_at(s: Seq<char>, p: Seq<char>, i: int) -> bool {
    0 <= i && i + p.len() <= s.len() && s.subrange(i, i + p.len()) == p
}

/// `p` stands somewhere in `s`.
pub open spec fn has_text(s: Seq<char>, p: Seq<char>) -> bool {
    exists|i: int| occurs_at(s, p, i)
}

/// `p` stands in `s` at position `i`, and nowhere before it.
pub open spec fn first_occurs_at(s: Seq<char>, p: Seq<char>, i: int) -> bool {
    occurs_at(s, p, i) && forall|j: int| 0 <= j < i ==> !occurs_at(s, p, j)
}

/// What follows the prefix `p` of `s`, if `p` is one.
pub open spec fn after_prefix(s: Seq<char>, p: Seq<char>) -> Option<Seq<char>> {
    if has_prefix(s, p) {
        Some(s.skip(p.len() as int))
    } else {
        None
    }
}

/// What precedes the suffix `p` of `s`, if `p` is one.
pub open spec fn before_suffix(s: Seq<char>, p: Seq<char>) -> Option<Seq<char>> {
    if has_suffix(s, p) {
        Some(s.take(s.len() - p.len()))
    } else {
        None
    }
}

/// The parts of `s` before and after the first occurrence of `p`.
pub open spec fn cut(s: Seq<char>, p: Seq<char>) -> Option<(Seq<char>, Seq<char>)> {
    if has_text(s, p) {
        let i = choose|i: int| first_occurs_at(s, p, i);
        Some((s.take(i), s.skip(i + p.len())))
    } else {
        None
    }
}

/// The list holds the text.
pub open spec fn listed(v: Seq<Seq<char>>, t: Seq<char>) -> bool {
    v.contains(t)
}

/// Two slices hold the same characters.
pub fn same(a: &[char], b: &[char]) -> (r: bool)
    ensures
        r == (a@ == b@),
{
    if a.len() != b.len() {
        return false;
    }
    let mut i: usize = 0;
    while i < a.len()
        invariant
            a@.len() == b@.len(),
            i <= a@.len(),
            forall|k: int| 0 <= k < i ==> a@[k] == b@[k],
        decreases a@.len() - i,
    {
        if a[i] != b[i] {
            return false;
        }
        i += 1;
    }
    assert(a@ =~= b@);
    true
}

/// Two strings hold the same characters.
pub fn same_str(a: &str, b: &str) -> (r: bool)
    ensures
        r == (a@ == b@),
{
    same(chars_of(a).as_slice(), chars_of(b).as_slice())
}

/// The slice holds the characters of the string.
pub fn reads(a: &[char], b: &str) -> (r: bool)
    ensures
        r == (a@ == b@),
{
    same(a, chars_of(b).as_slice())
}

/// `p` stands in `s` at position `i`.
fn stands_at(s: &[char], p: &[char], i: usize) -> (r: bool)
    requires
        i + p@.len() <= s@.len(),
    ensures
        r == occurs_at(s@, p@, i as int),
{
    let n: usize = s.len();
    let mut k: usize = 0;
    while k < p.len()
        invariant
            n == s@.len(),
            i + p@.len() <= n,
            k <= p@.len(),
            forall|j: int| 0 <= j < k ==> s@[i + j] == p@[j],
        decreases p@.len() - k,
    {
        if s[i + k] != p[k] {
            assert(s@.subrange(i as int, i + p@.len())[k as int] == s@[i + k]);
            return false;
        }
        k += 1;
    }
    assert(s@.subrange(i as int, i + p@.len()) =~= p@);
    true
}

/// The slice starts with the string.
pub fn starts(s: &[char], p: &str) -> (r: bool)
    ensures
        r == has_prefix(s@, p@),
{
    let p = chars_of(p);
    if p.len() > s.len() {
        return false;
    }
    assert(s@.take(p@.len() as int) == s@.subrange(0, p@.len() as int));
    stands_at(s, p.as_slice(), 0)
}

/// The slice ends with the string.
pub fn ends(s: &[char], p: &str) -> (r: bool)
    ensures
        r == has_suffix(s@, p@),
{
    let p = chars_of(p);
    if p.len() > s.len() {
        return false;
    }
    let i: usize = s.len() - p.len();
    assert(s@.skip(i as int) == s@.subrange(i as int, i + p@.len()));
    stands_at(s, p.as_slice(), i)
}

/// The position of the first occurrence of `p` in `s`.
pub fn find(s: &[char], p: &[char]) -> (r: Option<usize>)
    ensures
        match r {
            Some(i) => first_occurs_at(s@, p@, i as int),
            None => !has_text(s@, p@),
        },
{
    if p.len() > s.len() {
        return None;
    }
    let last: usize = s.len() - p.len();
    let mut i: usize = 0;
    while i <= last
        invariant
            last + p@.len() == s@.len(),
            i <= last + 1,
            forall|j: int| 0 <= j < i ==> !occurs_at(s@, p@, j),
        decreases last + 1 - i,
    {
        if stands_at(s, p, i) {
            return Some(i);
        }
        if i == last {
            assert(!has_text(s@, p@));
            return None;
        }
        i += 1;
    }
    None
}

/// The string stands somewhere in the slice.
pub fn holds(s: &[char], p: &str) -> (r: bool)
    ensures
        r == has_text(s@, p@),
{
    match find(s, chars_of(p).as_slice()) {
        Some(i) => {
            assert(occurs_at(s@, p@, i as int));
            true
        },
        None => false,
    }
}

/// What follows the prefix `p`, if the slice starts with it.
pub fn strip<'a>(s: &'a [char], p: &str) -> (r: Option<&'a [char]>)
    ensures
        opt_piece(r) == after_prefix(s@, p@),
{
    if starts(s, p) {
        let n: usize = chars_of(p).len();
        Some(skip(s, n))
    } else {
        None
    }
}

/// What precedes the suffix `p`, if the slice ends with it.
pub fn strip_end<'a>(s: &'a [char], p: &str) -> (r: Option<&'a [char]>)
    ensures
        opt_piece(r) == before_suffix(s@, p@),
{
    if ends(s, p) {
        let n: usize = chars_of(p).len();
        Some(take(s, s.len() - n))
    } else {
        None
    }
}

/// The first `n` characters.
pub fn take(s: &[char], n: usize) -> (r: &[char])
    requires
        n <= s@.len(),
    ensures
        r@ == s@.take(n as int),
{
    slice_subrange(s, 0, n)
}

/// All but the first `n` characters.
pub fn skip(s: &[char], n: usize) -> (r: &[char])
    requires
        n <= s@.len(),
    ensures
        r@ == s@.skip(n as int),
{
    slice_subrange(s, n, s.len())
}

/// The position of a first occurrence decides what [`cut`] returns.
pub proof fn lemma_cut(s: Seq<char>, p: Seq<char>, i: int)
    requires
        first_occurs_at(s, p, i),
    ensures
        cut(s, p) == Some((s.take(i), s.skip(i + p.len()))),
{
    assert(occurs_at(s, p, i));
    let k = choose|k: int| first_occurs_at(s, p, k);
    assert(first_occurs_at(s, p, k));
    assert(k == i);
}

/// The parts before and after the first occurrence of `p`.
pub fn cut_at<'a>(s: &'a [char], p: &str) -> (r: Option<(&'a [char], &'a [char])>)
    ensures
        match r {
            Some((a, b)) => cut(s@, p@) == Some((a@, b@)),
            None => cut(s@, p@) is None,
        },
{
    let p = chars_of(p);
    match find(s, p.as_slice()) {
        Some(i) => {
            proof {
                lemma_cut(s@, p@, i as int);
            }
            let n: usize = s.len();
            assert(i + p@.len() <= n);
            Some((take(s, i), skip(s, i + p.len())))
        },
        None => None,
    }
}

// ---------------------------------------------------------------------------
// Splitting
// ---------------------------------------------------------------------------

/// The position of the first `c` in `s`; the length of `s` where there is none.
pub open spec fn index_of(s: Seq<char>, c: char) -> int
    decreases s.len(),
{
    if s.len() == 0 || s[0] == c {
        0
    } else {
        1 + index_of(s.skip(1), c)
    }
}

/// The position of the last `c` in `s`; `-1` where there is none.
pub open spec fn last_index_of(s: Seq<char>, c: char) -> int
    decreases s.len(),
{
    if s.len() == 0 || s.last() == c {
        s.len() - 1
    } else {
        last_index_of(s.drop_last(), c)
    }
}

/// The pieces of `s` between the occurrences of `c`.
pub open spec fn split(s: Seq<char>, c: char) -> Seq<Seq<char>>
    decreases s.len(),
{
    let k = index_of(s, c);
    if k < 0 || k >= s.len() {
        seq![s]
    } else {
        seq![s.take(k)] + split(s.skip(k + 1), c)
    }
}

/// A line without the carriage return before its line feed.
pub open spec fn without_return(s: Seq<char>) -> Seq<char> {
    if s.len() > 0 && s.last() == '\r' {
        s.drop_last()
    } else {
        s
    }
}

/// The lines of `s`: what ends in a line feed or in a carriage return and a
/// line feed, without these, and what follows the last of them, unless empty.
pub open spec fn lines(s: Seq<char>) -> Seq<Seq<char>>
    decreases s.len(),
{
    let k = index_of(s, '\n');
    if s.len() == 0 {
        seq![]
    } else if k < 0 || k >= s.len() {
        seq![s]
    } else {
        seq![without_return(s.take(k))] + lines(s.skip(k + 1))
    }
}

/// The number of characters at the start of `s` that are white space.
pub open spec fn leading_spaces(s: Seq<char>) -> int
    decreases s.len(),
{
    if s.len() == 0 || !is_space(s[0]) {
        0
    } else {
        1 + leading_spaces(s.skip(1))
    }
}

/// The number of characters at the start of `s` that are not white space.
pub open spec fn leading_word(s: Seq<char>) -> int
    decreases s.len(),
{
    if s.len() == 0 || is_space(s[0]) {
        0
    } else {
        1 + leading_word(s.skip(1))
    }
}

/// `s` without the white space at its start.
pub open spec fn trim_start(s: Seq<char>) -> Seq<char>
    decreases s.len(),
{
    if s.len() == 0 || !is_space(s[0]) {
        s
    } else {
        trim_start(s.skip(1))
    }
}

/// `s` without the white space at its end.
pub open spec fn trim_end(s: Seq<char>) -> Seq<char>
    decreases s.len(),
{
    if s.len() == 0 || !is_space(s.last()) {
        s
    } else {
        trim_end(s.drop_last())
    }
}

/// `s` without the white space at its start and at its end.
pub open spec fn trim(s: Seq<char>) -> Seq<char> {
    trim_end(trim_start(s))
}

/// `s` without the characters `c` at its start.
pub open spec fn trim_start_char(s: Seq<char>, c: char) -> Seq<char>
    decreases s.len(),
{
    if s.len() == 0 || s[0] != c {
        s
    } else {
        trim_start_char(s.skip(1), c)
    }
}

/// `s` without the characters `c` at its end.
pub open spec fn trim_end_char(s: Seq<char>, c: char) -> Seq<char>
    decreases s.len(),
{
    if s.len() == 0 || s.last() != c {
        s
    } else {
        trim_end_char(s.drop_last(), c)
    }
}

/// `s` without the characters `c` at its start and at its end.
pub open spec fn trim_char(s: Seq<char>, c: char) -> Seq<char> {
    trim_end_char(trim_start_char(s, c), c)
}

pub proof fn lemma_trim_start_len(s: Seq<char>)
    ensures
        trim_start(s).len() <= s.len(),
        trim_start(s).len() > 0 ==> !is_space(trim_start(s)[0]),
        trim_start(s) == s.skip(leading_spaces(s)),
        0 <= leading_spaces(s) <= s.len(),
    decreases s.len(),
{
    if s.len() == 0 || !is_space(s[0]) {
        assert(s.skip(0) =~= s);
    } else {
        lemma_trim_start_len(s.skip(1));
        assert(s.skip(1).skip(leading_spaces(s.skip(1))) =~= s.skip(leading_spaces(s)));
    }
}

pub proof fn lemma_leading_word_range(s: Seq<char>)
    ensures
        0 <= leading_word(s) <= s.len(),
    decreases s.len(),
{
    if s.len() == 0 || is_space(s[0]) {
    } else {
        lemma_leading_word_range(s.skip(1));
    }
}

/// The words of `s`: its longest runs of characters other than white space.
pub open spec fn words(s: Seq<char>) -> Seq<Seq<char>>
    decreases s.len(),
{
    let t = trim_start(s);
    if t.len() == 0 || t.len() > s.len() || leading_word(t) <= 0 {
        seq![]
    } else {
        proof {
            lemma_leading_word_range(t);
        }
        seq![t.take(leading_word(t))] + words(t.skip(leading_word(t)))
    }
}

/// The parts of `s` before and after the last `c`.
pub open spec fn cut_last(s: Seq<char>, c: char) -> Option<(Seq<char>, Seq<char>)> {
    let k = last_index_of(s, c);
    if k < 0 {
        None
    } else {
        Some((s.take(k), s.skip(k + 1)))
    }
}

pub proof fn lemma_index_of(s: Seq<char>, c: char, k: int)
    requires
        0 <= k <= s.len(),
        forall|j: int| 0 <= j < k ==> s[j] != c,
        k < s.len() ==> s[k] == c,
    ensures
        index_of(s, c) == k,
    decreases s.len(),
{
    if k > 0 {
        let t = s.skip(1);
        assert forall|j: int| 0 <= j < k - 1 implies t[j] != c by {
            assert(t[j] == s[j + 1]);
        }
        lemma_index_of(t, c, k - 1);
    }
}

/// Where [`index_of`] points.
pub proof fn lemma_index_of_range(s: Seq<char>, c: char)
    ensures
        0 <= index_of(s, c) <= s.len(),
        index_of(s, c) < s.len() ==> s[index_of(s, c)] == c,
        forall|j: int| 0 <= j < index_of(s, c) ==> s[j] != c,
    decreases s.len(),
{
    if s.len() == 0 || s[0] == c {
    } else {
        let t = s.skip(1);
        lemma_index_of_range(t, c);
        assert forall|j: int| 0 <= j < index_of(s, c) implies s[j] != c by {
            if j > 0 {
                assert(t[j - 1] == s[j]);
            }
        }
    }
}

pub proof fn lemma_last_index_of(s: Seq<char>, c: char, k: int)
    requires
        -1 <= k < s.len(),
        forall|j: int| k < j < s.len() ==> s[j] != c,
        k >= 0 ==> s[k] == c,
    ensures
        last_index_of(s, c) == k,
    decreases s.len(),
{
    if k + 1 < s.len() {
        let t = s.drop_last();
        assert forall|j: int| k < j < t.len() implies t[j] != c by {
            assert(t[j] == s[j]);
        }
        lemma_last_index_of(t, c, k);
    }
}

/// The position of the first `c`, or the length.
pub fn position(s: &[char], c: char) -> (r: usize)
    ensures
        r == index_of(s@, c),
        r <= s@.len(),
        r < s@.len() ==> s@[r as int] == c,
{
    let mut i: usize = 0;
    while i < s.len()
        invariant
            i <= s@.len(),
            forall|j: int| 0 <= j < i ==> s@[j] != c,
        decreases s@.len() - i,
    {
        if s[i] == c {
            proof {
                lemma_index_of(s@, c, i as int);
            }
            return i;
        }
        i += 1;
    }
    proof {
        lemma_index_of(s@, c, i as int);
    }
    i
}

/// The parts before and after the last `c`.
pub fn cut_last_at(s: &[char], c: char) -> (r: Option<(&[char], &[char])>)
    ensures
        match r {
            Some((a, b)) => cut_last(s@, c) == Some((a@, b@)),
            None => cut_last(s@, c) is None,
        },
{
    let mut i: usize = s.len();
    while i > 0
        invariant
            i <= s@.len(),
            forall|j: int| i <= j < s@.len() ==> s@[j] != c,
        decreases i,
    {
        i -= 1;
        if s[i] == c {
            proof {
                lemma_last_index_of(s@, c, i as int);
            }
            return Some((take(s, i), skip(s, i + 1)));
        }
    }
    proof {
        lemma_last_index_of(s@, c, -1);
    }
    None
}

/// The pieces between the occurrences of `c`.
pub fn split_at_char(s: &[char], c: char) -> (r: Vec<&[char]>)
    ensures
        pieces(r@) == split(s@, c),
        r@.len() >= 1,
{
    let mut out: Vec<&[char]> = Vec::new();
    let mut rest: &[char] = s;
    proof {
        assert(pieces(out@) + split(rest@, c) =~= split(s@, c));
    }
    loop
        invariant
            pieces(out@) + split(rest@, c) == split(s@, c),
        decreases rest@.len(),
    {
        broadcast use lemma_pieces_push;

        let k: usize = position(rest, c);
        if k == rest.len() {
            let ghost before = pieces(out@);
            out.push(rest);
            assert(pieces(out@) =~= before + seq![rest@]);
            return out;
        }
        let ghost before = pieces(out@);
        out.push(take(rest, k));
        let next = skip(rest, k + 1);
        assert(pieces(out@) + split(next@, c) =~= before + (seq![rest@.take(k as int)] + split(
            next@,
            c,
        )));
        rest = next;
    }
}

/// The lines of a text.
pub fn lines_of(s: &[char]) -> (r: Vec<&[char]>)
    ensures
        pieces(r@) == lines(s@),
{
    let mut out: Vec<&[char]> = Vec::new();
    let mut rest: &[char] = s;
    proof {
        assert(pieces(out@) + lines(rest@) =~= lines(s@));
    }
    loop
        invariant
            pieces(out@) + lines(rest@) == lines(s@),
        decreases rest@.len(),
    {
        broadcast use lemma_pieces_push;

        if rest.len() == 0 {
            assert(pieces(out@) + lines(rest@) =~= pieces(out@));
            return out;
        }
        let k: usize = position(rest, '\n');
        let ghost before = pieces(out@);
        if k == rest.len() {
            out.push(rest);
            assert(pieces(out@) =~= before + seq![rest@]);
            return out;
        }
        let body = take(rest, k);
        let line = if k > 0 && rest[k - 1] == '\r' {
            take(body, k - 1)
        } else {
            body
        };
        assert(line@ =~= without_return(rest@.take(k as int)));
        out.push(line);
        let next = skip(rest, k + 1);
        assert(pieces(out@) + lines(next@) =~= before + (seq![line@] + lines(next@)));
        rest = next;
    }
}

pub proof fn lemma_leading_word(s: Seq<char>, k: int)
    requires
        0 <= k <= s.len(),
        forall|j: int| 0 <= j < k ==> !is_space(s[j]),
        k < s.len() ==> is_space(s[k]),
    ensures
        leading_word(s) == k,
    decreases s.len(),
{
    if k > 0 {
        let t = s.skip(1);
        assert forall|j: int| 0 <= j < k - 1 implies !is_space(t[j]) by {
            assert(t[j] == s[j + 1]);
        }
        lemma_leading_word(t, k - 1);
    }
}

/// The text without the white space at its start.
pub fn trim_start_of(s: &[char]) -> (r: &[char])
    ensures
        r@ == trim_start(s@),
        r@.len() <= s@.len(),
        r@.len() > 0 ==> !is_space(r@[0]),
{
    let mut rest: &[char] = s;
    while rest.len() > 0 && space(rest[0])
        invariant
            trim_start(rest@) == trim_start(s@),
            rest@.len() <= s@.len(),
        decreases rest@.len(),
    {
        rest = skip(rest, 1);
    }
    rest
}

/// The text without the white space at its end.
pub fn trim_end_of(s: &[char]) -> (r: &[char])
    ensures
        r@ == trim_end(s@),
{
    let mut rest: &[char] = s;
    while rest.len() > 0 && space(rest[rest.len() - 1])
        invariant
            trim_end(rest@) == trim_end(s@),
        decreases rest@.len(),
    {
        assert(rest@.take(rest@.len() - 1) =~= rest@.drop_last());
        rest = take(rest, rest.len() - 1);
    }
    rest
}

/// The text without the white space at its start and at its end.
pub fn trim_of(s: &[char]) -> (r: &[char])
    ensures
        r@ == trim(s@),
{
    trim_end_of(trim_start_of(s))
}

/// The text without the characters `c` at its start.
pub fn trim_start_char_of(s: &[char], c: char) -> (r: &[char])
    ensures
        r@ == trim_start_char(s@, c),
{
    let mut rest: &[char] = s;
    while rest.len() > 0 && rest[0] == c
        invariant
            trim_start_char(rest@, c) == trim_start_char(s@, c),
        decreases rest@.len(),
    {
        rest = skip(rest, 1);
    }
    rest
}

/// The text without the characters `c` at its end.
pub fn trim_end_char_of(s: &[char], c: char) -> (r: &[char])
    ensures
        r@ == trim_end_char(s@, c),
{
    let mut rest: &[char] = s;
    while rest.len() > 0 && rest[rest.len() - 1] == c
        invariant
            trim_end_char(rest@, c) == trim_end_char(s@, c),
        decreases rest@.len(),
    {
        assert(rest@.take(rest@.len() - 1) =~= rest@.drop_last());
        rest = take(rest, rest.len() - 1);
    }
    rest
}

/// The text without the characters `c` at its start and at its end.
pub fn trim_char_of(s: &[char], c: char) -> (r: &[char])
    ensures
        r@ == trim_char(s@, c),
{
    trim_end_char_of(trim_start_char_of(s, c), c)
}

/// The words of a text.
pub fn words_of(s: &[char]) -> (r: Vec<&[char]>)
    ensures
        pieces(r@) == words(s@),
{
    let mut out: Vec<&[char]> = Vec::new();
    let mut rest: &[char] = s;
    proof {
        assert(pieces(out@) + words(rest@) =~= words(s@));
    }
    loop
        invariant
            pieces(out@) + words(rest@) == words(s@),
        decreases rest@.len(),
    {
        broadcast use lemma_pieces_push;

        let t = trim_start_of(rest);
        if t.len() == 0 {
            assert(pieces(out@) + words(rest@) =~= pieces(out@));
            return out;
        }
        let mut k: usize = 0;
        while k < t.len() && !space(t[k])
            invariant
                k <= t@.len(),
                forall|j: int| 0 <= j < k ==> !is_space(t@[j]),
            decreases t@.len() - k,
        {
            k += 1;
        }
        proof {
            lemma_leading_word(t@, k as int);
        }
        let ghost before = pieces(out@);
        let word = take(t, k);
        out.push(word);
        let next = skip(t, k);
        assert(pieces(out@) + words(next@) =~= before + (seq![word@] + words(next@)));
        rest = next;
    }
}

// ---------------------------------------------------------------------------
// Joining and replacing
// ---------------------------------------------------------------------------

/// The texts one after the other, with `sep` between them.
pub open spec fn join(v: Seq<Seq<char>>, sep: Seq<char>) -> Seq<char>
    decreases v.len(),
{
    if v.len() == 0 {
        seq![]
    } else if v.len() == 1 {
        v[0]
    } else {
        join(v.drop_last(), sep) + sep + v.last()
    }
}

/// The strings one after the other, with `sep` between them.
pub fn join_strings(v: &Vec<String>, sep: &str) -> (r: String)
    ensures
        r@ == join(texts(v@), sep@),
{
    let mut out = String::new();
    let mut i: usize = 0;
    while i < v.len()
        invariant
            i <= v@.len(),
            out@ == join(texts(v@).take(i as int), sep@),
        decreases v@.len() - i,
    {
        let ghost t = texts(v@).take(i + 1);
        assert(t.drop_last() =~= texts(v@).take(i as int));
        assert(t.last() == v@[i as int]@);
        if i > 0 {
            out.append(sep);
            out.append(v[i].as_str());
        } else {
            out = v[i].clone();
        }
        i += 1;
    }
    assert(texts(v@).take(v@.len() as int) =~= texts(v@));
    out
}

/// The pieces one after the other, with `sep` between them.
pub fn join_pieces(v: &Vec<&[char]>, sep: &str) -> (r: String)
    ensures
        r@ == join(pieces(v@), sep@),
{
    let strings = strings_of(v);
    join_strings(&strings, sep)
}

/// `s` with `by` in place of every occurrence of the character `c`.
pub open spec fn replace_char(s: Seq<char>, c: char, by: Seq<char>) -> Seq<char>
    decreases s.len(),
{
    if s.len() == 0 {
        seq![]
    } else if s.last() == c {
        replace_char(s.drop_last(), c, by) + by
    } else {
        replace_char(s.drop_last(), c, by).push(s.last())
    }
}

/// The text with `by` in place of every `c`.
pub fn replace_char_of(s: &[char], c: char, by: &str) -> (r: String)
    ensures
        r@ == replace_char(s@, c, by@),
{
    let mut out = String::new();
    let mut i: usize = 0;
    while i < s.len()
        invariant
            i <= s@.len(),
            out@ == replace_char(s@.take(i as int), c, by@),
        decreases s@.len() - i,
    {
        assert(s@.take(i + 1).drop_last() =~= s@.take(i as int));
        if s[i] == c {
            out.append(by);
        } else {
            out.push(s[i]);
        }
        i += 1;
    }
    assert(s@.take(s@.len() as int) =~= s@);
    out
}

/// `s` without any occurrence of `p`, found from left to right.
pub open spec fn without_text(s: Seq<char>, p: Seq<char>) -> Seq<char>
    decreases s.len(),
{
    match cut(s, p) {
        Some((a, b)) => if b.len() < s.len() {
            a + without_text(b, p)
        } else {
            s
        },
        None => s,
    }
}

/// The text without any occurrence of `p`, found from left to right.
pub fn remove_text(s: &[char], p: &str) -> (r: String)
    requires
        p@.len() > 0,
    ensures
        r@ == without_text(s@, p@),
{
    let mut out = String::new();
    let mut rest: &[char] = s;
    proof {
        assert(out@ + without_text(rest@, p@) =~= without_text(s@, p@));
    }
    let pat = chars_of(p);
    loop
        invariant
            p@.len() > 0,
            pat@ == p@,
            out@ + without_text(rest@, p@) == without_text(s@, p@),
        decreases rest@.len(),
    {
        match find(rest, pat.as_slice()) {
            None => {
                out.append(string_of(rest).as_str());
                return out;
            },
            Some(i) => {
                proof {
                    lemma_cut(rest@, p@, i as int);
                }
                let ghost before = out@;
                let n: usize = rest.len();
                assert(i + pat@.len() <= n);
                let head = take(rest, i);
                let next = skip(rest, i + pat.len());
                out.append(string_of(head).as_str());
                assert(out@ + without_text(next@, p@) =~= before + (head@ + without_text(
                    next@,
                    p@,
                )));
                rest = next;
            },
        }
    }
}

/// Two texts, one after the other.
pub fn cat2(a: &str, b: &str) -> (r: String)
    ensures
        r@ == a@ + b@,
{
    let mut out = a.to_owned();
    out.append(b);
    out
}

/// Three texts, one after the other.
pub fn cat3(a: &str, b: &str, c: &str) -> (r: String)
    ensures
        r@ == a@ + b@ + c@,
{
    let mut out = a.to_owned();
    out.append(b);
    out.append(c);
    out
}

/// Four texts, one after the other.
pub fn cat4(a: &str, b: &str, c: &str, d: &str) -> (r: String)
    ensures
        r@ == a@ + b@ + c@ + d@,
{
    let mut out = cat2(a, b);
    out.append(c);
    out.append(d);
    out
}

/// Five texts, one after the other.
pub fn cat5(a: &str, b: &str, c: &str, d: &str, e: &str) -> (r: String)
    ensures
        r@ == a@ + b@ + c@ + d@ + e@,
{
    let mut out = cat3(a, b, c);
    out.append(d);
    out.append(e);
    out
}

/// Six texts, one after the other.
pub fn cat6(a: &str, b: &str, c: &str, d: &str, e: &str, f: &str) -> (r: String)
    ensures
        r@ == a@ + b@ + c@ + d@ + e@ + f@,
{
    let mut out = cat4(a, b, c, d);
    out.append(e);
    out.append(f);
    out
}

// ---------------------------------------------------------------------------
// Splitting at a text
// ---------------------------------------------------------------------------

/// The parts of `s` between the occurrences of `p`.
pub open spec fn split_by(s: Seq<char>, p: Seq<char>) -> Seq<Seq<char>>
    decreases s.len(),
{
    if p.len() == 0 {
        seq![s]
    } else {
        proof {
            lemma_cut_shrinks(s, p);
        }
        match cut(s, p) {
            Some((before, after)) => seq![before] + split_by(after, p),
            None => seq![s],
        }
    }
}

pub proof fn lemma_cut_shrinks(s: Seq<char>, p: Seq<char>)
    requires
        p.len() > 0,
    ensures
        cut(s, p) matches Some((before, after)) ==> before.len() + p.len() + after.len() == s.len(),
{
    if has_text(s, p) {
        let i = choose|i: int| occurs_at(s, p, i);
        lemma_first_exists(s, p, i);
        let k = choose|k: int| first_occurs_at(s, p, k);
        lemma_cut(s, p, k);
    }
}

pub proof fn lemma_first_exists(s: Seq<char>, p: Seq<char>, i: int)
    requires
        occurs_at(s, p, i),
        0 <= i,
    ensures
        exists|k: int| #[trigger] first_occurs_at(s, p, k),
    decreases i,
{
    if exists|j: int| 0 <= j < i && occurs_at(s, p, j) {
        let j = choose|j: int| 0 <= j < i && occurs_at(s, p, j);
        lemma_first_exists(s, p, j);
    } else {
        assert(first_occurs_at(s, p, i));
    }
}

/// The parts of `s` between the occurrences of `p`.
pub fn split_at_text<'a>(s: &'a [char], p: &str) -> (r: Vec<&'a [char]>)
    requires
        p@.len() > 0,
    ensures
        pieces(r@) == split_by(s@, p@),
        r@.len() > 0,
{
    let mut out: Vec<&'a [char]> = Vec::new();
    let mut rest: &'a [char] = s;
    assert(pieces(out@) + split_by(rest@, p@) =~= split_by(s@, p@));
    loop
        invariant_except_break
            pieces(out@) + split_by(rest@, p@) == split_by(s@, p@),
        invariant
            p@.len() > 0,
        ensures
            pieces(out@) == split_by(s@, p@),
            out@.len() > 0,
        decreases rest@.len(),
    {
        broadcast use lemma_pieces_push;

        proof {
            lemma_cut_shrinks(rest@, p@);
        }
        let ghost before = pieces(out@);
        match cut_at(rest, p) {
            Some((head, after)) => {
                out.push(head);
                assert(pieces(out@) + split_by(after@, p@) =~= before + split_by(rest@, p@));
                rest = after;
            },
            None => {
                out.push(rest);
                assert(pieces(out@) =~= before + split_by(rest@, p@));
                break;
            },
        }
    }
    out
}

/// The character with a small letter in place of an ASCII capital.
fn lowered(c: char) -> (r: char)
    ensures
        r == lower_char(c),
{
    let n: u32 = c as u32;
    if 0x41 <= n && n <= 0x5a {
        let small: u8 = n as u8 + 0x20;
        small as char
    } else {
        c
    }
}

/// The text with small letters in place of ASCII capitals.
pub fn ascii_lower_of(s: &[char]) -> (r: String)
    ensures
        r@ == ascii_lower(s@),
{
    let mut out = String::new();
    let mut i: usize = 0;
    while i < s.len()
        invariant
            i <= s@.len(),
            out@ == ascii_lower(s@.take(i as int)),
        decreases s@.len() - i,
    {
        out.push(lowered(s[i]));
        i += 1;
        assert(out@ =~= ascii_lower(s@.take(i as int)));
    }
    assert(s@.take(s@.len() as int) =~= s@);
    out
}

/// The text without any number of `p` at its end.
pub open spec fn trim_end_text(s: Seq<char>, p: Seq<char>) -> Seq<char>
    decreases s.len(),
{
    if p.len() > 0 && has_suffix(s, p) {
        trim_end_text(s.take(s.len() - p.len()), p)
    } else {
        s
    }
}

/// The text without any number of `p` at its end.
pub fn trim_end_text_of<'a>(s: &'a [char], p: &str) -> (r: &'a [char])
    requires
        p@.len() > 0,
    ensures
        r@ == trim_end_text(s@, p@),
{
    let mut rest: &'a [char] = s;
    loop
        invariant
            p@.len() > 0,
            trim_end_text(rest@, p@) == trim_end_text(s@, p@),
        ensures
            rest@ == trim_end_text(s@, p@),
        decreases rest@.len(),
    {
        match strip_end(rest, p) {
            Some(shorter) => {
                rest = shorter;
            },
            None => {
                break;
            },
        }
    }
    rest
}

} // verus!
