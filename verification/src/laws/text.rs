//! Laws of texts: lines, words, pieces and numbers are read off as they were put
//! together.

use vstd::prelude::*;

use crate::number::{
    decimal, digit_char, lemma_decimal_digits, padded, padded_left, unsigned, unsigned_up_to, value,
};
use crate::text::{
    after_prefix, ascii_lower, ascii_upper, before_suffix, cut, cut_last, first_occurs_at,
    has_prefix, has_suffix, has_text, index_of, is_digit, is_letter, is_space, join, last_index_of,
    leading_word, lemma_cut, lemma_first_exists, lemma_index_of, lemma_last_index_of,
    lemma_leading_word, lemma_leading_word_range, lemma_trim_start_len, lines, lower_char,
    occurs_at, replace_char, split, split_by, trim, trim_char, trim_end, trim_end_char,
    trim_end_text, trim_start, trim_start_char, upper_char, without_return, words,
};

verus! {

// ---------------------------------------------------------------------------
// Characters
// ---------------------------------------------------------------------------

/// In ASCII, white space is the blank and the characters from tab to carriage
/// return; digits and letters are what they are called.
pub proof fn ascii_characters_are_told_apart(c: char)
    requires
        (c as u32) < 128,
    ensures
        is_space(c) <==> c == ' ' || c == '\t' || c == '\n' || c == '\r' || c as u32 == 11 || c as u32
            == 12,
        is_digit(c) <==> 48 <= c as u32 <= 57,
        is_letter(c) <==> (65 <= c as u32 <= 90) || (97 <= c as u32 <= 122),
{
}

/// Beyond ASCII nothing is a digit or a letter of ASCII, and no-break and
/// ideographic spaces are white space.
pub proof fn wide_characters_are_told_apart(c: char)
    requires
        c as u32 >= 128,
    ensures
        !is_digit(c),
        !is_letter(c),
        c as u32 == 0xa0 || c as u32 == 0x2003 || c as u32 == 0x3000 ==> is_space(c),
{
}

/// Changing case and back gives a letter back, and touches nothing else.
pub proof fn case_is_changed_and_back(c: char)
    ensures
        is_letter(c) ==> lower_char(upper_char(c)) == lower_char(c) && upper_char(lower_char(c))
            == upper_char(c) && lower_char(c) != upper_char(c),
        !is_letter(c) ==> lower_char(c) == c && upper_char(c) == c,
        97 <= c as u32 <= 122 ==> lower_char(c) == c && upper_char(c) as u32 == c as u32 - 32,
        65 <= c as u32 <= 90 ==> upper_char(c) == c && lower_char(c) as u32 == c as u32 + 32,
{
}

// ---------------------------------------------------------------------------
// Parts
// ---------------------------------------------------------------------------

/// A text holds another exactly where it is put together around it.
pub proof fn a_text_is_held_where_it_is_put(a: Seq<char>, p: Seq<char>, b: Seq<char>)
    ensures
        has_text(a + p + b, p),
        has_prefix(p + b, p),
        after_prefix(p + b, p) == Some(b),
        has_suffix(a + p, p),
        before_suffix(a + p, p) == Some(a),
{
    let s = a + p + b;
    assert(s.subrange(a.len() as int, a.len() as int + p.len()) =~= p);
    assert(occurs_at(s, p, a.len() as int));
    assert((p + b).take(p.len() as int) =~= p);
    assert((p + b).skip(p.len() as int) =~= b);
    assert((a + p).skip((a + p).len() - p.len()) =~= p);
    assert((a + p).take((a + p).len() - p.len()) =~= a);
}

/// What holds a text is put together around it.
pub proof fn what_holds_a_text_is_put_around_it(s: Seq<char>, p: Seq<char>)
    ensures
        has_text(s, p) ==> exists|a: Seq<char>, b: Seq<char>| s == #[trigger] (a + p + b),
        has_prefix(s, p) ==> exists|b: Seq<char>| s == #[trigger] (p + b),
        has_suffix(s, p) ==> exists|a: Seq<char>| s == #[trigger] (a + p),
        after_prefix(s, p) is Some <==> has_prefix(s, p),
        before_suffix(s, p) is Some <==> has_suffix(s, p),
{
    if has_text(s, p) {
        let i = choose|i: int| occurs_at(s, p, i);
        let (a, b) = (s.take(i), s.skip(i + p.len()));
        assert(s =~= a + p + b);
    }
    if has_prefix(s, p) {
        assert(s =~= p + s.skip(p.len() as int));
    }
    if has_suffix(s, p) {
        assert(s =~= s.take(s.len() - p.len()) + p);
    }
}

/// Cutting at a text takes the part before its first occurrence and all behind it.
pub proof fn a_cut_is_made_at_the_first_place(s: Seq<char>, p: Seq<char>)
    ensures
        match cut(s, p) {
            Some((a, b)) => s == a + p + b && forall|j: int|
                0 <= j < a.len() ==> !occurs_at(s, p, j),
            None => !has_text(s, p),
        },
{
    if has_text(s, p) {
        let i = choose|i: int| occurs_at(s, p, i);
        lemma_first_exists(s, p, i);
        let k = choose|k: int| first_occurs_at(s, p, k);
        lemma_cut(s, p, k);
        let (a, b) = (s.take(k), s.skip(k + p.len()));
        assert(s =~= a + p + b);
        assert forall|j: int| 0 <= j < a.len() implies !occurs_at(s, p, j) by {
        }
    }
}

/// A text without the character is what stands before the cut.
pub proof fn a_cut_gives_the_parts_back(a: Seq<char>, c: char, b: Seq<char>)
    requires
        !a.contains(c),
    ensures
        cut(a + seq![c] + b, seq![c]) == Some((a, b)),
        cut(a, seq![c]) is None,
{
    let p = seq![c];
    let s = a + p + b;
    assert(s.subrange(a.len() as int, a.len() + 1int) =~= p);
    assert forall|j: int| 0 <= j < a.len() implies !occurs_at(s, p, j) by {
        if occurs_at(s, p, j) {
            assert(s.subrange(j, j + 1)[0] == a[j]);
            assert(a.contains(a[j]));
        }
    }
    assert(first_occurs_at(s, p, a.len() as int));
    lemma_cut(s, p, a.len() as int);
    assert(s.take(a.len() as int) =~= a);
    assert(s.skip(a.len() + 1int) =~= b);
    if has_text(a, p) {
        let i = choose|i: int| occurs_at(a, p, i);
        assert(a.subrange(i, i + 1)[0] == a[i]);
        assert(a.contains(c));
    }
}

/// Cutting at the last of a character takes everything before it.
pub proof fn a_last_cut_gives_the_parts_back(a: Seq<char>, c: char, b: Seq<char>)
    requires
        !b.contains(c),
    ensures
        cut_last(a + seq![c] + b, c) == Some((a, b)),
        cut_last(b, c) is None,
{
    let s = a + seq![c] + b;
    assert forall|j: int| a.len() < j < s.len() implies s[j] != c by {
        assert(s[j] == b[j - a.len() - 1]);
    }
    lemma_last_index_of(s, c, a.len() as int);
    assert(s.take(a.len() as int) =~= a);
    assert(s.skip(a.len() + 1int) =~= b);
    assert forall|j: int| -1 < j < b.len() implies b[j] != c by {
        assert(b.contains(b[j]));
    }
    lemma_last_index_of(b, c, -1);
}

// ---------------------------------------------------------------------------
// Pieces
// ---------------------------------------------------------------------------

/// A character ends the first piece.
pub proof fn a_piece_ends_at_the_character(a: Seq<char>, c: char, b: Seq<char>)
    requires
        !a.contains(c),
    ensures
        split(a + seq![c] + b, c) == seq![a] + split(b, c),
        split(a, c) == seq![a],
{
    let s = a + seq![c] + b;
    assert forall|j: int| 0 <= j < a.len() implies s[j] != c && a[j] != c by {
        assert(a.contains(a[j]));
        assert(s[j] == a[j]);
    }
    lemma_index_of(s, c, a.len() as int);
    lemma_index_of(a, c, a.len() as int);
    assert(s.take(a.len() as int) =~= a);
    assert(s.skip(a.len() + 1int) =~= b);
}

/// Pieces put together with a text between them are one longer for each.
pub proof fn joining_puts_the_text_between(v: Seq<Seq<char>>, sep: Seq<char>, x: Seq<char>)
    ensures
        join(seq![], sep) == Seq::<char>::empty(),
        join(seq![x], sep) == x,
        v.len() > 0 ==> join(v.push(x), sep) == join(v, sep) + sep + x,
{
    assert(v.push(x).drop_last() =~= v);
}

proof fn lemma_join_front(a: Seq<char>, v: Seq<Seq<char>>, sep: Seq<char>)
    requires
        v.len() > 0,
    ensures
        join(seq![a] + v, sep) == a + sep + join(v, sep),
    decreases v.len(),
{
    let all = seq![a] + v;
    assert(all.drop_last() =~= seq![a] + v.drop_last());
    assert(all.last() == v.last());
    if v.len() == 1 {
        assert(v.drop_last() =~= seq![]);
        assert(all.drop_last() =~= seq![a]);
        assert(join(seq![a], sep) == a);
    } else {
        lemma_join_front(a, v.drop_last(), sep);
        assert(join(all, sep) =~= a + sep + join(v, sep));
    }
}

/// Pieces put together with a character between them are split off again.
pub proof fn pieces_are_split_off_again(v: Seq<Seq<char>>, c: char)
    requires
        v.len() > 0,
        forall|i: int| 0 <= i < v.len() ==> !(#[trigger] v[i]).contains(c),
    ensures
        split(join(v, seq![c]), c) == v,
    decreases v.len(),
{
    let a = v[0];
    if v.len() == 1 {
        a_piece_ends_at_the_character(a, c, seq![]);
        assert(v =~= seq![a]);
    } else {
        let rest = v.skip(1);
        assert forall|i: int| 0 <= i < rest.len() implies !(#[trigger] rest[i]).contains(c) by {
            assert(rest[i] == v[i + 1]);
        }
        pieces_are_split_off_again(rest, c);
        lemma_join_front(a, rest, seq![c]);
        assert(seq![a] + rest =~= v);
        a_piece_ends_at_the_character(a, c, join(rest, seq![c]));
    }
}

// ---------------------------------------------------------------------------
// Lines
// ---------------------------------------------------------------------------

/// A line feed ends the first line; a carriage return before it is no part of
/// the line.
pub proof fn a_line_ends_at_the_line_feed(a: Seq<char>, b: Seq<char>)
    requires
        !a.contains('\n'),
    ensures
        a.len() == 0 || a.last() != '\r' ==> lines(a + seq!['\n'] + b) == seq![a] + lines(b),
        lines(a + seq!['\r', '\n'] + b) == seq![a] + lines(b),
        a.len() > 0 ==> lines(a) == seq![a],
        a.len() == 0 ==> lines(a).len() == 0,
{
    let s = a + seq!['\n'] + b;
    let t = a + seq!['\r', '\n'] + b;
    assert forall|j: int| 0 <= j < a.len() implies s[j] != '\n' && t[j] != '\n' && a[j] != '\n' by {
        assert(a.contains(a[j]));
        assert(s[j] == a[j] && t[j] == a[j]);
    }
    lemma_index_of(s, '\n', a.len() as int);
    lemma_index_of(t, '\n', a.len() + 1int);
    lemma_index_of(a, '\n', a.len() as int);
    assert(s.take(a.len() as int) =~= a);
    assert(s.skip(a.len() + 1int) =~= b);
    assert(t.take(a.len() + 1int) =~= a.push('\r'));
    assert(a.push('\r').drop_last() =~= a);
    assert(t.skip(a.len() + 2int) =~= b);
}

/// The lines, each with a line feed behind it.
pub open spec fn with_feeds(ls: Seq<Seq<char>>) -> Seq<char>
    decreases ls.len(),
{
    if ls.len() == 0 {
        seq![]
    } else {
        ls[0] + seq!['\n'] + with_feeds(ls.skip(1))
    }
}

/// A text that can be a line.
pub open spec fn is_line(l: Seq<char>) -> bool {
    !l.contains('\n') && (l.len() == 0 || l.last() != '\r')
}

/// Lines that are written are read back.
pub proof fn lines_are_read_back(ls: Seq<Seq<char>>)
    requires
        forall|i: int| 0 <= i < ls.len() ==> is_line(#[trigger] ls[i]),
    ensures
        lines(with_feeds(ls)) == ls,
    decreases ls.len(),
{
    if ls.len() > 0 {
        let rest = ls.skip(1);
        assert(is_line(ls[0]));
        assert forall|i: int| 0 <= i < rest.len() implies is_line(#[trigger] rest[i]) by {
            assert(rest[i] == ls[i + 1]);
        }
        lines_are_read_back(rest);
        a_line_ends_at_the_line_feed(ls[0], with_feeds(rest));
        assert(seq![ls[0]] + rest =~= ls);
    }
}

// ---------------------------------------------------------------------------
// Words
// ---------------------------------------------------------------------------

/// A word: some characters, none of them white space.
pub open spec fn is_word(w: Seq<char>) -> bool {
    w.len() > 0 && forall|i: int| 0 <= i < w.len() ==> !is_space(#[trigger] w[i])
}

/// A word goes to the next white space, and white space before it is skipped.
pub proof fn a_word_goes_to_the_next_white_space(w: Seq<char>, rest: Seq<char>, c: char)
    requires
        is_word(w),
        is_space(c),
        rest.len() == 0 || is_space(rest[0]),
    ensures
        words(w + rest) == seq![w] + words(rest),
        words(seq![c] + rest) == words(rest),
        words(seq![c] + w + rest) == seq![w] + words(rest),
        words(seq![]) == Seq::<Seq<char>>::empty(),
{
    let s = w + rest;
    assert forall|j: int| 0 <= j < w.len() implies !is_space(s[j]) by {
        assert(s[j] == w[j]);
    }
    if w.len() < s.len() {
        assert(s[w.len() as int] == rest[0]);
    }
    lemma_leading_word(s, w.len() as int);
    assert(s.take(w.len() as int) =~= w);
    assert(s.skip(w.len() as int) =~= rest);
    assert(trim_start(s) == s);
    lemma_words_skip(c, rest);
    lemma_words_skip(c, s);
    assert(seq![c] + w + rest =~= seq![c] + s);
    assert(words(s) == seq![w] + words(rest));
}

proof fn lemma_words_skip(c: char, s: Seq<char>)
    requires
        is_space(c),
    ensures
        words(seq![c] + s) == words(s),
{
    let t = seq![c] + s;
    assert(t.skip(1) =~= s);
    assert(trim_start(t) == trim_start(s));
    lemma_trim_start_len(s);
}

/// Words put together with blanks between them are read back.
pub proof fn words_are_read_back(ws: Seq<Seq<char>>)
    requires
        forall|i: int| 0 <= i < ws.len() ==> is_word(#[trigger] ws[i]),
    ensures
        words(join(ws, seq![' '])) == ws,
    decreases ws.len(),
{
    if ws.len() == 0 {
        assert(words(seq![]) =~= ws);
    } else {
        let rest = ws.skip(1);
        assert(is_word(ws[0]));
        assert forall|i: int| 0 <= i < rest.len() implies is_word(#[trigger] rest[i]) by {
            assert(rest[i] == ws[i + 1]);
        }
        words_are_read_back(rest);
        if rest.len() == 0 {
            a_word_goes_to_the_next_white_space(ws[0], seq![], ' ');
            assert(ws[0] + Seq::<char>::empty() =~= ws[0]);
            assert(ws =~= seq![ws[0]]);
            assert(words(seq![]) =~= seq![]);
        } else {
            let tail = join(rest, seq![' ']);
            lemma_join_front(ws[0], rest, seq![' ']);
            assert(seq![ws[0]] + rest =~= ws);
            assert(ws[0] + seq![' '] + tail =~= ws[0] + (seq![' '] + tail));
            a_word_goes_to_the_next_white_space(ws[0], seq![' '] + tail, ' ');
            lemma_words_skip(' ', tail);
            assert(seq![ws[0]] + rest =~= ws);
        }
    }
}

proof fn lemma_word_chars(s: Seq<char>)
    ensures
        0 <= leading_word(s) <= s.len(),
        forall|i: int| 0 <= i < leading_word(s) ==> !is_space(#[trigger] s[i]),
        leading_word(s) < s.len() ==> is_space(s[leading_word(s)]),
    decreases s.len(),
{
    if s.len() > 0 && !is_space(s[0]) {
        let t = s.skip(1);
        lemma_word_chars(t);
        assert forall|i: int| 0 <= i < leading_word(s) implies !is_space(#[trigger] s[i]) by {
            if i > 0 {
                assert(t[i - 1] == s[i]);
            }
        }
        if leading_word(s) < s.len() {
            assert(t[leading_word(t)] == s[leading_word(s)]);
        }
    }
}

/// White space parts a text into the words before it and those behind it.
pub proof fn white_space_parts_the_words(a: Seq<char>, c: char, b: Seq<char>)
    requires
        is_space(c),
    ensures
        words(a + seq![c] + b) == words(a) + words(b),
    decreases a.len(),
{
    let s = a + seq![c] + b;
    if a.len() == 0 {
        assert(s =~= seq![c] + b);
        lemma_words_skip(c, b);
        assert(words(a) =~= seq![]);
        assert(words(a) + words(b) =~= words(b));
    } else if is_space(a[0]) {
        let t = a.skip(1);
        assert(a =~= seq![a[0]] + t);
        assert(s =~= seq![a[0]] + (t + seq![c] + b));
        lemma_words_skip(a[0], t);
        lemma_words_skip(a[0], t + seq![c] + b);
        white_space_parts_the_words(t, c, b);
    } else {
        lemma_word_chars(a);
        let k = leading_word(a);
        let (w, t) = (a.take(k), a.skip(k));
        let rest = t + seq![c] + b;
        assert(is_word(w)) by {
            assert forall|i: int| 0 <= i < w.len() implies !is_space(#[trigger] w[i]) by {
                assert(w[i] == a[i]);
            }
        }
        assert(a =~= w + t);
        assert(s =~= w + rest);
        assert(t.len() > 0 ==> t[0] == a[k]);
        assert(rest[0] == if t.len() > 0 {
            t[0]
        } else {
            c
        });
        a_word_goes_to_the_next_white_space(w, t, c);
        a_word_goes_to_the_next_white_space(w, rest, c);
        white_space_parts_the_words(t, c, b);
        assert(seq![w] + words(t) + words(b) =~= seq![w] + (words(t) + words(b)));
    }
}

// ---------------------------------------------------------------------------
// Trimming
// ---------------------------------------------------------------------------

proof fn lemma_trim_start_parts(s: Seq<char>) -> (n: int)
    ensures
        0 <= n <= s.len(),
        trim_start(s) == s.skip(n),
        forall|i: int| 0 <= i < n ==> is_space(#[trigger] s[i]),
        n < s.len() ==> !is_space(s[n]),
    decreases s.len(),
{
    if s.len() == 0 || !is_space(s[0]) {
        assert(s.skip(0) =~= s);
        0
    } else {
        let t = s.skip(1);
        let m = lemma_trim_start_parts(t);
        assert(t.skip(m) =~= s.skip(m + 1));
        assert forall|i: int| 0 <= i < m + 1 implies is_space(#[trigger] s[i]) by {
            if i > 0 {
                assert(t[i - 1] == s[i]);
            }
        }
        m + 1
    }
}

proof fn lemma_trim_end_parts(s: Seq<char>) -> (n: int)
    ensures
        0 <= n <= s.len(),
        trim_end(s) == s.take(n),
        forall|i: int| n <= i < s.len() ==> is_space(#[trigger] s[i]),
        n > 0 ==> !is_space(s[n - 1]),
    decreases s.len(),
{
    if s.len() == 0 || !is_space(s.last()) {
        assert(s.take(s.len() as int) =~= s);
        s.len() as int
    } else {
        let t = s.drop_last();
        let m = lemma_trim_end_parts(t);
        assert(t.take(m) =~= s.take(m));
        assert forall|i: int| m <= i < s.len() implies is_space(#[trigger] s[i]) by {
            if i < t.len() {
                assert(t[i] == s[i]);
            }
        }
        m
    }
}

/// Trimming takes the white space at both ends, and nothing else.
pub proof fn trimming_takes_the_white_space_at_the_ends(s: Seq<char>)
    ensures
        exists|a: int, b: int|
            0 <= a <= b <= s.len() && trim(s) == #[trigger] s.subrange(a, b) && (forall|i: int|
                0 <= i < a || b <= i < s.len() ==> is_space(#[trigger] s[i])),
        trim(s).len() > 0 ==> !is_space(trim(s)[0]) && !is_space(trim(s).last()),
{
    let a = lemma_trim_start_parts(s);
    let t = s.skip(a);
    let n = lemma_trim_end_parts(t);
    let b = a + n;
    assert(trim(s) =~= s.subrange(a, b));
    assert forall|i: int| 0 <= i < a || b <= i < s.len() implies is_space(#[trigger] s[i]) by {
        if b <= i < s.len() {
            assert(t[i - a] == s[i]);
        }
    }
    if trim(s).len() > 0 {
        assert(trim(s)[0] == t[0]);
        assert(trim(s)[0] == s[a]);
        assert(trim(s).last() == t[n - 1]);
    }
}

/// A text with white space at neither end is trimmed out of any white space.
pub proof fn trimming_gives_the_text_back(a: Seq<char>, s: Seq<char>, b: Seq<char>)
    requires
        forall|i: int| 0 <= i < a.len() ==> is_space(#[trigger] a[i]),
        forall|i: int| 0 <= i < b.len() ==> is_space(#[trigger] b[i]),
        s.len() > 0 ==> !is_space(s[0]) && !is_space(s.last()),
    ensures
        trim(a + s + b) == s,
{
    let all = a + s + b;
    let n = lemma_trim_start_parts(all);
    let t = trim_start(all);
    let m = lemma_trim_end_parts(t);
    if s.len() > 0 {
        if n < a.len() {
            assert(all[n] == a[n]);
        }
        assert(all[a.len() as int] == s[0]);
        assert(n == a.len());
        assert(t =~= s + b);
        if m > s.len() {
            assert(t[m - 1] == b[m - 1 - s.len()]);
        }
        assert(t[s.len() - 1] == s.last());
        assert(t.take(m) =~= s);
    } else {
        if n < all.len() {
            if n < a.len() {
                assert(all[n] == a[n]);
            } else {
                assert(all[n] == b[n - a.len()]);
            }
        }
        assert(trim(all) =~= s);
    }
}

/// Taking a character off an end takes all of it there, and nothing else.
pub proof fn a_character_is_taken_off_the_ends(s: Seq<char>, c: char)
    ensures
        trim_end_char(s, c).len() <= s.len(),
        trim_end_char(s, c) == s.take(trim_end_char(s, c).len() as int),
        forall|i: int| trim_end_char(s, c).len() <= i < s.len() ==> s[i] == c,
        trim_end_char(s, c).len() > 0 ==> trim_end_char(s, c).last() != c,
        trim_start_char(s, c).len() <= s.len(),
        trim_start_char(s, c) == s.skip(s.len() - trim_start_char(s, c).len()),
        forall|i: int| 0 <= i < s.len() - trim_start_char(s, c).len() ==> s[i] == c,
        trim_start_char(s, c).len() > 0 ==> trim_start_char(s, c)[0] != c,
    decreases s.len(),
{
    if s.len() > 0 && s.last() == c {
        let t = s.drop_last();
        a_character_is_taken_off_the_ends(t, c);
        assert(trim_end_char(s, c) == trim_end_char(t, c));
        assert(t.take(trim_end_char(t, c).len() as int) =~= s.take(
            trim_end_char(t, c).len() as int,
        ));
        assert forall|i: int| trim_end_char(s, c).len() <= i < s.len() implies s[i] == c by {
            if i < t.len() {
                assert(t[i] == s[i]);
            }
        }
    } else {
        assert(s.take(s.len() as int) =~= s);
    }
    if s.len() > 0 && s[0] == c {
        let t = s.skip(1);
        a_character_is_taken_off_the_ends(t, c);
        assert(trim_start_char(s, c) == trim_start_char(t, c));
        let n = trim_start_char(t, c).len();
        assert(t.skip(t.len() - n) =~= s.skip(s.len() - n));
        assert forall|i: int| 0 <= i < s.len() - n implies s[i] == c by {
            if i > 0 {
                assert(t[i - 1] == s[i]);
            }
        }
    } else {
        assert(s.skip(0) =~= s);
    }
}

/// A text that the character does not end, or begin, comes out whole.
pub proof fn a_character_is_taken_off_again(s: Seq<char>, c: char)
    requires
        s.len() == 0 || (s[0] != c && s.last() != c),
    ensures
        trim_end_char(s + seq![c], c) == s,
        trim_end_char(s, c) == s,
        trim_start_char(seq![c] + s, c) == s,
        trim_start_char(s, c) == s,
        trim_char(seq![c] + s + seq![c], c) == s,
        trim_char(s, c) == s,
{
    assert((s + seq![c]).drop_last() =~= s);
    assert((seq![c] + s).skip(1) =~= s);
    let all = seq![c] + s + seq![c];
    assert(all.skip(1) =~= s + seq![c]);
    assert(all.drop_last() =~= seq![c] + s);
    assert(trim_start_char(all, c) == trim_start_char(s + seq![c], c));
    assert(trim_end_char(s + seq![c], c) == trim_end_char(s, c)) by {
        assert((s + seq![c]).last() == c);
    }
    assert(trim_start_char(seq![c] + s, c) == trim_start_char(s, c)) by {
        assert((seq![c] + s)[0] == c);
    }
    if s.len() > 0 {
        assert((s + seq![c])[0] == s[0]);
        assert((seq![c] + s).last() == s.last());
        assert(trim_end_char(s, c) == s);
        assert(trim_start_char(s, c) == s);
    } else {
        assert(s + seq![c] =~= seq![c]);
        assert(seq![c].skip(1) =~= seq![]);
        assert(seq![c].drop_last() =~= seq![]);
        assert(trim_start_char(seq![], c) =~= seq![]);
        assert(trim_start_char(seq![c], c) =~= seq![]);
        assert(trim_end_char(seq![], c) =~= seq![]);
        assert(s =~= seq![]);
    }
}

// ---------------------------------------------------------------------------
// Numbers
// ---------------------------------------------------------------------------

/// A number that is written is read back.
pub proof fn a_number_is_read_back(n: nat)
    ensures
        unsigned(decimal(n)) == Some(n),
        value(decimal(n)) == n,
        decimal(n).len() > 0,
        n >= 10 ==> decimal(n)[0] != '0',
        forall|i: int| 0 <= i < decimal(n).len() ==> 48 <= (#[trigger] decimal(n)[i]) as u32 <= 57,
    decreases n,
{
    lemma_decimal_digits(n);
    if n < 10 {
        let s = seq![digit_char(n)];
        assert(s.drop_last() =~= seq![]);
        assert(value(s.drop_last()) == 0);
        assert(decimal(n) == s);
        assert(s.last() as int == 48 + n);
    } else {
        let m = n / 10;
        a_number_is_read_back(m);
        assert(decimal(n).drop_last() =~= decimal(m));
        assert(decimal(n)[0] == decimal(m)[0]);
        if m < 10 {
            assert(m > 0);
            assert(decimal(m)[0] as int == 48 + m);
        }
    }
    assert forall|i: int| 0 <= i < decimal(n).len() implies 48 <= (
    #[trigger] decimal(n)[i]) as u32 <= 57 by {
        assert(is_digit(decimal(n)[i]));
    }
    assert(decimal(n)[0] != '+');
}

/// Padding brings a text to a width with blanks, and cuts nothing off.
pub proof fn padding_brings_to_a_width(s: Seq<char>, width: nat)
    ensures
        padded(s, width).len() == if s.len() > width {
            s.len()
        } else {
            width
        },
        padded(s, width).take(s.len() as int) == s,
        forall|i: int| s.len() <= i < padded(s, width).len() ==> padded(s, width)[i] == ' ',
        padded_left(s, width).len() == padded(s, width).len(),
        padded_left(s, width).skip(padded_left(s, width).len() - s.len()) == s,
        forall|i: int|
            0 <= i < padded_left(s, width).len() - s.len() ==> padded_left(s, width)[i] == ' ',
{
    assert(padded(s, width).take(s.len() as int) =~= s);
    assert(padded_left(s, width).skip(padded_left(s, width).len() - s.len()) =~= s);
}

/// Beyond ASCII the white space is the next-line sign, the spaces of fixed width
/// and no other character.
pub proof fn wide_white_space_is_known(c: char)
    requires
        c as u32 >= 128,
    ensures
        is_space(c) <==> {
            let n = c as u32;
            n == 0x85 || n == 0xa0 || n == 0x1680 || (0x1fff < n < 0x200b) || (0x2027 < n < 0x202a)
                || n == 0x202f || n == 0x205f || n == 0x3000
        },
{
}

/// A text is put in lower or upper case letter by letter.
pub proof fn case_is_changed_letter_by_letter(s: Seq<char>, i: int)
    requires
        0 <= i < s.len(),
    ensures
        ascii_lower(s).len() == s.len(),
        ascii_lower(s)[i] == lower_char(s[i]),
        ascii_upper(s).len() == s.len(),
        ascii_upper(s)[i] == upper_char(s[i]),
{
}

/// Each occurrence of a character is replaced, and nothing else.
pub proof fn a_character_is_replaced_everywhere(s: Seq<char>, c: char, d: char, by: Seq<char>)
    requires
        c != d,
    ensures
        replace_char(seq![], c, by).len() == 0,
        replace_char(s.push(c), c, by) == replace_char(s, c, by) + by,
        replace_char(s.push(d), c, by) == replace_char(s, c, by).push(d),
{
    assert(s.push(c).drop_last() =~= s);
    assert(s.push(d).drop_last() =~= s);
}

/// A text is split at the first place where the other stands, and on from there.
pub proof fn a_text_is_split_at_each_place(a: Seq<char>, p: Seq<char>, b: Seq<char>)
    requires
        p.len() > 0,
        !has_text(a, p),
        forall|j: int| 0 <= j < a.len() ==> !occurs_at(a + p + b, p, j),
    ensures
        split_by(a + p + b, p) == seq![a] + split_by(b, p),
        split_by(a, p) == seq![a],
{
    let s = a + p + b;
    assert(s.subrange(a.len() as int, a.len() as int + p.len()) =~= p);
    assert(first_occurs_at(s, p, a.len() as int));
    lemma_cut(s, p, a.len() as int);
    assert(s.take(a.len() as int) =~= a);
    assert(s.skip(a.len() as int + p.len()) =~= b);
    a_cut_is_made_at_the_first_place(a, p);
    if let Some((x, y)) = cut(a, p) {
        a_text_is_held_where_it_is_put(x, p, y);
    }
}

/// White space at the end alone, and at the beginning alone, is taken off.
pub proof fn each_end_is_trimmed_alone(a: Seq<char>, s: Seq<char>)
    requires
        forall|i: int| 0 <= i < a.len() ==> is_space(#[trigger] a[i]),
        s.len() > 0,
        !is_space(s[0]),
        !is_space(s.last()),
    ensures
        trim_end(s + a) == s,
        trim_start(a + s) == s,
        trim_end(a + s) == a + s,
        trim_start(s + a) == s + a,
{
    let (u, v) = (s + a, a + s);
    let n = lemma_trim_end_parts(u);
    if n > s.len() {
        assert(u[n - 1] == a[n - 1 - s.len()]);
    }
    assert(u[s.len() - 1] == s.last());
    assert(u.take(n) =~= s);
    let m = lemma_trim_start_parts(v);
    if m < a.len() {
        assert(v[m] == a[m]);
    }
    assert(v[a.len() as int] == s[0]);
    assert(v.skip(m) =~= s);
    assert(v.last() == s.last());
    assert(u[0] == s[0]);
}

/// A suffix is taken off as often as it stands there.
pub proof fn a_suffix_is_taken_off(s: Seq<char>, p: Seq<char>)
    requires
        p.len() > 0,
        !has_suffix(s, p),
    ensures
        trim_end_text(s, p) == s,
        trim_end_text(s + p, p) == s,
        trim_end_text(s + p + p, p) == s,
{
    let (t, u) = (s + p, s + p + p);
    assert(t.skip(t.len() - p.len()) =~= p);
    assert(t.take(t.len() - p.len()) =~= s);
    assert(u.skip(u.len() - p.len()) =~= p);
    assert(u.take(u.len() - p.len()) =~= t);
    assert(trim_end_text(t, p) == trim_end_text(s, p));
    assert(trim_end_text(u, p) == trim_end_text(t, p));
}

/// A number may stand behind a plus sign, and is no number with anything else in
/// it; one above the limit is refused.
pub proof fn a_number_may_have_a_plus(n: nat, max: nat, s: Seq<char>, i: int)
    requires
        0 < i < s.len(),
        !(48 <= s[i] as u32 <= 57),
    ensures
        unsigned(seq!['+'] + decimal(n)) == Some(n),
        unsigned(s) is None,
        unsigned(seq![]) is None,
        unsigned(seq!['+']) is None,
        n <= max ==> unsigned_up_to(decimal(n), max) == Some(n),
        n > max ==> unsigned_up_to(decimal(n), max) is None,
{
    a_number_is_read_back(n);
    lemma_decimal_digits(n);
    assert((seq!['+'] + decimal(n)).skip(1) =~= decimal(n));
    assert(decimal(n)[0] != '+') by {
        assert(48 <= decimal(n)[0] as u32 <= 57);
    }
    assert(unsigned(decimal(n)) == Some(value(decimal(n))));
    assert(!is_digit(s[i]));
    if s[0] == '+' {
        assert(s.skip(1)[i - 1] == s[i]);
    }
    assert(seq!['+'].skip(1) =~= seq![]);
}

} // verus!
