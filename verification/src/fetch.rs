//! `wrapt fetch`: ranks apt mirrors by speed and switches to the fastest, leaving
//! the security pocket on the official host.

use vstd::prelude::*;
use vstd::string::StringExecFns;

use crate::number::{decimal, decimal_usize, pad_left, padded_left};
use crate::order::{
    by_rank, in_order, lemma_in_order_contains, lemma_in_order_mapped, puts_in_order, sort, Ranked,
};
use crate::text::{
    cat2, cat3, cat4, cat5, cat6, chars_of, cut, cut_at, ends, has_prefix, has_suffix, has_text,
    holds, index_of, is_space, join, join_strings, leading_spaces, leading_word, lemma_index_of,
    lemma_index_of_range, lemma_leading_word_range, lemma_texts_push, lemma_trim_start_len, lines,
    lines_of, occurs_at, opt_str, opt_text, pieces, position, reads, same, same_str, skip, space,
    split, starts, string_of, take, texts, trim, trim_char, trim_char_of, trim_end_char,
    trim_end_char_of, trim_of, trim_start, trim_start_of, uppercase, words, words_of,
};
use crate::ui::{
    bold_text, bold_yellow, complain, cyan, cyan_text, dim_text, dimmed, format_size, green,
    green_text, header_line, header_text, line_views, no_lines, plural, plural_of, say, size_text,
    success_line, success_text, warn_line, warn_text, yellow_text, Line, LineView,
};

verus! {

// ---------------------------------------------------------------------------
// The system
// ---------------------------------------------------------------------------

/// A distribution and its release.
#[derive(Debug)]
pub struct Distro {
    pub id: String,
    pub codename: String,
}

/// Id and codename once a line of os-release is read. `VERSION_CODENAME` goes
/// before `UBUNTU_CODENAME`.
pub open spec fn distro_step(d: (Seq<char>, Seq<char>), line: Seq<char>) -> (Seq<char>, Seq<char>) {
    match cut(line, "="@) {
        Some((key, rest)) => {
            let value = trim_char(trim(rest), '"');
            if trim(key) == "ID"@ {
                (value, d.1)
            } else if trim(key) == "VERSION_CODENAME"@ {
                (d.0, value)
            } else if trim(key) == "UBUNTU_CODENAME"@ && d.1.len() == 0 {
                (d.0, value)
            } else {
                d
            }
        },
        None => d,
    }
}

/// Id and codename that the lines of os-release tell; empty where they do not.
pub open spec fn distro_of(ls: Seq<Seq<char>>) -> (Seq<char>, Seq<char>)
    decreases ls.len(),
{
    if ls.len() == 0 {
        (seq![], seq![])
    } else {
        distro_step(distro_of(ls.drop_last()), ls.last())
    }
}

/// The distribution that the text of the os-release file at `path` tells.
pub fn detect_distro(text: &str, path: &str) -> (r: Result<Distro, String>)
    ensures
        match r {
            Ok(d) => distro_of(lines(text@)) == (d.id@, d.codename@) && d.codename@.len() > 0,
            Err(e) => distro_of(lines(text@)).1.len() == 0 && e@
                == "could not determine the release codename from "@ + path@,
        },
{
    let chars = chars_of(text);
    let ls = lines_of(chars.as_slice());
    let ghost all = pieces(ls@);
    let mut id = String::new();
    let mut codename = String::new();
    let mut i: usize = 0;
    assert(all.take(0) =~= seq![]);
    assert(id@ =~= seq![] && codename@ =~= seq![]);
    while i < ls.len()
        invariant
            all == pieces(ls@),
            i <= ls@.len(),
            distro_of(all.take(i as int)) == (id@, codename@),
        decreases ls@.len() - i,
    {
        assert(all.take(i + 1).drop_last() =~= all.take(i as int));
        assert(all.take(i + 1).last() == ls@[i as int]@);
        if let Some((key, rest)) = cut_at(ls[i], "=") {
            let value = trim_char_of(trim_of(rest), '"');
            let key = trim_of(key);
            if reads(key, "ID") {
                id = string_of(value);
            } else if reads(key, "VERSION_CODENAME") {
                codename = string_of(value);
            } else if reads(key, "UBUNTU_CODENAME") && chars_of(codename.as_str()).len() == 0 {
                codename = string_of(value);
            }
        }
        i += 1;
    }
    assert(all.take(all.len() as int) =~= all);
    if chars_of(codename.as_str()).len() == 0 {
        return Err(cat2("could not determine the release codename from ", path));
    }
    Ok(Distro { id, codename })
}

/// Whether mirrors can be fetched for the distribution; the error where not.
pub fn check_supported(d: &Distro) -> (r: Result<(), String>)
    ensures
        match r {
            Ok(_) => d.id@ == "ubuntu"@,
            Err(e) => d.id@ != "ubuntu"@ && e@
                == "wrapt fetch currently supports Ubuntu only (detected '"@ + d.id@
                + "'). Manage sources manually with `wrapt repo`."@,
        },
{
    if same_str(d.id.as_str(), "ubuntu") {
        Ok(())
    } else {
        Err(
            cat3(
                "wrapt fetch currently supports Ubuntu only (detected '",
                d.id.as_str(),
                "'). Manage sources manually with `wrapt repo`.",
            ),
        )
    }
}

// ---------------------------------------------------------------------------
// The mirror list
// ---------------------------------------------------------------------------

/// Where the mirror list for a country, given in capitals, or for the location
/// of the machine is found.
pub fn list_url(country: Option<&str>) -> (r: String)
    ensures
        r@ == match country {
            Some(cc) => "http://mirrors.ubuntu.com/"@ + cc@ + ".txt"@,
            None => "http://mirrors.ubuntu.com/mirrors.txt"@,
        },
{
    match country {
        Some(cc) => cat3("http://mirrors.ubuntu.com/", cc, ".txt"),
        None => "http://mirrors.ubuntu.com/mirrors.txt".to_owned(),
    }
}

/// Where the mirror list for a country or for the location of the machine is
/// found.
pub fn mirror_list_url(country: Option<&str>) -> (r: String)
    ensures
        r@ == match country {
            Some(cc) => "http://mirrors.ubuntu.com/"@ + uppercase(cc@) + ".txt"@,
            None => "http://mirrors.ubuntu.com/mirrors.txt"@,
        },
{
    match country {
        Some(cc) => {
            let capitals = cc.to_uppercase();
            list_url(Some(capitals.as_str()))
        },
        None => list_url(None),
    }
}

/// The text is a web address.
pub open spec fn is_web(s: Seq<char>) -> bool {
    has_prefix(s, "http://"@) || has_prefix(s, "https://"@)
}

/// The mirrors in the lines of a list, each with a slash at its end.
pub open spec fn listed_mirrors(ls: Seq<Seq<char>>) -> Seq<Seq<char>>
    decreases ls.len(),
{
    if ls.len() == 0 {
        seq![]
    } else {
        let before = listed_mirrors(ls.drop_last());
        let url = trim(ls.last());
        if !is_web(url) {
            before
        } else if has_suffix(url, "/"@) {
            before.push(url)
        } else {
            before.push(url + "/"@)
        }
    }
}

fn web(s: &[char]) -> (r: bool)
    ensures
        r == is_web(s@),
{
    starts(s, "http://") || starts(s, "https://")
}

/// The mirrors that are tried: the first sixty of those listed.
pub open spec fn tried_mirrors(v: Seq<Seq<char>>) -> Seq<Seq<char>> {
    if v.len() > 60 {
        v.take(60)
    } else {
        v
    }
}

/// The mirrors in a list: the first sixty, each with a slash at its end.
pub fn mirror_list(body: &str) -> (v: Vec<String>)
    ensures
        texts(v@) == if listed_mirrors(lines(body@)).len() > 60 {
            listed_mirrors(lines(body@)).take(60)
        } else {
            listed_mirrors(lines(body@))
        },
        texts(v@) == tried_mirrors(listed_mirrors(lines(body@))),
{
    let chars = chars_of(body);
    let ls = lines_of(chars.as_slice());
    let ghost all = pieces(ls@);
    let mut v: Vec<String> = Vec::new();
    let mut i: usize = 0;
    assert(all.take(0) =~= seq![]);
    assert(texts(v@) =~= seq![]);
    while i < ls.len()
        invariant
            all == pieces(ls@),
            i <= ls@.len(),
            texts(v@) == listed_mirrors(all.take(i as int)),
        decreases ls@.len() - i,
    {
        broadcast use lemma_texts_push;

        assert(all.take(i + 1).drop_last() =~= all.take(i as int));
        assert(all.take(i + 1).last() == ls@[i as int]@);
        let url = trim_of(ls[i]);
        if web(url) {
            if ends(url, "/") {
                v.push(string_of(url));
            } else {
                v.push(cat2(string_of(url).as_str(), "/"));
            }
        }
        i += 1;
    }
    assert(all.take(all.len() as int) =~= all);
    let ghost full = texts(v@);
    assert(full.len() == v@.len());
    if v.len() > 60 {
        v.truncate(60);
        assert(texts(v@) =~= full.take(60));
    }
    v
}

/// Two mirrors are at the same location, whatever slashes follow.
pub open spec fn is_same_mirror(a: Seq<char>, b: Seq<char>) -> bool {
    trim_end_char(a, '/') == trim_end_char(b, '/')
}

/// Whether two mirrors are at the same location (ignoring a trailing slash).
pub fn same_mirror(a: &str, b: &str) -> (r: bool)
    ensures
        r == is_same_mirror(a@, b@),
{
    let x = chars_of(a);
    let y = chars_of(b);
    same(trim_end_char_of(x.as_slice(), '/'), trim_end_char_of(y.as_slice(), '/'))
}

/// The list holds a mirror at the same location.
pub open spec fn lists_mirror(v: Seq<Seq<char>>, m: Seq<char>) -> bool {
    exists|i: int| 0 <= i < v.len() && is_same_mirror(#[trigger] v[i], m)
}

/// The mirrors to try, the current one among them.
pub open spec fn with_mirror(v: Seq<Seq<char>>, current: Option<Seq<char>>) -> Seq<Seq<char>> {
    match current {
        Some(c) => if lists_mirror(v, c) {
            v
        } else {
            v.push(c)
        },
        None => v,
    }
}

/// The mirrors to probe: those of the list and the current one, so that a switch
/// can only move to something faster.
pub fn with_current(mirrors: Vec<String>, current: Option<&str>) -> (v: Vec<String>)
    ensures
        texts(v@) == match current {
            Some(c) => if lists_mirror(texts(mirrors@), c@) {
                texts(mirrors@)
            } else {
                texts(mirrors@).push(c@)
            },
            None => texts(mirrors@),
        },
        current matches Some(c) ==> lists_mirror(texts(v@), c@),
        texts(v@) == with_mirror(texts(mirrors@), opt_str(current)),
{
    broadcast use lemma_texts_push;

    let ghost all = texts(mirrors@);
    let mut v = mirrors;
    if let Some(c) = current {
        let mut i: usize = 0;
        while i < v.len()
            invariant
                all == texts(v@),
                i <= v@.len(),
                forall|k: int| 0 <= k < i ==> !is_same_mirror(#[trigger] all[k], c@),
                current == Some(c),
                all == texts(mirrors@),
            decreases v@.len() - i,
        {
            assert(all[i as int] == v@[i as int]@);
            if same_mirror(v[i].as_str(), c) {
                assert(lists_mirror(all, c@));
                return v;
            }
            i += 1;
        }
        v.push(c.to_owned());
        assert(is_same_mirror(texts(v@)[all.len() as int], c@));
    }
    v
}

/// An error where the list names no mirror.
pub fn check_listed(mirrors: &Vec<String>) -> (r: Result<(), String>)
    ensures
        match r {
            Ok(_) => mirrors@.len() > 0,
            Err(e) => mirrors@.len() == 0 && e@
                == "the mirror list was empty — try again, or pass --country <CC>"@,
        },
{
    if mirrors.len() == 0 {
        Err("the mirror list was empty — try again, or pass --country <CC>".to_owned())
    } else {
        Ok(())
    }
}

/// What is said before so many mirrors are timed.
pub fn benchmark_header(color: bool, n: usize) -> (r: String)
    ensures
        r@ == header_text(
            color,
            "Benchmarking "@ + decimal(n as nat) + " mirror"@ + plural(n as nat) + "..."@,
        ),
{
    let text = cat5("Benchmarking ", decimal_usize(n).as_str(), " mirror", plural_of(n), "...");
    header_line(color, text.as_str())
}

/// What is downloaded from a mirror to time it.
pub fn probe_url(mirror: &str, codename: &str) -> (r: String)
    ensures
        r@ == mirror@ + "dists/"@ + codename@ + "/Release"@,
{
    cat4(mirror, "dists/", codename, "/Release")
}

/// The first archive mirror among words.
pub open spec fn archive_word(ws: Seq<Seq<char>>) -> Option<Seq<char>>
    decreases ws.len(),
{
    if ws.len() == 0 {
        None
    } else if is_web(ws[0]) && has_text(ws[0], "archive.ubuntu.com"@) {
        Some(trim_end_char(ws[0], '/') + "/"@)
    } else {
        archive_word(ws.skip(1))
    }
}

/// A line of a sources file is a comment.
pub open spec fn is_comment(line: Seq<char>) -> bool {
    has_prefix(trim_start(line), "#"@)
}

/// The first archive mirror in lines that are no comments.
pub open spec fn archive_line(ls: Seq<Seq<char>>) -> Option<Seq<char>>
    decreases ls.len(),
{
    if ls.len() == 0 {
        None
    } else if !is_comment(ls[0]) && archive_word(words(ls[0])) is Some {
        archive_word(words(ls[0]))
    } else {
        archive_line(ls.skip(1))
    }
}

/// The first archive mirror in files.
pub open spec fn archive_file(contents: Seq<Seq<char>>) -> Option<Seq<char>>
    decreases contents.len(),
{
    if contents.len() == 0 {
        None
    } else if archive_line(lines(contents[0])) is Some {
        archive_line(lines(contents[0]))
    } else {
        archive_file(contents.skip(1))
    }
}

fn archive_in_line(line: &[char]) -> (r: Option<String>)
    ensures
        opt_text(r) == archive_word(words(line@)),
{
    let ws = words_of(line);
    let ghost all = pieces(ws@);
    let mut i: usize = 0;
    assert(all.skip(0) =~= all);
    while i < ws.len()
        invariant
            all == pieces(ws@),
            all == words(line@),
            i <= ws@.len(),
            archive_word(all) == archive_word(all.skip(i as int)),
        decreases ws@.len() - i,
    {
        assert(all.skip(i as int)[0] == ws@[i as int]@);
        assert(all.skip(i as int).skip(1) =~= all.skip(i + 1));
        let tok = ws[i];
        if web(tok) && holds(tok, "archive.ubuntu.com") {
            return Some(cat2(string_of(trim_end_char_of(tok, '/')).as_str(), "/"));
        }
        i += 1;
    }
    None
}

fn archive_in(text: &str) -> (r: Option<String>)
    ensures
        opt_text(r) == archive_line(lines(text@)),
{
    let chars = chars_of(text);
    let ls = lines_of(chars.as_slice());
    let ghost all = pieces(ls@);
    let mut i: usize = 0;
    assert(all.skip(0) =~= all);
    while i < ls.len()
        invariant
            all == pieces(ls@),
            all == lines(text@),
            i <= ls@.len(),
            archive_line(all) == archive_line(all.skip(i as int)),
        decreases ls@.len() - i,
    {
        assert(all.skip(i as int)[0] == ls@[i as int]@);
        assert(all.skip(i as int).skip(1) =~= all.skip(i + 1));
        if !starts(trim_start_of(ls[i]), "#") {
            if let Some(m) = archive_in_line(ls[i]) {
                return Some(m);
            }
        }
        i += 1;
    }
    None
}

/// The archive mirror configured in apt's sources, given the texts of the files
/// in the order in which they are looked at.
pub fn current_archive_mirror(contents: &Vec<String>) -> (r: Option<String>)
    ensures
        opt_text(r) == archive_file(texts(contents@)),
{
    let ghost all = texts(contents@);
    let mut i: usize = 0;
    assert(all.skip(0) =~= all);
    while i < contents.len()
        invariant
            all == texts(contents@),
            i <= contents@.len(),
            archive_file(all) == archive_file(all.skip(i as int)),
        decreases contents@.len() - i,
    {
        assert(all.skip(i as int)[0] == contents@[i as int]@);
        assert(all.skip(i as int).skip(1) =~= all.skip(i + 1));
        if let Some(m) = archive_in(contents[i].as_str()) {
            return Some(m);
        }
        i += 1;
    }
    None
}

// ---------------------------------------------------------------------------
// Rewriting sources
// ---------------------------------------------------------------------------

/// The word with the mirror in place of an archive mirror.
pub open spec fn switched(word: Seq<char>, mirror: Seq<char>) -> Seq<char> {
    if has_text(word, "archive.ubuntu.com"@) {
        mirror
    } else {
        word
    }
}

/// How many words are archive mirrors.
pub open spec fn archive_count(ws: Seq<Seq<char>>) -> nat
    decreases ws.len(),
{
    if ws.len() == 0 {
        0
    } else if has_text(ws.last(), "archive.ubuntu.com"@) {
        archive_count(ws.drop_last()) + 1
    } else {
        archive_count(ws.drop_last())
    }
}

/// A line is left as it is: a comment, or one without an archive mirror.
pub open spec fn is_left(body: Seq<char>) -> bool {
    is_comment(body) || !has_text(body, "archive.ubuntu.com"@)
}

/// The line with the mirror in place of archive mirrors. Its indentation stays,
/// and one space goes between words.
pub open spec fn switched_line(body: Seq<char>, mirror: Seq<char>) -> Seq<char> {
    if is_left(body) {
        body
    } else {
        body.take(leading_spaces(body)) + join(
            words(body).map_values(|w: Seq<char>| switched(w, mirror)),
            " "@,
        )
    }
}

/// How many mirrors of the line are replaced.
pub open spec fn line_changes(body: Seq<char>) -> nat {
    if is_left(body) {
        0
    } else {
        archive_count(words(body))
    }
}

/// The text with the mirror in place of archive mirrors; line breaks stay.
pub open spec fn switched_text(s: Seq<char>, mirror: Seq<char>) -> Seq<char>
    decreases s.len(),
{
    let i = index_of(s, '\n');
    proof {
        lemma_index_of_range(s, '\n');
    }
    if i < s.len() {
        switched_line(s.take(i), mirror) + "\n"@ + switched_text(s.skip(i + 1), mirror)
    } else {
        switched_line(s, mirror)
    }
}

/// How many mirrors of the text are replaced.
pub open spec fn text_changes(s: Seq<char>) -> nat
    decreases s.len(),
{
    let i = index_of(s, '\n');
    proof {
        lemma_index_of_range(s, '\n');
    }
    if i < s.len() {
        line_changes(s.take(i)) + text_changes(s.skip(i + 1))
    } else {
        line_changes(s)
    }
}

fn indent_of(s: &[char]) -> (r: usize)
    ensures
        r == leading_spaces(s@),
        r <= s@.len(),
{
    let mut i: usize = 0;
    assert(s@.skip(0) =~= s@);
    while i < s.len() && space(s[i])
        invariant
            i <= s@.len(),
            leading_spaces(s@) == i + leading_spaces(s@.skip(i as int)),
        decreases s@.len() - i,
    {
        assert(s@.skip(i as int).skip(1) =~= s@.skip(i + 1));
        i += 1;
    }
    i
}

fn switch_line(body: &[char], mirror: &str) -> (r: (String, usize))
    ensures
        r.0@ == switched_line(body@, mirror@),
        r.1 == line_changes(body@),
        r.1 <= body@.len(),
{
    if starts(trim_start_of(body), "#") || !holds(body, "archive.ubuntu.com") {
        return (string_of(body), 0);
    }
    let ws = words_of(body);
    let ghost all = pieces(ws@);
    let ghost f = |w: Seq<char>| switched(w, mirror@);
    let mut out: Vec<String> = Vec::new();
    let mut changed: usize = 0;
    let mut i: usize = 0;
    assert(texts(out@) =~= all.take(0).map_values(f));
    proof {
        lemma_word_count(body@);
    }
    while i < ws.len()
        invariant
            all == pieces(ws@),
            all.len() <= body@.len(),
            f == (|w: Seq<char>| switched(w, mirror@)),
            i <= ws@.len(),
            texts(out@) == all.take(i as int).map_values(f),
            changed == archive_count(all.take(i as int)),
            changed <= i,
        decreases ws@.len() - i,
    {
        broadcast use lemma_texts_push;

        assert(all.take(i + 1).drop_last() =~= all.take(i as int));
        assert(all.take(i + 1).last() == ws@[i as int]@);
        if holds(ws[i], "archive.ubuntu.com") {
            changed += 1;
            out.push(mirror.to_owned());
        } else {
            out.push(string_of(ws[i]));
        }
        assert(texts(out@) =~= all.take(i + 1).map_values(f));
        i += 1;
    }
    assert(all.take(all.len() as int) =~= all);
    let indent = string_of(take(body, indent_of(body)));
    (cat2(indent.as_str(), join_strings(&out, " ").as_str()), changed)
}

proof fn lemma_word_count(s: Seq<char>)
    ensures
        words(s).len() <= s.len(),
    decreases s.len(),
{
    let t = trim_start(s);
    lemma_trim_start_len(s);
    if t.len() > 0 {
        lemma_leading_word_range(t);
        lemma_leading_word_range(t.skip(1));
        lemma_word_count(t.skip(leading_word(t)));
    }
}

/// Replaces archive mirrors by `mirror`, except in comments; the security pocket
/// is none of them. Returns the new text and how many were replaced.
pub fn rewrite_archive_uris(text: &str, mirror: &str) -> (r: (String, usize))
    ensures
        r.0@ == switched_text(text@, mirror@),
        r.1 == text_changes(text@),
{
    let chars = chars_of(text);
    let mut rest: &[char] = chars.as_slice();
    let total: usize = rest.len();
    let mut out = String::new();
    let mut changed: usize = 0;
    assert(out@ + switched_text(rest@, mirror@) =~= switched_text(text@, mirror@));
    loop
        invariant_except_break
            out@ + switched_text(rest@, mirror@) == switched_text(text@, mirror@),
            changed + text_changes(rest@) == text_changes(text@),
            changed + rest@.len() <= total,
        invariant
            total <= usize::MAX,
        ensures
            out@ == switched_text(text@, mirror@),
            changed == text_changes(text@),
        decreases rest@.len(),
    {
        let i: usize = position(rest, '\n');
        proof {
            lemma_index_of_range(rest@, '\n');
        }
        let ghost before = out@;
        if i < rest.len() {
            let (line, n) = switch_line(take(rest, i), mirror);
            out.append(line.as_str());
            out.append("\n");
            changed += n;
            let after = skip(rest, i + 1);
            assert(out@ + switched_text(after@, mirror@) =~= before + switched_text(
                rest@,
                mirror@,
            ));
            rest = after;
        } else {
            let (line, n) = switch_line(rest, mirror);
            out.append(line.as_str());
            changed += n;
            break;
        }
    }
    (out, changed)
}

proof fn lemma_word_holds(s: Seq<char>, p: Seq<char>, i: int)
    requires
        occurs_at(s, p, i),
        p.len() > 0,
        forall|k: int| 0 <= k < p.len() ==> !is_space(#[trigger] p[k]),
    ensures
        exists|k: int| 0 <= k < words(s).len() && has_text(#[trigger] words(s)[k], p),
    decreases s.len(),
{
    let t = trim_start(s);
    lemma_trim_start_len(s);
    lemma_trim_start_occurs(s, p, i);
    let j = i - (s.len() - t.len());
    assert(occurs_at(t, p, j));
    let w = leading_word(t);
    lemma_leading_word_range(t);
    lemma_word_chars(t);
    assert(t.subrange(j, j + p.len())[0] == t[j]);
    assert(!is_space(t[j]));
    let all = words(s);
    assert(all =~= seq![t.take(w)] + words(t.skip(w)));
    if j < w {
        if j + p.len() > w {
            assert(t.subrange(j, j + p.len())[w - j] == t[w]);
            assert(!is_space(p[w - j]));
            assert(false);
        }
        assert(t.take(w).subrange(j, j + p.len()) =~= p);
        assert(occurs_at(all[0], p, j));
        assert(has_text(all[0], p));
    } else {
        assert(t.skip(w).subrange(j - w, j - w + p.len()) =~= p);
        lemma_word_holds(t.skip(w), p, j - w);
        let k = choose|k: int|
            0 <= k < words(t.skip(w)).len() && has_text(#[trigger] words(t.skip(w))[k], p);
        assert(all[k + 1] == words(t.skip(w))[k]);
    }
}

proof fn lemma_trim_start_occurs(s: Seq<char>, p: Seq<char>, i: int)
    requires
        occurs_at(s, p, i),
        p.len() > 0,
        !is_space(p[0]),
    ensures
        occurs_at(trim_start(s), p, i - (s.len() - trim_start(s).len())),
        trim_start(s).len() > 0,
        !is_space(trim_start(s)[0]),
    decreases s.len(),
{
    assert(s.subrange(i, i + p.len())[0] == s[i]);
    if is_space(s[0]) {
        assert(i > 0);
        assert(s.skip(1).subrange(i - 1, i - 1 + p.len()) =~= p);
        lemma_trim_start_occurs(s.skip(1), p, i - 1);
    }
}

proof fn lemma_word_chars(s: Seq<char>)
    ensures
        leading_word(s) < s.len() ==> is_space(s[leading_word(s)]),
        0 <= leading_word(s) <= s.len(),
    decreases s.len(),
{
    if s.len() > 0 && !is_space(s[0]) {
        lemma_word_chars(s.skip(1));
    }
}

proof fn lemma_count_positive(ws: Seq<Seq<char>>, k: int)
    requires
        0 <= k < ws.len(),
        has_text(ws[k], "archive.ubuntu.com"@),
    ensures
        archive_count(ws) > 0,
    decreases ws.len(),
{
    if k < ws.len() - 1 {
        lemma_count_positive(ws.drop_last(), k);
    }
}

/// Where nothing is replaced, the text stays as it is.
pub proof fn nothing_replaced_is_nothing_changed(s: Seq<char>, mirror: Seq<char>)
    requires
        text_changes(s) == 0,
    ensures
        switched_text(s, mirror) == s,
    decreases s.len(),
{
    let i = index_of(s, '\n');
    lemma_index_of_range(s, '\n');
    if i < s.len() {
        lemma_line_unchanged(s.take(i));
        nothing_replaced_is_nothing_changed(s.skip(i + 1), mirror);
        reveal_strlit("\n");
        lemma_newline_at(s);
        assert(s =~= s.take(i) + "\n"@ + s.skip(i + 1));
    } else {
        lemma_line_unchanged(s);
    }
}

proof fn lemma_newline_at(s: Seq<char>)
    ensures
        index_of(s, '\n') < s.len() ==> s[index_of(s, '\n')] == '\n',
    decreases s.len(),
{
    if s.len() > 0 && s[0] != '\n' {
        lemma_newline_at(s.skip(1));
        lemma_index_of_range(s.skip(1), '\n');
    }
}

proof fn lemma_line_unchanged(body: Seq<char>)
    requires
        line_changes(body) == 0,
    ensures
        is_left(body),
{
    if !is_left(body) {
        let p = "archive.ubuntu.com"@;
        reveal_strlit("archive.ubuntu.com");
        assert forall|k: int| 0 <= k < p.len() implies !is_space(#[trigger] p[k]) by {
        }
        let i = choose|i: int| occurs_at(body, p, i);
        lemma_word_holds(body, p, i);
        let k = choose|k: int| 0 <= k < words(body).len() && has_text(#[trigger] words(body)[k], p);
        lemma_count_positive(words(body), k);
    }
}

/// A comment, and a line that names no archive mirror such as one of the
/// security pocket, stays as it is.
pub proof fn other_lines_are_left_alone(body: Seq<char>, mirror: Seq<char>)
    requires
        is_comment(body) || !has_text(body, "archive.ubuntu.com"@),
    ensures
        switched_line(body, mirror) == body,
        line_changes(body) == 0,
{
}

proof fn lemma_trim_start_lacks(s: Seq<char>, c: char)
    requires
        !s.contains(c),
    ensures
        !trim_start(s).contains(c),
    decreases s.len(),
{
    if s.len() > 0 && is_space(s[0]) {
        assert forall|i: int| 0 <= i < s.skip(1).len() implies s.skip(1)[i] != c by {
            assert(s[i + 1] != c);
        }
        lemma_trim_start_lacks(s.skip(1), c);
    }
}

proof fn lemma_words_lack(s: Seq<char>, c: char)
    requires
        !s.contains(c),
    ensures
        forall|k: int| 0 <= k < words(s).len() ==> !(#[trigger] words(s)[k]).contains(c),
    decreases s.len(),
{
    let t = trim_start(s);
    lemma_trim_start_len(s);
    lemma_trim_start_lacks(s, c);
    if t.len() > 0 {
        lemma_leading_word_range(t);
        let w = leading_word(t);
        if w > 0 {
            let rest = t.skip(w);
            assert forall|i: int| 0 <= i < t.take(w).len() implies t.take(w)[i] != c by {
                assert(t[i] != c);
            }
            assert forall|i: int| 0 <= i < rest.len() implies rest[i] != c by {
                assert(t[i + w] != c);
            }
            lemma_words_lack(rest, c);
            assert forall|k: int| 0 <= k < words(s).len() implies !(
            #[trigger] words(s)[k]).contains(c) by {
                if k > 0 {
                    assert(words(s)[k] == words(rest)[k - 1]);
                }
            }
        }
    }
}

proof fn lemma_join_lacks(v: Seq<Seq<char>>, sep: Seq<char>, c: char)
    requires
        !sep.contains(c),
        forall|k: int| 0 <= k < v.len() ==> !(#[trigger] v[k]).contains(c),
    ensures
        !join(v, sep).contains(c),
    decreases v.len(),
{
    if v.len() > 1 {
        let before = v.drop_last();
        assert forall|k: int| 0 <= k < before.len() implies !(
        #[trigger] before[k]).contains(c) by {
            assert(before[k] == v[k]);
        }
        lemma_join_lacks(before, sep, c);
        let a = join(before, sep);
        let all = join(v, sep);
        let last = v[v.len() - 1];
        assert forall|i: int| 0 <= i < all.len() implies all[i] != c by {
            if i < a.len() {
                assert(a[i] != c);
            } else if i < a.len() + sep.len() {
                assert(sep[i - a.len()] != c);
            } else {
                assert(last[i - a.len() - sep.len()] != c);
            }
        }
    }
}

/// A text without white space stands in words with spaces between them only where
/// it stands in one of the words.
proof fn lemma_join_holds_no_more(v: Seq<Seq<char>>, p: Seq<char>)
    requires
        p.len() > 0,
        forall|k: int| 0 <= k < p.len() ==> !is_space(#[trigger] p[k]),
        forall|k: int| 0 <= k < v.len() ==> !has_text(#[trigger] v[k], p),
    ensures
        !has_text(join(v, " "@), p),
    decreases v.len(),
{
    reveal_strlit(" ");
    let all = join(v, " "@);
    if v.len() > 1 {
        let before = v.drop_last();
        assert forall|k: int| 0 <= k < before.len() implies !has_text(#[trigger] before[k], p) by {
            assert(before[k] == v[k]);
        }
        lemma_join_holds_no_more(before, p);
        let a = join(before, " "@);
        let last = v[v.len() - 1];
        assert forall|i: int| !occurs_at(all, p, i) by {
            if occurs_at(all, p, i) {
                if i + p.len() <= a.len() {
                    assert(a.subrange(i, i + p.len()) =~= all.subrange(i, i + p.len()));
                    assert(occurs_at(a, p, i));
                } else if i <= a.len() {
                    assert(all[a.len() as int] == ' ');
                    assert(all.subrange(i, i + p.len())[a.len() - i] == ' ');
                    assert(!is_space(p[a.len() - i]));
                } else {
                    let j = i - a.len() - 1;
                    assert(last.subrange(j, j + p.len()) =~= all.subrange(i, i + p.len()));
                    assert(occurs_at(last, p, j));
                }
            }
        }
    } else if v.len() == 0 {
        assert forall|i: int| !occurs_at(all, p, i) by {
        }
    } else {
        assert(all == v[0]);
    }
}

proof fn lemma_indent(s: Seq<char>)
    ensures
        0 <= leading_spaces(s) <= s.len(),
        forall|k: int| 0 <= k < leading_spaces(s) ==> is_space(#[trigger] s[k]),
    decreases s.len(),
{
    if s.len() > 0 && is_space(s[0]) {
        lemma_indent(s.skip(1));
        assert forall|k: int| 0 <= k < leading_spaces(s) implies is_space(#[trigger] s[k]) by {
            if k > 0 {
                assert(s.skip(1)[k - 1] == s[k]);
            }
        }
    }
}

/// A line in which mirrors were replaced holds no line break, and nothing more to
/// replace.
proof fn lemma_line_switched(body: Seq<char>, mirror: Seq<char>)
    requires
        !mirror.contains('\n'),
        !body.contains('\n'),
    ensures
        !switched_line(body, mirror).contains('\n'),
        !has_text(mirror, "archive.ubuntu.com"@) ==> is_left(switched_line(body, mirror)),
{
    if !is_left(body) {
        let p = "archive.ubuntu.com"@;
        reveal_strlit("archive.ubuntu.com");
        reveal_strlit(" ");
        assert forall|k: int| 0 <= k < p.len() implies !is_space(#[trigger] p[k]) by {
        }
        let f = |w: Seq<char>| switched(w, mirror);
        let ws = words(body).map_values(f);
        let n = leading_spaces(body);
        let indent = body.take(n);
        let tail = join(ws, " "@);
        let line = switched_line(body, mirror);
        assert(line == indent + tail);
        lemma_indent(body);
        lemma_words_lack(body, '\n');
        assert forall|k: int| 0 <= k < ws.len() implies !(#[trigger] ws[k]).contains('\n') by {
            assert(!words(body)[k].contains('\n'));
        }
        lemma_join_lacks(ws, " "@, '\n');
        assert forall|i: int| 0 <= i < line.len() implies line[i] != '\n' by {
            if i < n {
                assert(body[i] != '\n');
            } else {
                assert(tail[i - n] != '\n');
            }
        }
        if !has_text(mirror, p) {
            assert forall|k: int| 0 <= k < ws.len() implies !has_text(#[trigger] ws[k], p) by {
                assert(ws[k] == switched(words(body)[k], mirror));
            }
            lemma_join_holds_no_more(ws, p);
            assert forall|i: int| !occurs_at(line, p, i) by {
                if occurs_at(line, p, i) {
                    if i < n {
                        assert(line.subrange(i, i + p.len())[0] == body[i]);
                        assert(is_space(body[i]));
                        assert(!is_space(p[0]));
                    } else {
                        let j = i - n;
                        assert(tail.subrange(j, j + p.len()) =~= line.subrange(i, i + p.len()));
                        assert(occurs_at(tail, p, j));
                    }
                }
            }
        }
    }
}

/// Where the first line ends, and how a text with that line in another form reads.
proof fn lemma_first_line(line: Seq<char>, rest: Seq<char>)
    requires
        !line.contains('\n'),
    ensures
        index_of(line + "\n"@ + rest, '\n') == line.len(),
        (line + "\n"@ + rest).take(line.len() as int) == line,
        (line + "\n"@ + rest).skip(line.len() + 1int) == rest,
        (line + "\n"@ + rest).len() > line.len(),
        index_of(line, '\n') == line.len(),
{
    reveal_strlit("\n");
    let all = line + "\n"@ + rest;
    assert forall|j: int| 0 <= j < line.len() implies all[j] != '\n' && line[j] != '\n' by {
        assert(line[j] != '\n');
        assert(all[j] == line[j]);
    }
    assert(all[line.len() as int] == '\n');
    lemma_index_of(all, '\n', line.len() as int);
    lemma_index_of(line, '\n', line.len() as int);
    assert(all.take(line.len() as int) =~= line);
    assert(all.skip(line.len() + 1int) =~= rest);
}

proof fn lemma_line_lacks(s: Seq<char>)
    ensures
        0 <= index_of(s, '\n') <= s.len(),
        !s.take(index_of(s, '\n')).contains('\n'),
    decreases s.len(),
{
    lemma_index_of_range(s, '\n');
    let i = index_of(s, '\n');
    if s.len() > 0 && s[0] != '\n' {
        lemma_line_lacks(s.skip(1));
        assert forall|j: int| 0 <= j < i implies s.take(i)[j] != '\n' by {
            if j > 0 {
                assert(s.skip(1).take(i - 1)[j - 1] == s.take(i)[j]);
            }
        }
    }
}

/// Lines are rewritten one by one: none is added or lost, each stays in its place,
/// and nothing is replaced exactly where every line is a comment or names no
/// archive mirror.
pub proof fn lines_are_rewritten_one_by_one(s: Seq<char>, mirror: Seq<char>)
    requires
        !mirror.contains('\n'),
    ensures
        split(switched_text(s, mirror), '\n') == split(s, '\n').map_values(
            |body: Seq<char>| switched_line(body, mirror),
        ),
        text_changes(s) == 0 <==> forall|k: int|
            0 <= k < split(s, '\n').len() ==> is_left(#[trigger] split(s, '\n')[k]),
    decreases s.len(),
{
    let f = |body: Seq<char>| switched_line(body, mirror);
    let i = index_of(s, '\n');
    lemma_line_lacks(s);
    let parts = split(s, '\n');
    if i < s.len() {
        let body = s.take(i);
        let rest = s.skip(i + 1);
        let line = switched_line(body, mirror);
        lines_are_rewritten_one_by_one(rest, mirror);
        lemma_line_switched(body, mirror);
        lemma_first_line(line, switched_text(rest, mirror));
        assert(parts =~= seq![body] + split(rest, '\n'));
        assert(split(switched_text(s, mirror), '\n') =~= parts.map_values(f));
        if text_changes(s) == 0 {
            lemma_line_unchanged(body);
            assert forall|k: int| 0 <= k < parts.len() implies is_left(#[trigger] parts[k]) by {
                if k > 0 {
                    assert(parts[k] == split(rest, '\n')[k - 1]);
                }
            }
        }
        if forall|k: int| 0 <= k < parts.len() ==> is_left(#[trigger] parts[k]) {
            assert(is_left(parts[0]));
            assert forall|k: int| 0 <= k < split(rest, '\n').len() implies is_left(
                #[trigger] split(rest, '\n')[k],
            ) by {
                assert(parts[k + 1] == split(rest, '\n')[k]);
            }
        }
    } else {
        assert(s.take(i) =~= s);
        lemma_line_switched(s, mirror);
        lemma_first_line(switched_line(s, mirror), seq![]);
        assert(parts =~= seq![s]);
        assert(split(switched_text(s, mirror), '\n') =~= parts.map_values(f));
        if text_changes(s) == 0 {
            lemma_line_unchanged(s);
        }
        assert(parts[0] == s);
    }
}

/// Rewriting a text again changes nothing.
pub proof fn rewriting_again_changes_nothing(s: Seq<char>, mirror: Seq<char>)
    requires
        !mirror.contains('\n'),
        !has_text(mirror, "archive.ubuntu.com"@),
    ensures
        switched_text(switched_text(s, mirror), mirror) == switched_text(s, mirror),
        text_changes(switched_text(s, mirror)) == 0,
    decreases s.len(),
{
    let i = index_of(s, '\n');
    lemma_line_lacks(s);
    if i < s.len() {
        let rest = switched_text(s.skip(i + 1), mirror);
        let line = switched_line(s.take(i), mirror);
        rewriting_again_changes_nothing(s.skip(i + 1), mirror);
        lemma_line_switched(s.take(i), mirror);
        lemma_first_line(line, rest);
    } else {
        assert(s.take(i) =~= s);
        lemma_line_switched(s, mirror);
        lemma_first_line(switched_line(s, mirror), seq![]);
    }
}

// ---------------------------------------------------------------------------
// Ranking
// ---------------------------------------------------------------------------

/// How fast a mirror is: a number that is the greater the faster it is, and its
/// whole bytes per second.
#[derive(Debug, Clone, Copy)]
pub struct Speed {
    pub order: u64,
    pub rate: u64,
}

/// A mirror that was probed, with its speed where it responded.
#[derive(Debug)]
pub struct Probe {
    pub url: String,
    pub speed: Option<Speed>,
}

pub struct ProbeView {
    pub url: Seq<char>,
    pub speed: Option<Speed>,
}

impl View for Probe {
    type V = ProbeView;

    open spec fn view(&self) -> ProbeView {
        ProbeView { url: self.url@, speed: self.speed }
    }
}

/// The probes as values.
pub open spec fn probes(v: Seq<Probe>) -> Seq<ProbeView> {
    v.map_values(|p: Probe| p@)
}

/// The mirrors that responded.
pub open spec fn responded(v: Seq<ProbeView>) -> Seq<ProbeView>
    decreases v.len(),
{
    if v.len() == 0 {
        seq![]
    } else if v.last().speed is Some {
        responded(v.drop_last()).push(v.last())
    } else {
        responded(v.drop_last())
    }
}

/// The order of mirrors that responded: the fastest first.
pub open spec fn by_speed() -> spec_fn(ProbeView, ProbeView) -> bool {
    |a: ProbeView, b: ProbeView| (a.speed->0).order >= (b.speed->0).order
}

struct Timed {
    order: u64,
    rate: u64,
    url: String,
}

impl Ranked for Timed {
    closed spec fn rank_le(&self, other: &Self) -> bool {
        self.order >= other.order
    }

    proof fn rank_total(a: &Self, b: &Self) {
    }

    proof fn rank_trans(a: &Self, b: &Self, c: &Self) {
    }

    fn at_most(&self, other: &Self) -> (r: bool) {
        self.order >= other.order
    }
}

spec fn timed(t: Timed) -> ProbeView {
    ProbeView { url: t.url@, speed: Some(Speed { order: t.order, rate: t.rate }) }
}

/// The mirrors that responded, the fastest first; an error where none did.
pub fn rank(v: &Vec<Probe>) -> (r: Result<Vec<Probe>, String>)
    ensures
        match r {
            Ok(out) => out@.len() > 0 && in_order(
                probes(out@),
                responded(probes(v@)),
                by_speed(),
            ),
            Err(e) => responded(probes(v@)).len() == 0 && e@
                == "no mirror responded — check your network connection"@,
        },
{
    let ghost all = probes(v@);
    let mut found: Vec<Timed> = Vec::new();
    let ghost f = |t: Timed| timed(t);
    let mut i: usize = 0;
    assert(all.take(0) =~= seq![]);
    assert(found@.map_values(f) =~= seq![]);
    while i < v.len()
        invariant
            all == probes(v@),
            f == (|t: Timed| timed(t)),
            i <= v@.len(),
            found@.map_values(f) == responded(all.take(i as int)),
        decreases v@.len() - i,
    {
        assert(all.take(i + 1).drop_last() =~= all.take(i as int));
        assert(all.take(i + 1).last() == v@[i as int]@);
        if let Some(s) = v[i].speed {
            let ghost before = found@;
            found.push(Timed { order: s.order, rate: s.rate, url: v[i].url.clone() });
            assert(found@.map_values(f) =~= before.map_values(f).push(v@[i as int]@));
        }
        i += 1;
    }
    assert(all.take(all.len() as int) =~= all);
    let ghost given = found@;
    assert(given.map_values(f).len() == given.len());
    if found.len() == 0 {
        return Err("no mirror responded — check your network connection".to_owned());
    }
    let sorted = sort(found);
    proof {
        assert forall|a: int, b: int|
            #![trigger given[a], given[b]]
            0 <= a < given.len() && 0 <= b < given.len() implies by_rank::<Timed>()(
            given[a],
            given[b],
        ) == by_speed()(f(given[a]), f(given[b])) by {
        }
        lemma_in_order_mapped(sorted@, given, by_rank::<Timed>(), f, by_speed());
    }
    let mut out: Vec<Probe> = Vec::new();
    let mut j: usize = 0;
    while j < sorted.len()
        invariant
            f == (|t: Timed| timed(t)),
            j <= sorted@.len(),
            out@.len() == j,
            forall|k: int| 0 <= k < j ==> (#[trigger] out@[k])@ == timed(sorted@[k]),
        decreases sorted@.len() - j,
    {
        let t = &sorted[j];
        out.push(
            Probe { url: t.url.clone(), speed: Some(Speed { order: t.order, rate: t.rate }) },
        );
        j += 1;
    }
    assert(probes(out@) =~= sorted@.map_values(f));
    proof {
        lemma_in_order_contains(sorted@, given, by_rank::<Timed>(), given[0]);
    }
    Ok(out)
}

/// No mirror that responded is faster than the first of the ranking, so that a
/// switch to it is never a downgrade.
pub proof fn no_mirror_is_faster_than_the_first(
    ranked: Seq<ProbeView>,
    probed: Seq<ProbeView>,
    p: ProbeView,
)
    requires
        in_order(ranked, responded(probed), by_speed()),
        probed.contains(p),
        p.speed is Some,
    ensures
        ranked.len() > 0,
        ranked.contains(p),
        (ranked[0].speed->0).order >= (p.speed->0).order,
{
    lemma_responded(probed, p);
    lemma_in_order_contains(ranked, responded(probed), by_speed(), p);
    let k = choose|k: int| 0 <= k < ranked.len() && ranked[k] == p;
    let q = choose|q: Seq<int>| #[trigger] puts_in_order(q, ranked, responded(probed), by_speed());
    if k > 0 {
        assert(by_speed()(ranked[0], ranked[k]));
    }
}

proof fn lemma_responded(v: Seq<ProbeView>, p: ProbeView)
    requires
        v.contains(p),
        p.speed is Some,
    ensures
        responded(v).contains(p),
    decreases v.len(),
{
    let before = v.drop_last();
    if v.last() == p {
        assert(responded(v).last() == p);
    } else {
        let k = choose|k: int| 0 <= k < v.len() && v[k] == p;
        assert(before[k] == p);
        lemma_responded(before, p);
        let j = choose|j: int| 0 <= j < responded(before).len() && responded(before)[j] == p;
        assert(responded(v)[j] == p);
    }
}

// ---------------------------------------------------------------------------
// Telling
// ---------------------------------------------------------------------------

/// The whole bytes per second of a mirror.
pub open spec fn rate_of(p: ProbeView) -> nat {
    match p.speed {
        Some(s) => s.rate as nat,
        None => 0,
    }
}

/// A row of the ranking.
pub open spec fn mirror_text(
    color: bool,
    place: nat,
    p: ProbeView,
    current: Option<Seq<char>>,
) -> Seq<char> {
    let marker = if place == 1 {
        bold_text(color, yellow_text(color, "★"@))
    } else {
        dim_text(color, padded_left(decimal(place), 2))
    };
    let tag = if current matches Some(c) && is_same_mirror(p.url, c) {
        " "@ + dim_text(color, "(current)"@)
    } else {
        ""@
    };
    "  "@ + marker + "  "@ + green_text(color, padded_left(size_text(rate_of(p)), 11)) + "/s  "@
        + cyan_text(color, p.url) + tag
}

/// The rows of the ranking, below the given lines.
pub open spec fn mirror_lines(
    above: Seq<LineView>,
    color: bool,
    v: Seq<ProbeView>,
    current: Option<Seq<char>>,
) -> Seq<LineView>
    decreases v.len(),
{
    if v.len() == 0 {
        above
    } else {
        mirror_lines(above, color, v.drop_last(), current).push(
            LineView::Out(mirror_text(color, v.len(), v.last(), current)),
        )
    }
}

/// The ranking as it is shown: the first `count` mirrors, and advice where there
/// is only one for the location.
pub open spec fn ranking_lines(
    color: bool,
    v: Seq<ProbeView>,
    current: Option<Seq<char>>,
    count: nat,
    country_given: bool,
) -> Seq<LineView> {
    let none: Seq<LineView> = seq![];
    let shown = if v.len() > count {
        v.take(count as int)
    } else {
        v
    };
    let told = mirror_lines(none.push(LineView::Out(""@)), color, shown, current).push(
        LineView::Out(""@),
    );
    if v.len() < 2 && !country_given {
        told.push(
            LineView::Error(warn_text(color, "Only one mirror was found for your location."@)),
        ).push(
            LineView::Out(
                "  "@ + dim_text(color, "Try a country list, e.g."@) + " "@ + cyan_text(
                    color,
                    "wrapt fetch --country AU"@,
                ),
            ),
        )
    } else {
        told
    }
}

fn mirror_row(color: bool, place: usize, p: &Probe, current: Option<&str>) -> (r: String)
    ensures
        r@ == mirror_text(color, place as nat, p@, opt_str(current)),
{
    let marker = if place == 1 {
        bold_yellow(color, "★")
    } else {
        dimmed(color, pad_left(decimal_usize(place).as_str(), 2).as_str())
    };
    let here = match current {
        Some(c) => same_mirror(p.url.as_str(), c),
        None => false,
    };
    let tag = if here {
        cat2(" ", dimmed(color, "(current)").as_str())
    } else {
        "".to_owned()
    };
    let rate: u64 = match p.speed {
        Some(s) => s.rate,
        None => 0,
    };
    let size = green(color, pad_left(format_size(rate).as_str(), 11).as_str());
    let row = cat6(
        "  ",
        marker.as_str(),
        "  ",
        size.as_str(),
        "/s  ",
        cyan(color, p.url.as_str()).as_str(),
    );
    cat2(row.as_str(), tag.as_str())
}

/// The ranking as it is shown.
pub fn show_ranking(
    color: bool,
    ranked: &Vec<Probe>,
    current: Option<&str>,
    count: usize,
    country_given: bool,
) -> (out: Vec<Line>)
    ensures
        line_views(out@) == ranking_lines(
            color,
            probes(ranked@),
            opt_str(current),
            count as nat,
            country_given,
        ),
{
    let ghost all = probes(ranked@);
    let mut out = no_lines();
    say(&mut out, "".to_owned());
    let ghost above = line_views(out@);
    let mut i: usize = 0;
    assert(all.take(0) =~= seq![]);
    while i < ranked.len() && i < count
        invariant
            all == probes(ranked@),
            i <= ranked@.len(),
            i <= count,
            line_views(out@) == mirror_lines(above, color, all.take(i as int), opt_str(current)),
        decreases ranked@.len() - i,
    {
        assert(all.take(i + 1).drop_last() =~= all.take(i as int));
        assert(all.take(i + 1).last() == ranked@[i as int]@);
        say(&mut out, mirror_row(color, i + 1, &ranked[i], current));
        i += 1;
    }
    assert(all.take(all.len() as int) =~= all);
    say(&mut out, "".to_owned());
    if ranked.len() < 2 && !country_given {
        complain(
            &mut out,
            warn_line(color, "Only one mirror was found for your location."),
        );
        say(
            &mut out,
            cat4(
                "  ",
                dimmed(color, "Try a country list, e.g.").as_str(),
                " ",
                cyan(color, "wrapt fetch --country AU").as_str(),
            ),
        );
    }
    out
}

/// What is said of the fastest mirror where it is not to be applied.
pub fn show_fastest(color: bool, url: &str) -> (out: Vec<Line>)
    ensures
        line_views(out@) == seq![
            LineView::Out(success_text(color, "Fastest mirror: "@ + cyan_text(color, url@))),
            LineView::Out(
                "  "@ + dim_text(color, "Apply it with:"@) + " "@ + cyan_text(
                    color,
                    "sudo wrapt fetch --apply"@,
                ),
            ),
        ],
{
    let mut out = no_lines();
    let text = cat2("Fastest mirror: ", cyan(color, url).as_str());
    say(&mut out, success_line(color, text.as_str()));
    say(
        &mut out,
        cat4(
            "  ",
            dimmed(color, "Apply it with:").as_str(),
            " ",
            cyan(color, "sudo wrapt fetch --apply").as_str(),
        ),
    );
    assert(line_views(out@) =~= seq![
        LineView::Out(success_text(color, "Fastest mirror: "@ + cyan_text(color, url@))),
        LineView::Out(
            "  "@ + dim_text(color, "Apply it with:"@) + " "@ + cyan_text(
                color,
                "sudo wrapt fetch --apply"@,
            ),
        ),
    ]);
    out
}

// ---------------------------------------------------------------------------
// Deciding
// ---------------------------------------------------------------------------

/// What to do about the fastest mirror.
#[derive(Debug, Clone, Copy, PartialEq, Eq, Structural)]
pub enum Choice {
    /// Only one responded, so there is nothing to compare with.
    TooFew,
    /// The current mirror is the fastest.
    AlreadyFastest,
    /// The current mirror responded, with this number in the ranking: switch only
    /// if the fastest is clearly faster.
    Compare(usize),
    /// The current mirror did not respond or is unknown: switch.
    Switch,
}

/// Where in the ranking the first probe of a mirror stands.
pub open spec fn is_place(v: Seq<ProbeView>, c: Seq<char>, i: int) -> bool {
    &&& 0 <= i < v.len()
    &&& is_same_mirror(v[i].url, c)
    &&& forall|j: int| 0 <= j < i ==> !is_same_mirror((#[trigger] v[j]).url, c)
}

/// What is to be done about the current mirror.
pub open spec fn is_choice(r: Choice, ranked: Seq<ProbeView>, current: Option<Seq<char>>) -> bool {
    if ranked.len() < 2 {
        r is TooFew
    } else {
        match current {
            Some(c) => if is_same_mirror(ranked[0].url, c) {
                r is AlreadyFastest
            } else if exists|i: int|
                0 < i < ranked.len() && is_same_mirror((#[trigger] ranked[i]).url, c) {
                r matches Choice::Compare(i) && is_place(ranked, c, i as int)
            } else {
                r is Switch
            },
            None => r is Switch,
        }
    }
}

/// What to do about the fastest mirror: it is applied only where it is a win over
/// what is configured, never on a benchmark of one, never a downgrade.
pub fn decide(ranked: &Vec<Probe>, current: Option<&str>) -> (r: Choice)
    ensures
        match r {
            Choice::TooFew => ranked@.len() < 2,
            Choice::AlreadyFastest => ranked@.len() >= 2 && (opt_str(current) matches Some(c)
                && is_same_mirror(probes(ranked@)[0].url, c)),
            Choice::Compare(i) => ranked@.len() >= 2 && i > 0 && (opt_str(current) matches Some(c)
                && is_place(probes(ranked@), c, i as int)),
            Choice::Switch => ranked@.len() >= 2 && (opt_str(current) matches Some(c)
                ==> forall|i: int|
                0 <= i < ranked@.len() ==> !is_same_mirror((#[trigger] probes(ranked@)[i]).url, c)),
        },
        is_choice(r, probes(ranked@), opt_str(current)),
{
    let ghost all = probes(ranked@);
    if ranked.len() < 2 {
        return Choice::TooFew;
    }
    if let Some(c) = current {
        assert(all[0] == ranked@[0]@);
        if same_mirror(ranked[0].url.as_str(), c) {
            return Choice::AlreadyFastest;
        }
        let mut i: usize = 1;
        while i < ranked.len()
            invariant
                all == probes(ranked@),
                opt_str(current) == Some(c@),
                1 <= i <= ranked@.len(),
                ranked@.len() >= 2,
                forall|j: int| 0 <= j < i ==> !is_same_mirror((#[trigger] all[j]).url, c@),
            decreases ranked@.len() - i,
        {
            assert(all[i as int] == ranked@[i as int]@);
            if same_mirror(ranked[i].url.as_str(), c) {
                return Choice::Compare(i);
            }
            i += 1;
        }
    }
    Choice::Switch
}

/// The error where only one mirror responded.
pub fn too_few() -> (r: String)
    ensures
        r@
            == "only one mirror responded, so there's nothing to benchmark against — run `wrapt fetch --country <CC>` (e.g. AU) for a real mirror list"@,
{
    "only one mirror responded, so there's nothing to benchmark against — run `wrapt fetch --country <CC>` (e.g. AU) for a real mirror list".to_owned()
}

/// What is said where the current mirror is the fastest.
pub fn already_fastest(color: bool, current: &str) -> (r: String)
    ensures
        r@ == success_text(
            color,
            "Your current mirror is already the fastest: "@ + cyan_text(color, current@),
        ),
{
    let text = cat2(
        "Your current mirror is already the fastest: ",
        cyan(color, current).as_str(),
    );
    success_line(color, text.as_str())
}

/// What is said where the fastest mirror is not clearly faster.
pub fn close_enough(color: bool) -> (r: String)
    ensures
        r@ == success_text(
            color,
            "Your current mirror is within 10% of the fastest — keeping it."@,
        ),
{
    success_line(color, "Your current mirror is within 10% of the fastest — keeping it.")
}

// ---------------------------------------------------------------------------
// Applying
// ---------------------------------------------------------------------------

/// The mirror as it is written into sources: without slashes at its end.
pub fn source_uri(mirror: &str) -> (r: String)
    ensures
        r@ == trim_end_char(mirror@, '/'),
{
    let chars = chars_of(mirror);
    string_of(trim_end_char_of(chars.as_slice(), '/'))
}

/// The extension of the backup of a file with that extension.
pub fn backup_extension(extension: Option<&str>) -> (r: String)
    ensures
        r@ == match extension {
            Some(e) => e@ + "."@ + "wrapt-bak"@,
            None => "wrapt-bak"@,
        },
{
    match extension {
        Some(e) => cat3(e, ".", "wrapt-bak"),
        None => "wrapt-bak".to_owned(),
    }
}

/// What is said of a file that was rewritten.
pub fn updated_line(color: bool, path: &str, n: usize, backup: &str) -> (r: String)
    ensures
        r@ == success_text(
            color,
            "Updated "@ + path@ + " ("@ + decimal(n as nat) + " source"@ + plural(n as nat)
                + ") — backup at "@ + backup@,
        ),
{
    let text = cat6("Updated ", path, " (", decimal_usize(n).as_str(), " source", plural_of(n));
    success_line(color, cat3(text.as_str(), ") — backup at ", backup).as_str())
}

/// What is said once the sources are rewritten, `files` of them with `uris`
/// mirrors in all.
pub open spec fn applied_lines(
    color: bool,
    files: nat,
    uris: nat,
    mirror: Seq<char>,
) -> Seq<LineView> {
    if files == 0 {
        seq![
            LineView::Error(
                warn_text(
                    color,
                    "Couldn't find the default archive sources to update automatically."@,
                ),
            ),
            LineView::Out("  Point your archive source at this mirror by hand:"@),
            LineView::Out("    "@ + cyan_text(color, mirror)),
        ]
    } else {
        seq![
            LineView::Out(
                success_text(
                    color,
                    "Switched "@ + decimal(uris) + " archive source(s) to "@ + cyan_text(
                        color,
                        mirror,
                    ) + "."@,
                ),
            ),
            LineView::Out(
                "  "@ + dim_text(color, "Refresh with:"@) + " "@ + cyan_text(
                    color,
                    "wrapt update"@,
                ),
            ),
        ]
    }
}

/// What is said once the sources are rewritten.
pub fn show_applied(color: bool, files: usize, uris: usize, mirror: &str) -> (out: Vec<Line>)
    ensures
        line_views(out@) == applied_lines(color, files as nat, uris as nat, mirror@),
{
    let mut out = no_lines();
    if files == 0 {
        complain(
            &mut out,
            warn_line(color, "Couldn't find the default archive sources to update automatically."),
        );
        say(&mut out, "  Point your archive source at this mirror by hand:".to_owned());
        say(&mut out, cat2("    ", cyan(color, mirror).as_str()));
    } else {
        let text = cat5(
            "Switched ",
            decimal_usize(uris).as_str(),
            " archive source(s) to ",
            cyan(color, mirror).as_str(),
            ".",
        );
        say(&mut out, success_line(color, text.as_str()));
        say(
            &mut out,
            cat4(
                "  ",
                dimmed(color, "Refresh with:").as_str(),
                " ",
                cyan(color, "wrapt update").as_str(),
            ),
        );
    }
    assert(line_views(out@) =~= applied_lines(color, files as nat, uris as nat, mirror@));
    out
}

} // verus!
