//! Laws of the mirrors: which are listed, and which is the current one.

use vstd::prelude::*;

use crate::fetch::{
    applied_lines, archive_count, archive_file, archive_line, archive_word, by_speed, distro_of,
    distro_step, is_choice, is_comment, is_left, is_place, is_same_mirror, is_web, listed_mirrors,
    lists_mirror, mirror_text, rate_of, responded, switched, switched_line, tried_mirrors,
    with_mirror, Choice, ProbeView, Speed,
};
use crate::laws::text::{
    a_character_is_taken_off_again, a_character_is_taken_off_the_ends, a_cut_gives_the_parts_back,
    a_text_is_held_where_it_is_put, trimming_gives_the_text_back,
};
use crate::number::{decimal, padded_left};
use crate::text::{
    cut, has_prefix, has_suffix, has_text, is_space, join, leading_spaces, lines, trim, trim_char,
    trim_end_char, words,
};
use crate::ui::size_text;

verus! {

// ---------------------------------------------------------------------------
// The distribution
// ---------------------------------------------------------------------------

/// A line `key=value` gives the value, with or without quotes around it.
pub proof fn a_release_line_is_read(d: (Seq<char>, Seq<char>), value: Seq<char>)
    requires
        value.len() > 0,
        value[0] != '"',
        value.last() != '"',
        !is_space(value[0]),
        !is_space(value.last()),
    ensures
        distro_step(d, "ID="@ + value) == (value, d.1),
        distro_step(d, "ID="@ + (seq!['"'] + value + seq!['"'])) == (value, d.1),
        distro_step(d, "VERSION_CODENAME="@ + value) == (d.0, value),
        d.1.len() == 0 ==> distro_step(d, "UBUNTU_CODENAME="@ + value) == (d.0, value),
        d.1.len() > 0 ==> distro_step(d, "UBUNTU_CODENAME="@ + value) == d,
        distro_step(d, "NAME="@ + value) == d,
        distro_step(d, "ID_LIKE="@ + value) == d,
        distro_step(d, "VERSION_ID="@ + value) == d,
{
    let quoted = seq!['"'] + value + seq!['"'];
    assert(!is_space('"'));
    let e = Seq::<char>::empty();
    trimming_gives_the_text_back(e, value, e);
    assert(e + value + e =~= value);
    assert(quoted.last() == '"' && quoted[0] == '"');
    trimming_gives_the_text_back(e, quoted, e);
    assert(e + quoted + e =~= quoted);
    a_character_is_taken_off_again(value, '"');
    lemma_key("ID"@, "ID="@, value);
    lemma_key("ID"@, "ID="@, quoted);
    lemma_key("VERSION_CODENAME"@, "VERSION_CODENAME="@, value);
    lemma_key("UBUNTU_CODENAME"@, "UBUNTU_CODENAME="@, value);
    lemma_key("NAME"@, "NAME="@, value);
    lemma_key("ID_LIKE"@, "ID_LIKE="@, value);
    lemma_key("VERSION_ID"@, "VERSION_ID="@, value);
    reveal_strlit("ID");
    reveal_strlit("VERSION_CODENAME");
    reveal_strlit("UBUNTU_CODENAME");
    reveal_strlit("NAME");
    reveal_strlit("ID_LIKE");
    reveal_strlit("VERSION_ID");
    assert("ID"@.len() == 2 && "VERSION_CODENAME"@.len() == 16 && "UBUNTU_CODENAME"@.len() == 15
        && "NAME"@.len() == 4 && "ID_LIKE"@.len() == 7 && "VERSION_ID"@.len() == 10);
}

spec fn is_key(key: Seq<char>, with: Seq<char>) -> bool {
    ||| key == "ID"@ && with == "ID="@
    ||| key == "VERSION_CODENAME"@ && with == "VERSION_CODENAME="@
    ||| key == "UBUNTU_CODENAME"@ && with == "UBUNTU_CODENAME="@
    ||| key == "NAME"@ && with == "NAME="@
    ||| key == "ID_LIKE"@ && with == "ID_LIKE="@
    ||| key == "VERSION_ID"@ && with == "VERSION_ID="@
}

proof fn lemma_key_shape(key: Seq<char>, with: Seq<char>)
    requires
        is_key(key, with),
    ensures
        with == key + seq!['='],
        key.len() > 0,
        !key.contains('='),
        !is_space(key[0]),
        !is_space(key.last()),
{
    reveal_strlit("ID");
    reveal_strlit("VERSION_CODENAME");
    reveal_strlit("UBUNTU_CODENAME");
    reveal_strlit("NAME");
    reveal_strlit("ID_LIKE");
    reveal_strlit("VERSION_ID");
    reveal_strlit("ID=");
    reveal_strlit("VERSION_CODENAME=");
    reveal_strlit("UBUNTU_CODENAME=");
    reveal_strlit("NAME=");
    reveal_strlit("ID_LIKE=");
    reveal_strlit("VERSION_ID=");
    assert(with =~= key + seq!['=']);
}

proof fn lemma_key(key: Seq<char>, with: Seq<char>, value: Seq<char>)
    requires
        is_key(key, with),
    ensures
        cut(with + value, "="@) == Some((key, value)),
        trim(key) == key,
{
    lemma_key_shape(key, with);
    reveal_strlit("=");
    assert("="@ =~= seq!['=']);
    a_cut_gives_the_parts_back(key, '=', value);
    let e = Seq::<char>::empty();
    trimming_gives_the_text_back(e, key, e);
    assert(e + key + e =~= key);
}

// ---------------------------------------------------------------------------
// Mirrors
// ---------------------------------------------------------------------------

/// Each line with a web address lists a mirror, with one slash at its end; any
/// other line lists none.
pub proof fn a_mirror_is_listed_by_its_address(
    ls: Seq<Seq<char>>,
    rest: Seq<char>,
    other: Seq<char>,
)
    requires
        rest.len() > 0,
        !is_space(rest.last()),
        !has_prefix(trim(other), "http://"@),
        !has_prefix(trim(other), "https://"@),
    ensures
        rest.last() != '/' ==> listed_mirrors(ls.push("http://"@ + rest)) == listed_mirrors(
            ls,
        ).push("http://"@ + rest + seq!['/']),
        rest.last() == '/' ==> listed_mirrors(ls.push("http://"@ + rest)) == listed_mirrors(
            ls,
        ).push("http://"@ + rest),
        rest.last() != '/' ==> listed_mirrors(ls.push("https://"@ + rest)) == listed_mirrors(
            ls,
        ).push("https://"@ + rest + seq!['/']),
        rest.last() == '/' ==> listed_mirrors(ls.push("https://"@ + rest)) == listed_mirrors(
            ls,
        ).push("https://"@ + rest),
        listed_mirrors(ls.push(other)) == listed_mirrors(ls),
        listed_mirrors(seq![]).len() == 0,
{
    lemma_mirror(ls, "http://"@, rest);
    lemma_mirror(ls, "https://"@, rest);
    assert(ls.push(other).drop_last() =~= ls);
}

proof fn lemma_mirror(ls: Seq<Seq<char>>, p: Seq<char>, rest: Seq<char>)
    requires
        p == "http://"@ || p == "https://"@,
        rest.len() > 0,
        !is_space(rest.last()),
    ensures
        rest.last() != '/' ==> listed_mirrors(ls.push(p + rest)) == listed_mirrors(ls).push(
            p + rest + seq!['/'],
        ),
        rest.last() == '/' ==> listed_mirrors(ls.push(p + rest)) == listed_mirrors(ls).push(
            p + rest,
        ),
{
    reveal_strlit("http://");
    reveal_strlit("https://");
    reveal_strlit("/");
    assert("/"@ =~= seq!['/']);
    let url = p + rest;
    assert(url[0] == 'h' && url.last() == rest.last());
    assert(!is_space('h'));
    let e = Seq::<char>::empty();
    trimming_gives_the_text_back(e, url, e);
    assert(e + url + e =~= url);
    a_text_is_held_where_it_is_put(e, p, rest);
    assert(ls.push(url).drop_last() =~= ls);
    assert(url.skip(url.len() - 1) =~= seq![url.last()]);
    if url.last() != '/' && has_suffix(url, "/"@) {
        assert(seq![url.last()][0] == '/');
    }
}

/// Slashes at the end make no difference to a mirror, everything else does.
pub proof fn slashes_make_no_difference_to_a_mirror(a: Seq<char>, b: Seq<char>)
    requires
        a.len() == 0 || (a[0] != '/' && a.last() != '/'),
        b.len() == 0 || (b[0] != '/' && b.last() != '/'),
    ensures
        is_same_mirror(a, a + seq!['/']),
        is_same_mirror(a + seq!['/'], a),
        is_same_mirror(a, b) <==> a == b,
{
    a_character_is_taken_off_again(a, '/');
    a_character_is_taken_off_again(b, '/');
}

/// The archive in use is the first web address of `archive.ubuntu.com` in a line
/// that is no comment, with one slash at its end.
pub proof fn the_archive_in_use_is_the_first(
    above: Seq<Seq<char>>,
    line: Seq<char>,
    below: Seq<Seq<char>>,
    before: Seq<Seq<char>>,
    word: Seq<char>,
    after: Seq<Seq<char>>,
)
    requires
        forall|i: int|
            0 <= i < above.len() ==> is_comment(#[trigger] above[i]) || archive_word(
                words(above[i]),
            ) is None,
        !is_comment(line),
        words(line) == before + seq![word] + after,
        forall|i: int|
            0 <= i < before.len() ==> !has_text(#[trigger] before[i], "archive.ubuntu.com"@) || (
            !has_prefix(before[i], "http://"@) && !has_prefix(before[i], "https://"@)),
        has_prefix(word, "http://"@) || has_prefix(word, "https://"@),
        has_text(word, "archive.ubuntu.com"@),
    ensures
        archive_line(above + seq![line] + below) == Some(trim_end_char(word, '/') + "/"@),
    decreases above.len(),
{
    let all = above + seq![line] + below;
    if above.len() == 0 {
        lemma_first_archive(before, word, after);
        assert(all[0] == line);
    } else {
        let rest = above.skip(1);
        assert(all.skip(1) =~= rest + seq![line] + below);
        assert forall|i: int| 0 <= i < rest.len() implies is_comment(#[trigger] rest[i])
            || archive_word(words(rest[i])) is None by {
            assert(rest[i] == above[i + 1]);
        }
        the_archive_in_use_is_the_first(rest, line, below, before, word, after);
        assert(all[0] == above[0]);
    }
}

proof fn lemma_first_archive(before: Seq<Seq<char>>, word: Seq<char>, after: Seq<Seq<char>>)
    requires
        forall|i: int|
            0 <= i < before.len() ==> !has_text(#[trigger] before[i], "archive.ubuntu.com"@) || (
            !has_prefix(before[i], "http://"@) && !has_prefix(before[i], "https://"@)),
        has_prefix(word, "http://"@) || has_prefix(word, "https://"@),
        has_text(word, "archive.ubuntu.com"@),
    ensures
        archive_word(before + seq![word] + after) == Some(trim_end_char(word, '/') + "/"@),
    decreases before.len(),
{
    let all = before + seq![word] + after;
    if before.len() == 0 {
        assert(all[0] == word);
    } else {
        assert(all[0] == before[0]);
        let rest = before.skip(1);
        assert(all.skip(1) =~= rest + seq![word] + after);
        assert forall|i: int| 0 <= i < rest.len() implies !has_text(
            #[trigger] rest[i],
            "archive.ubuntu.com"@,
        ) || (!has_prefix(rest[i], "http://"@) && !has_prefix(rest[i], "https://"@)) by {
            assert(rest[i] == before[i + 1]);
        }
        lemma_first_archive(rest, word, after);
    }
}

/// In a line that is switched each archive's address becomes the mirror, every
/// other word stays, and so does the indentation.
pub proof fn a_switched_line_keeps_its_other_words(
    body: Seq<char>,
    mirror: Seq<char>,
)
    requires
        !is_comment(body),
        has_text(body, "archive.ubuntu.com"@),
    ensures
        exists|ws: Seq<Seq<char>>|
            ws.len() == words(body).len() && switched_line(body, mirror) == body.take(
                leading_spaces(body),
            ) + #[trigger] join(ws, " "@) && (forall|i: int|
                0 <= i < ws.len() ==> #[trigger] ws[i] == (if has_text(
                    words(body)[i],
                    "archive.ubuntu.com"@,
                ) {
                    mirror
                } else {
                    words(body)[i]
                })),
{
    let ws = words(body).map_values(|w: Seq<char>| switched(w, mirror));
    assert(switched_line(body, mirror) == body.take(leading_spaces(body)) + join(ws, " "@));
}

/// A mirror that answered counts, one that did not is left out.
pub proof fn only_answers_are_ranked(v: Seq<ProbeView>, p: ProbeView)
    ensures
        responded(seq![]).len() == 0,
        p.speed is Some ==> responded(v.push(p)) == responded(v).push(p),
        p.speed is None ==> responded(v.push(p)) == responded(v),
{
    assert(v.push(p).drop_last() =~= v);
}

/// The faster of two mirrors comes first.
pub proof fn the_faster_mirror_comes_first(a: ProbeView, b: ProbeView)
    requires
        a.speed is Some,
        b.speed is Some,
        (a.speed->0).order > (b.speed->0).order,
    ensures
        by_speed()(a, b),
        !by_speed()(b, a),
{
}

/// The fastest mirror has a star, the others their place, each its rate and
/// address; the one in use is told.
pub proof fn the_fastest_mirror_has_a_star(place: nat, p: ProbeView, c: Seq<char>)
    requires
        place != 1,
    ensures
        mirror_text(false, 1, p, None) == "  "@ + "★"@ + "  "@ + padded_left(
            size_text(rate_of(p)),
            11,
        ) + "/s  "@ + p.url + ""@,
        mirror_text(false, place, p, None) == "  "@ + padded_left(decimal(place), 2) + "  "@
            + padded_left(size_text(rate_of(p)), 11) + "/s  "@ + p.url + ""@,
        is_same_mirror(p.url, c) ==> mirror_text(false, place, p, Some(c)) == "  "@ + padded_left(
            decimal(place),
            2,
        ) + "  "@ + padded_left(size_text(rate_of(p)), 11) + "/s  "@ + p.url + (" "@
            + "(current)"@),
        !is_same_mirror(p.url, c) ==> mirror_text(false, place, p, Some(c)) == mirror_text(
            false,
            place,
            p,
            None,
        ),
        p.speed is Some ==> rate_of(p) == (p.speed->0).rate,
        p.speed is None ==> rate_of(p) == 0,
{
}

/// Each address of the archive that is switched counts as one.
pub proof fn each_switched_address_counts(ws: Seq<Seq<char>>, a: Seq<char>, b: Seq<char>, other: Seq<char>)
    requires
        !has_text(other, "archive.ubuntu.com"@),
    ensures
        archive_count(seq![]) == 0,
        archive_count(ws.push(a + "archive.ubuntu.com"@ + b)) == archive_count(ws) + 1,
        archive_count(ws.push(other)) == archive_count(ws),
{
    a_text_is_held_where_it_is_put(a, "archive.ubuntu.com"@, b);
    assert(ws.push(a + "archive.ubuntu.com"@ + b).drop_last() =~= ws);
    assert(ws.push(other).drop_last() =~= ws);
}

/// A comment is a line whose first sign, behind blanks, is `#`.
pub proof fn a_comment_begins_with_its_sign(blanks: Seq<char>, s: Seq<char>)
    requires
        forall|i: int| 0 <= i < blanks.len() ==> is_space(#[trigger] blanks[i]),
        s.len() > 0,
        !is_space(s[0]),
        !is_space(s.last()),
    ensures
        is_comment(blanks + s) <==> s[0] == '#',
{
    reveal_strlit("#");
    crate::laws::text::each_end_is_trimmed_alone(blanks, s);
    assert(s.take(1)[0] == s[0]);
    if s[0] == '#' {
        assert(s.take(1) =~= "#"@);
    }
}

/// At most sixty mirrors are tried, and they are the first ones listed.
pub proof fn sixty_mirrors_are_tried(v: Seq<Seq<char>>, i: int)
    ensures
        v.len() <= 60 ==> tried_mirrors(v) == v,
        v.len() > 60 ==> tried_mirrors(v).len() == 60,
        0 <= i < tried_mirrors(v).len() ==> tried_mirrors(v)[i] == v[i],
{
}

/// Without a web address of the archive, outside comments, there is none in use.
pub proof fn without_an_address_no_archive_is_in_use(ls: Seq<Seq<char>>)
    requires
        forall|i: int| 0 <= i < ls.len() ==> is_comment(#[trigger] ls[i]) || no_archive(words(ls[i])),
    ensures
        archive_line(ls) is None,
    decreases ls.len(),
{
    if ls.len() > 0 {
        let rest = ls.skip(1);
        assert(is_comment(ls[0]) || no_archive(words(ls[0])));
        if no_archive(words(ls[0])) {
            lemma_no_archive(words(ls[0]));
        }
        assert forall|i: int| 0 <= i < rest.len() implies is_comment(#[trigger] rest[i])
            || no_archive(words(rest[i])) by {
            assert(rest[i] == ls[i + 1]);
        }
        without_an_address_no_archive_is_in_use(rest);
    }
}

/// No word is a web address of the archive.
pub open spec fn no_archive(ws: Seq<Seq<char>>) -> bool {
    forall|i: int|
        0 <= i < ws.len() ==> !has_text(#[trigger] ws[i], "archive.ubuntu.com"@) || (!has_prefix(
            ws[i],
            "http://"@,
        ) && !has_prefix(ws[i], "https://"@))
}

proof fn lemma_no_archive(ws: Seq<Seq<char>>)
    requires
        no_archive(ws),
    ensures
        archive_word(ws) is None,
    decreases ws.len(),
{
    if ws.len() > 0 {
        let rest = ws.skip(1);
        assert(!has_text(ws[0], "archive.ubuntu.com"@) || (!has_prefix(ws[0], "http://"@)
            && !has_prefix(ws[0], "https://"@)));
        assert forall|i: int| 0 <= i < rest.len() implies !has_text(
            #[trigger] rest[i],
            "archive.ubuntu.com"@,
        ) || (!has_prefix(rest[i], "http://"@) && !has_prefix(rest[i], "https://"@)) by {
            assert(rest[i] == ws[i + 1]);
        }
        lemma_no_archive(rest);
    }
}

/// The current mirror is tried too, once, behind the listed ones.
pub proof fn the_current_mirror_is_tried_too(v: Seq<Seq<char>>, c: Seq<char>)
    ensures
        with_mirror(v, None) == v,
        lists_mirror(v, c) ==> with_mirror(v, Some(c)) == v,
        !lists_mirror(v, c) ==> with_mirror(v, Some(c)) == v.push(c),
        lists_mirror(with_mirror(v, Some(c)), c),
{
    if !lists_mirror(v, c) {
        let w = v.push(c);
        assert(is_same_mirror(w[w.len() - 1], c));
    }
}

/// With two mirrors or more one is chosen: the current one stays where it is the
/// fastest, is compared where it answered, and is left where it did not.
pub proof fn the_current_mirror_is_compared(r: Choice, ranked: Seq<ProbeView>, c: Seq<char>, k: int)
    requires
        is_choice(r, ranked, Some(c)),
    ensures
        ranked.len() < 2 <==> r is TooFew,
        ranked.len() >= 2 && is_same_mirror(ranked[0].url, c) ==> r is AlreadyFastest,
        ranked.len() >= 2 && !is_same_mirror(ranked[0].url, c) && 0 < k < ranked.len()
            && is_same_mirror(ranked[k].url, c) ==> r is Compare && r->0 <= k && is_same_mirror(
            ranked[r->0 as int].url,
            c,
        ),
        r is Switch ==> forall|i: int|
            0 <= i < ranked.len() ==> !is_same_mirror((#[trigger] ranked[i]).url, c),
{
    if ranked.len() >= 2 && !is_same_mirror(ranked[0].url, c) && 0 < k < ranked.len()
        && is_same_mirror(ranked[k].url, c) {
        let i = r->0 as int;
        assert(is_place(ranked, c, i));
        if k < i {
            assert(!is_same_mirror(ranked[k].url, c));
        }
    }
    if r is Switch && ranked.len() >= 2 {
        assert forall|i: int| 0 <= i < ranked.len() implies !is_same_mirror(
            (#[trigger] ranked[i]).url,
            c,
        ) by {
            if i == 0 {
            }
        }
    }
}

/// Without a known mirror in use the fastest is taken.
pub proof fn without_a_current_mirror_the_fastest_is_taken(r: Choice, ranked: Seq<ProbeView>)
    requires
        is_choice(r, ranked, None),
        ranked.len() >= 2,
    ensures
        r is Switch,
{
}

} // verus!
