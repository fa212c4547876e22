//! Laws of apt's answers: what each line of them says.

use vstd::prelude::*;

use crate::apt::{
    apt_error_text, by_match, install_change, installed_bytes, kib, line_item, line_items,
    line_result, line_results, line_version, line_versions, lines_after, listed_bytes, marked_names,
    names_security, record_kib, records_bytes, remove_change, replaced_bytes, replaced_names,
    shown_bytes, simulated, stated_hash, tells_installed, tier, told_installed, update_text,
    version_specs, ChangeView, ResultView, TransactionView,
};
use crate::download::{HashView, ItemView};
use crate::laws::text::{
    a_character_is_taken_off_again, a_cut_gives_the_parts_back, a_number_is_read_back,
    a_piece_ends_at_the_character, a_text_is_held_where_it_is_put, is_line, lines_are_read_back,
    trimming_gives_the_text_back, what_holds_a_text_is_put_around_it, white_space_parts_the_words,
    with_feeds,
};
use crate::number::{decimal, unsigned_up_to};
use crate::order::text_le;
use crate::text::{
    after_prefix, cut, has_prefix, has_text, is_space, join, lemma_cut, lines, lowercase, occurs_at,
    split, split_by, trim, trim_char, trim_end_char, trim_start_char, words,
};
use crate::ui::{bold_text, cyan_text, dim_text, green_text, red_text, yellow_text};

verus! {

// ---------------------------------------------------------------------------
// Simulated transactions
// ---------------------------------------------------------------------------

/// A word among those from the given place on holds `-security`.
pub open spec fn security_stands_in(tokens: Seq<Seq<char>>, from: int) -> bool {
    exists|i: int, a: Seq<char>, b: Seq<char>|
        from <= i < tokens.len() && #[trigger] tokens[i] == #[trigger] (a + "-security"@ + b)
}

proof fn lemma_security(tokens: Seq<Seq<char>>, from: int)
    requires
        0 <= from <= tokens.len(),
    ensures
        names_security(tokens.skip(from)) <==> security_stands_in(tokens, from),
{
    let later = tokens.skip(from);
    let p = "-security"@;
    if names_security(later) {
        let i = choose|i: int| 0 <= i < later.len() && has_text(#[trigger] later[i], p);
        what_holds_a_text_is_put_around_it(later[i], p);
        let (a, b) = choose|a: Seq<char>, b: Seq<char>| later[i] == #[trigger] (a + p + b);
        assert(tokens[from + i] == a + p + b);
    }
    if security_stands_in(tokens, from) {
        let (i, a, b) = choose|i: int, a: Seq<char>, b: Seq<char>|
            from <= i < tokens.len() && #[trigger] tokens[i] == #[trigger] (a + p + b);
        a_text_is_held_where_it_is_put(a, p, b);
        assert(later[i - from] == tokens[i]);
        assert(has_text(later[i - from], p));
    }
}

/// A line `Inst name [old] (new …` is an upgrade of that package between those
/// versions; it is a security fix exactly where any word behind the old version
/// holds `-security`, whichever that is.
pub proof fn an_upgrade_line_is_read(
    ls: Seq<Seq<char>>,
    line: Seq<char>,
    name: Seq<char>,
    old_v: Seq<char>,
    new_v: Seq<char>,
    rest: Seq<Seq<char>>,
)
    requires
        words(line) == seq!["Inst"@, name, "["@ + old_v + "]"@, "("@ + new_v] + rest,
        old_v.len() == 0 || (old_v[0] != ']' && old_v.last() != ']'),
    ensures
        simulated(ls.push(line)).remove == simulated(ls).remove,
        simulated(ls.push(line)).install == simulated(ls).install.push(
            (ChangeView {
                name,
                old: Some(old_v),
                new: Some(new_v),
                security: security_stands_in(words(line), 3),
            }),
        ),
{
    let t = words(line);
    assert(ls.push(line).drop_last() =~= ls);
    lemma_security(t, 3);
    reveal_strlit("[");
    reveal_strlit("]");
    reveal_strlit("(");
    a_text_is_held_where_it_is_put(seq![], "["@, old_v + "]"@);
    assert("["@ + old_v + "]"@ =~= "["@ + (old_v + "]"@));
    a_text_is_held_where_it_is_put(seq![], "("@, new_v);
    a_character_is_taken_off_again(old_v, ']');
    assert("]"@ =~= seq![']']);
    let r = t.skip(2);
    assert(r[0] == "["@ + old_v + "]"@);
    assert(r.skip(1) =~= t.skip(3));
    assert(t.skip(3)[0] == "("@ + new_v);
}

/// A line `Inst name (new …` installs that package anew, and is a security fix
/// exactly where any word from the new version on holds `-security`.
pub proof fn a_new_install_line_is_read(
    ls: Seq<Seq<char>>,
    line: Seq<char>,
    name: Seq<char>,
    new_v: Seq<char>,
    rest: Seq<Seq<char>>,
)
    requires
        words(line) == seq!["Inst"@, name, "("@ + new_v] + rest,
    ensures
        simulated(ls.push(line)).remove == simulated(ls).remove,
        simulated(ls.push(line)).install == simulated(ls).install.push(
            (ChangeView {
                name,
                old: None,
                new: Some(new_v),
                security: security_stands_in(words(line), 2),
            }),
        ),
{
    let t = words(line);
    assert(ls.push(line).drop_last() =~= ls);
    lemma_security(t, 2);
    reveal_strlit("[");
    reveal_strlit("(");
    a_text_is_held_where_it_is_put(seq![], "("@, new_v);
    let r = t.skip(2);
    assert(r[0] == "("@ + new_v);
    assert(r[0][0] == '(');
    if has_prefix(r[0], "["@) {
        assert(r[0].take(1)[0] == '[');
    }
}

/// Another word behind an `Inst` line of a security fix leaves it one: whatever
/// origin is added, the change stays what it was.
pub proof fn another_origin_leaves_a_fix_one(
    ls: Seq<Seq<char>>,
    line: Seq<char>,
    origin: Seq<char>,
)
    requires
        words(line).len() > 3,
        words(line)[0] == "Inst"@,
        simulated(ls.push(line)).install.last().security,
    ensures
        simulated(ls.push(line + " "@ + origin)).install.last().security,
        simulated(ls.push(line + " "@ + origin)).install.last().name == simulated(
            ls.push(line),
        ).install.last().name,
        simulated(ls.push(line + " "@ + origin)).install.last().new == simulated(
            ls.push(line),
        ).install.last().new,
{
    reveal_strlit(" ");
    assert(" "@ =~= seq![' ']);
    white_space_parts_the_words(line, ' ', origin);
    let (t, u) = (words(line), words(line + " "@ + origin));
    assert(u =~= t + words(origin));
    assert(ls.push(line).drop_last() =~= ls);
    assert(ls.push(line + " "@ + origin).drop_last() =~= ls);
    lemma_security(t, 2);
    lemma_security(t, 3);
    lemma_security(u, 2);
    lemma_security(u, 3);
    assert(t.skip(2).skip(1) =~= t.skip(3));
    assert(u.skip(2).skip(1) =~= u.skip(3));
    assert forall|from: int| 0 <= from && #[trigger] security_stands_in(
        t,
        from,
    ) implies security_stands_in(u, from) by {
        let (i, a, b) = choose|i: int, a: Seq<char>, b: Seq<char>|
            from <= i < t.len() && #[trigger] t[i] == #[trigger] (a + "-security"@ + b);
        assert(u[i] == a + "-security"@ + b);
    }
    assert(u[1] == t[1] && u[2] == t[2] && u[3] == t[3]);
}

/// A line `Remv name [old] …` removes that package in that version.
pub proof fn a_removal_line_is_read(
    ls: Seq<Seq<char>>,
    line: Seq<char>,
    name: Seq<char>,
    old_v: Seq<char>,
    rest: Seq<Seq<char>>,
)
    requires
        words(line) == seq!["Remv"@, name, "["@ + old_v + "]"@] + rest,
        old_v.len() == 0 || (old_v[0] != '[' && old_v[0] != ']' && old_v.last() != '['
            && old_v.last() != ']'),
    ensures
        simulated(ls.push(line)).install == simulated(ls).install,
        simulated(ls.push(line)).remove == simulated(ls).remove.push(
            (ChangeView { name, old: Some(old_v), new: None, security: false }),
        ),
{
    let t = words(line);
    assert(ls.push(line).drop_last() =~= ls);
    reveal_strlit("Inst");
    reveal_strlit("Remv");
    assert("Inst"@[0] != "Remv"@[0]);
    reveal_strlit("[");
    reveal_strlit("]");
    assert("]"@ =~= seq![']']);
    assert("["@ =~= seq!['[']);
    let w = old_v + seq![']'];
    assert("["@ + old_v + "]"@ =~= seq!['['] + w);
    assert((seq!['['] + w).skip(1) =~= w);
    assert(w[0] != '[');
    assert(trim_start_char(w, '[') == w);
    assert(trim_start_char(seq!['['] + w, '[') == w);
    a_character_is_taken_off_again(old_v, ']');
}

/// A line that begins with neither word says nothing; no lines, no changes.
pub proof fn other_lines_change_nothing(ls: Seq<Seq<char>>, line: Seq<char>)
    requires
        words(line).len() == 0 || (words(line)[0] != "Inst"@ && words(line)[0] != "Remv"@),
    ensures
        simulated(ls.push(line)) == simulated(ls),
        simulated(seq![]).install.len() == 0,
        simulated(seq![]).remove.len() == 0,
{
    assert(ls.push(line).drop_last() =~= ls);
}

// ---------------------------------------------------------------------------
// Errors
// ---------------------------------------------------------------------------

/// Each line behind the prefix is taken without it, in order; the others are not.
pub proof fn lines_behind_a_prefix_are_taken(
    ls: Seq<Seq<char>>,
    prefix: Seq<char>,
    text: Seq<char>,
    other: Seq<char>,
)
    requires
        !has_prefix(other, prefix),
    ensures
        lines_after(seq![], prefix).len() == 0,
        lines_after(ls.push(prefix + text), prefix) == lines_after(ls, prefix).push(text),
        lines_after(ls.push(other), prefix) == lines_after(ls, prefix),
{
    a_text_is_held_where_it_is_put(seq![], prefix, text);
    assert(ls.push(prefix + text).drop_last() =~= ls);
    assert(ls.push(other).drop_last() =~= ls);
}

/// apt's errors are its lines behind `E: `, one below the other; where it gave
/// none, everything it said.
pub proof fn errors_are_the_lines_behind_their_mark(ls: Seq<Seq<char>>)
    requires
        forall|i: int| 0 <= i < ls.len() ==> is_line(#[trigger] ls[i]),
    ensures
        (forall|i: int| 0 <= i < ls.len() ==> !has_prefix(#[trigger] ls[i], "E: "@))
            ==> apt_error_text(with_feeds(ls)) == with_feeds(ls),
        (exists|i: int| 0 <= i < ls.len() && has_prefix(#[trigger] ls[i], "E: "@))
            ==> apt_error_text(with_feeds(ls)) == join(lines_after(ls, "E: "@), "\n"@),
{
    lines_are_read_back(ls);
    lemma_some_after(ls, "E: "@);
}

proof fn lemma_some_after(ls: Seq<Seq<char>>, p: Seq<char>)
    ensures
        lines_after(ls, p).len() > 0 <==> exists|i: int|
            0 <= i < ls.len() && has_prefix(#[trigger] ls[i], p),
    decreases ls.len(),
{
    if ls.len() > 0 {
        let before = ls.drop_last();
        lemma_some_after(before, p);
        if lines_after(before, p).len() > 0 {
            let i = choose|i: int| 0 <= i < before.len() && has_prefix(#[trigger] before[i], p);
            assert(ls[i] == before[i]);
        }
        if exists|i: int| 0 <= i < ls.len() && has_prefix(#[trigger] ls[i], p) {
            let i = choose|i: int| 0 <= i < ls.len() && has_prefix(#[trigger] ls[i], p);
            if i < before.len() {
                assert(before[i] == ls[i]);
            }
        }
        if has_prefix(ls.last(), p) {
            assert(ls[ls.len() - 1] == ls.last());
        }
    }
}

// ---------------------------------------------------------------------------
// Sizes
// ---------------------------------------------------------------------------

/// Each change to a known new version is asked for as `name=version`; one without
/// is not. Each change that replaces a version counts among the replaced.
pub proof fn changes_are_asked_for_by_version(
    v: Seq<ChangeView>,
    c: ChangeView,
)
    ensures
        version_specs(seq![]).len() == 0,
        c.new is Some ==> version_specs(v.push(c)) == version_specs(v).push(
            c.name + "="@ + c.new->0,
        ),
        c.new is None ==> version_specs(v.push(c)) == version_specs(v),
        replaced_names(seq![]).len() == 0,
        c.old is Some ==> replaced_names(v.push(c)) == replaced_names(v).push(c.name),
        c.old is None ==> replaced_names(v.push(c)) == replaced_names(v),
{
    assert(v.push(c).drop_last() =~= v);
}

/// A size is read in KiB, through blanks around it; a text that is no number, or
/// too large a one, counts as nothing.
pub proof fn a_size_is_read_through_blanks(n: nat, a: Seq<char>, b: Seq<char>, other: Seq<char>)
    requires
        n <= u64::MAX,
        forall|i: int| 0 <= i < a.len() ==> is_space(#[trigger] a[i]),
        forall|i: int| 0 <= i < b.len() ==> is_space(#[trigger] b[i]),
        unsigned_up_to(trim(other), u64::MAX as nat) is None,
    ensures
        kib(a + decimal(n) + b) == n,
        kib(other) == 0,
{
    a_number_is_read_back(n);
    let d = decimal(n);
    assert(48 <= d[0] as u32 <= 57);
    assert(48 <= d[d.len() - 1] as u32 <= 57);
    trimming_gives_the_text_back(a, d, b);
}

/// Installed sizes add up, each line a number of KiB.
pub proof fn installed_sizes_add_up(ls: Seq<Seq<char>>, n: nat)
    requires
        n <= u64::MAX,
    ensures
        listed_bytes(seq![]) == 0,
        listed_bytes(ls.push(decimal(n))) == listed_bytes(ls) + 1024 * n,
{
    assert(ls.push(decimal(n)).drop_last() =~= ls);
    a_number_is_read_back(n);
    let d = decimal(n);
    let e = Seq::<char>::empty();
    assert(48 <= d[0] as u32 <= 57);
    assert(48 <= d[d.len() - 1] as u32 <= 57);
    trimming_gives_the_text_back(e, d, e);
    assert(e + d + e =~= d);
    assert(kib(d) == n);
}

/// A record states its size in KiB in the first line behind `Installed-Size: `,
/// wherever that stands; without one its size is nothing.
pub proof fn a_record_states_its_size(above: Seq<Seq<char>>, n: nat, below: Seq<Seq<char>>)
    requires
        n <= u64::MAX,
        forall|i: int|
            0 <= i < above.len() ==> !has_prefix(#[trigger] above[i], "Installed-Size: "@),
    ensures
        record_kib(above + seq!["Installed-Size: "@ + decimal(n)] + below) == n,
        record_kib(above) == 0,
    decreases above.len(),
{
    let line = "Installed-Size: "@ + decimal(n);
    let all = above + seq![line] + below;
    if above.len() == 0 {
        assert(all[0] == line);
        a_text_is_held_where_it_is_put(seq![], "Installed-Size: "@, decimal(n));
        a_number_is_read_back(n);
        let d = decimal(n);
        let e = Seq::<char>::empty();
        assert(48 <= d[0] as u32 <= 57);
        assert(48 <= d[d.len() - 1] as u32 <= 57);
        trimming_gives_the_text_back(e, d, e);
        assert(e + d + e =~= d);
    } else {
        let rest = above.skip(1);
        assert forall|i: int| 0 <= i < rest.len() implies !has_prefix(
            #[trigger] rest[i],
            "Installed-Size: "@,
        ) by {
            assert(rest[i] == above[i + 1]);
        }
        a_record_states_its_size(rest, n, below);
        assert(all.skip(1) =~= rest + seq![line] + below);
        assert(all[0] == above[0]);
    }
}

/// The sizes of the records shown add up, in bytes.
pub proof fn shown_sizes_add_up(records: Seq<Seq<char>>, record: Seq<char>)
    ensures
        records_bytes(seq![]) == 0,
        records_bytes(records.push(record)) == records_bytes(records) + 1024 * record_kib(
            lines(record),
        ),
{
    assert(records.push(record).drop_last() =~= records);
}

proof fn lemma_records(a: Seq<Seq<char>>, b: Seq<Seq<char>>)
    ensures
        records_bytes(a + b) == records_bytes(a) + records_bytes(b),
    decreases b.len(),
{
    if b.len() == 0 {
        assert(a + b =~= a);
    } else {
        assert((a + b).drop_last() =~= a + b.drop_last());
        lemma_records(a, b.drop_last());
    }
}

/// Records with a blank line between them each add their size, in bytes.
pub proof fn every_record_adds_its_size(record: Seq<char>, rest: Seq<char>)
    requires
        !has_text(record, "\n\n"@),
        record.len() == 0 || record.last() != '\n',
    ensures
        shown_bytes(record + "\n\n"@ + rest) == 1024 * record_kib(lines(record)) + shown_bytes(rest),
        shown_bytes(record) == 1024 * record_kib(lines(record)),
{
    reveal_strlit("\n\n");
    let p = "\n\n"@;
    let s = record + p + rest;
    assert(s.subrange(record.len() as int, record.len() as int + 2) =~= p);
    assert forall|j: int| 0 <= j < record.len() implies !occurs_at(s, p, j) by {
        if occurs_at(s, p, j) {
            assert(s.subrange(j, j + 2)[0] == s[j]);
            assert(s.subrange(j, j + 2)[1] == s[j + 1]);
            if j + 1 < record.len() {
                assert(record.subrange(j, j + 2) =~= p);
                assert(occurs_at(record, p, j));
            } else {
                assert(record.last() == '\n');
            }
        }
    }
    lemma_cut(s, p, record.len() as int);
    assert(s.take(record.len() as int) =~= record);
    assert(s.skip(record.len() + 2int) =~= rest);
    crate::laws::text::a_cut_is_made_at_the_first_place(record, p);
    if let Some((x, y)) = cut(record, p) {
        a_text_is_held_where_it_is_put(x, p, y);
    }
    assert(split_by(s, p) =~= seq![record] + split_by(rest, p));
    lemma_records(seq![record], split_by(rest, p));
    assert(split_by(record, p) =~= seq![record]);
    let v = seq![record];
    assert(v.drop_last() =~= seq![]);
    assert(records_bytes(seq![]) == 0);
    assert(records_bytes(v) == record_kib(lines(record)) * 1024);
}

/// What is installed is the size of the shown records, where any version is asked
/// for; what is replaced is the listed sizes, where anything is replaced or
/// removed; without an answer from apt or dpkg each is nothing.
pub proof fn only_what_changes_takes_space(tx: TransactionView, text: Seq<char>)
    ensures
        installed_bytes(tx, None) == 0,
        replaced_bytes(tx, None) == 0,
        (exists|i: int| 0 <= i < tx.install.len() && (#[trigger] tx.install[i]).new is Some)
            ==> installed_bytes(tx, Some(text)) == shown_bytes(text),
        (forall|i: int| 0 <= i < tx.install.len() ==> (#[trigger] tx.install[i]).new is None)
            ==> installed_bytes(tx, Some(text)) == 0,
        tx.remove.len() > 0 ==> replaced_bytes(tx, Some(text)) == listed_bytes(lines(text)),
        (exists|i: int| 0 <= i < tx.install.len() && (#[trigger] tx.install[i]).old is Some)
            ==> replaced_bytes(tx, Some(text)) == listed_bytes(lines(text)),
        tx.remove.len() == 0 && (forall|i: int|
            0 <= i < tx.install.len() ==> (#[trigger] tx.install[i]).old is None)
            ==> replaced_bytes(tx, Some(text)) == 0,
{
    lemma_specs(tx.install);
}

proof fn lemma_specs(v: Seq<ChangeView>)
    ensures
        version_specs(v).len() > 0 <==> exists|i: int|
            0 <= i < v.len() && (#[trigger] v[i]).new is Some,
        replaced_names(v).len() > 0 <==> exists|i: int|
            0 <= i < v.len() && (#[trigger] v[i]).old is Some,
    decreases v.len(),
{
    if v.len() > 0 {
        let before = v.drop_last();
        lemma_specs(before);
        let last = v.len() - 1;
        assert(v[last] == v.last());
        if exists|i: int| 0 <= i < before.len() && (#[trigger] before[i]).new is Some {
            let i = choose|i: int| 0 <= i < before.len() && (#[trigger] before[i]).new is Some;
            assert(v[i].new is Some);
        }
        if exists|i: int| 0 <= i < v.len() && (#[trigger] v[i]).new is Some {
            let i = choose|i: int| 0 <= i < v.len() && (#[trigger] v[i]).new is Some;
            if i < last {
                assert(before[i].new is Some);
            }
        }
        if exists|i: int| 0 <= i < before.len() && (#[trigger] before[i]).old is Some {
            let i = choose|i: int| 0 <= i < before.len() && (#[trigger] before[i]).old is Some;
            assert(v[i].old is Some);
        }
        if exists|i: int| 0 <= i < v.len() && (#[trigger] v[i]).old is Some {
            let i = choose|i: int| 0 <= i < v.len() && (#[trigger] v[i]).old is Some;
            if i < last {
                assert(before[i].old is Some);
            }
        }
    }
}

// ---------------------------------------------------------------------------
// Downloads
// ---------------------------------------------------------------------------

/// A line `'address' file size SHA256:digits` is a file to download: the address
/// without its quotes, the name, the size, and the digest in lower case.
pub proof fn an_address_line_is_read(
    ls: Seq<Seq<char>>,
    line: Seq<char>,
    url: Seq<char>,
    file: Seq<char>,
    size: nat,
    hex: Seq<char>,
)
    requires
        url.len() > 0 && url[0] != '\'' && url.last() != '\'',
        size <= u64::MAX,
        words(line).len() >= 3,
        words(line)[0] == "'"@ + url + "'"@,
        words(line)[1] == file,
        words(line)[2] == decimal(size),
    ensures
        line_items(ls.push(line)).len() == line_items(ls).len() + 1,
        line_items(ls.push(line)).drop_last() == line_items(ls),
        line_items(ls.push(line)).last().url == url,
        line_items(ls.push(line)).last().filename == file,
        line_items(ls.push(line)).last().size == size,
        words(line).len() == 3 ==> line_items(ls.push(line)).last().hash is None,
        words(line).len() > 3 && words(line)[3] == "SHA256:"@ + hex ==> line_items(
            ls.push(line),
        ).last().hash == Some(HashView::Sha256(lowercase(hex))),
        words(line).len() > 3 && words(line)[3] == "MD5Sum:"@ + hex ==> line_items(
            ls.push(line),
        ).last().hash == Some(HashView::Md5(lowercase(hex))),
        words(line).len() > 3 && !words(line)[3].contains(':') ==> line_items(
            ls.push(line),
        ).last().hash is None,
{
    assert(ls.push(line).drop_last() =~= ls);
    reveal_strlit("'");
    assert("'"@ =~= seq!['\'']);
    let t = words(line);
    a_text_is_held_where_it_is_put(seq![], "'"@, url + "'"@);
    assert("'"@ + url + "'"@ =~= "'"@ + (url + "'"@));
    a_character_is_taken_off_again(url, '\'');
    a_number_is_read_back(size);
    let items = line_items(ls.push(line));
    assert(items.drop_last() =~= line_items(ls));
    if t.len() > 3 {
        lemma_hash(t[3], hex);
    }
}

proof fn lemma_hash(t: Seq<char>, hex: Seq<char>)
    ensures
        t == "SHA256:"@ + hex ==> stated_hash(t) == Some(HashView::Sha256(lowercase(hex))),
        t == "MD5Sum:"@ + hex ==> stated_hash(t) == Some(HashView::Md5(lowercase(hex))),
        !t.contains(':') ==> stated_hash(t) is None,
{
    reveal_strlit(":");
    reveal_strlit("SHA256");
    reveal_strlit("MD5Sum");
    reveal_strlit("SHA256:");
    reveal_strlit("MD5Sum:");
    assert(":"@ =~= seq![':']);
    assert("SHA256"@[0] != "MD5Sum"@[0]);
    assert("SHA256:"@ =~= "SHA256"@ + seq![':']);
    assert("MD5Sum:"@ =~= "MD5Sum"@ + seq![':']);
    assert(!"SHA256"@.contains(':'));
    assert(!"MD5Sum"@.contains(':'));
    a_cut_gives_the_parts_back("SHA256"@, ':', hex);
    a_cut_gives_the_parts_back("MD5Sum"@, ':', hex);
    if !t.contains(':') {
        a_cut_gives_the_parts_back(t, ':', hex);
    }
}

/// A line of fewer than three words, or whose first is not quoted, names no file.
pub proof fn other_lines_name_no_file(ls: Seq<Seq<char>>, line: Seq<char>)
    requires
        words(line).len() < 3 || !has_prefix(words(line)[0], "'"@),
    ensures
        line_items(ls.push(line)) == line_items(ls),
        line_items(seq![]).len() == 0,
{
    assert(ls.push(line).drop_last() =~= ls);
}

/// A digest of any other sort is not relied on.
pub proof fn other_digests_are_not_relied_on(sort: Seq<char>, hex: Seq<char>)
    requires
        !sort.contains(':'),
        sort != "SHA256"@,
        sort != "MD5Sum"@,
    ensures
        stated_hash(sort + seq![':'] + hex) is None,
{
    reveal_strlit(":");
    assert(":"@ =~= seq![':']);
    a_cut_gives_the_parts_back(sort, ':', hex);
}

// ---------------------------------------------------------------------------
// Updates
// ---------------------------------------------------------------------------

/// A line of an update is told by its first word: one index that is unchanged,
/// fetched, ignored or failed, whatever number it has.
pub proof fn an_update_line_is_told_by_its_word(number: Seq<char>, rest: Seq<char>)
    requires
        !number.contains(' '),
    ensures
        update_text(false, "Hit:"@ + number + " "@ + rest) == Some("  ✓ "@ + rest),
        update_text(false, "Get:"@ + number + " "@ + rest) == Some("  ↓ "@ + rest),
        update_text(false, "Ign:"@ + number + " "@ + rest) == Some("  – "@ + rest),
        update_text(false, "Err:"@ + number + " "@ + rest) == Some("  ✗ "@ + rest),
{
    lemma_hit(number, rest);
    lemma_get(number, rest);
    lemma_ign(number, rest);
    lemma_err(number, rest);
}

proof fn lemma_hit(number: Seq<char>, rest: Seq<char>)
    requires
        !number.contains(' '),
    ensures
        update_text(false, "Hit:"@ + number + " "@ + rest) == Some("  ✓ "@ + rest),
{
    lemma_words_apart();
    assert("Hit:"@ =~= "Hit"@ + seq![':'] && !"Hit"@.contains(' ') && !"Hit"@.contains(':')) by {
        reveal_strlit("Hit:");
        reveal_strlit("Hit");
    }
    lemma_tag("Hit"@, "Hit:"@, number, rest);
    assert("  "@ + "✓"@ + " "@ + rest =~= "  ✓ "@ + rest) by {
        reveal_strlit(" ");
        reveal_strlit("  ");
        reveal_strlit("✓");
        reveal_strlit("  ✓ ");
        assert("  "@ + "✓"@ + " "@ =~= "  ✓ "@);
    }
}

proof fn lemma_get(number: Seq<char>, rest: Seq<char>)
    requires
        !number.contains(' '),
    ensures
        update_text(false, "Get:"@ + number + " "@ + rest) == Some("  ↓ "@ + rest),
{
    lemma_words_apart();
    assert("Get:"@ =~= "Get"@ + seq![':'] && !"Get"@.contains(' ') && !"Get"@.contains(':')) by {
        reveal_strlit("Get:");
        reveal_strlit("Get");
    }
    lemma_tag("Get"@, "Get:"@, number, rest);
    assert("  "@ + "↓"@ + " "@ + rest =~= "  ↓ "@ + rest) by {
        reveal_strlit(" ");
        reveal_strlit("  ");
        reveal_strlit("↓");
        reveal_strlit("  ↓ ");
        assert("  "@ + "↓"@ + " "@ =~= "  ↓ "@);
    }
}

proof fn lemma_ign(number: Seq<char>, rest: Seq<char>)
    requires
        !number.contains(' '),
    ensures
        update_text(false, "Ign:"@ + number + " "@ + rest) == Some("  – "@ + rest),
{
    lemma_words_apart();
    assert("Ign:"@ =~= "Ign"@ + seq![':'] && !"Ign"@.contains(' ') && !"Ign"@.contains(':')) by {
        reveal_strlit("Ign:");
        reveal_strlit("Ign");
    }
    lemma_tag("Ign"@, "Ign:"@, number, rest);
    assert("  "@ + "–"@ + " "@ + rest =~= "  – "@ + rest) by {
        reveal_strlit(" ");
        reveal_strlit("  ");
        reveal_strlit("–");
        reveal_strlit("  – ");
        assert("  "@ + "–"@ + " "@ =~= "  – "@);
    }
}

proof fn lemma_err(number: Seq<char>, rest: Seq<char>)
    requires
        !number.contains(' '),
    ensures
        update_text(false, "Err:"@ + number + " "@ + rest) == Some("  ✗ "@ + rest),
{
    lemma_words_apart();
    assert("Err:"@ =~= "Err"@ + seq![':'] && !"Err"@.contains(' ') && !"Err"@.contains(':')) by {
        reveal_strlit("Err:");
        reveal_strlit("Err");
    }
    lemma_tag("Err"@, "Err:"@, number, rest);
    assert("  "@ + "✗"@ + " "@ + rest =~= "  ✗ "@ + rest) by {
        reveal_strlit(" ");
        reveal_strlit("  ");
        reveal_strlit("✗");
        reveal_strlit("  ✗ ");
        assert("  "@ + "✗"@ + " "@ =~= "  ✗ "@);
    }
}

proof fn lemma_words_apart()
    ensures
        "Hit"@ != "Get"@,
        "Hit"@ != "Ign"@,
        "Hit"@ != "Err"@,
        "Get"@ != "Ign"@,
        "Get"@ != "Err"@,
        "Ign"@ != "Err"@,
{
    reveal_strlit("Hit");
    reveal_strlit("Get");
    reveal_strlit("Ign");
    reveal_strlit("Err");
    assert("Hit"@[0] == 'H' && "Get"@[0] == 'G' && "Ign"@[0] == 'I' && "Err"@[0] == 'E');
}

proof fn lemma_tag(word: Seq<char>, tag: Seq<char>, number: Seq<char>, rest: Seq<char>)
    requires
        tag == word + seq![':'],
        !word.contains(' '),
        !word.contains(':'),
        !number.contains(' '),
    ensures
        cut(tag + number + " "@ + rest, " "@) == Some((tag + number, rest)),
        split(tag + number, ':')[0] == word,
{
    reveal_strlit(" ");
    assert(" "@ =~= seq![' ']);
    let first = tag + number;
    if first.contains(' ') {
        let i = choose|i: int| 0 <= i < first.len() && first[i] == ' ';
        if i < word.len() {
            assert(word[i] == ' ');
        } else if i > word.len() {
            assert(number[i - tag.len()] == ' ');
        }
    }
    a_cut_gives_the_parts_back(first, ' ', rest);
    a_piece_ends_at_the_character(word, ':', number);
    assert(first =~= word + seq![':'] + number);
}

/// Any other line of an update is not shown.
pub proof fn other_update_lines_are_not_shown(color: bool, word: Seq<char>, rest: Seq<char>)
    requires
        !word.contains(' '),
        !word.contains(':'),
        word != "Hit"@ && word != "Get"@ && word != "Ign"@ && word != "Err"@,
    ensures
        update_text(color, word) is None,
        update_text(color, word + seq![' '] + rest) is None,
{
    reveal_strlit(" ");
    assert(" "@ =~= seq![' ']);
    a_cut_gives_the_parts_back(word, ' ', rest);
    a_piece_ends_at_the_character(word, ':', rest);
}

// ---------------------------------------------------------------------------
// What is installed, held and marked
// ---------------------------------------------------------------------------

/// A line `installed name` or `installed name:arch` tells that the package is
/// installed, wherever it stands, and tells it of no other.
pub proof fn an_installed_package_is_told(
    ls: Seq<Seq<char>>,
    k: int,
    name: Seq<char>,
    arch: Seq<char>,
    other: Seq<char>,
)
    requires
        !name.contains(':'),
        0 <= k < ls.len(),
    ensures
        ls[k] == "installed "@ + name ==> told_installed(ls, name),
        ls[k] == "installed "@ + name + ":"@ + arch ==> told_installed(ls, name),
        tells_installed("installed "@ + name, other) ==> other == name,
        tells_installed("installed "@ + name + ":"@ + arch, other) ==> other == name || other
            == name + ":"@ + arch,
{
    reveal_strlit(":");
    assert(":"@ =~= seq![':']);
    let p = "installed "@;
    a_text_is_held_where_it_is_put(seq![], p, name);
    a_text_is_held_where_it_is_put(seq![], p, name + ":"@ + arch);
    assert(p + name + ":"@ + arch =~= p + (name + ":"@ + arch));
    a_cut_gives_the_parts_back(name, ':', arch);
    if ls[k] == p + name {
        assert(tells_installed(ls[k], name));
    }
    if ls[k] == p + name + ":"@ + arch {
        assert(tells_installed(ls[k], name));
    }
}

/// A package in any other state is not told installed.
pub proof fn a_package_in_another_state_is_not_installed(line: Seq<char>, name: Seq<char>)
    requires
        !has_prefix(line, "installed "@),
    ensures
        !tells_installed(line, name),
{
}

/// The marks are read line by line, without the architecture and the blanks
/// around the name.
pub proof fn a_marked_name_is_read(
    ls: Seq<Seq<char>>,
    name: Seq<char>,
    arch: Seq<char>,
    a: Seq<char>,
    b: Seq<char>,
)
    requires
        !name.contains(':'),
        name.len() > 0,
        !is_space(name[0]),
        !is_space(name.last()),
        forall|i: int| 0 <= i < a.len() ==> is_space(#[trigger] a[i]),
        forall|i: int| 0 <= i < b.len() ==> is_space(#[trigger] b[i]),
    ensures
        marked_names(ls.push(name)) == marked_names(ls).push(name),
        marked_names(ls.push(name + seq![':'] + arch)) == marked_names(ls).push(name),
        marked_names(ls.push(a + name + b)) == marked_names(ls).push(name),
{
    let e = Seq::<char>::empty();
    a_piece_ends_at_the_character(name, ':', arch);
    trimming_gives_the_text_back(e, name, e);
    assert(e + name + e =~= name);
    trimming_gives_the_text_back(a, name, b);
    let s = a + name + b;
    assert(!s.contains(':')) by {
        if s.contains(':') {
            let i = choose|i: int| 0 <= i < s.len() && s[i] == ':';
            assert(!is_space(':'));
            if i < a.len() {
                assert(a[i] == ':');
            } else if i < a.len() + name.len() {
                assert(name[i - a.len()] == ':');
            } else {
                assert(b[i - a.len() - name.len()] == ':');
            }
        }
    }
    a_piece_ends_at_the_character(s, ':', arch);
    assert(marked_names(ls.push(name)) =~= marked_names(ls).push(name));
    assert(marked_names(ls.push(name + seq![':'] + arch)) =~= marked_names(ls).push(name));
    assert(marked_names(ls.push(s)) =~= marked_names(ls).push(name));
}

/// A line of the installed versions: the state, the name and the version, with
/// tabs between them. Only what is installed counts.
pub proof fn an_installed_version_is_read(
    ls: Seq<Seq<char>>,
    state: Seq<char>,
    name: Seq<char>,
    version: Seq<char>,
    more: Seq<char>,
)
    requires
        !state.contains('\t'),
        !name.contains('\t'),
        !version.contains('\t'),
    ensures
        line_versions(seq![]).len() == 0,
        state == "installed"@ ==> line_versions(
            ls.push(state + seq!['\t'] + (name + seq!['\t'] + version)),
        ) == line_versions(ls).push((name, version)),
        state != "installed"@ ==> line_versions(
            ls.push(state + seq!['\t'] + (name + seq!['\t'] + version)),
        ) == line_versions(ls),
        state == "installed"@ ==> line_versions(
            ls.push(state + seq!['\t'] + (name + seq!['\t'] + (version + seq!['\t'] + more))),
        ) == line_versions(ls).push((name, version)),
        !has_text(state, "\t"@) ==> line_versions(ls.push(state)) == line_versions(ls),
{
    let tail3 = version + seq!['\t'] + more;
    let tail2 = name + seq!['\t'] + tail3;
    let line2 = state + seq!['\t'] + tail2;
    assert(ls.push(line2).drop_last() =~= ls);
    assert(ls.push(state).drop_last() =~= ls);
    a_piece_ends_at_the_character(state, '\t', tail2);
    a_piece_ends_at_the_character(name, '\t', tail3);
    a_piece_ends_at_the_character(version, '\t', more);
    assert(split(line2, '\t')[0] == state);
    assert(split(line2, '\t')[1] == split(tail2, '\t')[0]);
    assert(split(line2, '\t')[2] == split(tail2, '\t')[1]);
    assert(split(tail2, '\t')[1] == split(tail3, '\t')[0]);
    let tail = name + seq!['\t'] + version;
    let line = state + seq!['\t'] + tail;
    assert(ls.push(line).drop_last() =~= ls);
    a_piece_ends_at_the_character(state, '\t', tail);
    a_piece_ends_at_the_character(name, '\t', version);
    a_piece_ends_at_the_character(version, '\t', seq![]);
    assert(split(line, '\t') =~= seq![state, name, version]);
}

// ---------------------------------------------------------------------------
// Searching
// ---------------------------------------------------------------------------

/// A line `name - description` is a result; a line without the dash is none.
pub proof fn a_search_line_is_read(
    ls: Seq<Seq<char>>,
    name: Seq<char>,
    description: Seq<char>,
    installed: Set<Seq<char>>,
    other: Seq<char>,
)
    requires
        !name.contains(' '),
        !has_text(other, " - "@),
    ensures
        line_results(seq![], installed).len() == 0,
        line_results(ls.push(name + " - "@ + description), installed) == line_results(
            ls,
            installed,
        ).push(
            (ResultView { name, version: None, description, installed: installed.contains(name) }),
        ),
        line_results(ls.push(other), installed) == line_results(ls, installed),
{
    let line = name + " - "@ + description;
    assert(ls.push(line).drop_last() =~= ls);
    assert(ls.push(other).drop_last() =~= ls);
    reveal_strlit(" - ");
    a_text_is_held_where_it_is_put(name, " - "@, description);
    crate::laws::text::a_cut_is_made_at_the_first_place(line, " - "@);
    crate::laws::text::a_cut_is_made_at_the_first_place(other, " - "@);
    let (a, b) = cut(line, " - "@)->0;
    if a.len() < name.len() {
        assert(line[a.len() as int] == ' ');
        assert(name[a.len() as int] == ' ');
        assert(name.contains(' '));
    }
    if a.len() > name.len() {
        assert(crate::text::occurs_at(line, " - "@, name.len() as int)) by {
            assert(line.subrange(name.len() as int, name.len() as int + 3) =~= " - "@);
        }
    }
    assert(a =~= name) by {
        assert(a =~= line.take(name.len() as int));
    }
    assert(b =~= description) by {
        assert(line.skip(name.len() + 3int) =~= description);
        assert(line.skip(a.len() + 3int) =~= b);
    }
}

/// The name that is the query comes first, then the names that hold it, then the
/// rest; within each, the names go in their own order.
pub proof fn the_closest_name_comes_first(query: Seq<char>, a: ResultView, b: ResultView)
    ensures
        a.name == query && b.name != query ==> by_match(query)(a, b) && !by_match(query)(b, a),
        a.name != query && b.name != query && has_text(a.name, query) && !has_text(b.name, query)
            ==> by_match(query)(a, b) && !by_match(query)(b, a),
        a.name != query && b.name != query && has_text(a.name, query) == has_text(b.name, query)
            ==> by_match(query)(a, b) == text_le(a.name, b.name),
{
}

/// A size that is no number counts as nothing, and the file is downloaded all the
/// same.
pub proof fn an_unknown_size_counts_as_nothing(ls: Seq<Seq<char>>, line: Seq<char>)
    requires
        words(line).len() >= 3,
        has_prefix(words(line)[0], "'"@),
        unsigned_up_to(words(line)[2], u64::MAX as nat) is None,
    ensures
        line_items(ls.push(line)).len() == line_items(ls).len() + 1,
        line_items(ls.push(line)).last().size == 0,
{
    assert(ls.push(line).drop_last() =~= ls);
}

/// In colour an index that is unchanged or ignored stands back; one that was
/// fetched or failed does not.
pub proof fn an_update_line_is_coloured_by_its_word(color: bool, number: Seq<char>, rest: Seq<char>)
    requires
        !number.contains(' '),
    ensures
        update_text(color, "Hit:"@ + number + " "@ + rest) == Some(
            "  "@ + bold_text(color, green_text(color, "✓"@)) + " "@ + dim_text(color, rest),
        ),
        update_text(color, "Get:"@ + number + " "@ + rest) == Some(
            "  "@ + bold_text(color, cyan_text(color, "↓"@)) + " "@ + rest,
        ),
        update_text(color, "Ign:"@ + number + " "@ + rest) == Some(
            "  "@ + bold_text(color, yellow_text(color, "–"@)) + " "@ + dim_text(color, rest),
        ),
        update_text(color, "Err:"@ + number + " "@ + rest) == Some(
            "  "@ + bold_text(color, red_text(color, "✗"@)) + " "@ + rest,
        ),
{
    lemma_words_apart();
    lemma_tag_shapes();
    lemma_tag("Hit"@, "Hit:"@, number, rest);
    lemma_tag("Get"@, "Get:"@, number, rest);
    lemma_tag("Ign"@, "Ign:"@, number, rest);
    lemma_tag("Err"@, "Err:"@, number, rest);
}

proof fn lemma_tag_shapes()
    ensures
        "Hit:"@ == "Hit"@ + seq![':'] && !"Hit"@.contains(' ') && !"Hit"@.contains(':'),
        "Get:"@ == "Get"@ + seq![':'] && !"Get"@.contains(' ') && !"Get"@.contains(':'),
        "Ign:"@ == "Ign"@ + seq![':'] && !"Ign"@.contains(' ') && !"Ign"@.contains(':'),
        "Err:"@ == "Err"@ + seq![':'] && !"Err"@.contains(' ') && !"Err"@.contains(':'),
{
    reveal_strlit("Hit:");
    reveal_strlit("Hit");
    reveal_strlit("Get:");
    reveal_strlit("Get");
    reveal_strlit("Ign:");
    reveal_strlit("Ign");
    reveal_strlit("Err:");
    reveal_strlit("Err");
    assert("Hit:"@ =~= "Hit"@ + seq![':']);
    assert("Get:"@ =~= "Get"@ + seq![':']);
    assert("Ign:"@ =~= "Ign"@ + seq![':']);
    assert("Err:"@ =~= "Err"@ + seq![':']);
}

/// A line that stops after the name, or after the old version, leaves the rest
/// unknown.
pub proof fn a_short_line_leaves_the_rest_unknown(
    ls: Seq<Seq<char>>,
    line: Seq<char>,
    name: Seq<char>,
)
    ensures
        words(line) == seq!["Inst"@, name] ==> simulated(ls.push(line)).install == simulated(
            ls,
        ).install.push((ChangeView { name, old: None, new: None, security: false })),
        words(line) == seq!["Remv"@, name] ==> simulated(ls.push(line)).remove == simulated(
            ls,
        ).remove.push((ChangeView { name, old: None, new: None, security: false })),
{
    assert(ls.push(line).drop_last() =~= ls);
    reveal_strlit("Inst");
    reveal_strlit("Remv");
    assert("Inst"@[0] != "Remv"@[0]);
    assert(!names_security(Seq::<Seq<char>>::empty()));
}

} // verus!
