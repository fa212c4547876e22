//! Laws of the software sources: how each form of them is read.

use vstd::prelude::*;

use crate::laws::text::{
    a_cut_gives_the_parts_back, a_text_is_held_where_it_is_put, trimming_gives_the_text_back,
};
use crate::repo::{
    after_group, all_stanza_sources, bare_stanza, collected, file_sources, line_body, line_source,
    line_sources, source_count, stanza, stanza_sources, suite_sources, type_sources, with_field,
    without_options, FileView, FoundView, SourceView, StanzaView,
};
use crate::text::{
    after_prefix, ascii_lower, cut, has_prefix, has_suffix, is_letter, is_space, join, lower_char,
    trim, words,
};

verus! {

// ---------------------------------------------------------------------------
// One line
// ---------------------------------------------------------------------------

/// A line of the words `deb address suite components…` is an enabled source; so
/// is one of the kind `deb-src`.
pub proof fn a_source_line_is_read(
    ls: Seq<Seq<char>>,
    line: Seq<char>,
    sort: Seq<char>,
    uri: Seq<char>,
    suite: Seq<char>,
    components: Seq<Seq<char>>,
)
    requires
        sort == "deb"@ || sort == "deb-src"@,
        !has_prefix(trim(line), "#"@),
        words(trim(line)) == seq![sort, uri, suite] + components,
        !has_prefix(uri, "["@),
    ensures
        line_sources(ls.push(line)) == line_sources(ls).push(
            (SourceView {
                kind: sort,
                options: ""@,
                uri,
                suite,
                components: join(components, " "@),
                enabled: true,
            }),
        ),
{
    assert(ls.push(line).drop_last() =~= ls);
    let tokens = words(trim(line));
    let given = tokens.skip(1);
    assert(given[0] == uri);
    assert(given.skip(2) =~= components);
    assert(given.take(0) =~= seq![]);
    reveal_strlit("");
    assert(join(seq![], " "@) =~= ""@);
}

/// Options in brackets before the address are kept apart from it, however many
/// words they take.
pub proof fn options_stand_before_the_address(
    ls: Seq<Seq<char>>,
    line: Seq<char>,
    sort: Seq<char>,
    first: Seq<Seq<char>>,
    last: Seq<char>,
    uri: Seq<char>,
    suite: Seq<char>,
    components: Seq<Seq<char>>,
)
    requires
        sort == "deb"@ || sort == "deb-src"@,
        !has_prefix(trim(line), "#"@),
        words(trim(line)) == seq![sort] + (first.push(last) + seq![uri, suite] + components),
        has_prefix(first.push(last)[0], "["@),
        forall|i: int| 0 <= i < first.len() ==> !has_suffix(#[trigger] first[i], "]"@),
        has_suffix(last, "]"@),
    ensures
        line_sources(ls.push(line)) == line_sources(ls).push(
            (SourceView {
                kind: sort,
                options: join(first.push(last), " "@),
                uri,
                suite,
                components: join(components, " "@),
                enabled: true,
            }),
        ),
{
    assert(ls.push(line).drop_last() =~= ls);
    let tokens = words(trim(line));
    let given = tokens.skip(1);
    let rest = seq![uri, suite] + components;
    assert(given =~= first.push(last) + seq![uri, suite] + components);
    assert(given =~= first.push(last) + rest);
    assert(given[0] == first.push(last)[0]);
    lemma_group(first, last, rest);
    assert(without_options(given) == rest);
    assert(given.take(given.len() - rest.len()) =~= first.push(last));
    assert(rest.skip(2) =~= components);
    assert(tokens[0] == sort);
}

proof fn lemma_group(first: Seq<Seq<char>>, last: Seq<char>, rest: Seq<Seq<char>>)
    requires
        forall|i: int| 0 <= i < first.len() ==> !has_suffix(#[trigger] first[i], "]"@),
        has_suffix(last, "]"@),
    ensures
        after_group(first.push(last) + rest) == rest,
    decreases first.len(),
{
    let all = first.push(last) + rest;
    if first.len() == 0 {
        assert(all[0] == last);
        assert(all.skip(1) =~= rest);
    } else {
        assert(all[0] == first[0]);
        let more = first.skip(1);
        assert(all.skip(1) =~= more.push(last) + rest);
        assert forall|i: int| 0 <= i < more.len() implies !has_suffix(
            #[trigger] more[i],
            "]"@,
        ) by {
            assert(more[i] == first[i + 1]);
        }
        lemma_group(more, last, rest);
    }
}

/// A source behind a `#` is the same source, disabled.
pub proof fn a_commented_source_is_disabled(body: Seq<char>)
    requires
        body.len() > 0,
        !is_space(body[0]),
        !is_space(body.last()),
        !has_prefix(body, "#"@),
    ensures
        line_body(body) == (true, body),
        line_body("#"@ + body) == (false, body),
        line_body("# "@ + body) == (false, body),
        line_source(body) is Some <==> line_source("#"@ + body) is Some,
        line_source(body) is Some ==> line_source(body)->0.enabled && line_source(
            "#"@ + body,
        ) == Some(SourceView { enabled: false, ..line_source(body)->0 }),
{
    reveal_strlit("#");
    reveal_strlit("# ");
    let e = Seq::<char>::empty();
    let (a, b) = ("#"@ + body, "# "@ + body);
    assert(a[0] == '#' && b[0] == '#' && a.last() == body.last() && b.last() == body.last());
    assert(!is_space('#'));
    assert(is_space(' '));
    trimming_gives_the_text_back(e, body, e);
    assert(e + body + e =~= body);
    trimming_gives_the_text_back(e, a, e);
    assert(e + a + e =~= a);
    trimming_gives_the_text_back(e, b, e);
    assert(e + b + e =~= b);
    a_text_is_held_where_it_is_put(e, "#"@, body);
    a_text_is_held_where_it_is_put(e, "#"@, seq![' '] + body);
    assert(b =~= "#"@ + (seq![' '] + body));
    trimming_gives_the_text_back(seq![' '], body, e);
    assert(seq![' '] + body + e =~= seq![' '] + body);
}

/// Any other line names no source.
pub proof fn other_lines_name_no_source(ls: Seq<Seq<char>>, line: Seq<char>)
    requires
        words(line_body(line).1).len() == 0 || (words(line_body(line).1)[0] != "deb"@ && words(
            line_body(line).1,
        )[0] != "deb-src"@),
    ensures
        line_sources(ls.push(line)) == line_sources(ls),
        line_sources(seq![]).len() == 0,
{
    assert(ls.push(line).drop_last() =~= ls);
}

// ---------------------------------------------------------------------------
// Stanzas
// ---------------------------------------------------------------------------

/// A line `Field: value` sets the field of a stanza, in any letter case.
pub proof fn a_field_is_set_in_any_case(st: StanzaView, key: Seq<char>, value: Seq<char>)
    requires
        !key.contains(':'),
        key.len() > 0,
        !is_space(key[0]),
        !is_space(key.last()),
        value.len() > 0,
        !is_space(value[0]),
        !is_space(value.last()),
    ensures
        ({
            let t = with_field(st, key + seq![':'] + (seq![' '] + value));
            let name = ascii_lower(key);
            &&& name == "types"@ ==> t == (StanzaView { types: words(value), ..st })
            &&& name == "uris"@ ==> t == (StanzaView { uris: words(value), ..st })
            &&& name == "suites"@ ==> t == (StanzaView { suites: words(value), ..st })
            &&& name == "components"@ ==> t == (StanzaView { components: value, ..st })
            &&& name == "enabled"@ ==> t == (StanzaView {
                enabled: !(ascii_lower(value) == "no"@ || ascii_lower(value) == "false"@),
                ..st
            })
            &&& name != "types"@ && name != "uris"@ && name != "suites"@ && name != "components"@
                && name != "enabled"@ ==> t == st
        }),
{
    reveal_strlit(":");
    assert(":"@ =~= seq![':']);
    let e = Seq::<char>::empty();
    a_cut_gives_the_parts_back(key, ':', seq![' '] + value);
    trimming_gives_the_text_back(e, key, e);
    assert(e + key + e =~= key);
    assert(is_space(' '));
    trimming_gives_the_text_back(seq![' '], value, e);
    assert(seq![' '] + value + e =~= seq![' '] + value);
    reveal_strlit("types");
    reveal_strlit("uris");
    reveal_strlit("suites");
    reveal_strlit("components");
    reveal_strlit("enabled");
    assert("types"@.len() == 5 && "uris"@.len() == 4 && "suites"@.len() == 6 && "components"@.len()
        == 10 && "enabled"@.len() == 7);
}

/// A stanza is enabled unless it says otherwise, and each of its types is a source
/// for each of its suites, at its first address.
pub proof fn a_stanza_is_every_type_for_every_suite(st: StanzaView, i: int, j: int)
    requires
        0 <= i < st.types.len(),
        0 <= j < st.suites.len(),
        st.uris.len() > 0,
    ensures
        bare_stanza().enabled,
        stanza_sources(st).len() == st.types.len() * st.suites.len(),
        stanza_sources(st).contains(
            (SourceView {
                kind: st.types[i],
                options: ""@,
                uri: st.uris[0],
                suite: st.suites[j],
                components: st.components,
                enabled: st.enabled,
            }),
        ),
{
    lemma_types(st, st.types, i, j);
}

proof fn lemma_types(st: StanzaView, types: Seq<Seq<char>>, i: int, j: int)
    requires
        0 <= i < types.len(),
        0 <= j < st.suites.len(),
    ensures
        type_sources(st, types).len() == types.len() * st.suites.len(),
        type_sources(st, types).contains(
            (SourceView {
                kind: types[i],
                options: ""@,
                uri: st.uris[0],
                suite: st.suites[j],
                components: st.components,
                enabled: st.enabled,
            }),
        ),
    decreases types.len(),
{
    let x = SourceView {
        kind: types[i],
        options: ""@,
        uri: st.uris[0],
        suite: st.suites[j],
        components: st.components,
        enabled: st.enabled,
    };
    let before = types.drop_last();
    let (u, v) = (type_sources(st, before), suite_sources(st, types.last()));
    let all = type_sources(st, types);
    let n = st.suites.len();
    assert(v.len() == n);
    assert((before.len() + 1) * n == before.len() * n + n) by (nonlinear_arith);
    if before.len() > 0 {
        lemma_types(st, before, 0, j);
    } else {
        assert(u.len() == 0);
        assert(0 * n == 0);
    }
    if i == types.len() - 1 {
        assert(v[j] == x);
        assert(all[u.len() + j] == x);
    } else {
        lemma_types(st, before, i, j);
        assert(before[i] == types[i]);
        let k = choose|k: int| 0 <= k < u.len() && u[k] == x;
        assert(all[k] == x);
    }
}

/// A stanza without types, addresses or suites names no source.
pub proof fn an_incomplete_stanza_names_no_source(st: StanzaView)
    requires
        st.types.len() == 0 || st.uris.len() == 0 || st.suites.len() == 0,
    ensures
        stanza_sources(st).len() == 0,
{
}

/// Only files that end in `.list` or `.sources` hold sources, the first one to a
/// line, and a file without any is left out.
pub proof fn only_two_sorts_of_files_hold_sources(v: Seq<FoundView>, f: FoundView)
    ensures
        f.extension != "list"@ && f.extension != "sources"@ ==> collected(v.push(f)) == collected(
            v,
        ),
        f.extension == "list"@ && line_sources(crate::text::lines(f.text)).len() > 0 ==> collected(
            v.push(f),
        ) == collected(v).push(
            (FileView { path: f.path, sources: line_sources(crate::text::lines(f.text)) }),
        ),
        f.extension == "list"@ && line_sources(crate::text::lines(f.text)).len() == 0 ==> collected(
            v.push(f),
        ) == collected(v),
{
    assert(v.push(f).drop_last() =~= v);
    reveal_strlit("list");
    reveal_strlit("sources");
    assert("list"@.len() == 4 && "sources"@.len() == 7);
}

/// The sources are counted over all files.
pub proof fn sources_are_counted_over_all_files(v: Seq<FileView>, f: FileView)
    ensures
        source_count(seq![]) == 0,
        source_count(v.push(f)) == source_count(v) + f.sources.len(),
{
    assert(v.push(f).drop_last() =~= v);
}

/// A line with the kind and an address alone names no source.
pub proof fn a_line_without_a_suite_names_no_source(
    ls: Seq<Seq<char>>,
    line: Seq<char>,
    sort: Seq<char>,
    uri: Seq<char>,
)
    requires
        words(line_body(line).1) == seq![sort, uri] || words(line_body(line).1) == seq![sort],
        !has_prefix(uri, "["@),
    ensures
        line_sources(ls.push(line)) == line_sources(ls),
{
    assert(ls.push(line).drop_last() =~= ls);
    let t = words(line_body(line).1);
    let given = t.skip(1);
    if t.len() == 2 {
        assert(given[0] == uri);
    }
    assert(given.len() <= 1);
}

/// The fields of a stanza are read line by line, and the stanzas of a file one
/// after the other.
pub proof fn stanzas_are_read_one_after_the_other(
    ls: Seq<Seq<char>>,
    line: Seq<char>,
    v: Seq<Seq<char>>,
    s: Seq<char>,
    text: Seq<char>,
)
    ensures
        stanza(ls.push(line)) == with_field(stanza(ls), line),
        stanza(seq![]) == bare_stanza(),
        all_stanza_sources(seq![]).len() == 0,
        all_stanza_sources(v.push(s)) == all_stanza_sources(v) + stanza_sources(
            stanza(crate::text::lines(s)),
        ),
        file_sources("sources"@, text) == Some(
            all_stanza_sources(crate::text::split_by(text, "\n\n"@)),
        ),
        file_sources("list"@, text) == Some(line_sources(crate::text::lines(text))),
{
    assert(ls.push(line).drop_last() =~= ls);
    assert(v.push(s).drop_last() =~= v);
    reveal_strlit("list");
    reveal_strlit("sources");
    assert("list"@.len() == 4 && "sources"@.len() == 7);
}

/// A bare stanza names nothing yet.
pub proof fn a_bare_stanza_names_nothing()
    ensures
        bare_stanza().types.len() == 0,
        bare_stanza().uris.len() == 0,
        bare_stanza().suites.len() == 0,
        bare_stanza().components.len() == 0,
        bare_stanza().enabled,
{
}

} // verus!
