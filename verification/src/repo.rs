//! `wrapt repo`: lists, adds and removes apt software sources and PPAs. Both the
//! classic one-line format and the newer deb822 stanzas are read.

use vstd::prelude::*;

use crate::cli::RepoCmd;
use crate::number::{decimal, decimal_usize};
use crate::text::{
    after_prefix, ascii_lower, ascii_lower_of, cat2, cat3, cat6, chars_of, cut, cut_at, ends,
    has_prefix, has_suffix, join, join_pieces, lines, lines_of, opt_text, pieces, reads, same_str,
    skip, split_at_text, split_by, starts, string_of, strings_of, strip, texts, trim, trim_of,
    words, words_of,
};
use crate::ui::{
    bold, bold_text, complain, cyan, cyan_text, dim_text, dimmed, green, green_text, header_line,
    header_text, line_views, no_lines, say, success_line, success_text, warn_line, warn_text, Line,
    LineView,
};

verus! {

// ---------------------------------------------------------------------------
// Sources
// ---------------------------------------------------------------------------

/// One configured source line, however it was written.
#[derive(Debug)]
pub struct Source {
    /// `deb` or `deb-src`.
    pub kind: String,
    /// The group of options of a one-line source, with its brackets (may be
    /// empty).
    pub options: String,
    pub uri: String,
    pub suite: String,
    /// The components, separated by spaces (may be empty).
    pub components: String,
    pub enabled: bool,
}

pub struct SourceView {
    pub kind: Seq<char>,
    pub options: Seq<char>,
    pub uri: Seq<char>,
    pub suite: Seq<char>,
    pub components: Seq<char>,
    pub enabled: bool,
}

impl View for Source {
    type V = SourceView;

    open spec fn view(&self) -> SourceView {
        SourceView {
            kind: self.kind@,
            options: self.options@,
            uri: self.uri@,
            suite: self.suite@,
            components: self.components@,
            enabled: self.enabled,
        }
    }
}

/// The sources as values.
pub open spec fn sources(v: Seq<Source>) -> Seq<SourceView> {
    v.map_values(|s: Source| s@)
}

pub broadcast proof fn lemma_sources_push(v: Seq<Source>, s: Source)
    ensures
        #[trigger] sources(v.push(s)) == sources(v).push(s@),
{
    assert(sources(v.push(s)) =~= sources(v).push(s@));
}

// ---------------------------------------------------------------------------
// One-line sources
// ---------------------------------------------------------------------------

/// Whether a line is in force, and what it says: a leading `#` disables it.
pub open spec fn line_body(raw: Seq<char>) -> (bool, Seq<char>) {
    match after_prefix(trim(raw), "#"@) {
        Some(rest) => (false, trim(rest)),
        None => (true, trim(raw)),
    }
}

/// The words behind the one that closes a group of options.
pub open spec fn after_group(tokens: Seq<Seq<char>>) -> Seq<Seq<char>>
    decreases tokens.len(),
{
    if tokens.len() == 0 {
        tokens
    } else if has_suffix(tokens[0], "]"@) {
        tokens.skip(1)
    } else {
        after_group(tokens.skip(1))
    }
}

/// The words without a group of options at their start.
pub open spec fn without_options(tokens: Seq<Seq<char>>) -> Seq<Seq<char>> {
    if tokens.len() > 0 && has_prefix(tokens[0], "["@) {
        after_group(tokens)
    } else {
        tokens
    }
}

/// The source of a line `deb [options] uri suite components`, which may be
/// disabled.
pub open spec fn line_source(raw: Seq<char>) -> Option<SourceView> {
    let (enabled, body) = line_body(raw);
    let tokens = words(body);
    if tokens.len() == 0 || (tokens[0] != "deb"@ && tokens[0] != "deb-src"@) {
        None
    } else {
        let given = tokens.skip(1);
        let rest = without_options(given);
        if rest.len() < 2 {
            None
        } else {
            Some(
                SourceView {
                    kind: tokens[0],
                    options: join(given.take(given.len() - rest.len()), " "@),
                    uri: rest[0],
                    suite: rest[1],
                    components: join(rest.skip(2), " "@),
                    enabled,
                },
            )
        }
    }
}

/// The sources of the lines that tell of one.
pub open spec fn line_sources(ls: Seq<Seq<char>>) -> Seq<SourceView>
    decreases ls.len(),
{
    if ls.len() == 0 {
        seq![]
    } else {
        let before = line_sources(ls.drop_last());
        match line_source(ls.last()) {
            Some(s) => before.push(s),
            None => before,
        }
    }
}

/// Where the words behind a group of options begin.
fn group_end(tokens: &Vec<&[char]>, from: usize) -> (r: usize)
    requires
        from <= tokens@.len(),
    ensures
        from <= r <= tokens@.len(),
        pieces(tokens@).skip(r as int) == without_options(pieces(tokens@).skip(from as int)),
{
    let ghost all = pieces(tokens@);
    if from == tokens.len() {
        return from;
    }
    assert(all.skip(from as int)[0] == tokens@[from as int]@);
    if !starts(tokens[from], "[") {
        return from;
    }
    let mut i: usize = from;
    while i < tokens.len()
        invariant
            all == pieces(tokens@),
            from <= i <= tokens@.len(),
            after_group(all.skip(from as int)) == after_group(all.skip(i as int)),
            without_options(all.skip(from as int)) == after_group(all.skip(from as int)),
        decreases tokens@.len() - i,
    {
        assert(all.skip(i as int)[0] == tokens@[i as int]@);
        assert(all.skip(i as int).skip(1) =~= all.skip(i + 1));
        if ends(tokens[i], "]") {
            return i + 1;
        }
        i += 1;
    }
    i
}

fn joined(tokens: &Vec<&[char]>, from: usize, to: usize) -> (r: String)
    requires
        from <= to <= tokens@.len(),
    ensures
        r@ == join(pieces(tokens@).subrange(from as int, to as int), " "@),
{
    let ghost all = pieces(tokens@);
    let mut rest: Vec<&[char]> = Vec::new();
    let mut i: usize = from;
    while i < to
        invariant
            all == pieces(tokens@),
            from <= i <= to <= tokens@.len(),
            rest@.len() == i - from,
            forall|k: int| 0 <= k < rest@.len() ==> (#[trigger] rest@[k])@ == all[k + from],
        decreases to - i,
    {
        assert(all[i as int] == tokens@[i as int]@);
        rest.push(tokens[i]);
        i += 1;
    }
    assert(pieces(rest@) =~= all.subrange(from as int, to as int));
    join_pieces(&rest, " ")
}

fn read_source(raw: &[char]) -> (r: Option<Source>)
    ensures
        match r {
            Some(s) => line_source(raw@) == Some(s@),
            None => line_source(raw@) is None,
        },
{
    let line = trim_of(raw);
    let (enabled, body) = match strip(line, "#") {
        Some(rest) => (false, trim_of(rest)),
        None => (true, line),
    };
    let tokens = words_of(body);
    let ghost ts = pieces(tokens@);
    assert(forall|k: int| 0 <= k < ts.len() ==> #[trigger] ts[k] == tokens@[k]@);
    if tokens.len() == 0 {
        return None;
    }
    if !reads(tokens[0], "deb") && !reads(tokens[0], "deb-src") {
        return None;
    }
    let at: usize = group_end(&tokens, 1);
    let ghost rest = ts.skip(at as int);
    if tokens.len() - at < 2 {
        return None;
    }
    assert(rest[0] == ts[at as int] && rest[1] == ts[at + 1]);
    assert(rest.skip(2) =~= ts.subrange(at + 2, ts.len() as int));
    assert(ts.skip(1).take(at - 1) =~= ts.subrange(1, at as int));
    Some(
        Source {
            kind: string_of(tokens[0]),
            options: joined(&tokens, 1, at),
            uri: string_of(tokens[at]),
            suite: string_of(tokens[at + 1]),
            components: joined(&tokens, at + 2, tokens.len()),
            enabled,
        },
    )
}

/// The classic one-line `deb` and `deb-src` entries of a text; commented ones
/// are disabled.
pub fn parse_one_line(text: &str) -> (v: Vec<Source>)
    ensures
        sources(v@) == line_sources(lines(text@)),
{
    let chars = chars_of(text);
    let ls = lines_of(chars.as_slice());
    let ghost all = pieces(ls@);
    let mut v: Vec<Source> = Vec::new();
    let mut i: usize = 0;
    assert(all.take(0) =~= seq![]);
    assert(sources(v@) =~= seq![]);
    while i < ls.len()
        invariant
            all == pieces(ls@),
            i <= ls@.len(),
            sources(v@) == line_sources(all.take(i as int)),
        decreases ls@.len() - i,
    {
        broadcast use lemma_sources_push;

        assert(all.take(i + 1).drop_last() =~= all.take(i as int));
        assert(all.take(i + 1).last() == ls@[i as int]@);
        if let Some(s) = read_source(ls[i]) {
            v.push(s);
        }
        i += 1;
    }
    assert(all.take(all.len() as int) =~= all);
    v
}

// ---------------------------------------------------------------------------
// deb822 sources
// ---------------------------------------------------------------------------

/// The fields of a deb822 stanza.
pub struct StanzaView {
    pub types: Seq<Seq<char>>,
    pub uris: Seq<Seq<char>>,
    pub suites: Seq<Seq<char>>,
    pub components: Seq<char>,
    pub enabled: bool,
}

/// A stanza without fields.
pub open spec fn bare_stanza() -> StanzaView {
    StanzaView {
        types: seq![],
        uris: seq![],
        suites: seq![],
        components: seq![],
        enabled: true,
    }
}

/// The stanza with one more field; a field that comes twice counts as it comes
/// last.
pub open spec fn with_field(st: StanzaView, line: Seq<char>) -> StanzaView {
    match cut(line, ":"@) {
        Some((key, rest)) => {
            let name = ascii_lower(trim(key));
            let value = trim(rest);
            if name == "types"@ {
                StanzaView { types: words(value), ..st }
            } else if name == "uris"@ {
                StanzaView { uris: words(value), ..st }
            } else if name == "suites"@ {
                StanzaView { suites: words(value), ..st }
            } else if name == "components"@ {
                StanzaView { components: value, ..st }
            } else if name == "enabled"@ {
                StanzaView {
                    enabled: ascii_lower(value) != "no"@ && ascii_lower(value) != "false"@,
                    ..st
                }
            } else {
                st
            }
        },
        None => st,
    }
}

/// The stanza that the lines write.
pub open spec fn stanza(ls: Seq<Seq<char>>) -> StanzaView
    decreases ls.len(),
{
    if ls.len() == 0 {
        bare_stanza()
    } else {
        with_field(stanza(ls.drop_last()), ls.last())
    }
}

/// The sources of one type: one for each suite, with the first of the URIs.
pub open spec fn suite_sources(st: StanzaView, kind: Seq<char>) -> Seq<SourceView> {
    st.suites.map_values(
        |suite: Seq<char>|
            SourceView {
                kind,
                options: ""@,
                uri: st.uris[0],
                suite,
                components: st.components,
                enabled: st.enabled,
            },
    )
}

/// The sources of the types: one for each of them and each suite.
pub open spec fn type_sources(st: StanzaView, types: Seq<Seq<char>>) -> Seq<SourceView>
    decreases types.len(),
{
    if types.len() == 0 {
        seq![]
    } else {
        type_sources(st, types.drop_last()) + suite_sources(st, types.last())
    }
}

/// The sources of a stanza; none where types, URIs or suites are missing.
pub open spec fn stanza_sources(st: StanzaView) -> Seq<SourceView> {
    if st.types.len() == 0 || st.uris.len() == 0 || st.suites.len() == 0 {
        seq![]
    } else {
        type_sources(st, st.types)
    }
}

/// The sources of several stanzas.
pub open spec fn all_stanza_sources(stanzas: Seq<Seq<char>>) -> Seq<SourceView>
    decreases stanzas.len(),
{
    if stanzas.len() == 0 {
        seq![]
    } else {
        all_stanza_sources(stanzas.drop_last()) + stanza_sources(stanza(lines(stanzas.last())))
    }
}

struct Stanza {
    types: Vec<String>,
    uris: Vec<String>,
    suites: Vec<String>,
    components: String,
    enabled: bool,
}

impl View for Stanza {
    type V = StanzaView;

    closed spec fn view(&self) -> StanzaView {
        StanzaView {
            types: texts(self.types@),
            uris: texts(self.uris@),
            suites: texts(self.suites@),
            components: self.components@,
            enabled: self.enabled,
        }
    }
}

fn word_strings(s: &[char]) -> (r: Vec<String>)
    ensures
        texts(r@) == words(s@),
{
    let ws = words_of(s);
    strings_of(&ws)
}

fn read_stanza(ls: &Vec<&[char]>) -> (st: Stanza)
    ensures
        st@ == stanza(pieces(ls@)),
{
    let ghost all = pieces(ls@);
    let mut types: Vec<String> = Vec::new();
    let mut uris: Vec<String> = Vec::new();
    let mut suites: Vec<String> = Vec::new();
    let mut components = String::new();
    let mut enabled = true;
    let mut i: usize = 0;
    assert(all.take(0) =~= seq![]);
    assert(texts(types@) =~= seq![]);
    assert(components@ =~= seq![]);
    while i < ls.len()
        invariant
            all == pieces(ls@),
            i <= ls@.len(),
            ({
                let st = stanza(all.take(i as int));
                &&& st.types == texts(types@)
                &&& st.uris == texts(uris@)
                &&& st.suites == texts(suites@)
                &&& st.components == components@
                &&& st.enabled == enabled
            }),
        decreases ls@.len() - i,
    {
        assert(all.take(i + 1).drop_last() =~= all.take(i as int));
        assert(all.take(i + 1).last() == ls@[i as int]@);
        if let Some((key, rest)) = cut_at(ls[i], ":") {
            let name = ascii_lower_of(trim_of(key));
            let name = name.as_str();
            let value = trim_of(rest);
            if same_str(name, "types") {
                types = word_strings(value);
            } else if same_str(name, "uris") {
                uris = word_strings(value);
            } else if same_str(name, "suites") {
                suites = word_strings(value);
            } else if same_str(name, "components") {
                components = string_of(value);
            } else if same_str(name, "enabled") {
                let v = ascii_lower_of(value);
                enabled = !same_str(v.as_str(), "no") && !same_str(v.as_str(), "false");
            }
        }
        i += 1;
    }
    assert(all.take(all.len() as int) =~= all);
    Stanza { types, uris, suites, components, enabled }
}

fn add_stanza(v: &mut Vec<Source>, st: &Stanza)
    ensures
        sources(final(v)@) == sources(old(v)@) + stanza_sources(st@),
{
    let ghost before = sources(v@);
    assert(texts(st.types@).len() == st.types@.len());
    assert(texts(st.uris@).len() == st.uris@.len());
    assert(texts(st.suites@).len() == st.suites@.len());
    if st.types.len() == 0 || st.uris.len() == 0 || st.suites.len() == 0 {
        assert(before + seq![] =~= before);
        return;
    }
    let ghost types = texts(st.types@);
    let ghost suites = texts(st.suites@);
    assert(st@.uris[0] == st.uris@[0]@);
    let mut i: usize = 0;
    assert(types.take(0) =~= seq![]);
    assert(before + type_sources(st@, types.take(0)) =~= before);
    while i < st.types.len()
        invariant
            types == texts(st.types@),
            suites == texts(st.suites@),
            st.uris@.len() > 0,
            st@.uris[0] == st.uris@[0]@,
            i <= st.types@.len(),
            sources(v@) == before + type_sources(st@, types.take(i as int)),
        decreases st.types@.len() - i,
    {
        assert(types.take(i + 1).drop_last() =~= types.take(i as int));
        let ghost kind = types[i as int];
        assert(types.take(i + 1).last() == kind);
        let ghost start = sources(v@);
        let ghost row = suite_sources(st@, kind);
        let mut j: usize = 0;
        assert(start + row.take(0) =~= start);
        while j < st.suites.len()
            invariant
                types == texts(st.types@),
                suites == texts(st.suites@),
                i < st.types@.len(),
                kind == types[i as int],
                row == suite_sources(st@, kind),
                st.uris@.len() > 0,
                st@.uris[0] == st.uris@[0]@,
                j <= st.suites@.len(),
                sources(v@) == start + row.take(j as int),
            decreases st.suites@.len() - j,
        {
            broadcast use lemma_sources_push;

            let s = Source {
                kind: st.types[i].clone(),
                options: "".to_owned(),
                uri: st.uris[0].clone(),
                suite: st.suites[j].clone(),
                components: st.components.clone(),
                enabled: st.enabled,
            };
            assert(row[j as int] == s@);
            v.push(s);
            assert(sources(v@) =~= start + row.take(j + 1));
            j += 1;
        }
        assert(row.take(row.len() as int) =~= row);
        assert(sources(v@) =~= before + type_sources(st@, types.take(i + 1)));
        i += 1;
    }
    assert(types.take(types.len() as int) =~= types);
}

/// The sources of deb822 stanzas: one for each type and suite.
pub fn parse_deb822(text: &str) -> (v: Vec<Source>)
    ensures
        sources(v@) == all_stanza_sources(split_by(text@, "\n\n"@)),
{
    proof {
        reveal_strlit("\n\n");
    }
    let chars = chars_of(text);
    let parts = split_at_text(chars.as_slice(), "\n\n");
    let ghost all = pieces(parts@);
    let mut v: Vec<Source> = Vec::new();
    let mut i: usize = 0;
    assert(all.take(0) =~= seq![]);
    assert(sources(v@) =~= seq![]);
    while i < parts.len()
        invariant
            all == pieces(parts@),
            i <= parts@.len(),
            sources(v@) == all_stanza_sources(all.take(i as int)),
        decreases parts@.len() - i,
    {
        assert(all.take(i + 1).drop_last() =~= all.take(i as int));
        assert(all.take(i + 1).last() == parts@[i as int]@);
        let ls = lines_of(parts[i]);
        let st = read_stanza(&ls);
        add_stanza(&mut v, &st);
        i += 1;
    }
    assert(all.take(all.len() as int) =~= all);
    v
}

/// The sources of a file, by the extension of its name; other files are no
/// sources files.
pub open spec fn file_sources(extension: Seq<char>, text: Seq<char>) -> Option<Seq<SourceView>> {
    if extension == "sources"@ {
        Some(all_stanza_sources(split_by(text, "\n\n"@)))
    } else if extension == "list"@ {
        Some(line_sources(lines(text)))
    } else {
        None
    }
}

/// The sources of a file in the sources directory, by the extension of its name.
pub fn parse_file(extension: &str, text: &str) -> (v: Option<Vec<Source>>)
    ensures
        match v {
            Some(s) => file_sources(extension@, text@) == Some(sources(s@)),
            None => file_sources(extension@, text@) is None,
        },
{
    if same_str(extension, "sources") {
        Some(parse_deb822(text))
    } else if same_str(extension, "list") {
        Some(parse_one_line(text))
    } else {
        None
    }
}

// ---------------------------------------------------------------------------
// Listing
// ---------------------------------------------------------------------------

/// A file with its sources.
pub struct SourceFile {
    pub path: String,
    pub sources: Vec<Source>,
}

pub struct FileView {
    pub path: Seq<char>,
    pub sources: Seq<SourceView>,
}

impl View for SourceFile {
    type V = FileView;

    open spec fn view(&self) -> FileView {
        FileView { path: self.path@, sources: sources(self.sources@) }
    }
}

pub open spec fn files(v: Seq<SourceFile>) -> Seq<FileView> {
    v.map_values(|f: SourceFile| f@)
}

/// A file that was found where sources are configured.
pub struct FoundFile {
    pub path: String,
    /// What follows the last dot in its name.
    pub extension: String,
    pub text: String,
}

pub struct FoundView {
    pub path: Seq<char>,
    pub extension: Seq<char>,
    pub text: Seq<char>,
}

impl View for FoundFile {
    type V = FoundView;

    open spec fn view(&self) -> FoundView {
        FoundView { path: self.path@, extension: self.extension@, text: self.text@ }
    }
}

/// The files that were found, as values.
pub open spec fn found_files(v: Seq<FoundFile>) -> Seq<FoundView> {
    v.map_values(|f: FoundFile| f@)
}

/// The files that have any sources, in the order in which they were found.
pub open spec fn collected(v: Seq<FoundView>) -> Seq<FileView>
    decreases v.len(),
{
    if v.len() == 0 {
        seq![]
    } else {
        let before = collected(v.drop_last());
        match file_sources(v.last().extension, v.last().text) {
            Some(s) => if s.len() > 0 {
                before.push(FileView { path: v.last().path, sources: s })
            } else {
                before
            },
            None => before,
        }
    }
}

/// The sources in the files that were found, for each file that has any.
pub fn collect_sources(found: &Vec<FoundFile>) -> (v: Vec<SourceFile>)
    ensures
        files(v@) == collected(found_files(found@)),
{
    let ghost all = found_files(found@);
    let mut v: Vec<SourceFile> = Vec::new();
    let mut i: usize = 0;
    assert(all.take(0) =~= seq![]);
    assert(files(v@) =~= seq![]);
    while i < found.len()
        invariant
            all == found_files(found@),
            i <= found@.len(),
            files(v@) == collected(all.take(i as int)),
        decreases found@.len() - i,
    {
        assert(all.take(i + 1).drop_last() =~= all.take(i as int));
        assert(all.take(i + 1).last() == found@[i as int]@);
        let f = &found[i];
        if let Some(s) = parse_file(f.extension.as_str(), f.text.as_str()) {
            assert(sources(s@).len() == s@.len());
            if s.len() > 0 {
                let ghost before = v@;
                let file = SourceFile { path: f.path.clone(), sources: s };
                v.push(file);
                assert(files(v@) =~= files(before).push(file@));
            }
        }
        i += 1;
    }
    assert(all.take(all.len() as int) =~= all);
    v
}

/// How many sources there are.
pub open spec fn source_count(v: Seq<FileView>) -> nat
    decreases v.len(),
{
    if v.len() == 0 {
        0
    } else {
        source_count(v.drop_last()) + v.last().sources.len()
    }
}

/// A source as it is listed.
pub open spec fn source_text(color: bool, s: SourceView) -> Seq<char> {
    "     "@ + dim_text(color, s.kind) + " "@ + cyan_text(color, s.uri) + " "@ + green_text(
        color,
        s.suite,
    ) + (if s.components.len() == 0 {
        ""@
    } else {
        " "@ + dim_text(color, s.components)
    }) + (if s.enabled {
        ""@
    } else {
        " "@ + dim_text(color, "(disabled)"@)
    })
}

/// The sources as they are listed, below the given lines.
pub open spec fn source_lines(
    above: Seq<LineView>,
    color: bool,
    v: Seq<SourceView>,
) -> Seq<LineView>
    decreases v.len(),
{
    if v.len() == 0 {
        above
    } else {
        source_lines(above, color, v.drop_last()).push(
            LineView::Out(source_text(color, v.last())),
        )
    }
}

/// The files with their sources, below the given lines.
pub open spec fn file_lines(above: Seq<LineView>, color: bool, v: Seq<FileView>) -> Seq<LineView>
    decreases v.len(),
{
    if v.len() == 0 {
        above
    } else {
        source_lines(
            file_lines(above, color, v.drop_last()).push(LineView::Out(""@)).push(
                LineView::Out("   "@ + bold_text(color, v.last().path)),
            ),
            color,
            v.last().sources,
        )
    }
}

/// The list of sources.
pub open spec fn list_lines(color: bool, root: Seq<char>, v: Seq<FileView>) -> Seq<LineView> {
    let none: Seq<LineView> = seq![];
    if v.len() == 0 {
        none.push(
            LineView::Error(
                warn_text(color, "No software sources found under "@ + root + "."@),
            ),
        )
    } else {
        file_lines(
            none.push(
                LineView::Out(
                    header_text(color, "Software sources ("@ + decimal(source_count(v)) + ")"@),
                ),
            ),
            color,
            v,
        )
    }
}

fn source_row(color: bool, s: &Source) -> (r: String)
    ensures
        r@ == source_text(color, s@),
{
    let components = if chars_of(s.components.as_str()).len() == 0 {
        "".to_owned()
    } else {
        cat2(" ", dimmed(color, s.components.as_str()).as_str())
    };
    let disabled = if s.enabled {
        "".to_owned()
    } else {
        cat2(" ", dimmed(color, "(disabled)").as_str())
    };
    let row = cat6(
        "     ",
        dimmed(color, s.kind.as_str()).as_str(),
        " ",
        cyan(color, s.uri.as_str()).as_str(),
        " ",
        green(color, s.suite.as_str()).as_str(),
    );
    cat3(row.as_str(), components.as_str(), disabled.as_str())
}

/// How many sources there are, where they can be counted.
pub fn count_sources(v: &Vec<SourceFile>) -> (r: Option<usize>)
    ensures
        match r {
            Some(n) => n == source_count(files(v@)),
            None => source_count(files(v@)) > usize::MAX,
        },
{
    let ghost all = files(v@);
    let mut total: usize = 0;
    let mut i: usize = 0;
    while i < v.len()
        invariant
            all == files(v@),
            i <= v@.len(),
            total == source_count(all.take(i as int)),
        decreases v@.len() - i,
    {
        assert(all.take(i + 1).drop_last() =~= all.take(i as int));
        assert(all.take(i + 1).last() == v@[i as int]@);
        match total.checked_add(v[i].sources.len()) {
            Some(n) => {
                total = n;
            },
            None => {
                proof {
                    lemma_count_grows(all, i + 1);
                }
                return None;
            },
        }
        i += 1;
    }
    assert(all.take(all.len() as int) =~= all);
    Some(total)
}

proof fn lemma_count_grows(v: Seq<FileView>, k: int)
    requires
        0 <= k <= v.len(),
    ensures
        source_count(v.take(k)) <= source_count(v),
    decreases v.len() - k,
{
    if k < v.len() {
        lemma_count_grows(v, k + 1);
        assert(v.take(k + 1).drop_last() =~= v.take(k));
    } else {
        assert(v.take(k) =~= v);
    }
}

/// The list of the sources in the files found under `root`.
pub fn list(color: bool, root: &str, v: &Vec<SourceFile>) -> (out: Vec<Line>)
    requires
        source_count(files(v@)) <= usize::MAX,
    ensures
        line_views(out@) == list_lines(color, root@, files(v@)),
{
    let ghost all = files(v@);
    let mut out = no_lines();
    if v.len() == 0 {
        let text = cat3("No software sources found under ", root, ".");
        complain(&mut out, warn_line(color, text.as_str()));
        return out;
    }
    let total: usize = match count_sources(v) {
        Some(n) => n,
        None => 0,
    };
    let title = cat3("Software sources (", decimal_usize(total).as_str(), ")");
    say(&mut out, header_line(color, title.as_str()));
    let ghost above = line_views(out@);
    let mut i: usize = 0;
    assert(all.take(0) =~= seq![]);
    while i < v.len()
        invariant
            all == files(v@),
            i <= v@.len(),
            line_views(out@) == file_lines(above, color, all.take(i as int)),
        decreases v@.len() - i,
    {
        assert(all.take(i + 1).drop_last() =~= all.take(i as int));
        assert(all.take(i + 1).last() == v@[i as int]@);
        let f = &v[i];
        say(&mut out, "".to_owned());
        say(&mut out, cat2("   ", bold(color, f.path.as_str()).as_str()));
        let ghost start = line_views(out@);
        let ghost ss = sources(f.sources@);
        let mut j: usize = 0;
        assert(ss.take(0) =~= seq![]);
        while j < f.sources.len()
            invariant
                ss == sources(f.sources@),
                j <= f.sources@.len(),
                line_views(out@) == source_lines(start, color, ss.take(j as int)),
            decreases f.sources@.len() - j,
        {
            assert(ss.take(j + 1).drop_last() =~= ss.take(j as int));
            assert(ss.take(j + 1).last() == f.sources@[j as int]@);
            say(&mut out, source_row(color, &f.sources[j]));
            j += 1;
        }
        assert(ss.take(ss.len() as int) =~= ss);
        i += 1;
    }
    assert(all.take(all.len() as int) =~= all);
    out
}

// ---------------------------------------------------------------------------
// Adding and removing
// ---------------------------------------------------------------------------

/// What is to be done.
pub enum Todo {
    /// List the sources.
    List,
    /// Put the question, if there is one; on a yes say what is done and run
    /// `add-apt-repository` with the arguments.
    Modify { question: Option<String>, header: String, args: Vec<String>, repo: String, remove: bool },
}

/// What has to be done for a request to `wrapt repo`. Adding and removing need
/// no question where yes was said in advance.
pub fn run(color: bool, action: &RepoCmd) -> (r: Todo)
    ensures
        match (action, r) {
            (RepoCmd::List, Todo::List) => true,
            (RepoCmd::Add { repo, yes }, Todo::Modify { question, header, args, repo: who, remove }) => {
                &&& !remove
                &&& who@ == repo@
                &&& opt_text(question) == if *yes {
                    None
                } else {
                    Some("Add source '"@ + repo@ + "'?"@)
                }
                &&& header@ == header_text(color, "Adding "@ + repo@ + "..."@)
                &&& texts(args@) == seq!["-y"@, repo@]
            },
            (
                RepoCmd::Remove { repo, yes },
                Todo::Modify { question, header, args, repo: who, remove },
            ) => {
                &&& remove
                &&& who@ == repo@
                &&& opt_text(question) == if *yes {
                    None
                } else {
                    Some("Remove source '"@ + repo@ + "'?"@)
                }
                &&& header@ == header_text(color, "Removing "@ + repo@ + "..."@)
                &&& texts(args@) == seq!["-y"@, "--remove"@, repo@]
            },
            _ => false,
        },
{
    match action {
        RepoCmd::List => Todo::List,
        RepoCmd::Add { repo, yes } => modify(color, repo.as_str(), false, *yes),
        RepoCmd::Remove { repo, yes } => modify(color, repo.as_str(), true, *yes),
    }
}

fn modify(color: bool, repo: &str, remove: bool, yes: bool) -> (r: Todo)
    ensures
        match r {
            Todo::Modify { question, header, args, repo: who, remove: gone } => {
                &&& gone == remove
                &&& who@ == repo@
                &&& opt_text(question) == if yes {
                    None
                } else if remove {
                    Some("Remove source '"@ + repo@ + "'?"@)
                } else {
                    Some("Add source '"@ + repo@ + "'?"@)
                }
                &&& header@ == header_text(
                    color,
                    if remove {
                        "Removing "@ + repo@ + "..."@
                    } else {
                        "Adding "@ + repo@ + "..."@
                    },
                )
                &&& texts(args@) == if remove {
                    seq!["-y"@, "--remove"@, repo@]
                } else {
                    seq!["-y"@, repo@]
                }
            },
            Todo::List => false,
        },
{
    let verb = if remove {
        "Removing "
    } else {
        "Adding "
    };
    let question = if yes {
        None
    } else if remove {
        Some(cat3("Remove source '", repo, "'?"))
    } else {
        Some(cat3("Add source '", repo, "'?"))
    };
    let header = header_line(color, cat3(verb, repo, "...").as_str());
    let mut args: Vec<String> = Vec::new();
    args.push("-y".to_owned());
    if remove {
        args.push("--remove".to_owned());
    }
    args.push(repo.to_owned());
    assert(texts(args@) =~= if remove {
        seq!["-y"@, "--remove"@, repo@]
    } else {
        seq!["-y"@, repo@]
    });
    Todo::Modify { question, header, args, repo: repo.to_owned(), remove }
}

/// How `add-apt-repository` went.
pub enum Ran {
    /// It is not installed.
    Missing,
    /// It could not be run, for this reason.
    Failed(String),
    /// It ran, with success or without.
    Done(bool),
}

/// What is said once `add-apt-repository` has run.
pub fn finish(color: bool, repo: &str, remove: bool, ran: &Ran) -> (r: Result<Vec<Line>, String>)
    ensures
        match ran {
            Ran::Missing => r matches Err(e) && e@
                == "add-apt-repository not found — install it with `wrapt install software-properties-common`"@,
            Ran::Failed(why) => r matches Err(e) && e@ == "failed to run add-apt-repository: "@
                + why@,
            Ran::Done(false) => r matches Err(e) && e@ == "add-apt-repository failed"@,
            Ran::Done(true) => r matches Ok(v) && line_views(v@) == if remove {
                seq![LineView::Out(success_text(color, "Removed "@ + repo@ + "."@))]
            } else {
                seq![
                    LineView::Out(success_text(color, "Added "@ + repo@ + "."@)),
                    LineView::Out(
                        "   Run "@ + cyan_text(color, "wrapt update"@)
                            + " to fetch packages from the new source."@,
                    ),
                ]
            },
        },
{
    match ran {
        Ran::Missing => Err(
            "add-apt-repository not found — install it with `wrapt install software-properties-common`".to_owned(),
        ),
        Ran::Failed(why) => Err(cat2("failed to run add-apt-repository: ", why.as_str())),
        Ran::Done(success) => {
            if !*success {
                return Err("add-apt-repository failed".to_owned());
            }
            let mut out = no_lines();
            let verb = if remove {
                "Removed "
            } else {
                "Added "
            };
            let text = cat3(verb, repo, ".");
            say(&mut out, success_line(color, text.as_str()));
            if !remove {
                say(
                    &mut out,
                    cat3(
                        "   Run ",
                        cyan(color, "wrapt update").as_str(),
                        " to fetch packages from the new source.",
                    ),
                );
            }
            assert(line_views(out@) =~= if remove {
                seq![LineView::Out(success_text(color, "Removed "@ + repo@ + "."@))]
            } else {
                seq![
                    LineView::Out(success_text(color, "Added "@ + repo@ + "."@)),
                    LineView::Out(
                        "   Run "@ + cyan_text(color, "wrapt update"@)
                            + " to fetch packages from the new source."@,
                    ),
                ]
            });
            Ok(out)
        },
    }
}

} // verus!
