//! Laws of the views: a value is seen field by field as it is.

use vstd::prelude::*;

use crate::apt::{changes, pairs, results, Change, SearchResult, Transaction};
use crate::commands::{Decision, DecisionView, Request};
use crate::config::{row_view, row_views, Config, Source as Layer};
use crate::doctor::{checks, outcome, Check};
use crate::download::{items, opt_hash, DownloadItem, ExpectedHash, HashView};
use crate::fetch::{probes, Probe};
use crate::history::{entries, Entry};
use crate::install::{givens, Given, GivenView};
use crate::json::{fields, optional, Field, FieldView};
use crate::listpkgs::{rows, Row};
use crate::lists::index_texts;
use crate::progress::{actions, Action, ActionView, Run};
use crate::repo::{files, found_files, sources, FoundFile, Source, SourceFile};
use crate::text::{lossy_text, opt_str, opt_text, opt_texts, pieces, strs, texts};
use crate::ui::{line_views, Line, LineView, Paint, Painted};
use crate::why::Explanation;

verus! {

/// Texts are seen one by one, in their order; an option is one where it has one.
pub proof fn texts_are_seen_one_by_one(
    v: Seq<String>,
    w: Seq<&'static str>,
    b: Seq<Vec<u8>>,
    o: Option<String>,
    q: Option<Vec<String>>,
    p: Seq<(String, String)>,
    i: int,
)
    ensures
        texts(v).len() == v.len(),
        0 <= i < v.len() ==> texts(v)[i] == v[i]@,
        strs(w).len() == w.len(),
        0 <= i < w.len() ==> strs(w)[i] == w[i]@,
        index_texts(b).len() == b.len(),
        0 <= i < b.len() ==> index_texts(b)[i] == lossy_text(b[i]@),
        o is Some ==> opt_text(o) == Some(o->0@),
        o is None ==> opt_text(o) is None,
        q is Some ==> opt_texts(q) == Some(texts(q->0@)),
        q is None ==> opt_texts(q) is None,
        pairs(p).len() == p.len(),
        0 <= i < p.len() ==> pairs(p)[i] == (p[i].0@, p[i].1@),
{
}

/// A change, a transaction and a result are seen as they are.
pub proof fn changes_are_seen_as_they_are(
    c: Change,
    t: Transaction,
    r: SearchResult,
    v: Seq<Change>,
    w: Seq<SearchResult>,
    i: int,
)
    ensures
        c@.name == c.name@,
        c@.old == opt_text(c.old),
        c@.new == opt_text(c.new),
        c@.security == c.security,
        t@.install == changes(t.install@),
        t@.remove == changes(t.remove@),
        changes(v).len() == v.len(),
        0 <= i < v.len() ==> changes(v)[i] == v[i]@,
        r@.name == r.name@,
        r@.version == opt_text(r.version),
        r@.description == r.description@,
        r@.installed == r.installed,
        results(w).len() == w.len(),
        0 <= i < w.len() ==> results(w)[i] == w[i]@,
{
}

/// So are an entry of the history and a request.
pub proof fn entries_are_seen_as_they_are(
    e: Entry,
    r: Request,
    d: Decision,
    v: Seq<Entry>,
    i: int,
)
    ensures
        e@.id == e.id,
        e@.time == e.time,
        e@.command == texts(e.command@),
        e@.label == opt_text(e.label),
        e@.install == changes(e.install@),
        e@.remove == changes(e.remove@),
        entries(v).len() == v.len(),
        0 <= i < v.len() ==> entries(v)[i] == v[i]@,
        r@.args == texts(r.args@),
        r@.named == texts(r.named@),
        r@.action == r.action@,
        r@.label == opt_text(r.label),
        d matches Decision::Say(l) ==> d@ == DecisionView::Say(l@),
        d matches Decision::Ask(None, q) ==> d@ == DecisionView::Ask(None, q@),
        d matches Decision::Ask(Some(l), q) ==> d@ == DecisionView::Ask(Some(l@), q@),
{
}

/// So are the settings.
pub proof fn settings_are_seen_as_they_are(
    c: Config,
    r: (String, String, Layer),
    v: Seq<(String, String, Layer)>,
    i: int,
)
    ensures
        c@.parallel == c.parallel,
        c@.assume_yes == c.assume_yes,
        c@.verbose == c.verbose,
        c@.color == opt_text(c.color),
        c@.repo == opt_text(c.repo),
        c@.notify_updates == c.notify_updates,
        c@.never_restart == opt_texts(c.never_restart),
        c@.restart == opt_text(c.restart),
        c@.keep_kernels == c.keep_kernels,
        c@.mirror_country == opt_text(c.mirror_country),
        c@.history_limit == c.history_limit,
        row_view(r).name == r.0@,
        row_view(r).value == r.1@,
        row_view(r).source == r.2,
        row_views(v).len() == v.len(),
        0 <= i < v.len() ==> row_views(v)[i] == row_view(v[i]),
        Layer::Default.title() == "default"@,
        Layer::System.title() == "system"@,
        Layer::User.title() == "user"@,
        Layer::Both.title() == "system+user"@,
{
}

/// So are a check, a source and a file of sources.
pub proof fn sources_are_seen_as_they_are(
    c: Check,
    s: Source,
    f: SourceFile,
    g: FoundFile,
    v: Seq<Source>,
    w: Seq<SourceFile>,
    i: int,
)
    ensures
        c@.title == c.title@,
        c@.status == c.status,
        c@.detail == texts(c.detail@),
        c@.fix == opt_text(c.fix),
        s@.kind == s.kind@,
        s@.options == s.options@,
        s@.uri == s.uri@,
        s@.suite == s.suite@,
        s@.components == s.components@,
        s@.enabled == s.enabled,
        f@.path == f.path@,
        f@.sources == sources(f.sources@),
        g@.path == g.path@,
        g@.extension == g.extension@,
        g@.text == g.text@,
        sources(v).len() == v.len(),
        0 <= i < v.len() ==> sources(v)[i] == v[i]@,
        files(w).len() == w.len(),
        0 <= i < w.len() ==> files(w)[i] == w[i]@,
{
}

/// So are a download, a row, a mirror and an explanation.
pub proof fn rows_are_seen_as_they_are(
    d: DownloadItem,
    r: Row,
    p: Probe,
    e: Explanation,
    h: ExpectedHash,
    v: Seq<DownloadItem>,
    w: Seq<Row>,
    u: Seq<Probe>,
    i: int,
)
    ensures
        d@.url == d.url@,
        d@.filename == d.filename@,
        d@.size == d.size,
        d.hash is None ==> d@.hash is None,
        d.hash is Some ==> d@.hash == Some(d.hash->0@),
        h matches ExpectedHash::Sha256(s) ==> h@ == HashView::Sha256(s@),
        h matches ExpectedHash::Md5(s) ==> h@ == HashView::Md5(s@),
        items(v).len() == v.len(),
        0 <= i < v.len() ==> items(v)[i] == v[i]@,
        r@.name == r.name@,
        r@.version == r.version@,
        r@.auto == r.auto,
        r@.held == r.held,
        rows(w).len() == w.len(),
        0 <= i < w.len() ==> rows(w)[i] == w[i]@,
        p@.url == p.url@,
        p@.speed == p.speed,
        probes(u).len() == u.len(),
        0 <= i < u.len() ==> probes(u)[i] == u[i]@,
        e@.package == e.package@,
        e@.installed == e.installed,
        e@.manual == e.manual,
        e@.required_by == texts(e.required_by@),
        e@.chain == texts(e.chain@),
        e@.roots == texts(e.roots@),
{
}

/// So are lines, actions, a run, what is given and what is answered in JSON.
pub proof fn lines_are_seen_as_they_are(
    l: Line,
    a: Action,
    r: Run,
    g: Given,
    f: Field,
    o: Option<Seq<char>>,
    v: Seq<Line>,
    w: Seq<Action>,
    u: Seq<Given>,
    i: int,
)
    ensures
        l matches Line::Out(s) ==> l@ == LineView::Out(s@),
        l matches Line::Error(s) ==> l@ == LineView::Error(s@),
        line_views(v).len() == v.len(),
        0 <= i < v.len() ==> line_views(v)[i] == v[i]@,
        a matches Action::Position(s) ==> a@ == ActionView::Position(s@),
        a matches Action::Message(s) ==> a@ == ActionView::Message(s@),
        a matches Action::Print(s) ==> a@ == ActionView::Print(s@),
        a matches Action::Prompt(s) ==> a@ == ActionView::Prompt(s@),
        a is Reveal ==> a@ is Reveal,
        actions(w).len() == w.len(),
        0 <= i < w.len() ==> actions(w)[i] == w[i]@,
        r@.interactive == r.interactive,
        r@.status == r.status@,
        r@.stdout == r.stdout@,
        r@.stderr == r.stderr@,
        r@.log == texts(r.log@),
        r@.errors == texts(r.errors@),
        r@.done == r.done@,
        r@.conffiles == texts(r.conffiles@),
        r@.revealing == r.revealing,
        r@.last_completion == r.last_completion,
        g matches Given::Url(s) ==> g@ == GivenView::Url(s@),
        g matches Given::File(s) ==> g@ == GivenView::File(s@),
        g matches Given::Name(s) ==> g@ == GivenView::Name(s@),
        givens(u).len() == u.len(),
        0 <= i < u.len() ==> givens(u)[i] == u[i]@,
        f matches Field::Flag(b) ==> f@ == FieldView::Flag(b),
        f matches Field::Number(n) ==> f@ == FieldView::Number(n as nat),
        f matches Field::Text(s) ==> f@ == FieldView::Text(s@),
        f matches Field::Texts(s) ==> f@ == FieldView::Texts(texts(s@)),
        f is Missing ==> f@ is Missing,
        o is Some ==> optional(o) == FieldView::Text(o->0),
        o is None ==> optional(o) is Missing,
{
}

} // verus!
