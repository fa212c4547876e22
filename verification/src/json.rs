//! What the query commands tell a machine: the fields of each item, which are
//! then written as JSON.

use vstd::prelude::*;

use crate::apt::{change_names, changes, Change, SearchResult};
use crate::doctor::{status_name, Check, Status};
use crate::history::Entry;
use crate::listpkgs::Row;
use crate::text::{copy_strings, lemma_texts_push, opt_text, texts};
use crate::why::Explanation;

verus! {

/// The value of a field.
#[derive(Debug, Clone, PartialEq, Eq)]
pub enum Field {
    Missing,
    Flag(bool),
    Number(u64),
    Text(String),
    Texts(Vec<String>),
}

pub enum FieldView {
    Missing,
    Flag(bool),
    Number(nat),
    Text(Seq<char>),
    Texts(Seq<Seq<char>>),
}

impl View for Field {
    type V = FieldView;

    open spec fn view(&self) -> FieldView {
        match self {
            Field::Missing => FieldView::Missing,
            Field::Flag(b) => FieldView::Flag(*b),
            Field::Number(n) => FieldView::Number(*n as nat),
            Field::Text(t) => FieldView::Text(t@),
            Field::Texts(v) => FieldView::Texts(texts(v@)),
        }
    }
}

/// The fields of an item as values.
pub open spec fn fields(v: Seq<(&'static str, Field)>) -> Seq<(Seq<char>, FieldView)> {
    v.map_values(|f: (&'static str, Field)| (f.0@, f.1@))
}

/// A text, where there is one.
pub open spec fn optional(o: Option<Seq<char>>) -> FieldView {
    match o {
        Some(t) => FieldView::Text(t),
        None => FieldView::Missing,
    }
}

fn option_field(o: &Option<String>) -> (r: Field)
    ensures
        r@ == optional(opt_text(*o)),
{
    match o {
        Some(t) => Field::Text(t.clone()),
        None => Field::Missing,
    }
}

fn text_field(s: &String) -> (r: Field)
    ensures
        r@ == FieldView::Text(s@),
{
    Field::Text(s.clone())
}

fn texts_field(v: &Vec<String>) -> (r: Field)
    ensures
        r@ == FieldView::Texts(texts(v@)),
{
    Field::Texts(copy_strings(v))
}

/// The fields of a search result.
pub fn result_fields(r: &SearchResult) -> (out: Vec<(&'static str, Field)>)
    ensures
        fields(out@) == seq![
            ("name"@, FieldView::Text(r@.name)),
            ("version"@, optional(r@.version)),
            ("description"@, FieldView::Text(r@.description)),
            ("installed"@, FieldView::Flag(r@.installed)),
        ],
{
    let out: Vec<(&'static str, Field)> = vec![
        ("name", text_field(&r.name)),
        ("version", option_field(&r.version)),
        ("description", text_field(&r.description)),
        ("installed", Field::Flag(r.installed)),
    ];
    assert(fields(out@) =~= seq![
        ("name"@, FieldView::Text(r@.name)),
        ("version"@, optional(r@.version)),
        ("description"@, FieldView::Text(r@.description)),
        ("installed"@, FieldView::Flag(r@.installed)),
    ]);
    out
}

/// The fields of an installed package.
pub fn row_fields(r: &Row) -> (out: Vec<(&'static str, Field)>)
    ensures
        fields(out@) == seq![
            ("name"@, FieldView::Text(r@.name)),
            ("version"@, FieldView::Text(r@.version)),
            ("automatic"@, FieldView::Flag(r@.auto)),
            ("held"@, FieldView::Flag(r@.held)),
        ],
{
    let out: Vec<(&'static str, Field)> = vec![
        ("name", text_field(&r.name)),
        ("version", text_field(&r.version)),
        ("automatic", Field::Flag(r.auto)),
        ("held", Field::Flag(r.held)),
    ];
    assert(fields(out@) =~= seq![
        ("name"@, FieldView::Text(r@.name)),
        ("version"@, FieldView::Text(r@.version)),
        ("automatic"@, FieldView::Flag(r@.auto)),
        ("held"@, FieldView::Flag(r@.held)),
    ]);
    out
}

/// The fields of a package that can be upgraded.
pub fn upgrade_fields(c: &Change) -> (out: Vec<(&'static str, Field)>)
    ensures
        fields(out@) == seq![
            ("name"@, FieldView::Text(c@.name)),
            ("current"@, optional(c@.old)),
            ("candidate"@, optional(c@.new)),
            ("security"@, FieldView::Flag(c@.security)),
        ],
{
    let out: Vec<(&'static str, Field)> = vec![
        ("name", text_field(&c.name)),
        ("current", option_field(&c.old)),
        ("candidate", option_field(&c.new)),
        ("security", Field::Flag(c.security)),
    ];
    assert(fields(out@) =~= seq![
        ("name"@, FieldView::Text(c@.name)),
        ("current"@, optional(c@.old)),
        ("candidate"@, optional(c@.new)),
        ("security"@, FieldView::Flag(c@.security)),
    ]);
    out
}

/// The fields of the reasons for a package.
pub fn why_fields(e: &Explanation) -> (out: Vec<(&'static str, Field)>)
    ensures
        fields(out@) == seq![
            ("package"@, FieldView::Text(e@.package)),
            ("installed"@, FieldView::Flag(e@.installed)),
            ("manual"@, FieldView::Flag(e@.manual)),
            ("required_by"@, FieldView::Texts(e@.required_by)),
            ("chain"@, FieldView::Texts(e@.chain)),
            ("roots"@, FieldView::Texts(e@.roots)),
        ],
{
    let out: Vec<(&'static str, Field)> = vec![
        ("package", text_field(&e.package)),
        ("installed", Field::Flag(e.installed)),
        ("manual", Field::Flag(e.manual)),
        ("required_by", texts_field(&e.required_by)),
        ("chain", texts_field(&e.chain)),
        ("roots", texts_field(&e.roots)),
    ];
    assert(fields(out@) =~= seq![
        ("package"@, FieldView::Text(e@.package)),
        ("installed"@, FieldView::Flag(e@.installed)),
        ("manual"@, FieldView::Flag(e@.manual)),
        ("required_by"@, FieldView::Texts(e@.required_by)),
        ("chain"@, FieldView::Texts(e@.chain)),
        ("roots"@, FieldView::Texts(e@.roots)),
    ]);
    out
}

fn names_of(v: &Vec<Change>) -> (r: Vec<String>)
    ensures
        texts(r@) == change_names(changes(v@)),
{
    let ghost all = change_names(changes(v@));
    let mut out: Vec<String> = Vec::new();
    let mut i: usize = 0;
    while i < v.len()
        invariant
            i <= v@.len(),
            all == change_names(changes(v@)),
            texts(out@) == all.take(i as int),
        decreases v@.len() - i,
    {
        broadcast use lemma_texts_push;

        assert(all[i as int] == v@[i as int].name@);
        out.push(v[i].name.clone());
        assert(texts(out@) =~= all.take(i + 1));
        i += 1;
    }
    assert(texts(out@) =~= all);
    out
}

/// The fields of a past transaction, given its date.
pub fn entry_fields(e: &Entry, date: &str) -> (out: Vec<(&'static str, Field)>)
    ensures
        fields(out@) == seq![
            ("id"@, FieldView::Number(e@.id as nat)),
            ("date"@, FieldView::Text(date@)),
            ("command"@, FieldView::Texts(e@.command)),
            ("label"@, optional(e@.label)),
            ("installed"@, FieldView::Texts(change_names(e@.install))),
            ("removed"@, FieldView::Texts(change_names(e@.remove))),
        ],
{
    let out: Vec<(&'static str, Field)> = vec![
        ("id", Field::Number(e.id)),
        ("date", Field::Text(date.to_owned())),
        ("command", texts_field(&e.command)),
        ("label", option_field(&e.label)),
        ("installed", Field::Texts(names_of(&e.install))),
        ("removed", Field::Texts(names_of(&e.remove))),
    ];
    assert(fields(out@) =~= seq![
        ("id"@, FieldView::Number(e@.id as nat)),
        ("date"@, FieldView::Text(date@)),
        ("command"@, FieldView::Texts(e@.command)),
        ("label"@, optional(e@.label)),
        ("installed"@, FieldView::Texts(change_names(e@.install))),
        ("removed"@, FieldView::Texts(change_names(e@.remove))),
    ]);
    out
}

/// The fields of a health check.
pub fn check_fields(c: &Check) -> (out: Vec<(&'static str, Field)>)
    ensures
        fields(out@) == seq![
            (
                "status"@,
                FieldView::Text(
                    match c@.status {
                        Status::Fine => "ok"@,
                        Status::Warn => "warning"@,
                        Status::Problem => "problem"@,
                    },
                ),
            ),
            ("title"@, FieldView::Text(c@.title)),
            ("detail"@, FieldView::Texts(c@.detail)),
            ("fix"@, optional(c@.fix)),
        ],
{
    let out: Vec<(&'static str, Field)> = vec![
        ("status", Field::Text(status_name(c.status).to_owned())),
        ("title", text_field(&c.title)),
        ("detail", texts_field(&c.detail)),
        ("fix", option_field(&c.fix)),
    ];
    assert(fields(out@) =~= seq![
        (
            "status"@,
            FieldView::Text(
                match c@.status {
                    Status::Fine => "ok"@,
                    Status::Warn => "warning"@,
                    Status::Problem => "problem"@,
                },
            ),
        ),
        ("title"@, FieldView::Text(c@.title)),
        ("detail"@, FieldView::Texts(c@.detail)),
        ("fix"@, optional(c@.fix)),
    ]);
    out
}

/// The fields of a file that a package provides.
pub fn provided_fields(package: &str, file: &str, installed: bool) -> (out: Vec<
    (&'static str, Field),
>)
    ensures
        fields(out@) == seq![
            ("package"@, FieldView::Text(package@)),
            ("file"@, FieldView::Text(file@)),
            ("installed"@, FieldView::Flag(installed)),
        ],
{
    let out: Vec<(&'static str, Field)> = vec![
        ("package", Field::Text(package.to_owned())),
        ("file", Field::Text(file.to_owned())),
        ("installed", Field::Flag(installed)),
    ];
    assert(fields(out@) =~= seq![
        ("package"@, FieldView::Text(package@)),
        ("file"@, FieldView::Text(file@)),
        ("installed"@, FieldView::Flag(installed)),
    ]);
    out
}

} // verus!
