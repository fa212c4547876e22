//! Laws of the search in the package indexes: what is found, and what is not.

use vstd::prelude::*;
use vstd::utf8::encode_utf8;

use crate::apt::ResultView;
use crate::laws::text::what_holds_a_text_is_put_around_it;
use crate::lists::{
    all_indexed, finished, found_for, indexed, is_best, keeps_best, lemma_found_was_offered,
    lemma_keeps_best_trans, lemma_nothing_better, lemma_scanned_is_merged, merged, merged_all,
    no_stanza, offer, offers, reading, scanned, scanning_keeps_the_best, stanza_step, versions_rel,
    BestView, StanzaView,
};
use crate::text::{after_prefix, has_prefix, has_text, lines, lowercase, occurs_at};
use crate::version::{
    version_order_is_antisymmetric, version_order_is_reflexive, version_order_is_transitive, Rel,
};

verus! {

/// The lines of one stanza give a field one value.
pub open spec fn gives(fields: Seq<Seq<char>>, field: Seq<char>, value: Seq<char>) -> bool {
    &&& exists|i: int| 0 <= i < fields.len() && #[trigger] fields[i] == field + value
    &&& forall|i: int|
        0 <= i < fields.len() && has_prefix(#[trigger] fields[i], field) ==> fields[i] == field
            + value
}

/// A complete stanza: lines, none of them blank, that name a package and its
/// version.
pub open spec fn is_stanza(fields: Seq<Seq<char>>, name: Seq<char>, version: Seq<char>) -> bool {
    &&& forall|i: int| 0 <= i < fields.len() ==> (#[trigger] fields[i]).len() > 0
    &&& gives(fields, "Package: "@, name)
    &&& gives(fields, "Version: "@, version)
}

/// A stanza stands in an index: a blank line, or the end, before it and behind it.
pub open spec fn stands_in(
    content: Seq<char>,
    before: Seq<Seq<char>>,
    fields: Seq<Seq<char>>,
    after: Seq<Seq<char>>,
) -> bool {
    &&& lines(content) == before + fields + after
    &&& before.len() == 0 || before.last().len() == 0
    &&& after.len() == 0 || after[0].len() == 0
}

proof fn lemma_prefix_of(p: Seq<char>, s: Seq<char>)
    ensures
        has_prefix(p + s, p),
        after_prefix(p + s, p) == Some(s),
{
    assert((p + s).take(p.len() as int) =~= p);
    assert((p + s).skip(p.len() as int) =~= s);
}

proof fn lemma_apart(line: Seq<char>)
    ensures
        !(has_prefix(line, "Package: "@) && has_prefix(line, "Version: "@)),
        !(has_prefix(line, "Package: "@) && has_prefix(line, "Description: "@)),
        !(has_prefix(line, "Package: "@) && has_prefix(line, "Description-en: "@)),
        !(has_prefix(line, "Version: "@) && has_prefix(line, "Description: "@)),
        !(has_prefix(line, "Version: "@) && has_prefix(line, "Description-en: "@)),
        !(has_prefix(line, "Description: "@) && has_prefix(line, "Description-en: "@)),
{
    reveal_strlit("Package: ");
    reveal_strlit("Version: ");
    reveal_strlit("Description: ");
    reveal_strlit("Description-en: ");
    if has_prefix(line, "Package: "@) {
        assert(line.take(9)[0] == line[0]);
    }
    if has_prefix(line, "Version: "@) {
        assert(line.take(9)[0] == line[0]);
    }
    if has_prefix(line, "Description: "@) {
        assert(line.take(13)[0] == line[0]);
        assert(line.take(13)[11] == line[11]);
    }
    if has_prefix(line, "Description-en: "@) {
        assert(line.take(16)[0] == line[0]);
        assert(line.take(16)[11] == line[11]);
    }
}

spec fn given_by(fields: Seq<Seq<char>>, k: int, field: Seq<char>) -> bool {
    exists|i: int| 0 <= i < k && has_prefix(#[trigger] fields[i], field)
}

proof fn lemma_reading(
    before: Seq<Seq<char>>,
    fields: Seq<Seq<char>>,
    name: Seq<char>,
    version: Seq<char>,
    k: int,
)
    requires
        is_stanza(fields, name, version),
        before.len() == 0 || before.last().len() == 0,
        0 <= k <= fields.len(),
    ensures
        reading(before + fields.take(k)).name == if given_by(fields, k, "Package: "@) {
            Some(name)
        } else {
            None
        },
        reading(before + fields.take(k)).version == if given_by(fields, k, "Version: "@) {
            Some(version)
        } else {
            None
        },
    decreases k,
{
    let ls = before + fields.take(k);
    if k == 0 {
        assert(ls =~= before);
    } else {
        assert(ls.drop_last() =~= before + fields.take(k - 1));
        let line = fields[k - 1];
        assert(ls.last() == line);
        lemma_reading(before, fields, name, version, k - 1);
        lemma_apart(line);
        lemma_prefix_of("Package: "@, name);
        lemma_prefix_of("Version: "@, version);
        assert(line.len() > 0);
        if given_by(fields, k - 1, "Package: "@) {
            let i = choose|i: int| 0 <= i < k - 1 && has_prefix(#[trigger] fields[i], "Package: "@);
            assert(has_prefix(fields[i], "Package: "@));
        }
        if given_by(fields, k - 1, "Version: "@) {
            let i = choose|i: int| 0 <= i < k - 1 && has_prefix(#[trigger] fields[i], "Version: "@);
            assert(has_prefix(fields[i], "Version: "@));
        }
    }
}

proof fn lemma_read(
    before: Seq<Seq<char>>,
    fields: Seq<Seq<char>>,
    name: Seq<char>,
    version: Seq<char>,
)
    requires
        is_stanza(fields, name, version),
        before.len() == 0 || before.last().len() == 0,
    ensures
        reading(before + fields).name == Some(name),
        reading(before + fields).version == Some(version),
{
    let n = fields.len() as int;
    lemma_reading(before, fields, name, version, n);
    assert(fields.take(n) =~= fields);
    let i = choose|i: int| 0 <= i < n && #[trigger] fields[i] == "Package: "@ + name;
    let j = choose|j: int| 0 <= j < n && #[trigger] fields[j] == "Version: "@ + version;
    lemma_prefix_of("Package: "@, name);
    lemma_prefix_of("Version: "@, version);
    assert(has_prefix(fields[i], "Package: "@));
    assert(has_prefix(fields[j], "Version: "@));
}

spec fn described(fields: Seq<Seq<char>>, k: int) -> bool {
    exists|i: int|
        0 <= i < k && (has_prefix(#[trigger] fields[i], "Description: "@) || has_prefix(
            fields[i],
            "Description-en: "@,
        ))
}

/// The lines of one stanza describe the package in one way, in English by either
/// of the two fields.
pub open spec fn describes(fields: Seq<Seq<char>>, text: Seq<char>) -> bool {
    &&& exists|i: int|
        0 <= i < fields.len() && (#[trigger] fields[i] == "Description: "@ + text || fields[i]
            == "Description-en: "@ + text)
    &&& forall|i: int|
        0 <= i < fields.len() && has_prefix(#[trigger] fields[i], "Description: "@) ==> fields[i]
            == "Description: "@ + text
    &&& forall|i: int|
        0 <= i < fields.len() && has_prefix(#[trigger] fields[i], "Description-en: "@)
            ==> fields[i] == "Description-en: "@ + text
}

proof fn lemma_describing(before: Seq<Seq<char>>, fields: Seq<Seq<char>>, text: Seq<char>, k: int)
    requires
        forall|i: int| 0 <= i < fields.len() ==> (#[trigger] fields[i]).len() > 0,
        describes(fields, text),
        before.len() == 0 || before.last().len() == 0,
        0 <= k <= fields.len(),
    ensures
        reading(before + fields.take(k)).description == if described(fields, k) {
            Some(text)
        } else {
            None
        },
    decreases k,
{
    let ls = before + fields.take(k);
    if k == 0 {
        assert(ls =~= before);
    } else {
        assert(ls.drop_last() =~= before + fields.take(k - 1));
        let line = fields[k - 1];
        assert(ls.last() == line);
        lemma_describing(before, fields, text, k - 1);
        lemma_apart(line);
        lemma_prefix_of("Description: "@, text);
        lemma_prefix_of("Description-en: "@, text);
        assert(line.len() > 0);
        if described(fields, k - 1) {
            let i = choose|i: int|
                0 <= i < k - 1 && (has_prefix(#[trigger] fields[i], "Description: "@) || has_prefix(
                    fields[i],
                    "Description-en: "@,
                ));
            assert(has_prefix(fields[i], "Description: "@) || has_prefix(
                fields[i],
                "Description-en: "@,
            ));
        }
    }
}

proof fn lemma_offers_grow(u: Seq<Seq<char>>, v: Seq<Seq<char>>, query: Seq<char>)
    ensures
        forall|x: (Seq<char>, BestView)| #[trigger]
            offers(u, query).contains(x) ==> offers(u + v, query).contains(x),
    decreases v.len(),
{
    if v.len() == 0 {
        assert(u + v =~= u);
    } else {
        assert((u + v).drop_last() =~= u + v.drop_last());
        lemma_offers_grow(u, v.drop_last(), query);
        let (a, b) = (offers(u + v.drop_last(), query), offers(u + v, query));
        assert forall|x: (Seq<char>, BestView)| #[trigger] offers(u, query).contains(
            x,
        ) implies b.contains(x) by {
            assert(a.contains(x));
            let k = choose|k: int| 0 <= k < a.len() && a[k] == x;
            assert(b[k] == x);
        }
    }
}

proof fn lemma_indexed_best(
    content: Seq<char>,
    query: Seq<char>,
    best: Map<Seq<char>, BestView>,
    name: Seq<char>,
    given: BestView,
)
    requires
        offers(lines(content).push(""@), query).contains((name, given)),
    ensures
        indexed(content, query, best).contains_key(name),
        versions_rel(indexed(content, query, best)[name].version, given.version) != Rel::Less,
{
    let ls = lines(content).push(""@);
    let v = offers(ls, query);
    lemma_scanned_is_merged(ls, query, best);
    let k = choose|k: int| 0 <= k < v.len() && v[k] == (name, given);
    lemma_nothing_better(best, v, k);
}

proof fn lemma_offered(
    content: Seq<char>,
    before: Seq<Seq<char>>,
    fields: Seq<Seq<char>>,
    after: Seq<Seq<char>>,
    query: Seq<char>,
)
    requires
        stands_in(content, before, fields, after),
    ensures
        forall|x: (Seq<char>, BestView)| #[trigger]
            offer(reading(before + fields), query).contains(x) ==> offers(
                lines(content).push(""@),
                query,
            ).contains(x),
{
    reveal_strlit("");
    let ls = lines(content).push(""@);
    let u = (before + fields).push(""@);
    let v = if after.len() == 0 {
        Seq::<Seq<char>>::empty()
    } else {
        after.push(""@).skip(1)
    };
    assert(ls =~= u + v) by {
        if after.len() > 0 {
            assert(after[0] =~= ""@);
        }
    }
    lemma_offers_grow(u, v, query);
    assert(u.drop_last() =~= before + fields);
    let more = offer(reading(before + fields), query);
    assert forall|x: (Seq<char>, BestView)| #[trigger] more.contains(x) implies offers(
        ls,
        query,
    ).contains(x) by {
        let k = choose|k: int| 0 <= k < more.len() && more[k] == x;
        let first = offers(before + fields, query);
        assert(offers(u, query) == first + more);
        assert(offers(u, query)[first.len() + k] == x);
        assert(offers(u, query).contains(x));
    }
}

proof fn lemma_all_indexed_keep(contents: Seq<Seq<char>>, i: int, query: Seq<char>)
    requires
        0 <= i < contents.len(),
    ensures
        keeps_best(
            indexed(contents[i], query, all_indexed(contents.take(i), query)),
            all_indexed(contents, query),
        ),
    decreases contents.len(),
{
    let last = contents.len() - 1;
    if i == last {
        assert(contents.take(i) =~= contents.drop_last());
        crate::lists::lemma_keeps_best_refl(all_indexed(contents, query));
    } else {
        let first = contents.drop_last();
        lemma_all_indexed_keep(first, i, query);
        assert(first.take(i) =~= contents.take(i));
        scanning_keeps_the_best(contents.last(), query, all_indexed(first, query));
        lemma_keeps_best_trans(
            indexed(contents[i], query, all_indexed(contents.take(i), query)),
            all_indexed(first, query),
            all_indexed(contents, query),
        );
    }
}

proof fn lemma_found(
    found: Seq<ResultView>,
    contents: Seq<Seq<char>>,
    query: Seq<char>,
    installed: Set<Seq<char>>,
    i: int,
    name: Seq<char>,
    given: BestView,
)
    requires
        found_for(found, contents, query, installed),
        0 <= i < contents.len(),
        offers(lines(contents[i]).push(""@), query).contains((name, given)),
    ensures
        exists|k: int|
            0 <= k < found.len() && (#[trigger] found[k]).name == name && found[k].version is Some
                && versions_rel(found[k].version->0, given.version) != Rel::Less
                && found[k].installed == installed.contains(name),
{
    let before = all_indexed(contents.take(i), query);
    lemma_indexed_best(contents[i], query, before, name, given);
    lemma_all_indexed_keep(contents, i, query);
    let mid = indexed(contents[i], query, before);
    let all = all_indexed(contents, query);
    assert(all.contains_key(name));
    let (x, y, z) = (
        encode_utf8(given.version),
        encode_utf8(mid[name].version),
        encode_utf8(all[name].version),
    );
    version_order_is_antisymmetric(z, y);
    version_order_is_antisymmetric(y, x);
    version_order_is_antisymmetric(z, x);
    version_order_is_transitive(x, y, z);
    let r = ResultView {
        name,
        version: Some(all[name].version),
        description: all[name].description,
        installed: installed.contains(name),
    };
    assert(is_best(all, installed, r));
    assert(found.contains(r));
    let k = choose|k: int| 0 <= k < found.len() && found[k] == r;
    assert(found[k].name == name);
}

/// Every complete stanza whose name holds the query, at any place, is among the
/// results, in no lower a version than the stanza's own.
pub proof fn a_name_that_holds_the_query_is_found(
    found: Seq<ResultView>,
    contents: Seq<Seq<char>>,
    installed: Set<Seq<char>>,
    i: int,
    before: Seq<Seq<char>>,
    fields: Seq<Seq<char>>,
    after: Seq<Seq<char>>,
    a: Seq<char>,
    query: Seq<char>,
    b: Seq<char>,
    version: Seq<char>,
)
    requires
        found_for(found, contents, query, installed),
        0 <= i < contents.len(),
        stands_in(contents[i], before, fields, after),
        is_stanza(fields, a + query + b, version),
    ensures
        exists|k: int|
            0 <= k < found.len() && (#[trigger] found[k]).name == a + query + b
                && found[k].version is Some && versions_rel(found[k].version->0, version)
                != Rel::Less && found[k].installed == installed.contains(a + query + b),
{
    let name = a + query + b;
    lemma_read(before, fields, name, version);
    assert(occurs_at(name, query, a.len() as int)) by {
        assert(name.subrange(a.len() as int, a.len() as int + query.len()) =~= query);
    }
    let st = reading(before + fields);
    let description = match st.description {
        Some(d) => d,
        None => ""@,
    };
    let given = BestView { version, description };
    assert(offer(st, query)[0] == (name, given));
    assert(offer(st, query).contains((name, given)));
    lemma_offered(contents[i], before, fields, after, query);
    lemma_found(found, contents, query, installed, i, name, given);
}

/// So is every complete stanza whose description, in lower case, holds the query
/// at any place.
pub proof fn a_description_that_holds_the_query_is_found(
    found: Seq<ResultView>,
    contents: Seq<Seq<char>>,
    installed: Set<Seq<char>>,
    i: int,
    before: Seq<Seq<char>>,
    fields: Seq<Seq<char>>,
    after: Seq<Seq<char>>,
    name: Seq<char>,
    version: Seq<char>,
    text: Seq<char>,
    a: Seq<char>,
    query: Seq<char>,
    b: Seq<char>,
)
    requires
        found_for(found, contents, query, installed),
        0 <= i < contents.len(),
        stands_in(contents[i], before, fields, after),
        is_stanza(fields, name, version),
        describes(fields, text),
        lowercase(text) == a + query + b,
    ensures
        exists|k: int|
            0 <= k < found.len() && (#[trigger] found[k]).name == name && found[k].version is Some
                && versions_rel(found[k].version->0, version) != Rel::Less
                && found[k].installed == installed.contains(name),
{
    lemma_read(before, fields, name, version);
    let n = fields.len() as int;
    lemma_describing(before, fields, text, n);
    assert(fields.take(n) =~= fields);
    let j = choose|j: int|
        0 <= j < n && (#[trigger] fields[j] == "Description: "@ + text || fields[j]
            == "Description-en: "@ + text);
    lemma_prefix_of("Description: "@, text);
    lemma_prefix_of("Description-en: "@, text);
    assert(has_prefix(fields[j], "Description: "@) || has_prefix(fields[j], "Description-en: "@));
    let low = lowercase(text);
    assert(occurs_at(low, query, a.len() as int)) by {
        assert(low.subrange(a.len() as int, a.len() as int + query.len()) =~= query);
    }
    let st = reading(before + fields);
    let given = BestView { version, description: text };
    assert(offer(st, query)[0] == (name, given));
    assert(offer(st, query).contains((name, given)));
    lemma_offered(contents[i], before, fields, after, query);
    lemma_found(found, contents, query, installed, i, name, given);
}

/// A result comes from some index: a line there names it, another gives its
/// version, and its name or its description holds the query.
pub open spec fn comes_from(
    contents: Seq<Seq<char>>,
    query: Seq<char>,
    name: Seq<char>,
    b: BestView,
) -> bool {
    &&& exists|i: int, j: int|
        0 <= i < contents.len() && 0 <= j < lines(contents[i]).len() && #[trigger] lines(
            contents[i],
        )[j] == "Package: "@ + name
    &&& exists|i: int, j: int|
        0 <= i < contents.len() && 0 <= j < lines(contents[i]).len() && #[trigger] lines(
            contents[i],
        )[j] == "Version: "@ + b.version
    &&& (exists|x: Seq<char>, y: Seq<char>| name == #[trigger] (x + query + y)) || (exists|
        x: Seq<char>,
        y: Seq<char>,
    | lowercase(b.description) == #[trigger] (x + query + y))
}

proof fn lemma_reading_back(ls: Seq<Seq<char>>)
    ensures
        reading(ls).name matches Some(n) ==> exists|j: int|
            0 <= j < ls.len() && #[trigger] ls[j] == "Package: "@ + n,
        reading(ls).version matches Some(v) ==> exists|j: int|
            0 <= j < ls.len() && #[trigger] ls[j] == "Version: "@ + v,
    decreases ls.len(),
{
    if ls.len() > 0 && ls.last().len() > 0 {
        let before = ls.drop_last();
        let line = ls.last();
        lemma_reading_back(before);
        assert(ls[ls.len() - 1] == line);
        if let Some(n) = after_prefix(line, "Package: "@) {
            assert(line =~= "Package: "@ + n);
        }
        if let Some(v) = after_prefix(line, "Version: "@) {
            assert(line =~= "Version: "@ + v);
        }
        if reading(before).name is Some {
            let j = choose|j: int|
                0 <= j < before.len() && #[trigger] before[j] == "Package: "@ + reading(
                    before,
                ).name->0;
            assert(ls[j] == before[j]);
        }
        if reading(before).version is Some {
            let j = choose|j: int|
                0 <= j < before.len() && #[trigger] before[j] == "Version: "@ + reading(
                    before,
                ).version->0;
            assert(ls[j] == before[j]);
        }
    }
}

spec fn offered_in(ls: Seq<Seq<char>>, query: Seq<char>, x: (Seq<char>, BestView)) -> bool {
    &&& exists|j: int| 0 <= j < ls.len() && #[trigger] ls[j] == "Package: "@ + x.0
    &&& exists|j: int| 0 <= j < ls.len() && #[trigger] ls[j] == "Version: "@ + x.1.version
    &&& has_text(x.0, query) || has_text(lowercase(x.1.description), query)
}

proof fn lemma_offered_back(ls: Seq<Seq<char>>, query: Seq<char>, x: (Seq<char>, BestView))
    requires
        offers(ls, query).contains(x),
    ensures
        offered_in(ls, query, x),
    decreases ls.len(),
{
    if ls.len() > 0 {
        let before = ls.drop_last();
        if offers(before, query).contains(x) {
            lemma_offered_back(before, query, x);
            let j = choose|j: int| 0 <= j < before.len() && #[trigger] before[j] == "Package: "@
                + x.0;
            let k = choose|k: int| 0 <= k < before.len() && #[trigger] before[k] == "Version: "@
                + x.1.version;
            assert(ls[j] == before[j] && ls[k] == before[k]);
        } else {
            let all = offers(ls, query);
            let more = offer(reading(before), query);
            let k = choose|k: int| 0 <= k < all.len() && all[k] == x;
            let first = offers(before, query);
            assert(ls.last().len() == 0);
            if k < first.len() {
                assert(first[k] == x);
                assert(first.contains(x));
            }
            assert(more[k - first.len()] == x);
            lemma_reading_back(before);
            let j = choose|j: int| 0 <= j < before.len() && #[trigger] before[j] == "Package: "@
                + x.0;
            let m = choose|m: int| 0 <= m < before.len() && #[trigger] before[m] == "Version: "@
                + x.1.version;
            assert(ls[j] == before[j] && ls[m] == before[m]);
        }
    }
}

proof fn lemma_line_kept(ls: Seq<Seq<char>>, p: Seq<char>)
    requires
        p.len() > 0,
        exists|j: int| 0 <= j < ls.push(""@).len() && #[trigger] ls.push(""@)[j] == p,
    ensures
        exists|j: int| 0 <= j < ls.len() && #[trigger] ls[j] == p,
{
    reveal_strlit("");
    let j = choose|j: int| 0 <= j < ls.push(""@).len() && #[trigger] ls.push(""@)[j] == p;
    assert(ls[j] == p);
}

proof fn lemma_comes_from(contents: Seq<Seq<char>>, query: Seq<char>, name: Seq<char>)
    requires
        all_indexed(contents, query).contains_key(name),
    ensures
        comes_from(contents, query, name, all_indexed(contents, query)[name]),
    decreases contents.len(),
{
    if contents.len() > 0 {
        let first = contents.drop_last();
        let last = contents.len() - 1;
        let best = all_indexed(first, query);
        let all = all_indexed(contents, query);
        let ls = lines(contents.last()).push(""@);
        let v = offers(ls, query);
        lemma_scanned_is_merged(ls, query, best);
        assert(all == merged_all(best, v));
        if v.contains((name, all[name])) {
            let b = all[name];
            lemma_offered_back(ls, query, (name, b));
            reveal_strlit("Package: ");
            reveal_strlit("Version: ");
            lemma_line_kept(lines(contents.last()), "Package: "@ + name);
            lemma_line_kept(lines(contents.last()), "Version: "@ + b.version);
            let j = choose|j: int|
                0 <= j < lines(contents.last()).len() && #[trigger] lines(contents.last())[j]
                    == "Package: "@ + name;
            assert(lines(contents[last])[j] == "Package: "@ + name);
            let k = choose|k: int|
                0 <= k < lines(contents.last()).len() && #[trigger] lines(contents.last())[k]
                    == "Version: "@ + b.version;
            assert(lines(contents[last])[k] == "Version: "@ + b.version);
            what_holds_a_text_is_put_around_it(name, query);
            what_holds_a_text_is_put_around_it(lowercase(b.description), query);
        } else {
            lemma_unoffered(best, v, name);
            lemma_comes_from(first, query, name);
            let b = best[name];
            let (i, j) = choose|i: int, j: int|
                0 <= i < first.len() && 0 <= j < lines(first[i]).len() && #[trigger] lines(
                    first[i],
                )[j] == "Package: "@ + name;
            assert(lines(contents[i])[j] == "Package: "@ + name);
            let (m, k) = choose|m: int, k: int|
                0 <= m < first.len() && 0 <= k < lines(first[m]).len() && #[trigger] lines(
                    first[m],
                )[k] == "Version: "@ + b.version;
            assert(lines(contents[m])[k] == "Version: "@ + b.version);
        }
    }
}

proof fn lemma_unoffered(
    best: Map<Seq<char>, BestView>,
    v: Seq<(Seq<char>, BestView)>,
    n: Seq<char>,
)
    requires
        merged_all(best, v).contains_key(n),
        !v.contains((n, merged_all(best, v)[n])),
    ensures
        best.contains_key(n),
        best[n] == merged_all(best, v)[n],
    decreases v.len(),
{
    if v.len() > 0 {
        let before = merged_all(best, v.drop_last());
        let after = merged_all(best, v);
        if before.contains_key(n) && after[n] == before[n] {
            if v.drop_last().contains((n, before[n])) {
                let k = choose|k: int|
                    0 <= k < v.len() - 1 && v.drop_last()[k] == (n, before[n]);
                assert(v[k] == (n, after[n]));
            }
            lemma_unoffered(best, v.drop_last(), n);
        } else {
            assert(v[v.len() - 1] == (n, after[n]));
        }
    }
}

/// Nothing is found that the indexes do not name, and nothing that holds the query
/// neither in its name nor in its description; what is found is marked installed
/// exactly where it is.
pub proof fn nothing_else_is_found(
    found: Seq<ResultView>,
    contents: Seq<Seq<char>>,
    query: Seq<char>,
    installed: Set<Seq<char>>,
    k: int,
)
    requires
        found_for(found, contents, query, installed),
        0 <= k < found.len(),
    ensures
        found[k].version is Some,
        comes_from(
            contents,
            query,
            found[k].name,
            (BestView { version: found[k].version->0, description: found[k].description }),
        ),
        found[k].installed <==> installed.contains(found[k].name),
{
    assert(found.contains(found[k]));
    lemma_comes_from(contents, query, found[k].name);
    let b = all_indexed(contents, query)[found[k].name];
    assert(b == (BestView { version: found[k].version->0, description: found[k].description }));
}

/// Of one package the higher version is kept, and of equal versions the one read
/// first; another package is not touched.
pub proof fn the_higher_version_is_kept(
    best: Map<Seq<char>, BestView>,
    name: Seq<char>,
    found: BestView,
    other: Seq<char>,
)
    requires
        other != name,
    ensures
        best.contains_key(name) && versions_rel(found.version, best[name].version) == Rel::Greater
            ==> merged(best, name, found)[name] == found,
        best.contains_key(name) && versions_rel(found.version, best[name].version) != Rel::Greater
            ==> merged(best, name, found)[name] == best[name],
        !best.contains_key(name) ==> merged(best, name, found)[name] == found,
        merged(best, name, found).contains_key(name),
        merged(best, name, found).contains_key(other) <==> best.contains_key(other),
        best.contains_key(other) ==> merged(best, name, found)[other] == best[other],
{
}

} // verus!
