//! Laws of the dependencies: which names a field holds, and who needs whom.

use vstd::prelude::*;

use crate::laws::text::{a_piece_ends_at_the_character, trimming_gives_the_text_back};
use crate::order::text_lt;
use crate::text::{is_space, split, trim};
use crate::why::{
    alternative_name, alternative_names, bare_lines, bare_name, clause_names, depends, has_package,
    is_nearest, line_record, line_records, meets, name_end, path_lt, path_up_to, provides,
    reaches_root, relation_names, Graph, RecordView,
};

verus! {

/// A name as a dependency field has it: no blank, bracket or colon in it.
pub open spec fn is_name(s: Seq<char>) -> bool {
    s.len() > 0 && forall|i: int|
        0 <= i < s.len() ==> !is_space(#[trigger] s[i]) && s[i] != '(' && s[i] != ':'
}

proof fn lemma_name_end(name: Seq<char>, rest: Seq<char>)
    requires
        forall|i: int|
            0 <= i < name.len() ==> !is_space(#[trigger] name[i]) && name[i] != '(' && name[i]
                != ':',
        rest.len() == 0 || is_space(rest[0]) || rest[0] == '(' || rest[0] == ':',
    ensures
        name_end(name + rest) == name.len(),
    decreases name.len(),
{
    let s = name + rest;
    if name.len() == 0 {
        assert(s =~= rest);
    } else {
        let t = name.skip(1);
        assert(s.skip(1) =~= t + rest);
        assert(s[0] == name[0]);
        assert forall|i: int| 0 <= i < t.len() implies !is_space(#[trigger] t[i]) && t[i] != '('
            && t[i] != ':' by {
            assert(t[i] == name[i + 1]);
        }
        lemma_name_end(t, rest);
    }
}

/// The name of an alternative ends at a version in brackets, an architecture or
/// blanks; blanks before it do not count.
pub proof fn a_name_ends_at_its_version(
    blanks: Seq<char>,
    name: Seq<char>,
    rest: Seq<char>,
    more: Seq<char>,
)
    requires
        is_name(name),
        forall|i: int| 0 <= i < blanks.len() ==> is_space(#[trigger] blanks[i]),
        forall|i: int| 0 <= i < more.len() ==> is_space(#[trigger] more[i]),
        rest.len() == 0 || ((is_space(rest[0]) || rest[0] == '(' || rest[0] == ':') && !is_space(
            rest.last(),
        )),
    ensures
        alternative_name(blanks + (name + rest) + more) == name,
{
    let s = name + rest;
    assert(s[0] == name[0]);
    assert(s.last() == if rest.len() > 0 {
        rest.last()
    } else {
        name.last()
    });
    assert(!is_space(name[name.len() - 1]));
    trimming_gives_the_text_back(blanks, s, more);
    lemma_name_end(name, rest);
    assert(s.take(name.len() as int) =~= name);
    let e = Seq::<char>::empty();
    assert(!is_space(name[0]));
    trimming_gives_the_text_back(e, name, e);
    assert(e + name + e =~= name);
}

proof fn lemma_clauses(a: Seq<Seq<char>>, b: Seq<Seq<char>>)
    ensures
        clause_names(a + b) == clause_names(a) + clause_names(b),
    decreases b.len(),
{
    if b.len() == 0 {
        assert(a + b =~= a);
        assert(clause_names(a) + clause_names(b) =~= clause_names(a));
    } else {
        assert((a + b).drop_last() =~= a + b.drop_last());
        lemma_clauses(a, b.drop_last());
        assert(clause_names(a + b) =~= clause_names(a) + clause_names(b));
    }
}

proof fn lemma_alternatives(a: Seq<Seq<char>>, b: Seq<Seq<char>>)
    ensures
        alternative_names(a + b) == alternative_names(a) + alternative_names(b),
    decreases b.len(),
{
    if b.len() == 0 {
        assert(a + b =~= a);
        assert(alternative_names(a) + alternative_names(b) =~= alternative_names(a));
    } else {
        assert((a + b).drop_last() =~= a + b.drop_last());
        lemma_alternatives(a, b.drop_last());
        assert(alternative_names(a + b) =~= alternative_names(a) + alternative_names(b));
    }
}

/// The clauses of a field, with commas between them, each add their names.
pub proof fn every_clause_adds_its_names(clause: Seq<char>, rest: Seq<char>)
    requires
        !clause.contains(','),
    ensures
        relation_names(clause + seq![','] + rest) == relation_names(clause) + relation_names(rest),
{
    a_piece_ends_at_the_character(clause, ',', rest);
    lemma_clauses(seq![clause], split(rest, ','));
    assert(split(clause, ',') =~= seq![clause]);
}

/// The alternatives of a clause, with bars between them, each count.
pub proof fn every_alternative_counts(alt: Seq<char>, rest: Seq<char>)
    requires
        !alt.contains('|'),
        !alt.contains(','),
        !rest.contains(','),
    ensures
        relation_names(alt + seq!['|'] + rest) == relation_names(alt) + relation_names(rest),
        alternative_name(alt).len() > 0 ==> relation_names(alt) == seq![alternative_name(alt)],
        alternative_name(alt).len() == 0 ==> relation_names(alt).len() == 0,
{
    let all = alt + seq!['|'] + rest;
    assert(!all.contains(',')) by {
        assert forall|i: int| 0 <= i < all.len() implies all[i] != ',' by {
            if i < alt.len() {
                assert(alt.contains(alt[i]));
            } else if i > alt.len() {
                assert(rest.contains(rest[i - alt.len() - 1]));
            }
        }
    }
    lemma_one_clause(all);
    lemma_one_clause(alt);
    lemma_one_clause(rest);
    a_piece_ends_at_the_character(alt, '|', rest);
    lemma_alternatives(seq![alt], split(rest, '|'));
    assert(seq![alt].drop_last() =~= seq![]);
    assert(alternative_names(seq![]) =~= seq![]);
    assert(alternative_name(alt).len() > 0 ==> alternative_names(seq![alt]) =~= seq![
        alternative_name(alt),
    ]);
}

proof fn lemma_one_clause(s: Seq<char>)
    requires
        !s.contains(','),
    ensures
        relation_names(s) == alternative_names(split(s, '|')),
{
    a_piece_ends_at_the_character(s, ',', seq![]);
    let v = seq![s];
    assert(v.drop_last() =~= seq![]);
    assert(clause_names(seq![]) =~= seq![]);
    assert(clause_names(v) =~= alternative_names(split(s, '|')));
}

/// A line of the installed packages: its state, name, three fields of what it
/// needs and one of what it provides, with tabs between them. The name counts
/// without its architecture, and a package in another state not at all.
pub proof fn a_package_line_is_read(
    ls: Seq<Seq<char>>,
    state: Seq<char>,
    name: Seq<char>,
    a: Seq<char>,
    b: Seq<char>,
    c: Seq<char>,
    given: Seq<char>,
)
    requires
        !state.contains('\t'),
        !name.contains('\t'),
        !a.contains('\t'),
        !b.contains('\t'),
        !c.contains('\t'),
        !given.contains('\t'),
    ensures
        ({
            let line = state + seq!['\t'] + (name + seq!['\t'] + (a + seq!['\t'] + (b + seq!['\t']
                + (c + seq!['\t'] + given))));
            &&& state == "installed"@ ==> line_records(ls.push(line)) == line_records(ls).push(
                (RecordView {
                    package: bare_name(name),
                    needs: relation_names(a) + relation_names(b) + relation_names(c),
                    provides: relation_names(given),
                }),
            )
            &&& state != "installed"@ ==> line_records(ls.push(line)) == line_records(ls)
        }),
{
    let s5 = c + seq!['\t'] + given;
    let s4 = b + seq!['\t'] + s5;
    let s3 = a + seq!['\t'] + s4;
    let s2 = name + seq!['\t'] + s3;
    let line = state + seq!['\t'] + s2;
    a_piece_ends_at_the_character(state, '\t', s2);
    a_piece_ends_at_the_character(name, '\t', s3);
    a_piece_ends_at_the_character(a, '\t', s4);
    a_piece_ends_at_the_character(b, '\t', s5);
    a_piece_ends_at_the_character(c, '\t', given);
    a_piece_ends_at_the_character(given, '\t', seq![]);
    assert(split(s5, '\t') =~= seq![c, given]);
    assert(split(s4, '\t') =~= seq![b, c, given]);
    assert(split(s3, '\t') =~= seq![a, b, c, given]);
    assert(split(s2, '\t') =~= seq![name, a, b, c, given]);
    assert(split(line, '\t') =~= seq![state, name, a, b, c, given]);
    assert(ls.push(line).drop_last() =~= ls);
}

/// The name of a package is what stands before its architecture.
pub proof fn a_name_stands_before_its_architecture(name: Seq<char>, arch: Seq<char>)
    requires
        !name.contains(':'),
    ensures
        bare_name(name) == name,
        bare_name(name + seq![':'] + arch) == name,
{
    a_piece_ends_at_the_character(name, ':', arch);
}

/// An installed package that another's record names is needed by it.
pub proof fn a_named_package_is_needed(records: Seq<RecordView>, i: int, d: int, k: int)
    requires
        0 <= i < records.len(),
        0 <= d < records[i].needs.len(),
        0 <= k < records.len(),
        records[k].package == records[i].needs[d],
    ensures
        depends(records, records[k].package, records[i].package),
{
    let (name, by) = (records[k].package, records[i].package);
    assert(has_package(records, name));
    assert(meets(records, name, by, records[i].needs[d]));
}

/// So is one that provides what the record names, unless it is the same package.
pub proof fn a_provider_is_needed(records: Seq<RecordView>, i: int, d: int, k: int)
    requires
        0 <= i < records.len(),
        0 <= d < records[i].needs.len(),
        0 <= k < records.len(),
        records[k].provides.contains(records[i].needs[d]),
        records[k].package != records[i].package,
    ensures
        depends(records, records[k].package, records[i].package),
{
    let (name, by) = (records[k].package, records[i].package);
    assert(provides(records, name, records[i].needs[d]));
    assert(meets(records, name, by, records[i].needs[d]));
}

/// Nothing else is needed: some record of the other names it, or names what it
/// provides.
pub proof fn nothing_else_is_needed(records: Seq<RecordView>, name: Seq<char>, by: Seq<char>)
    requires
        depends(records, name, by),
    ensures
        exists|i: int, k: int|
            0 <= i < records.len() && (#[trigger] records[i]).package == by && 0 <= k
                < records.len() && (#[trigger] records[k]).package == name && (
            records[i].needs.contains(name) || exists|d: int|
                0 <= d < records[i].needs.len() && exists|m: int|
                    0 <= m < records.len() && (#[trigger] records[m]).package == name
                        && records[m].provides.contains(#[trigger] records[i].needs[d])),
{
    let (i, d) = choose|i: int, d: int|
        0 <= i < records.len() && (#[trigger] records[i]).package == by && 0 <= d
            < records[i].needs.len() && meets(records, name, by, #[trigger] records[i].needs[d]);
    let what = records[i].needs[d];
    if what == name && has_package(records, name) {
        let k = choose|k: int| 0 <= k < records.len() && (#[trigger] records[k]).package == name;
        assert(records[i].needs.contains(name));
        assert(records[k].package == name);
    } else {
        let m = choose|m: int|
            0 <= m < records.len() && (#[trigger] records[m]).package == name
                && records[m].provides.contains(what);
        assert(records[m].package == name);
        assert(records[m].provides.contains(records[i].needs[d]));
    }
}

/// No chain to a package installed on purpose is shorter than the one told, and of
/// those as short none comes before it.
pub proof fn the_shortest_chain_is_told(
    g: Graph,
    target: Seq<char>,
    path: Seq<Seq<char>>,
    q: Seq<Seq<char>>,
)
    requires
        is_nearest(g, target, path),
        reaches_root(g, target, q),
    ensures
        path.len() <= q.len(),
        path.len() == q.len() ==> path == q || path_lt(path, q),
{
    assert(path_up_to(path, q));
}

/// Of two chains as long the earlier is the one whose first difference from the
/// package on has the earlier name.
pub proof fn the_earlier_name_decides_between_chains(
    p: Seq<Seq<char>>,
    a: Seq<char>,
    b: Seq<char>,
)
    requires
        text_lt(a, b),
    ensures
        path_lt(p.push(a), p.push(b)),
{
    assert(p.push(a).drop_last() =~= p);
    assert(p.push(b).drop_last() =~= p);
}

/// A line of fewer than six fields tells of no package.
pub proof fn a_short_line_tells_of_no_package(ls: Seq<Seq<char>>, line: Seq<char>)
    requires
        split(line, '\t').len() < 6,
    ensures
        line_records(ls.push(line)) == line_records(ls),
        line_records(seq![]).len() == 0,
{
    assert(ls.push(line).drop_last() =~= ls);
}

/// What a package provides itself does not make it need itself.
pub proof fn a_package_does_not_need_what_it_provides(records: Seq<RecordView>, name: Seq<char>)
    requires
        depends(records, name, name),
    ensures
        exists|i: int|
            0 <= i < records.len() && (#[trigger] records[i]).package == name
                && records[i].needs.contains(name),
{
    let (i, d) = choose|i: int, d: int|
        0 <= i < records.len() && (#[trigger] records[i]).package == name && 0 <= d
            < records[i].needs.len() && meets(records, name, name, #[trigger] records[i].needs[d]);
    assert(records[i].needs[d] == name);
    assert(records[i].needs.contains(name));
}

} // verus!
