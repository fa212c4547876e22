//! Laws of what is installed from where, and of what provides a file or command.

use vstd::prelude::*;

use crate::cnf::{found_path, full_lines, is_meta, meant, missing_lines};
use crate::config::below;
use crate::install::{
    assembled, base_name, before_query, free_name, is_plain, saved_as, stands_for, variant,
    GivenView, SpecKind,
};
use crate::laws::text::{
    a_character_is_taken_off_again, a_cut_gives_the_parts_back, a_cut_is_made_at_the_first_place,
    a_last_cut_gives_the_parts_back, a_piece_ends_at_the_character, a_text_is_held_where_it_is_put,
    trimming_gives_the_text_back,
};
use crate::lists::versions_rel;
use crate::number::decimal;
use crate::order::text_le;
use crate::provides::{by_file, line_pair, line_pairs, once, owner_of};
use crate::selfupdate::{
    filled, is_build, is_own_build, is_pick, no_newer, os_tag, os_value, os_version, repo_of,
    tag_version,
};
use crate::text::{
    cut, has_prefix, has_suffix, has_text, is_space, lines, occurs_at, split, split_by, trim,
    trim_start_char,
};
use crate::version::Rel;

verus! {

// ---------------------------------------------------------------------------
// Names of files
// ---------------------------------------------------------------------------

proof fn lemma_before_query(a: Seq<char>, c: char, b: Seq<char>)
    requires
        !a.contains('?'),
        !a.contains('#'),
        c == '?' || c == '#',
    ensures
        before_query(a) == a,
        before_query(a + seq![c] + b) == a,
    decreases a.len() + b.len(),
{
    if a.len() > 0 {
        let d = a.drop_last();
        assert(!d.contains('?') && !d.contains('#')) by {
            assert forall|i: int| 0 <= i < d.len() implies d[i] != '?' && d[i] != '#' by {
                assert(a.contains(a[i]));
            }
        }
        lemma_before_query(d, c, seq![]);
        assert(a.contains(a[a.len() - 1]));
    } else {
        assert(a =~= seq![]);
    }
    let s = a + seq![c] + b;
    if b.len() == 0 {
        assert(s.drop_last() =~= a);
        assert(s.last() == c);
        assert(before_query(a) == a);
        assert(before_query(s) == before_query(s.drop_last()));
    } else {
        assert(s.drop_last() =~= a + seq![c] + b.drop_last());
        lemma_before_query(a, c, b.drop_last());
        assert(before_query(s.drop_last()) == a);
        assert(before_query(s) == before_query(s.drop_last()));
    }
}

/// A remote package is saved under the last part of its address, without the
/// query or fragment behind it.
pub proof fn an_address_gives_the_name(dir: Seq<char>, name: Seq<char>, c: char, query: Seq<char>)
    requires
        !dir.contains('?'),
        !dir.contains('#'),
        !name.contains('?'),
        !name.contains('#'),
        !name.contains('/'),
        !name.contains('\0'),
        name.len() > 0,
        name != "."@,
        name != ".."@,
        c == '?' || c == '#',
    ensures
        saved_as(dir + seq!['/'] + name) == name,
        saved_as(dir + seq!['/'] + name + seq![c] + query) == name,
        saved_as(dir + seq!['/']) == "package.deb"@,
{
    let a = dir + seq!['/'] + name;
    let d = dir + seq!['/'];
    assert(!a.contains('?') && !a.contains('#') && !d.contains('?') && !d.contains('#')) by {
        assert forall|i: int| 0 <= i < a.len() implies a[i] != '?' && a[i] != '#' by {
            if i < dir.len() {
                assert(dir.contains(dir[i]));
            } else if i > dir.len() {
                assert(name.contains(name[i - dir.len() - 1]));
            }
        }
        assert forall|i: int| 0 <= i < d.len() implies d[i] != '?' && d[i] != '#' by {
            if i < dir.len() {
                assert(dir.contains(dir[i]));
            }
        }
    }
    lemma_before_query(a, c, query);
    lemma_before_query(d, c, query);
    a_last_cut_gives_the_parts_back(dir, '/', name);
    let e = Seq::<char>::empty();
    a_last_cut_gives_the_parts_back(dir, '/', e);
    assert(d =~= dir + seq!['/'] + e);
}

/// A name that is taken gets a number before its last dot.
pub proof fn a_taken_name_gets_a_number(stem: Seq<char>, ext: Seq<char>, n: nat)
    requires
        !ext.contains('.'),
        ext.len() > 0,
    ensures
        variant(stem + seq!['.'] + ext, n) == stem + "-"@ + decimal(n) + "."@ + ext,
        variant(ext, n) == ext + "-"@ + decimal(n),
{
    a_last_cut_gives_the_parts_back(stem, '.', ext);
}

/// A free name is taken as it is.
pub proof fn a_free_name_stays(name: Seq<char>, used: Set<Seq<char>>)
    requires
        !used.contains(name),
    ensures
        free_name(name, used) == name,
{
}

/// A web address is fetched, a file of that name with the suffix is installed from
/// disk, and anything else is the name of a package.
pub proof fn a_request_is_told_by_its_looks(rest: Seq<char>, other: Seq<char>, is_file: bool)
    requires
        !has_prefix(other, "http://"@),
        !has_prefix(other, "https://"@),
    ensures
        stands_for("http://"@ + rest, is_file) == SpecKind::Url,
        stands_for("https://"@ + rest, is_file) == SpecKind::Url,
        stands_for(other, is_file) == SpecKind::File <==> is_file && has_suffix(other, ".deb"@),
        stands_for(other, is_file) == SpecKind::Name <==> !is_file || !has_suffix(other, ".deb"@),
{
    a_text_is_held_where_it_is_put(seq![], "http://"@, rest);
    a_text_is_held_where_it_is_put(seq![], "https://"@, rest);
}

/// Every request becomes an argument of one install, in order; only the named
/// packages count as named, and only the addresses are fetched.
pub proof fn every_request_is_installed(v: Seq<GivenView>, dir: Seq<char>, g: GivenView)
    ensures
        assembled(seq![], dir).args == seq!["install"@],
        assembled(seq![], dir).named.len() == 0,
        assembled(seq![], dir).fetch.len() == 0,
        g matches GivenView::Name(name) ==> assembled(v.push(g), dir).args == assembled(
            v,
            dir,
        ).args.push(name) && assembled(v.push(g), dir).named == assembled(v, dir).named.push(name)
            && assembled(v.push(g), dir).fetch == assembled(v, dir).fetch,
        g matches GivenView::File(path) ==> assembled(v.push(g), dir).args == assembled(
            v,
            dir,
        ).args.push(path) && assembled(v.push(g), dir).named == assembled(v, dir).named
            && assembled(v.push(g), dir).fetch == assembled(v, dir).fetch,
        g matches GivenView::Url(url) ==> {
            let (a, b) = (assembled(v, dir), assembled(v.push(g), dir));
            &&& b.named == a.named
            &&& b.fetch.len() == a.fetch.len() + 1
            &&& b.fetch.last().url == url
            &&& b.fetch.last().hash is None
            &&& b.args == a.args.push(below(dir, b.fetch.last().filename))
        },
{
    assert(v.push(g).drop_last() =~= v);
}

// ---------------------------------------------------------------------------
// Owners of files
// ---------------------------------------------------------------------------

/// A line `package: file` tells an owner: of several the first, without its
/// architecture.
pub proof fn an_owner_line_is_read(
    ls: Seq<Seq<char>>,
    pkg: Seq<char>,
    arch: Seq<char>,
    more: Seq<char>,
    file: Seq<char>,
)
    requires
        pkg.len() > 0,
        !pkg.contains(':'),
        !pkg.contains(','),
        !pkg.contains(' '),
        !is_space(pkg[0]),
        !is_space(pkg.last()),
        !arch.contains(','),
        !arch.contains(' '),
        !arch.contains(':'),
        !more.contains(':'),
        file.len() > 0,
        !is_space(file[0]),
        !is_space(file.last()),
    ensures
        line_pairs(ls.push(pkg + ": "@ + file)) == line_pairs(ls).push((pkg, file)),
        line_pairs(ls.push(pkg + seq![':'] + arch + ": "@ + file)) == line_pairs(ls).push(
            (pkg, file),
        ),
        line_pairs(ls.push(pkg + seq![','] + more + ": "@ + file)) == line_pairs(ls).push(
            (pkg, file),
        ),
{
    let (a, b) = (pkg + seq![':'] + arch, pkg + seq![','] + more);
    a_piece_ends_at_the_character(pkg, ',', more);
    a_piece_ends_at_the_character(pkg, ':', arch);
    assert(!a.contains(',')) by {
        assert forall|i: int| 0 <= i < a.len() implies a[i] != ',' by {
            if i < pkg.len() {
                assert(pkg.contains(pkg[i]));
            } else if i > pkg.len() {
                assert(arch.contains(arch[i - pkg.len() - 1]));
            }
        }
    }
    a_piece_ends_at_the_character(a, ',', more);
    assert(!a.contains(' ')) by {
        assert forall|i: int| 0 <= i < a.len() implies a[i] != ' ' by {
            if i < pkg.len() {
                assert(pkg.contains(pkg[i]));
            } else if i > pkg.len() {
                assert(arch.contains(arch[i - pkg.len() - 1]));
            }
        }
    }
    assert(!b.contains(':')) by {
        assert forall|i: int| 0 <= i < b.len() implies b[i] != ':' by {
            if i < pkg.len() {
                assert(pkg.contains(pkg[i]));
            } else if i > pkg.len() {
                assert(more.contains(more[i - pkg.len() - 1]));
            }
        }
    }
    lemma_owner(ls, pkg, pkg, file);
    lemma_owner(ls, pkg, a, file);
    lemma_owner(ls, pkg, b, file);
}

proof fn lemma_owner(ls: Seq<Seq<char>>, pkg: Seq<char>, names: Seq<char>, file: Seq<char>)
    requires
        pkg.len() > 0,
        !is_space(pkg[0]),
        !is_space(pkg.last()),
        file.len() > 0,
        !is_space(file[0]),
        !is_space(file.last()),
        !names.contains(':') || !names.contains(' '),
        split(split(names, ',')[0], ':')[0] == pkg,
    ensures
        line_pairs(ls.push(names + ": "@ + file)) == line_pairs(ls).push((pkg, file)),
{
    let line = names + ": "@ + file;
    assert(ls.push(line).drop_last() =~= ls);
    reveal_strlit(": ");
    let p = ": "@;
    assert(line.subrange(names.len() as int, names.len() as int + 2) =~= p);
    assert forall|j: int| 0 <= j < names.len() implies !occurs_at(line, p, j) by {
        if occurs_at(line, p, j) {
            assert(line.subrange(j, j + 2)[0] == line[j]);
            assert(line.subrange(j, j + 2)[1] == line[j + 1]);
            assert(names[j] == ':');
            assert(names.contains(':'));
            if j + 1 < names.len() {
                assert(names[j + 1] == ' ');
                assert(names.contains(' '));
            }
        }
    }
    crate::text::lemma_cut(line, p, names.len() as int);
    assert(line.take(names.len() as int) =~= names);
    assert(line.skip(names.len() + 2int) =~= file);
    let e = Seq::<char>::empty();
    trimming_gives_the_text_back(e, pkg, e);
    assert(e + pkg + e =~= pkg);
    trimming_gives_the_text_back(e, file, e);
    assert(e + file + e =~= file);
}

/// What is found is listed once, and nothing of it is lost.
pub proof fn each_owner_is_listed_once(ps: Seq<(Seq<char>, Seq<char>)>, p: (Seq<char>, Seq<char>))
    ensures
        once(ps).no_duplicates(),
        once(ps).contains(p) <==> ps.contains(p),
    decreases ps.len(),
{
    if ps.len() > 0 {
        let before = ps.drop_last();
        each_owner_is_listed_once(before, p);
        each_owner_is_listed_once(before, ps.last());
        let (u, v) = (once(before), once(ps));
        if before.contains(p) {
            let k = choose|k: int| 0 <= k < before.len() && before[k] == p;
            assert(ps[k] == p);
        }
        if ps.contains(p) {
            let k = choose|k: int| 0 <= k < ps.len() && ps[k] == p;
            if k < before.len() {
                assert(before[k] == p);
            }
        }
        assert(ps[ps.len() - 1] == ps.last());
        if u.contains(p) {
            let k = choose|k: int| 0 <= k < u.len() && u[k] == p;
            assert(v[k] == p);
        }
        if v.contains(p) {
            let k = choose|k: int| 0 <= k < v.len() && v[k] == p;
            if k < u.len() {
                assert(u[k] == p);
            }
        }
        if !u.contains(ps.last()) {
            assert(v[v.len() - 1] == ps.last());
            assert forall|i: int, j: int| 0 <= i < v.len() && 0 <= j < v.len() && i
                != j implies v[i] != v[j] by {
                if i < u.len() && j < u.len() {
                    assert(u[i] != u[j]);
                } else if i < u.len() {
                    assert(u.contains(u[i]));
                } else {
                    assert(u.contains(u[j]));
                }
            }
        }
    }
}

/// A file whose own name is what was asked for comes before the others; beyond
/// that, files go in their order.
pub proof fn the_file_asked_for_comes_first(
    pattern: Seq<char>,
    pkg: Seq<char>,
    dir: Seq<char>,
    other: (Seq<char>, Seq<char>),
)
    requires
        !pattern.contains('/'),
        split(other.1, '/').last() != pattern,
    ensures
        by_file(pattern)((pkg, dir + seq!['/'] + pattern), other),
        !by_file(pattern)(other, (pkg, dir + seq!['/'] + pattern)),
{
    lemma_last_piece(dir, pattern);
}

proof fn lemma_last_piece(dir: Seq<char>, name: Seq<char>)
    requires
        !name.contains('/'),
    ensures
        split(dir + seq!['/'] + name, '/').last() == name,
    decreases dir.len(),
{
    let s = dir + seq!['/'] + name;
    a_piece_ends_at_the_character(name, '/', seq![]);
    if dir.contains('/') {
        crate::text::lemma_index_of_range(dir, '/');
        let k = crate::text::index_of(dir, '/');
        lemma_first_at(dir, '/');
        let (a, b) = (dir.take(k), dir.skip(k + 1));
        assert(dir =~= a + seq!['/'] + b);
        assert(s =~= a + seq!['/'] + (b + seq!['/'] + name));
        a_piece_ends_at_the_character(a, '/', b + seq!['/'] + name);
        lemma_last_piece(b, name);
        let rest = split(b + seq!['/'] + name, '/');
        assert(rest.len() > 0);
        assert((seq![a] + rest).last() == rest.last());
    } else {
        a_piece_ends_at_the_character(dir, '/', name);
        assert((seq![dir] + seq![name]).last() == name);
    }
}

proof fn lemma_first_at(s: Seq<char>, c: char)
    requires
        s.contains(c),
    ensures
        0 <= crate::text::index_of(s, c) < s.len(),
        s[crate::text::index_of(s, c)] == c,
        !s.take(crate::text::index_of(s, c)).contains(c),
    decreases s.len(),
{
    let k = crate::text::index_of(s, c);
    if s[0] == c {
        assert(s.take(0) =~= seq![]);
    } else {
        let t = s.skip(1);
        let j = choose|j: int| 0 <= j < s.len() && s[j] == c;
        assert(t[j - 1] == c);
        lemma_first_at(t, c);
        let m = crate::text::index_of(t, c);
        assert(k == m + 1);
        assert(s[k] == t[m]);
        let (u, v) = (s.take(k), t.take(m));
        if u.contains(c) {
            let i = choose|i: int| 0 <= i < u.len() && u[i] == c;
            assert(i > 0);
            assert(v[i - 1] == c);
        }
    }
}

// ---------------------------------------------------------------------------
// Commands that are missing
// ---------------------------------------------------------------------------

/// What apt-file finds is meant; without any, a package of the command's own name.
pub proof fn a_missing_command_means_what_was_found(
    cmd: Seq<char>,
    found: Seq<Seq<char>>,
    same_named: bool,
    p: Seq<char>,
)
    ensures
        found.len() > 0 ==> (meant(cmd, found, same_named).contains(p) <==> found.contains(p)),
        found.len() == 0 && same_named ==> (meant(cmd, found, same_named).contains(p) <==> p == cmd),
        found.len() == 0 && !same_named ==> !meant(cmd, found, same_named).contains(p),
{
    assert(seq![cmd][0] == cmd);
}

/// A command is there exactly where the shell names an absolute path for it.
pub proof fn a_command_is_there_by_its_path(path: Seq<char>)
    requires
        path.len() > 0,
        !is_space(path.last()),
    ensures
        path[0] == '/' ==> found_path(true, path) == Some(path),
        path[0] != '/' && !is_space(path[0]) ==> found_path(true, path) is None,
        found_path(false, path) is None,
{
    reveal_strlit("/");
    assert(!is_space('/'));
    let e = Seq::<char>::empty();
    if !is_space(path[0]) {
        trimming_gives_the_text_back(e, path, e);
        assert(e + path + e =~= path);
        assert(path.take(1)[0] == path[0]);
        if path[0] == '/' {
            assert(path.take(1) =~= "/"@);
        }
    }
}

/// The characters that mean something in a pattern, all of them.
pub proof fn the_pattern_characters_are_known(c: char)
    ensures
        is_meta('.') && is_meta('^') && is_meta('$') && is_meta('*') && is_meta('+') && is_meta('?'),
        is_meta('(') && is_meta(')') && is_meta('[') && is_meta(']') && is_meta('{') && is_meta('}'),
        is_meta('|') && is_meta('\\') && is_meta('/'),
        crate::text::is_letter(c) || crate::text::is_digit(c) || c == '-' || c == '_' ==> !is_meta(c),
{
}

// ---------------------------------------------------------------------------
// The program itself
// ---------------------------------------------------------------------------

/// A release's version is its tag without the `v` before it.
pub proof fn a_tag_is_a_version_behind_v(version: Seq<char>)
    requires
        version.len() == 0 || (version[0] != 'v' && version.last() != 'v'),
    ensures
        tag_version(seq!['v'] + version) == version,
        tag_version(version) == version,
{
    a_character_is_taken_off_again(version, 'v');
}

/// The version of Ubuntu a build is for stands behind `_ubuntu`, up to the next
/// underscore.
pub proof fn a_build_names_its_ubuntu(a: Seq<char>, version: Seq<char>, b: Seq<char>)
    requires
        !has_text(a, "_ubuntu"@),
        forall|j: int|
            0 <= j < a.len() ==> !occurs_at(
                a + "_ubuntu"@ + (version + seq!['_'] + b),
                "_ubuntu"@,
                j,
            ),
        !has_text(version + seq!['_'] + b, "_ubuntu"@),
        !version.contains('_'),
        version.len() > 0,
    ensures
        os_version(a + "_ubuntu"@ + (version + seq!['_'] + b)) == Some(version),
        os_version(a) is None,
{
    let p = "_ubuntu"@;
    let rest = version + seq!['_'] + b;
    let s = a + p + rest;
    reveal_strlit("_ubuntu");
    assert(s.subrange(a.len() as int, a.len() as int + p.len()) =~= p);
    crate::text::lemma_cut(s, p, a.len() as int);
    assert(s.take(a.len() as int) =~= a);
    assert(s.skip(a.len() as int + p.len()) =~= rest);
    a_cut_is_made_at_the_first_place(rest, p);
    if let Some((x, y)) = cut(rest, p) {
        a_text_is_held_where_it_is_put(x, p, y);
    }
    a_cut_is_made_at_the_first_place(a, p);
    if let Some((x, y)) = cut(a, p) {
        a_text_is_held_where_it_is_put(x, p, y);
    }
    assert(split_by(rest, p) =~= seq![rest]);
    assert(split_by(s, p) =~= seq![a] + split_by(rest, p));
    assert(split_by(s, p) =~= seq![a, rest]);
    assert(split_by(a, p) =~= seq![a]);
    a_piece_ends_at_the_character(version, '_', b);
}

/// A build for the machine's own system is chosen wherever there is one; else, of
/// the builds for its architecture, the one for the oldest system.
pub proof fn the_fitting_build_is_chosen(
    names: Seq<Seq<char>>,
    arch: Seq<char>,
    host: Option<Seq<char>>,
    i: int,
    j: int,
)
    requires
        is_pick(names, arch, host, i),
        0 <= j < names.len(),
    ensures
        0 <= i < names.len(),
        has_suffix(names[j], "_"@ + arch + ".deb"@) ==> has_suffix(names[i], "_"@ + arch + ".deb"@),
        is_own_build(names[j], arch, host) ==> is_own_build(names[i], arch, host),
        is_build(names[j], arch) && !(exists|k: int|
            0 <= k < names.len() && is_own_build(#[trigger] names[k], arch, host)) ==> (os_version(
            names[i],
        ) is None || (os_version(names[j]) is Some && versions_rel(
            os_version(names[i])->0,
            os_version(names[j])->0,
        ) != Rel::Greater)),
{
    let a = crate::selfupdate::a_build(arch);
    let o = crate::selfupdate::an_own_build(arch, host);
    if is_build(names[j], arch) {
        assert(a(names[j]));
        assert(crate::selfupdate::some_name(names, a));
    }
    if is_own_build(names[j], arch, host) {
        assert(o(names[j]));
        assert(crate::selfupdate::some_name(names, o));
    }
    if crate::selfupdate::some_name(names, o) {
        let k = choose|k: int| 0 <= k < names.len() && o(#[trigger] names[k]);
        assert(is_own_build(names[k], arch, host));
    }
}

/// A blank setting counts as none.
pub proof fn a_blank_setting_counts_as_none(s: Seq<char>)
    ensures
        trim(s).len() == 0 ==> filled(Some(s)) is None,
        trim(s).len() > 0 ==> filled(Some(s)) == Some(s),
        filled(None) is None,
{
}

/// A taken name gets the first number that is free.
pub proof fn the_first_free_number_is_taken(name: Seq<char>, used: Set<Seq<char>>, n: nat)
    requires
        used.contains(name),
        1 <= n,
        !used.contains(variant(name, n)),
        forall|m: nat| 1 <= m < n ==> used.contains(#[trigger] variant(name, m)),
    ensures
        free_name(name, used) == variant(name, n),
{
    assert(crate::install::is_first_free(name, used, n));
    let k = choose|k: nat| crate::install::is_first_free(name, used, k);
    if k < n {
        assert(used.contains(variant(name, k)));
    }
    if n < k {
        assert(used.contains(variant(name, n)));
    }
}

/// Files whose names are all asked for, or all not, go in their order.
pub proof fn other_files_go_in_their_order(
    pattern: Seq<char>,
    a: (Seq<char>, Seq<char>),
    b: (Seq<char>, Seq<char>),
)
    requires
        (split(a.1, '/').last() == pattern) == (split(b.1, '/').last() == pattern),
    ensures
        by_file(pattern)(a, b) == text_le(a.1, b.1),
{
}

/// Without a build for the architecture the first package of the release is
/// chosen; of several builds for the own system the first.
pub proof fn the_first_fitting_package_is_chosen(
    names: Seq<Seq<char>>,
    arch: Seq<char>,
    host: Option<Seq<char>>,
    i: int,
    j: int,
)
    requires
        is_pick(names, arch, host, i),
        0 <= j < i,
    ensures
        (forall|k: int| 0 <= k < names.len() ==> !is_build(#[trigger] names[k], arch))
            ==> has_suffix(names[i], ".deb"@) && !has_suffix(names[j], ".deb"@),
        is_own_build(names[i], arch, host) ==> !is_own_build(names[j], arch, host),
{
    let a = crate::selfupdate::a_build(arch);
    let o = crate::selfupdate::an_own_build(arch, host);
    let p = crate::selfupdate::a_package();
    if forall|k: int| 0 <= k < names.len() ==> !is_build(#[trigger] names[k], arch) {
        assert forall|k: int| 0 <= k < names.len() implies !a(#[trigger] names[k]) by {
        }
        assert(!crate::selfupdate::some_name(names, a));
        assert(p(names[i]) && !p(names[j]));
    }
    if is_own_build(names[i], arch, host) {
        assert(o(names[i]));
        assert(a(names[i]));
        assert(crate::selfupdate::some_name(names, o));
        assert(crate::selfupdate::some_name(names, a));
        assert(!o(names[j]));
    }
}

/// The lines that apt-file gives are taken without blanks, and blank ones not.
pub proof fn blank_answers_are_left_out(ls: Seq<Seq<char>>, line: Seq<char>)
    ensures
        full_lines(seq![]).len() == 0,
        trim(line).len() > 0 ==> full_lines(ls.push(line)) == full_lines(ls).push(trim(line)),
        trim(line).len() == 0 ==> full_lines(ls.push(line)) == full_lines(ls),
{
    assert(ls.push(line).drop_last() =~= ls);
}

/// A build is one for the architecture by the end of its name, and one for the own
/// system where the system's tag stands in it between underscores.
pub proof fn a_build_is_told_by_its_name(
    a: Seq<char>,
    tag: Seq<char>,
    b: Seq<char>,
    arch: Seq<char>,
    other: Seq<char>,
)
    ensures
        is_build(a + ("_"@ + arch + ".deb"@), arch),
        is_own_build(
            a + ("_"@ + tag + "_"@) + b + ("_"@ + arch + ".deb"@),
            arch,
            Some(tag),
        ),
        !has_suffix(other, "_"@ + arch + ".deb"@) ==> !is_build(other, arch) && !is_own_build(
            other,
            arch,
            Some(tag),
        ),
        !has_text(other, "_"@ + tag + "_"@) ==> !is_own_build(other, arch, Some(tag)),
        !is_own_build(other, arch, None),
{
    let e = "_"@ + arch + ".deb"@;
    let t = "_"@ + tag + "_"@;
    a_text_is_held_where_it_is_put(a, e, seq![]);
    a_text_is_held_where_it_is_put(a + t + b, e, seq![]);
    a_text_is_held_where_it_is_put(a, t, b + e);
    assert(a + t + b + e =~= a + t + (b + e));
}

/// A line without a colon and a blank tells no owner.
pub proof fn other_lines_tell_no_owner(ls: Seq<Seq<char>>, line: Seq<char>)
    requires
        !has_text(line, ": "@),
    ensures
        line_pairs(ls.push(line)) == line_pairs(ls),
        line_pairs(seq![]).len() == 0,
{
    assert(ls.push(line).drop_last() =~= ls);
    a_cut_is_made_at_the_first_place(line, ": "@);
    if let Some((x, y)) = cut(line, ": "@) {
        a_text_is_held_where_it_is_put(x, ": "@, y);
    }
}

/// Releases come from the repository named in the environment, else from that in
/// the settings, else from the program's own.
pub proof fn releases_come_from_the_named_repository(e: Seq<char>, c: Seq<char>)
    ensures
        trim(e).len() > 0 ==> repo_of(Some(e), Some(c)) == e && repo_of(Some(e), None) == e,
        trim(e).len() == 0 && trim(c).len() > 0 ==> repo_of(Some(e), Some(c)) == c,
        trim(c).len() > 0 ==> repo_of(None, Some(c)) == c,
        repo_of(None, None) == "marc-cr1810/wrapt"@,
{
}

} // verus!
