//! Laws of the health checks: what makes each one warn.

use vstd::prelude::*;

use crate::apt::lines_after;
use crate::doctor::{
    all_keys, boot_check, broken_check, dependency_check, duplicate_check, entry_key, entry_keys,
    held_check, indented, kernel_count, lists_repeated, orphan_check, preview_texts, removals,
    repeated, report, tally, CheckView, Status,
};
use crate::number::decimal;
use crate::repo::{FileView, SourceView};
use crate::text::{has_prefix, has_text, join, lines, split, trim, words};
use crate::ui::{size_text, LineView};

verus! {

/// `/boot` is warned of exactly where its free space is known and less than
/// 200 MiB; otherwise it is fine.
pub proof fn a_boot_below_200_mib_is_warned_of(kernels: nat, free: Option<u64>)
    ensures
        boot_check(kernels, free).status == Status::Warn <==> (free is Some && free->0 < 200 * 1024
            * 1024),
        boot_check(kernels, free).status == Status::Fine <==> (free is None || free->0 >= 200 * 1024
            * 1024),
        boot_check(kernels, free).status == Status::Warn <==> boot_check(kernels, free).fix is Some,
        boot_check(kernels, free).status == Status::Warn ==> boot_check(kernels, free).fix == Some(
            "wrapt autoremove"@,
        ) && boot_check(kernels, free).detail == seq![decimal(kernels) + " kernel(s) installed"@],
{
}

/// Of two amounts of free space the smaller is warned of wherever the larger is.
pub proof fn less_space_is_no_better(kernels: nat, less: u64, more: u64)
    requires
        less <= more,
        boot_check(kernels, Some(more)).status != Status::Fine,
    ensures
        boot_check(kernels, Some(less)).status != Status::Fine,
{
}

/// The kernels are the files whose names begin with `vmlinuz-`: one more such
/// file is one more kernel, any other file none.
pub proof fn kernels_are_counted_by_their_images(files: Seq<Seq<char>>, rest: Seq<char>, other: Seq<
    char,
>)
    requires
        !has_prefix(other, "vmlinuz-"@),
    ensures
        kernel_count(seq![]) == 0,
        kernel_count(files.push("vmlinuz-"@ + rest)) == kernel_count(files) + 1,
        kernel_count(files.push(other)) == kernel_count(files),
{
    let name = "vmlinuz-"@ + rest;
    assert(name.take("vmlinuz-"@.len() as int) =~= "vmlinuz-"@);
    assert(files.push(name).drop_last() =~= files);
    assert(files.push(other).drop_last() =~= files);
}

/// An audit names a broken package in each line that begins with a blank; one
/// such line is a problem, and none of them is fine.
pub proof fn an_audited_package_is_a_problem(audit: Seq<char>)
    ensures
        broken_check(Some(audit)).status == Status::Problem <==> exists|i: int|
            0 <= i < lines(audit).len() && has_prefix(#[trigger] lines(audit)[i], " "@),
        broken_check(Some(audit)).status != Status::Warn,
        broken_check(None).status == Status::Fine,
        forall|i: int|
            0 <= i < lines(audit).len() && has_prefix(#[trigger] lines(audit)[i], " "@)
                ==> broken_check(Some(audit)).detail.contains(trim(lines(audit)[i])),
{
    lemma_indented(lines(audit));
}

proof fn lemma_indented(ls: Seq<Seq<char>>)
    ensures
        forall|i: int|
            0 <= i < ls.len() && has_prefix(#[trigger] ls[i], " "@) ==> indented(ls).contains(
                trim(ls[i]),
            ),
        indented(ls).len() > 0 ==> exists|i: int|
            0 <= i < ls.len() && has_prefix(#[trigger] ls[i], " "@),
    decreases ls.len(),
{
    if ls.len() > 0 {
        let before = ls.drop_last();
        lemma_indented(before);
        assert forall|i: int| 0 <= i < ls.len() && has_prefix(#[trigger] ls[i], " "@) implies indented(
            ls,
        ).contains(trim(ls[i])) by {
            if i < before.len() {
                assert(before[i] == ls[i]);
                let k = choose|k: int|
                    0 <= k < indented(before).len() && indented(before)[k] == trim(ls[i]);
                assert(indented(ls)[k] == trim(ls[i]));
            } else {
                assert(indented(ls).last() == trim(ls[i]));
            }
        }
        if indented(before).len() > 0 {
            let i = choose|i: int| 0 <= i < before.len() && has_prefix(#[trigger] before[i], " "@);
            assert(ls[i] == before[i]);
        }
        if has_prefix(ls.last(), " "@) {
            assert(ls[ls.len() - 1] == ls.last());
        }
    }
}

/// A dependency check that succeeds is fine; one that fails for want of the lock
/// or of root only warns; any other failure is a problem, told by apt's own
/// error lines.
pub proof fn a_failed_dependency_check_is_a_problem(stderr: Seq<char>)
    ensures
        dependency_check(Some((true, stderr))).status == Status::Fine,
        dependency_check(Some((false, stderr))).status == Status::Warn <==> has_text(
            stderr,
            "lock"@,
        ) || has_text(stderr, "are you root"@),
        dependency_check(Some((false, stderr))).status == Status::Problem <==> !has_text(
            stderr,
            "lock"@,
        ) && !has_text(stderr, "are you root"@),
        dependency_check(Some((false, stderr))).status == Status::Problem ==> dependency_check(
            Some((false, stderr)),
        ).detail == lines_after(lines(stderr), "E: "@) && dependency_check(
            Some((false, stderr)),
        ).fix == Some("sudo apt-get install -f"@),
        dependency_check(None).status == Status::Fine,
{
}

/// Held packages are warned of, all of them, as soon as there is one.
pub proof fn a_held_package_is_warned_of(held: Seq<Seq<char>>)
    ensures
        held_check(held).status == Status::Warn <==> held.len() > 0,
        held_check(held).status == Status::Fine <==> held.len() == 0,
        held_check(held).detail == held,
        held.len() > 0 ==> held_check(held).title == decimal(held.len())
            + " package(s) held at their current version"@,
{
    assert(held.len() == 0 ==> held =~= seq![]);
}

/// A line `Remv name …` names an unused package, and any other line names none.
pub proof fn a_removal_line_names_an_orphan(
    ls: Seq<Seq<char>>,
    name: Seq<char>,
    rest: Seq<char>,
    other: Seq<char>,
)
    requires
        words(rest).len() > 0,
        words(rest)[0] == name,
        !has_prefix(other, "Remv "@),
    ensures
        removals(seq![]).len() == 0,
        removals(ls.push("Remv "@ + rest)) == removals(ls).push(name),
        removals(ls.push(other)) == removals(ls),
{
    let line = "Remv "@ + rest;
    assert(line.take("Remv "@.len() as int) =~= "Remv "@);
    assert(line.skip("Remv "@.len() as int) =~= rest);
    assert(ls.push(line).drop_last() =~= ls);
    assert(ls.push(other).drop_last() =~= ls);
}

/// Unused packages are warned of exactly where the simulation removes any, with
/// their number; without a simulation all is fine.
pub proof fn an_orphan_is_warned_of(simulation: Seq<char>)
    ensures
        orphan_check(None).status == Status::Fine,
        orphan_check(Some(simulation)).status == Status::Warn <==> removals(
            lines(simulation),
        ).len() > 0,
        orphan_check(Some(simulation)).status == Status::Fine <==> removals(
            lines(simulation),
        ).len() == 0,
        removals(lines(simulation)).len() > 0 ==> orphan_check(Some(simulation)).title == decimal(
            removals(lines(simulation)).len(),
        ) + " unused package(s) can be removed"@,
{
}

/// A preview shows the first eight items as they are; with more than eight one
/// more line says how many are left out, so shown and left out make up all.
pub proof fn a_preview_shows_eight_and_counts_the_rest(items: Seq<Seq<char>>)
    ensures
        forall|i: int| 0 <= i < items.len() && i < 8 ==> preview_texts(items)[i] == items[i],
        items.len() <= 8 ==> preview_texts(items).len() == items.len(),
        items.len() > 8 ==> preview_texts(items).len() == 9 && preview_texts(items)[8] == "… and "@
            + decimal((items.len() - 8) as nat) + " more"@,
{
}

/// A source counts for duplicates exactly where it is enabled and of the binary
/// kind; how its parts are spaced, and a comment behind them, make no difference.
pub proof fn a_source_is_told_by_its_words(a: SourceView, b: SourceView)
    requires
        a.enabled,
        b.enabled,
        a.kind == "deb"@,
        b.kind == "deb"@,
    ensures
        entry_key(a) is Some,
        words(split(a.options + " "@ + a.uri + " "@ + a.suite + " "@ + a.components, '#')[0])
            == words(split(b.options + " "@ + b.uri + " "@ + b.suite + " "@ + b.components, '#')[0])
            ==> entry_key(a) == entry_key(b),
{
}

/// A disabled source, or one of another kind, is never a duplicate.
pub proof fn a_disabled_source_is_no_duplicate(a: SourceView, before: Seq<SourceView>)
    requires
        !a.enabled || a.kind != "deb"@,
    ensures
        entry_keys(before.push(a)) == entry_keys(before),
{
    assert(before.push(a).drop_last() =~= before);
}

/// The duplicates are warned of exactly where two entries, of one file or of
/// two, have the same key.
pub proof fn a_repeated_source_is_warned_of(dupes: Seq<Seq<char>>, v: Seq<FileView>)
    requires
        lists_repeated(dupes, all_keys(v)),
    ensures
        duplicate_check(dupes).status == Status::Warn <==> exists|i: int, j: int|
            0 <= i < j < all_keys(v).len() && #[trigger] all_keys(v)[i] == #[trigger] all_keys(
                v,
            )[j],
        duplicate_check(dupes).status != Status::Warn ==> duplicate_check(dupes).status
            == Status::Fine,
        duplicate_check(dupes).detail == dupes,
{
    let keys = all_keys(v);
    assert(dupes.len() == 0 ==> dupes =~= seq![]);
    if dupes.len() > 0 {
        assert(dupes.contains(dupes[0]));
        assert(repeated(keys, dupes[0]));
    }
    if exists|i: int, j: int| 0 <= i < j < keys.len() && #[trigger] keys[i] == #[trigger] keys[j] {
        let (i, j) = choose|i: int, j: int|
            0 <= i < j < keys.len() && #[trigger] keys[i] == #[trigger] keys[j];
        assert(repeated(keys, keys[i]));
        assert(dupes.contains(keys[i]));
    }
}

/// The report ends in the all-clear exactly where every check is fine.
pub proof fn all_clear_needs_every_check_fine(color: bool, v: Seq<CheckView>)
    ensures
        report(color, v).len() > 0,
        report(color, v).last() is Out <==> forall|i: int|
            0 <= i < v.len() ==> (#[trigger] v[i]).status == Status::Fine,
{
    lemma_tally(v, Status::Problem);
    lemma_tally(v, Status::Warn);
    if forall|i: int| 0 <= i < v.len() ==> (#[trigger] v[i]).status == Status::Fine {
    } else {
        let i = choose|i: int| 0 <= i < v.len() && (#[trigger] v[i]).status != Status::Fine;
        assert(v[i].status == Status::Problem || v[i].status == Status::Warn);
    }
}

proof fn lemma_tally(v: Seq<CheckView>, s: Status)
    ensures
        tally(v, s) > 0 <==> exists|i: int| 0 <= i < v.len() && (#[trigger] v[i]).status == s,
    decreases v.len(),
{
    if v.len() > 0 {
        let before = v.drop_last();
        lemma_tally(before, s);
        if tally(before, s) > 0 {
            let i = choose|i: int| 0 <= i < before.len() && (#[trigger] before[i]).status == s;
            assert(v[i].status == s);
        }
        if exists|i: int| 0 <= i < v.len() && (#[trigger] v[i]).status == s {
            let i = choose|i: int| 0 <= i < v.len() && (#[trigger] v[i]).status == s;
            if i < before.len() {
                assert(before[i].status == s);
            }
        }
        if v.last().status == s {
            assert(v[v.len() - 1].status == s);
        }
    }
}

/// A check that is not fine counts what it found in its title, and says how to
/// mend it.
pub proof fn a_finding_is_counted_in_its_title(
    audit: Seq<char>,
    dupes: Seq<Seq<char>>,
    held: Seq<Seq<char>>,
    simulation: Seq<char>,
)
    ensures
        indented(lines(audit)).len() > 0 ==> broken_check(Some(audit)).title == decimal(
            indented(lines(audit)).len(),
        ) + " package(s) not fully installed"@ && broken_check(Some(audit)).fix == Some(
            "sudo apt-get install -f"@,
        ),
        dupes.len() > 0 ==> duplicate_check(dupes).title == decimal(dupes.len())
            + " duplicate apt source line(s)"@ && duplicate_check(dupes).fix == Some(
            "review /etc/apt/sources.list.d/"@,
        ),
        held.len() > 0 ==> held_check(held).fix == Some(
            "wrapt install "@ + join(held, " "@) + " (to unhold)"@,
        ),
        removals(lines(simulation)).len() > 0 ==> orphan_check(Some(simulation)).fix == Some(
            "wrapt autoremove"@,
        ) && orphan_check(Some(simulation)).detail == preview_texts(removals(lines(simulation))),
{
}

/// A line that begins with a blank names a broken package, without the blanks; any
/// other line names none.
pub proof fn an_indented_line_names_a_package(
    ls: Seq<Seq<char>>,
    line: Seq<char>,
    other: Seq<char>,
)
    requires
        has_prefix(line, " "@),
        !has_prefix(other, " "@),
    ensures
        indented(seq![]).len() == 0,
        indented(ls.push(line)) == indented(ls).push(trim(line)),
        indented(ls.push(other)) == indented(ls),
{
    assert(ls.push(line).drop_last() =~= ls);
    assert(ls.push(other).drop_last() =~= ls);
}

/// The keys of all files count, file by file.
pub proof fn keys_count_over_all_files(v: Seq<FileView>, f: FileView, s: SourceView, u: Seq<SourceView>)
    requires
        s.enabled,
        s.kind == "deb"@,
    ensures
        all_keys(seq![]).len() == 0,
        all_keys(v.push(f)) == all_keys(v) + entry_keys(f.sources),
        entry_keys(u.push(s)) == entry_keys(u).push(
            join(
                words(split(s.options + " "@ + s.uri + " "@ + s.suite + " "@ + s.components, '#')[0]),
                " "@,
            ),
        ),
{
    assert(v.push(f).drop_last() =~= v);
    assert(u.push(s).drop_last() =~= u);
}

/// A line `Remv` with nothing behind it names no package.
pub proof fn a_bare_removal_line_names_none(ls: Seq<Seq<char>>, rest: Seq<char>)
    requires
        words(rest).len() == 0,
    ensures
        removals(ls.push("Remv "@ + rest)) == removals(ls),
{
    let line = "Remv "@ + rest;
    assert(line.take("Remv "@.len() as int) =~= "Remv "@);
    assert(line.skip("Remv "@.len() as int) =~= rest);
    assert(ls.push(line).drop_last() =~= ls);
}

} // verus!
