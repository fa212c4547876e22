//! Laws of the lists and reports: what is listed, counted and left out.

use vstd::prelude::*;

use crate::apt::{ChangeView, DiskUsage, ResultView};
use crate::changelog::{changelog_lines, is_entry, is_noise, is_security, rendered, shown};
use crate::cli::TxOpts;
use crate::commands::{freed, hold_text, total_bytes, upgradable_text};
use crate::config::RowView as SettingView;
use crate::download::{hex_text, intact, md5_digest, sha256_digest, sizes, HashView, ItemView};
use crate::laws::text::{a_cut_is_made_at_the_first_place, a_text_is_held_where_it_is_put};
use crate::listpkgs::{fixes, name_matches, wanted_changes, wanted_rows, RowView};
use crate::number::{decimal, padded, padded_left};
use crate::report::{
    file_text, paths_text, picked, record_line, result_lines, setting_text, stated_kib, summary,
};
use crate::text::{
    cut, has_prefix, has_text, is_space, join, lines, lowercase, occurs_at, trim, trim_end,
};
use crate::transact::{next_step, plan_lines, size_lines, sized, told_cache, Outcome, Reply, Step};
use crate::ui::{
    bold_text, cyan_text, dim_text, green_text, header_text, install_row, install_rows, remove_row,
    remove_rows, size_text, upgrade_rows, upgrade_text, warn_text, yellow_text, LineView,
};

verus! {

// ---------------------------------------------------------------------------
// Lists of packages
// ---------------------------------------------------------------------------

/// An installed package is listed where its name holds the pattern, at any place,
/// and, where only those are wanted, it was installed on purpose; it is marked
/// automatic where it was not, and held where it is.
pub proof fn an_installed_package_is_listed(
    versions: Seq<(Seq<char>, Seq<char>)>,
    manual: Set<Seq<char>>,
    held: Set<Seq<char>>,
    manual_only: bool,
    a: Seq<char>,
    pattern: Seq<char>,
    b: Seq<char>,
    version: Seq<char>,
)
    ensures
        ({
            let name = a + pattern + b;
            let before = wanted_rows(versions, manual, held, manual_only, Some(pattern));
            let after = wanted_rows(
                versions.push((name, version)),
                manual,
                held,
                manual_only,
                Some(pattern),
            );
            &&& !manual_only || manual.contains(name) ==> after == before.push(
                (RowView {
                    name,
                    version,
                    auto: !manual.contains(name),
                    held: held.contains(name),
                }),
            )
            &&& manual_only && !manual.contains(name) ==> after == before
        }),
{
    let name = a + pattern + b;
    a_text_is_held_where_it_is_put(a, pattern, b);
    assert(versions.push((name, version)).drop_last() =~= versions);
}

/// A package whose name does not hold the pattern is not listed; without a pattern
/// every name will do.
pub proof fn other_names_are_not_listed(
    versions: Seq<(Seq<char>, Seq<char>)>,
    manual: Set<Seq<char>>,
    held: Set<Seq<char>>,
    manual_only: bool,
    name: Seq<char>,
    version: Seq<char>,
    pattern: Seq<char>,
)
    requires
        !has_text(name, pattern),
    ensures
        wanted_rows(versions.push((name, version)), manual, held, manual_only, Some(pattern))
            == wanted_rows(versions, manual, held, manual_only, Some(pattern)),
        name_matches(name, None),
        wanted_rows(seq![], manual, held, manual_only, Some(pattern)).len() == 0,
{
    assert(versions.push((name, version)).drop_last() =~= versions);
}

/// A change of an installed version is listed as an upgrade; a new package is not.
pub proof fn upgrades_are_listed(v: Seq<ChangeView>, c: ChangeView, pattern: Option<Seq<char>>)
    ensures
        c.old is Some && name_matches(c.name, pattern) ==> wanted_changes(v.push(c), pattern)
            == wanted_changes(v, pattern).push(c),
        c.old is None || !name_matches(c.name, pattern) ==> wanted_changes(v.push(c), pattern)
            == wanted_changes(v, pattern),
        c.security ==> fixes(v.push(c)) == fixes(v) + 1,
        !c.security ==> fixes(v.push(c)) == fixes(v),
        fixes(seq![]) == 0,
{
    assert(v.push(c).drop_last() =~= v);
}

// ---------------------------------------------------------------------------
// Plans
// ---------------------------------------------------------------------------

/// Every change of a plan has a row of its own: a new package its version, an
/// upgraded one both, a removed one the version that goes.
pub proof fn every_change_has_a_row(
    width: nat,
    manual: Set<Seq<char>>,
    v: Seq<ChangeView>,
    c: ChangeView,
)
    ensures
        c.old is None ==> install_rows(false, width, v.push(c)) == install_rows(false, width, v)
            + install_row(false, width, c) && upgrade_rows(false, width, v.push(c))
            == upgrade_rows(false, width, v),
        c.old is Some ==> upgrade_rows(false, width, v.push(c)) == upgrade_rows(false, width, v)
            + upgrade_text(false, width, c) + "\n"@ && install_rows(false, width, v.push(c))
            == install_rows(false, width, v),
        remove_rows(false, width, manual, v.push(c)) == remove_rows(false, width, manual, v)
            + remove_row(false, width, manual, c),
        c.old is Some && c.new is Some ==> has_text(
            upgrade_text(false, width, c),
            c.old->0 + " → "@ + c.new->0,
        ),
        c.old is None && c.new is Some ==> has_text(install_row(false, width, c), c.new->0),
{
    assert(v.push(c).drop_last() =~= v);
    if c.new is Some {
        let n = c.new->0;
        let a = "   "@ + crate::number::padded(c.name, width) + "  "@;
        a_text_is_held_where_it_is_put(a, n, "\n"@);
        assert(install_row(false, width, c) =~= a + n + "\n"@);
        if c.old is Some {
            reveal_strlit(" ");
            reveal_strlit("→");
            reveal_strlit(" → ");
            let o = c.old->0;
            let m = o + " → "@ + n;
            let z = crate::ui::security_badge(false, c);
            assert(" "@ + "→"@ + " "@ =~= " → "@);
            a_text_is_held_where_it_is_put(a, m, z);
            assert(upgrade_text(false, width, c) =~= a + m + z);
        }
    }
}

/// The size of a download is told where there is one; the installed size where it
/// is known; and what changes on disk only where that differs, with its sign.
pub proof fn sizes_are_told_where_they_are_known(
    color: bool,
    count: nat,
    download: nat,
    disk: Option<DiskUsage>,
)
    ensures
        size_lines(color, 0, download, None) == seq![LineView::Out(""@)],
        count > 0 ==> size_lines(color, count, download, disk)[0] == sized(
            color,
            "Total download size: "@,
            ""@,
            download,
        ),
        count == 0 && disk is Some && disk->0.installed > 0 ==> size_lines(
            color,
            count,
            download,
            disk,
        )[0] == sized(color, "Total installed size:"@, ""@, disk->0.installed as nat),
        disk is Some && disk->0.net_change != disk->0.installed && disk->0.net_change >= 0
            ==> size_lines(color, count, download, disk).contains(
            sized(color, "Net disk change:"@, "+"@, disk->0.net_change as nat),
        ),
        disk is Some && disk->0.net_change < 0 ==> size_lines(color, count, download, disk).contains(
            sized(color, "Net disk change:"@, "-"@, (-disk->0.net_change) as nat),
        ),
        size_lines(color, count, download, disk).last() == LineView::Out(""@),
{
    let all = size_lines(color, count, download, disk);
    if disk is Some && disk->0.net_change != disk->0.installed {
        let k = all.len() - 2;
        assert(all[k] == all.drop_last().last());
        assert(all.contains(all[k]));
    }
    assert(size_lines(color, 0, download, None) =~= seq![LineView::Out(""@)]);
}

/// A cache of its own is told to apt before the other arguments.
pub proof fn a_cache_is_told_to_apt(args: Seq<Seq<char>>, dir: Seq<char>)
    ensures
        told_cache(args, None) == args,
        told_cache(args, Some(dir)) == seq!["-o"@, "Dir::Cache::archives="@ + dir] + args,
{
}

/// A transaction goes on as it is answered: with nothing to do it stops; planned
/// and agreed to it downloads what there is to download and then runs; refused it
/// stops; a preview stops at the plan.
pub proof fn a_transaction_goes_on_as_answered(opts: TxOpts, safe: bool, downloads: bool)
    ensures
        next_step(opts, Reply::Simulated { empty: true }) == Step::Stop(Outcome::NothingToDo),
        next_step(opts, Reply::Simulated { empty: false }) == Step::Plan,
        next_step(opts, Reply::Answered { yes: true, downloads: true }) == Step::Download,
        next_step(opts, Reply::Answered { yes: true, downloads: false }) == Step::Run,
        next_step(opts, Reply::Answered { yes: false, downloads }) == Step::Stop(Outcome::Aborted),
        next_step(opts, Reply::Downloaded) == Step::Run,
        next_step(opts, Reply::Root) == Step::Simulate,
        opts.dry_run ==> next_step(opts, Reply::Planned { safe, downloads }) == Step::Stop(
            Outcome::DryRun,
        ) && next_step(opts, Reply::Begin) == Step::Simulate,
        !opts.dry_run ==> next_step(opts, Reply::Begin) == Step::CheckRoot,
        !opts.dry_run && !opts.yes ==> next_step(opts, Reply::Planned { safe, downloads }) == (
        Step::Ask { default_yes: safe }),
        !opts.dry_run && opts.yes ==> next_step(opts, Reply::Planned { safe, downloads }) == if downloads {
            Step::Download
        } else {
            Step::Run
        },
{
}

// ---------------------------------------------------------------------------
// Changelogs
// ---------------------------------------------------------------------------

/// What apt says while it fetches is no part of a changelog; everything else is
/// shown, line by line.
pub proof fn apts_own_words_are_left_out(
    above: Seq<LineView>,
    color: bool,
    ls: Seq<Seq<char>>,
    rest: Seq<char>,
)
    ensures
        changelog_lines(above, color, ls.push("Get:"@ + rest)) == changelog_lines(above, color, ls),
        changelog_lines(above, color, ls.push("Hit:"@ + rest)) == changelog_lines(above, color, ls),
        changelog_lines(above, color, ls.push("Ign:"@ + rest)) == changelog_lines(above, color, ls),
        changelog_lines(above, color, ls.push("Err:"@ + rest)) == changelog_lines(above, color, ls),
        changelog_lines(above, color, ls.push("Fetched "@ + rest)) == changelog_lines(
            above,
            color,
            ls,
        ),
        changelog_lines(above, color, ls.push("Reading "@ + rest)) == changelog_lines(
            above,
            color,
            ls,
        ),
{
    let e = Seq::<char>::empty();
    a_text_is_held_where_it_is_put(e, "Get:"@, rest);
    a_text_is_held_where_it_is_put(e, "Hit:"@, rest);
    a_text_is_held_where_it_is_put(e, "Ign:"@, rest);
    a_text_is_held_where_it_is_put(e, "Err:"@, rest);
    a_text_is_held_where_it_is_put(e, "Fetched "@, rest);
    a_text_is_held_where_it_is_put(e, "Reading "@, rest);
    assert(ls.push("Get:"@ + rest).drop_last() =~= ls);
    assert(ls.push("Hit:"@ + rest).drop_last() =~= ls);
    assert(ls.push("Ign:"@ + rest).drop_last() =~= ls);
    assert(ls.push("Err:"@ + rest).drop_last() =~= ls);
    assert(ls.push("Fetched "@ + rest).drop_last() =~= ls);
    assert(ls.push("Reading "@ + rest).drop_last() =~= ls);
}

/// Without colour, a line of a changelog is shown as it stands.
pub proof fn a_changelog_line_is_shown(above: Seq<LineView>, ls: Seq<Seq<char>>, line: Seq<char>)
    requires
        line.len() == 0 || is_space(line[0]),
    ensures
        changelog_lines(above, false, ls.push(line)) == changelog_lines(above, false, ls).push(
            LineView::Out(line),
        ),
{
    assert(ls.push(line).drop_last() =~= ls);
    reveal_strlit("Get:");
    reveal_strlit("Hit:");
    reveal_strlit("Ign:");
    reveal_strlit("Err:");
    reveal_strlit("Fetched ");
    reveal_strlit("Reading ");
    lemma_no_prefix(line, "Get:"@);
    lemma_no_prefix(line, "Hit:"@);
    lemma_no_prefix(line, "Ign:"@);
    lemma_no_prefix(line, "Err:"@);
    lemma_no_prefix(line, "Fetched "@);
    lemma_no_prefix(line, "Reading "@);
}

proof fn lemma_no_prefix(line: Seq<char>, p: Seq<char>)
    requires
        p.len() > 0,
        !is_space(p[0]),
        line.len() == 0 || is_space(line[0]),
    ensures
        !has_prefix(line, p),
{
    if has_prefix(line, p) {
        assert(line.take(p.len() as int)[0] == line[0]);
    }
}

/// In colour a line that names a fix, by its CVE, the word or the urgency, stands
/// out; the heading of an entry does so in another way; other lines do not.
pub proof fn a_fix_stands_out(line: Seq<char>, a: Seq<char>, b: Seq<char>)
    requires
        line.len() == 0 || is_space(line[0]),
    ensures
        rendered(true, line, a + "cve-"@ + b) == yellow_text(true, line),
        rendered(true, line, a + "security"@ + b) == yellow_text(true, line),
        rendered(true, line, a + "urgency=high"@ + b) == yellow_text(true, line),
        rendered(true, line, a + "urgency=critical"@ + b) == yellow_text(true, line),
{
    a_text_is_held_where_it_is_put(a, "cve-"@, b);
    a_text_is_held_where_it_is_put(a, "security"@, b);
    a_text_is_held_where_it_is_put(a, "urgency=high"@, b);
    a_text_is_held_where_it_is_put(a, "urgency=critical"@, b);
}

/// The heading of an entry is a line that begins at the margin and holds a version
/// in brackets.
pub proof fn a_heading_begins_at_the_margin(
    name: Seq<char>,
    version: Seq<char>,
    rest: Seq<char>,
    lower: Seq<char>,
)
    requires
        name.len() > 0,
        !is_space(name[0]),
    ensures
        rendered(true, name + " ("@ + version + ")"@ + rest, lower) == bold_text(
            true,
            cyan_text(true, name + " ("@ + version + ")"@ + rest),
        ),
{
    let line = name + " ("@ + version + ")"@ + rest;
    reveal_strlit(" (");
    reveal_strlit("(");
    assert(line[0] == name[0]);
    assert(line.subrange(name.len() + 1int, name.len() + 2int) =~= "("@);
    assert(occurs_at(line, "("@, name.len() + 1int));
    a_text_is_held_where_it_is_put(name + " ("@ + version, ")"@, rest);
}

// ---------------------------------------------------------------------------
// Counts and reports
// ---------------------------------------------------------------------------

/// Sizes add up, of downloads and of files.
pub proof fn sizes_add_up(v: Seq<ItemView>, i: ItemView, files: Seq<u64>, n: u64)
    ensures
        sizes(seq![]) == 0,
        sizes(v.push(i)) == sizes(v) + i.size,
        total_bytes(seq![]) == 0,
        total_bytes(files.push(n)) == total_bytes(files) + n,
{
    assert(v.push(i).drop_last() =~= v);
    assert(files.push(n).drop_last() =~= files);
}

/// What was freed is what is there no more; where more is there, nothing.
pub proof fn what_was_freed_is_gone(before: nat, after: nat)
    ensures
        before >= after ==> freed(before, after) + after == before,
        before <= after ==> freed(before, after) == 0,
{
}

/// Up to six items are listed whole; of more the first six, and how many are left.
pub proof fn six_items_are_listed(v: Seq<Seq<char>>)
    ensures
        v.len() <= 6 ==> summary(v) == join(v, ", "@),
        v.len() > 6 ==> summary(v) == join(v.take(6), ", "@) + ", … (+"@ + decimal(
            (v.len() - 6) as nat,
        ) + " more)"@,
{
}

/// A picked number installs the result with that number, counted from one, unless
/// it is installed; a number beyond the results installs nothing.
pub proof fn a_pick_installs_its_result(v: Seq<ResultView>, picks: Seq<usize>, n: usize)
    ensures
        picked(v, seq![]).len() == 0,
        1 <= n <= v.len() && !v[n - 1].installed ==> picked(v, picks.push(n)) == picked(
            v,
            picks,
        ).push(v[n - 1].name),
        1 <= n <= v.len() && v[n - 1].installed ==> picked(v, picks.push(n)) == picked(v, picks),
        n == 0 || n > v.len() ==> picked(v, picks.push(n)) == picked(v, picks),
{
    assert(picks.push(n).drop_last() =~= picks);
}

/// Without colour a record is shown line by line as it stands, but for the
/// installed size, which is told in units.
pub proof fn a_record_is_shown_as_it_stands(
    field: Seq<char>,
    value: Seq<char>,
    n: nat,
    line: Seq<char>,
)
    requires
        field.len() > 0,
        !field.contains(':'),
        field[0] != ' ',
        field != "Installed-Size"@,
        n <= u64::MAX,
        !has_text(line, ": "@) || has_prefix(line, " "@),
    ensures
        record_line(false, field + ": "@ + value) == field + ": "@ + value,
        record_line(false, "Installed-Size"@ + ": "@ + decimal(n)) == "Installed-Size"@ + ": "@
            + size_text(n * 1024),
        record_line(false, line) == line,
{
    lemma_plain_field(field, value);
    lemma_size_field(n);
    a_cut_is_made_at_the_first_place(line, ": "@);
    if let Some((x, y)) = cut(line, ": "@) {
        a_text_is_held_where_it_is_put(x, ": "@, y);
    }
}

proof fn lemma_plain_field(field: Seq<char>, value: Seq<char>)
    requires
        field.len() > 0,
        !field.contains(':'),
        field[0] != ' ',
        field != "Installed-Size"@,
    ensures
        record_line(false, field + ": "@ + value) == field + ": "@ + value,
{
    lemma_field(field, value);
    let a = field + ": "@ + value;
    assert(!has_prefix(a, " "@)) by {
        reveal_strlit(" ");
        assert(a[0] == field[0]);
        if has_prefix(a, " "@) {
            assert(a.take(1)[0] == ' ');
        }
    }
    lemma_colon(field, value);
}

proof fn lemma_colon(field: Seq<char>, value: Seq<char>)
    ensures
        field + ":"@ + " "@ + value == field + ": "@ + value,
{
    reveal_strlit(" ");
    reveal_strlit(": ");
    reveal_strlit(":");
    assert(":"@ + " "@ =~= ": "@);
    assert(field + ":"@ + " "@ + value =~= field + (":"@ + " "@) + value);
}

proof fn lemma_size_field(n: nat)
    requires
        n <= u64::MAX,
    ensures
        record_line(false, "Installed-Size"@ + ": "@ + decimal(n)) == "Installed-Size"@ + ": "@
            + size_text(n * 1024),
{
    let f = "Installed-Size"@;
    let b = f + ": "@ + decimal(n);
    assert(!f.contains(':') && f[0] == 'I' && f.len() > 0) by {
        reveal_strlit("Installed-Size");
    }
    lemma_field(f, decimal(n));
    assert(!has_prefix(b, " "@)) by {
        reveal_strlit(" ");
        assert(b[0] == 'I');
        if has_prefix(b, " "@) {
            assert(b.take(1)[0] == ' ');
        }
    }
    lemma_colon(f, size_text(n * 1024));
    assert(stated_kib(decimal(n)) == Some(n)) by {
        crate::laws::text::a_number_is_read_back(n);
        let d = decimal(n);
        let e = Seq::<char>::empty();
        assert(48 <= d[0] as u32 <= 57);
        assert(48 <= d[d.len() - 1] as u32 <= 57);
        crate::laws::text::trimming_gives_the_text_back(e, d, e);
        assert(e + d + e =~= d);
    }
}

proof fn lemma_field(field: Seq<char>, value: Seq<char>)
    requires
        !field.contains(':'),
    ensures
        cut(field + ": "@ + value, ": "@) == Some((field, value)),
{
    reveal_strlit(": ");
    let p = ": "@;
    let s = field + p + value;
    assert(s.subrange(field.len() as int, field.len() as int + 2) =~= p);
    assert forall|j: int| 0 <= j < field.len() implies !occurs_at(s, p, j) by {
        if occurs_at(s, p, j) {
            assert(s.subrange(j, j + 2)[0] == s[j]);
            assert(field.contains(field[j]));
        }
    }
    crate::text::lemma_cut(s, p, field.len() as int);
    assert(s.take(field.len() as int) =~= field);
    assert(s.skip(field.len() + 2int) =~= value);
}

/// The value of a hexadecimal digit.
pub open spec fn digit_value(c: char) -> int {
    if '0' <= c <= '9' {
        c as int - '0' as int
    } else {
        c as int - 'a' as int + 10
    }
}

/// A digest is written as two hexadecimal digits for each byte, the high half
/// first, in lower case.
pub proof fn a_byte_is_two_digits(data: Seq<u8>, i: int)
    requires
        0 <= i < data.len(),
    ensures
        hex_text(data).len() == 2 * data.len(),
        digit_value(hex_text(data)[2 * i]) * 16 + digit_value(hex_text(data)[2 * i + 1]) == data[i],
        forall|k: int|
            0 <= k < hex_text(data).len() ==> ('0' <= #[trigger] hex_text(data)[k] <= '9') || (
            'a' <= hex_text(data)[k] <= 'f'),
{
    reveal_strlit("0123456789abcdef");
    let h = hex_text(data);
    let b = data[i] as int;
    assert((2 * i) / 2 == i && (2 * i + 1) / 2 == i && (2 * i) % 2 == 0 && (2 * i + 1) % 2 == 1);
    lemma_digit(b / 16);
    lemma_digit(b % 16);
    assert forall|k: int| 0 <= k < h.len() implies ('0' <= #[trigger] h[k] <= '9') || ('a' <= h[k]
        <= 'f') by {
        let c = data[k / 2] as int;
        lemma_digit(c / 16);
        lemma_digit(c % 16);
    }
}

proof fn lemma_digit(n: int)
    requires
        0 <= n < 16,
    ensures
        digit_value(crate::download::hex_digit(n)) == n,
        ('0' <= crate::download::hex_digit(n) <= '9') || ('a' <= crate::download::hex_digit(n)
            <= 'f'),
{
    reveal_strlit("0123456789abcdef");
    let s = "0123456789abcdef"@;
    assert(s[0] == '0' && s[1] == '1' && s[2] == '2' && s[3] == '3' && s[4] == '4' && s[5] == '5'
        && s[6] == '6' && s[7] == '7' && s[8] == '8' && s[9] == '9' && s[10] == 'a' && s[11] == 'b'
        && s[12] == 'c' && s[13] == 'd' && s[14] == 'e' && s[15] == 'f');
}

/// A result of a search is told with its version and whether it is installed, and
/// its description below; a numbered one has its number before it.
pub proof fn a_result_is_told_with_its_version(r: ResultView, n: nat, width: nat)
    ensures
        r.version is Some && r.installed ==> result_lines(false, r, None, width).0 == LineView::Out(
            r.name + " "@ + r.version->0 + " "@ + "[installed]"@,
        ),
        r.version is Some && !r.installed ==> result_lines(false, r, None, width).0 == LineView::Out(
            r.name + " "@ + r.version->0,
        ),
        result_lines(false, r, None, width).1 == LineView::Out(padded(""@, 4) + r.description),
        r.version is Some && !r.installed ==> result_lines(false, r, Some(n), width).0
            == LineView::Out(
            padded_left(decimal(n), width) + ". "@ + r.name + " "@ + r.version->0,
        ),
        result_lines(false, r, Some(n), width).1 == LineView::Out(
            padded(""@, width + 2) + r.description,
        ),
{
    reveal_strlit("");
    if r.version is Some {
        let v = r.version->0;
        assert(""@ + r.name + (" "@ + v) + (" "@ + "[installed]"@) =~= r.name + " "@ + v + " "@
            + "[installed]"@);
        assert(""@ + r.name + (" "@ + v) + ""@ =~= r.name + " "@ + v);
        let i = padded_left(decimal(n), width) + ". "@;
        assert(i + r.name + (" "@ + v) + ""@ =~= i + r.name + " "@ + v);
    }
}

/// An empty changelog is said to be missing; any other is headed by its package.
pub proof fn a_changelog_is_headed_by_its_package(color: bool, package: Seq<char>, text: Seq<char>)
    ensures
        trim(trim_end(text)).len() == 0 ==> shown(color, package, text) == seq![
            LineView::Error(warn_text(color, "No changelog available for "@ + package + "."@)),
        ],
        trim(trim_end(text)).len() > 0 ==> shown(color, package, text)[0] == LineView::Out(
            header_text(color, "Changelog for "@ + package),
        ),
{
    let none: Seq<LineView> = seq![];
    lemma_changelog(
        none.push(LineView::Out(header_text(color, "Changelog for "@ + package))),
        color,
        lines(trim_end(text)),
    );
}

proof fn lemma_changelog(above: Seq<LineView>, color: bool, ls: Seq<Seq<char>>)
    requires
        above.len() > 0,
    ensures
        changelog_lines(above, color, ls).len() >= above.len(),
        changelog_lines(above, color, ls)[0] == above[0],
    decreases ls.len(),
{
    if ls.len() > 0 {
        lemma_changelog(above, color, ls.drop_last());
    }
}

/// A line that names neither a fix nor an entry is shown as it stands, in colour
/// too; and only apt's own six words are left out.
pub proof fn other_changelog_lines_stay_plain(line: Seq<char>, lower: Seq<char>)
    ensures
        (line.len() == 0 || is_space(line[0]) || !has_text(line, "("@) || !has_text(line, ")"@))
            && !has_text(lower, "cve-"@) && !has_text(lower, "security"@) && !has_text(
            lower,
            "urgency=high"@,
        ) && !has_text(lower, "urgency=critical"@) ==> rendered(true, line, lower) == line,
        !(has_prefix(line, "Get:"@) || has_prefix(line, "Hit:"@) || has_prefix(line, "Ign:"@)
            || has_prefix(line, "Err:"@) || has_prefix(line, "Fetched "@) || has_prefix(
            line,
            "Reading "@,
        )) ==> !is_noise(line),
{
}

/// A setting is told by its name, its value and where it comes from.
pub proof fn a_setting_is_told_with_its_source(r: SettingView)
    ensures
        setting_text(false, r) == "   "@ + padded(r.name, 15) + " "@ + padded(r.value, 28) + " "@
            + ("("@ + r.source.title() + ")"@),
{
}

/// The files of the settings are told, and which of them is missing.
pub proof fn the_files_of_the_settings_are_told(
    system: Seq<char>,
    user: Seq<char>,
    title: Seq<char>,
)
    ensures
        paths_text(system, Some(user)) == seq![
            LineView::Out("system  "@ + system),
            LineView::Out("user    "@ + user),
        ],
        paths_text(system, None) == seq![
            LineView::Out("system  "@ + system),
            LineView::Out("user    (no HOME — none read)"@),
        ],
        file_text(false, title, system, true) == "   "@ + padded(title, 7) + " "@ + system + " "@
            + ""@,
        file_text(false, title, system, false) == "   "@ + padded(title, 7) + " "@ + system + " "@
            + "(not present)"@,
{
    assert(paths_text(system, Some(user)) =~= seq![
        LineView::Out("system  "@ + system),
        LineView::Out("user    "@ + user),
    ]);
    assert(paths_text(system, None) =~= seq![
        LineView::Out("system  "@ + system),
        LineView::Out("user    (no HOME — none read)"@),
    ]);
}

/// A file without a known digest is taken as it comes; one with a digest only
/// where its own is that.
pub proof fn a_file_is_held_to_its_digest(data: Seq<u8>, h: Seq<char>)
    ensures
        intact(data, None),
        intact(data, Some(HashView::Sha256(h))) <==> hex_text(sha256_digest(data)) == h,
        intact(data, Some(HashView::Md5(h))) <==> hex_text(md5_digest(data)) == h,
{
}

/// Nothing is said of a size that is nothing.
pub proof fn nothing_is_said_of_no_size(color: bool, download: nat, disk: DiskUsage)
    requires
        disk.installed == 0,
        disk.net_change == 0,
    ensures
        size_lines(color, 0, download, Some(disk)) == seq![LineView::Out(""@)],
{
    assert(size_lines(color, 0, download, Some(disk)) =~= seq![LineView::Out(""@)]);
}

/// A line of a changelog that names a fix, in any letter case, is shown in yellow;
/// one that does not is shown plain.
pub proof fn a_fix_is_told_in_any_case(
    above: Seq<LineView>,
    ls: Seq<Seq<char>>,
    line: Seq<char>,
    a: Seq<char>,
    b: Seq<char>,
)
    requires
        line.len() == 0 || is_space(line[0]),
    ensures
        ({
            let before = changelog_lines(above, true, ls);
            let after = changelog_lines(above, true, ls.push(line));
            let lower = lowercase(line);
            &&& lower == a + "cve-"@ + b ==> after == before.push(
                LineView::Out(yellow_text(true, line)),
            )
            &&& lower == a + "security"@ + b ==> after == before.push(
                LineView::Out(yellow_text(true, line)),
            )
            &&& lower == a + "urgency=high"@ + b ==> after == before.push(
                LineView::Out(yellow_text(true, line)),
            )
            &&& lower == a + "urgency=critical"@ + b ==> after == before.push(
                LineView::Out(yellow_text(true, line)),
            )
            &&& !has_text(lower, "cve-"@) && !has_text(lower, "security"@) && !has_text(
                lower,
                "urgency=high"@,
            ) && !has_text(lower, "urgency=critical"@) ==> after == before.push(LineView::Out(line))
        }),
{
    assert(ls.push(line).drop_last() =~= ls);
    lemma_is_no_noise(line);
    a_fix_stands_out(line, a, b);
}

proof fn lemma_is_no_noise(line: Seq<char>)
    requires
        line.len() == 0 || is_space(line[0]),
    ensures
        !is_noise(line),
{
    let none: Seq<LineView> = seq![];
    let no_lines: Seq<Seq<char>> = seq![];
    a_changelog_line_is_shown(none, no_lines, line);
    assert(no_lines.push(line).drop_last() =~= no_lines);
    assert(changelog_lines(none, false, no_lines.push(line)).len() == 1);
}

} // verus!
