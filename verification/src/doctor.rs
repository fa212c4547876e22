//! `wrapt doctor`: a quick health check for common apt and dpkg problems. Each
//! check reports ok, a warning or a problem and, where possible, the command
//! that fixes it.

use vstd::prelude::*;

use crate::apt::{after_in_lines, lines_after, Output};
use crate::names::Names;
use crate::number::{decimal, decimal_usize};
use crate::order::{ascending, lemma_push_contains, sort_texts};
use crate::repo::{files, sources, FileView, Source, SourceFile, SourceView};
use crate::text::{
    after_prefix, cat2, cat3, cat4, chars_of, copy_strings, has_prefix, has_text, holds, join,
    join_pieces, join_strings, lemma_texts_push, lines, lines_of, opt_str, opt_text, pieces,
    same_str, split, split_at_char, starts, string_of, strip, texts, trim, trim_of, words, words_of,
};
use crate::ui::{
    bold_green, bold_red, bold_text, bold_yellow, complain, cyan, cyan_text, dim_text, dimmed,
    format_size, green_text, line_views, no_lines, red, red_text, say, size_text, success_line,
    success_text, warn_line, warn_text, yellow, yellow_text, Line, LineView,
};

verus! {

// ---------------------------------------------------------------------------
// Checks
// ---------------------------------------------------------------------------

/// How a check went.
#[derive(Debug, Clone, Copy, PartialEq, Eq, Structural)]
pub enum Status {
    Fine,
    Warn,
    Problem,
}

/// A check and what it found.
#[derive(Debug)]
pub struct Check {
    pub title: String,
    pub status: Status,
    pub detail: Vec<String>,
    pub fix: Option<String>,
}

pub struct CheckView {
    pub title: Seq<char>,
    pub status: Status,
    pub detail: Seq<Seq<char>>,
    pub fix: Option<Seq<char>>,
}

impl View for Check {
    type V = CheckView;

    open spec fn view(&self) -> CheckView {
        CheckView {
            title: self.title@,
            status: self.status,
            detail: texts(self.detail@),
            fix: opt_text(self.fix),
        }
    }
}

/// The checks as values.
pub open spec fn checks(v: Seq<Check>) -> Seq<CheckView> {
    v.map_values(|c: Check| c@)
}

/// A check that found nothing to complain of.
pub open spec fn fine(title: Seq<char>) -> CheckView {
    CheckView { title, status: Status::Fine, detail: seq![], fix: None }
}

fn ok(title: &str) -> (c: Check)
    ensures
        c@ == fine(title@),
{
    let none: Vec<String> = Vec::new();
    assert(texts(none@) =~= seq![]);
    Check { title: title.to_owned(), status: Status::Fine, detail: none, fix: None }
}

/// The name of a status in machine-readable output.
pub fn status_name(s: Status) -> (r: &'static str)
    ensures
        r@ == match s {
            Status::Fine => "ok"@,
            Status::Warn => "warning"@,
            Status::Problem => "problem"@,
        },
{
    match s {
        Status::Fine => "ok",
        Status::Warn => "warning",
        Status::Problem => "problem",
    }
}

/// The lines that begin with a space, trimmed.
pub open spec fn indented(ls: Seq<Seq<char>>) -> Seq<Seq<char>>
    decreases ls.len(),
{
    if ls.len() == 0 {
        seq![]
    } else if has_prefix(ls.last(), " "@) {
        indented(ls.drop_last()).push(trim(ls.last()))
    } else {
        indented(ls.drop_last())
    }
}

/// What `dpkg -C` tells of packages that are not fully installed.
pub open spec fn broken_check(audit: Option<Seq<char>>) -> CheckView {
    match audit {
        Some(t) => {
            let names = indented(lines(t));
            if names.len() == 0 {
                fine("No half-installed or broken packages"@)
            } else {
                CheckView {
                    title: decimal(names.len()) + " package(s) not fully installed"@,
                    status: Status::Problem,
                    detail: names,
                    fix: Some("sudo apt-get install -f"@),
                }
            }
        },
        None => fine("dpkg unavailable — skipped broken-package check"@),
    }
}

fn indented_of(ls: &Vec<&[char]>) -> (r: Vec<String>)
    ensures
        texts(r@) == indented(pieces(ls@)),
{
    let ghost all = pieces(ls@);
    let mut out: Vec<String> = Vec::new();
    let mut i: usize = 0;
    assert(all.take(0) =~= seq![]);
    assert(texts(out@) =~= seq![]);
    while i < ls.len()
        invariant
            all == pieces(ls@),
            i <= ls@.len(),
            texts(out@) == indented(all.take(i as int)),
        decreases ls@.len() - i,
    {
        broadcast use lemma_texts_push;

        assert(all.take(i + 1).drop_last() =~= all.take(i as int));
        assert(all.take(i + 1).last() == ls@[i as int]@);
        if starts(ls[i], " ") {
            out.push(string_of(trim_of(ls[i])));
        }
        i += 1;
    }
    assert(all.take(all.len() as int) =~= all);
    out
}

/// Packages that aren't fully installed or configured, from the text of
/// `dpkg -C` if it could be run.
pub fn broken_packages(audit: Option<&str>) -> (c: Check)
    ensures
        c@ == broken_check(opt_str(audit)),
{
    match audit {
        Some(t) => {
            let chars = chars_of(t);
            let ls = lines_of(chars.as_slice());
            let names = indented_of(&ls);
            assert(texts(names@).len() == names@.len());
            if names.len() == 0 {
                ok("No half-installed or broken packages")
            } else {
                Check {
                    title: cat2(
                        decimal_usize(names.len()).as_str(),
                        " package(s) not fully installed",
                    ),
                    status: Status::Problem,
                    detail: names,
                    fix: Some("sudo apt-get install -f".to_owned()),
                }
            }
        },
        None => ok("dpkg unavailable — skipped broken-package check"),
    }
}

/// What `apt-get check` tells of dependencies.
pub open spec fn dependency_check(out: Option<(bool, Seq<char>)>) -> CheckView {
    match out {
        Some((success, stderr)) => if success {
            fine("All dependencies are satisfied"@)
        } else if has_text(stderr, "lock"@) || has_text(stderr, "are you root"@) {
            CheckView {
                title: "Dependency check skipped (needs root)"@,
                status: Status::Warn,
                detail: seq!["run `sudo wrapt doctor` for the full check"@],
                fix: None,
            }
        } else {
            CheckView {
                title: "Unmet dependencies detected"@,
                status: Status::Problem,
                detail: lines_after(lines(stderr), "E: "@),
                fix: Some("sudo apt-get install -f"@),
            }
        },
        None => fine("apt-get unavailable — skipped dependency check"@),
    }
}

/// Whether a command succeeded and what it complained of, if it could be run.
pub open spec fn outcome(out: Option<&Output>) -> Option<(bool, Seq<char>)> {
    match out {
        Some(o) => Some((o.success, o.stderr@)),
        None => None,
    }
}

/// Whether the dependency tree is satisfiable, from the output of
/// `apt-get check` if it could be run.
pub fn unmet_dependencies(out: Option<&Output>) -> (c: Check)
    ensures
        c@ == dependency_check(outcome(out)),
{
    match out {
        Some(o) => {
            if o.success {
                return ok("All dependencies are satisfied");
            }
            let chars = chars_of(o.stderr.as_str());
            let text = chars.as_slice();
            // Without root, apt can't take its lock, which is no problem of
            // dependencies.
            if holds(text, "lock") || holds(text, "are you root") {
                let mut detail: Vec<String> = Vec::new();
                detail.push("run `sudo wrapt doctor` for the full check".to_owned());
                assert(texts(detail@) =~= seq!["run `sudo wrapt doctor` for the full check"@]);
                return Check {
                    title: "Dependency check skipped (needs root)".to_owned(),
                    status: Status::Warn,
                    detail,
                    fix: None,
                };
            }
            let ls = lines_of(text);
            Check {
                title: "Unmet dependencies detected".to_owned(),
                status: Status::Problem,
                detail: after_in_lines(&ls, "E: "),
                fix: Some("sudo apt-get install -f".to_owned()),
            }
        },
        None => ok("apt-get unavailable — skipped dependency check"),
    }
}

/// What there is to say of held packages.
pub open spec fn held_check(held: Seq<Seq<char>>) -> CheckView {
    if held.len() == 0 {
        fine("No packages are held back"@)
    } else {
        CheckView {
            title: decimal(held.len()) + " package(s) held at their current version"@,
            status: Status::Warn,
            detail: held,
            fix: Some("wrapt install "@ + join(held, " "@) + " (to unhold)"@),
        }
    }
}

/// Packages that are held at their version.
pub fn held_packages(held: &Vec<String>) -> (c: Check)
    ensures
        c@ == held_check(texts(held@)),
{
    assert(texts(held@).len() == held@.len());
    if held.len() == 0 {
        ok("No packages are held back")
    } else {
        Check {
            title: cat2(
                decimal_usize(held.len()).as_str(),
                " package(s) held at their current version",
            ),
            status: Status::Warn,
            detail: copy_strings(held),
            fix: Some(cat3("wrapt install ", join_strings(held, " ").as_str(), " (to unhold)")),
        }
    }
}

/// The packages that a simulation would remove.
pub open spec fn removals(ls: Seq<Seq<char>>) -> Seq<Seq<char>>
    decreases ls.len(),
{
    if ls.len() == 0 {
        seq![]
    } else {
        let before = removals(ls.drop_last());
        match after_prefix(ls.last(), "Remv "@) {
            Some(rest) => if words(rest).len() > 0 {
                before.push(words(rest)[0])
            } else {
                before
            },
            None => before,
        }
    }
}

/// The first eight items, and how many more there are.
pub open spec fn preview_texts(items: Seq<Seq<char>>) -> Seq<Seq<char>> {
    if items.len() <= 8 {
        items
    } else {
        items.take(8).push("… and "@ + decimal((items.len() - 8) as nat) + " more"@)
    }
}

/// What there is to say of packages that nothing needs.
pub open spec fn orphan_check(simulation: Option<Seq<char>>) -> CheckView {
    let names = match simulation {
        Some(t) => removals(lines(t)),
        None => seq![],
    };
    if names.len() == 0 {
        fine("No orphaned packages"@)
    } else {
        CheckView {
            title: decimal(names.len()) + " unused package(s) can be removed"@,
            status: Status::Warn,
            detail: preview_texts(names),
            fix: Some("wrapt autoremove"@),
        }
    }
}

fn removals_of(ls: &Vec<&[char]>) -> (r: Vec<String>)
    ensures
        texts(r@) == removals(pieces(ls@)),
{
    let ghost all = pieces(ls@);
    let mut out: Vec<String> = Vec::new();
    let mut i: usize = 0;
    assert(all.take(0) =~= seq![]);
    assert(texts(out@) =~= seq![]);
    while i < ls.len()
        invariant
            all == pieces(ls@),
            i <= ls@.len(),
            texts(out@) == removals(all.take(i as int)),
        decreases ls@.len() - i,
    {
        broadcast use lemma_texts_push;

        assert(all.take(i + 1).drop_last() =~= all.take(i as int));
        assert(all.take(i + 1).last() == ls@[i as int]@);
        if let Some(rest) = strip(ls[i], "Remv ") {
            let ws = words_of(rest);
            if ws.len() > 0 {
                assert(pieces(ws@)[0] == ws@[0]@);
                out.push(string_of(ws[0]));
            }
        }
        i += 1;
    }
    assert(all.take(all.len() as int) =~= all);
    out
}

/// The first eight items, and how many more there are.
pub fn preview(items: &Vec<String>) -> (r: Vec<String>)
    ensures
        texts(r@) == preview_texts(texts(items@)),
{
    broadcast use lemma_texts_push;

    if items.len() <= 8 {
        return copy_strings(items);
    }
    let mut out = copy_strings(items);
    let ghost all = texts(out@);
    out.truncate(8);
    assert(texts(out@) =~= all.take(8));
    out.push(cat3("… and ", decimal_usize(items.len() - 8).as_str(), " more"));
    out
}

/// Packages that nothing needs any more, from the text of
/// `apt-get -s autoremove` if it could be run.
pub fn orphans(simulation: Option<&str>) -> (c: Check)
    ensures
        c@ == orphan_check(opt_str(simulation)),
{
    let names = match simulation {
        Some(t) => {
            let chars = chars_of(t);
            let ls = lines_of(chars.as_slice());
            removals_of(&ls)
        },
        None => {
            let none: Vec<String> = Vec::new();
            assert(texts(none@) =~= seq![]);
            none
        },
    };
    assert(texts(names@).len() == names@.len());
    if names.len() == 0 {
        ok("No orphaned packages")
    } else {
        Check {
            title: cat2(decimal_usize(names.len()).as_str(), " unused package(s) can be removed"),
            status: Status::Warn,
            detail: preview(&names),
            fix: Some("wrapt autoremove".to_owned()),
        }
    }
}

/// How many of the files in /boot are kernels.
pub open spec fn kernel_count(files: Seq<Seq<char>>) -> nat
    decreases files.len(),
{
    if files.len() == 0 {
        0
    } else if has_prefix(files.last(), "vmlinuz-"@) {
        kernel_count(files.drop_last()) + 1
    } else {
        kernel_count(files.drop_last())
    }
}

fn count_kernels(files: &Vec<String>) -> (n: usize)
    ensures
        n == kernel_count(texts(files@)),
{
    let ghost all = texts(files@);
    let mut n: usize = 0;
    let mut i: usize = 0;
    while i < files.len()
        invariant
            all == texts(files@),
            i <= files@.len(),
            n <= i,
            n == kernel_count(all.take(i as int)),
        decreases files@.len() - i,
    {
        assert(all.take(i + 1).drop_last() =~= all.take(i as int));
        assert(all.take(i + 1).last() == files@[i as int]@);
        let name = chars_of(files[i].as_str());
        if starts(name.as_slice(), "vmlinuz-") {
            n += 1;
        }
        i += 1;
    }
    assert(all.take(all.len() as int) =~= all);
    n
}

/// What there is to say of the space on /boot: less than 200 MiB is little.
pub open spec fn boot_check(kernels: nat, free: Option<u64>) -> CheckView {
    if free matches Some(n) && n < 209_715_200 {
        CheckView {
            title: "/boot is low on space ("@ + size_text(free->0 as nat) + " free)"@,
            status: Status::Warn,
            detail: seq![decimal(kernels) + " kernel(s) installed"@],
            fix: Some("wrapt autoremove"@),
        }
    } else {
        fine("/boot has adequate space ("@ + decimal(kernels) + " kernels)"@)
    }
}

/// The space on /boot, given the names of its files and how many bytes are free,
/// if that is known.
pub fn boot_space(files: &Vec<String>, free: Option<u64>) -> (c: Check)
    ensures
        c@ == boot_check(kernel_count(texts(files@)), free),
{
    let kernels: usize = count_kernels(files);
    let count = decimal_usize(kernels);
    match free {
        Some(n) => {
            if n < 209_715_200 {
                let mut detail: Vec<String> = Vec::new();
                detail.push(cat2(count.as_str(), " kernel(s) installed"));
                assert(texts(detail@) =~= seq![decimal(kernels as nat) + " kernel(s) installed"@]);
                return Check {
                    title: cat3("/boot is low on space (", format_size(n).as_str(), " free)"),
                    status: Status::Warn,
                    detail,
                    fix: Some("wrapt autoremove".to_owned()),
                };
            }
        },
        None => {},
    }
    ok(cat3("/boot has adequate space (", count.as_str(), " kernels)").as_str())
}

// ---------------------------------------------------------------------------
// Duplicate sources
// ---------------------------------------------------------------------------

/// What a `deb` entry that is in force says: its options, its address, its suite
/// and its components, without a comment and with single spaces.
pub open spec fn entry_key(s: SourceView) -> Option<Seq<char>> {
    if s.enabled && s.kind == "deb"@ {
        let all = s.options + " "@ + s.uri + " "@ + s.suite + " "@ + s.components;
        Some(join(words(split(all, '#')[0]), " "@))
    } else {
        None
    }
}

/// What the `deb` entries say.
pub open spec fn entry_keys(v: Seq<SourceView>) -> Seq<Seq<char>>
    decreases v.len(),
{
    if v.len() == 0 {
        seq![]
    } else {
        let before = entry_keys(v.drop_last());
        match entry_key(v.last()) {
            Some(k) => before.push(k),
            None => before,
        }
    }
}

/// What the `deb` entries of several files say.
pub open spec fn all_keys(v: Seq<FileView>) -> Seq<Seq<char>>
    decreases v.len(),
{
    if v.len() == 0 {
        seq![]
    } else {
        all_keys(v.drop_last()) + entry_keys(v.last().sources)
    }
}

/// The text stands in the list more than once.
pub open spec fn repeated(keys: Seq<Seq<char>>, k: Seq<char>) -> bool {
    exists|i: int, j: int|
        0 <= i < j < keys.len() && #[trigger] keys[i] == k && #[trigger] keys[j] == k
}

/// The texts list, each once and in order, what stands in the keys more than
/// once.
pub open spec fn lists_repeated(dupes: Seq<Seq<char>>, keys: Seq<Seq<char>>) -> bool {
    ascending(dupes) && forall|k: Seq<char>| #[trigger] dupes.contains(k) <==> repeated(keys, k)
}

/// What there is to say of sources that are listed twice.
pub open spec fn duplicate_check(dupes: Seq<Seq<char>>) -> CheckView {
    if dupes.len() == 0 {
        fine("No duplicate apt sources"@)
    } else {
        CheckView {
            title: decimal(dupes.len()) + " duplicate apt source line(s)"@,
            status: Status::Warn,
            detail: dupes,
            fix: Some("review /etc/apt/sources.list.d/"@),
        }
    }
}

fn key_of(s: &Source) -> (r: Option<String>)
    ensures
        opt_text(r) == entry_key(s@),
{
    if !s.enabled || !same_str(s.kind.as_str(), "deb") {
        return None;
    }
    let first = cat4(s.options.as_str(), " ", s.uri.as_str(), " ");
    let all = cat4(first.as_str(), s.suite.as_str(), " ", s.components.as_str());
    let chars = chars_of(all.as_str());
    let parts = split_at_char(chars.as_slice(), '#');
    assert(pieces(parts@)[0] == parts@[0]@);
    let ws = words_of(parts[0]);
    Some(join_pieces(&ws, " "))
}

fn keys_of(v: &Vec<SourceFile>) -> (keys: Vec<String>)
    ensures
        texts(keys@) == all_keys(files(v@)),
{
    let ghost all = files(v@);
    let mut keys: Vec<String> = Vec::new();
    let mut i: usize = 0;
    assert(all.take(0) =~= seq![]);
    assert(texts(keys@) =~= seq![]);
    while i < v.len()
        invariant
            all == files(v@),
            i <= v@.len(),
            texts(keys@) == all_keys(all.take(i as int)),
        decreases v@.len() - i,
    {
        assert(all.take(i + 1).drop_last() =~= all.take(i as int));
        assert(all.take(i + 1).last() == v@[i as int]@);
        let ss = &v[i].sources;
        let ghost sv = sources(ss@);
        let ghost before = texts(keys@);
        let mut j: usize = 0;
        assert(sv.take(0) =~= seq![]);
        assert(before + entry_keys(sv.take(0)) =~= before);
        while j < ss.len()
            invariant
                sv == sources(ss@),
                j <= ss@.len(),
                texts(keys@) == before + entry_keys(sv.take(j as int)),
            decreases ss@.len() - j,
        {
            broadcast use lemma_texts_push;

            assert(sv.take(j + 1).drop_last() =~= sv.take(j as int));
            assert(sv.take(j + 1).last() == ss@[j as int]@);
            if let Some(k) = key_of(&ss[j]) {
                keys.push(k);
                assert(texts(keys@) =~= before + entry_keys(sv.take(j + 1)));
            }
            j += 1;
        }
        assert(sv.take(sv.len() as int) =~= sv);
        i += 1;
    }
    assert(all.take(all.len() as int) =~= all);
    keys
}

proof fn lemma_repeated_push(keys: Seq<Seq<char>>, x: Seq<char>, k: Seq<char>)
    ensures
        repeated(keys.push(x), k) <==> repeated(keys, k) || (k == x && keys.contains(x)),
{
    let more = keys.push(x);
    if repeated(keys, k) {
        let (i, j) = choose|i: int, j: int|
            0 <= i < j < keys.len() && #[trigger] keys[i] == k && #[trigger] keys[j] == k;
        assert(more[i] == k && more[j] == k);
    }
    if k == x && keys.contains(x) {
        let i = choose|i: int| 0 <= i < keys.len() && keys[i] == x;
        assert(more[i] == k && more[keys.len() as int] == k);
    }
    if repeated(more, k) {
        let (i, j) = choose|i: int, j: int|
            0 <= i < j < more.len() && #[trigger] more[i] == k && #[trigger] more[j] == k;
        assert(keys[i] == k);
        if j < keys.len() {
            assert(keys[j] == k);
        }
    }
}

fn repeats(keys: &Vec<String>) -> (r: Vec<String>)
    ensures
        lists_repeated(texts(r@), texts(keys@)),
{
    let ghost all = texts(keys@);
    let mut seen = Names::new();
    let mut dupes: Vec<String> = Vec::new();
    let mut i: usize = 0;
    assert(all.take(0).to_set() =~= Set::<Seq<char>>::empty());
    while i < keys.len()
        invariant
            all == texts(keys@),
            i <= keys@.len(),
            forall|k: Seq<char>| #[trigger] seen@.contains(k) <==> all.take(i as int).contains(k),
            forall|k: Seq<char>| #[trigger]
                texts(dupes@).contains(k) <==> repeated(all.take(i as int), k),
        decreases keys@.len() - i,
    {
        broadcast use lemma_texts_push;

        let ghost x = all[i as int];
        let ghost d0 = texts(dupes@);
        let ghost s0 = seen@;
        if !seen.insert(keys[i].clone()) {
            dupes.push(keys[i].clone());
        }
        proof {
            let before = all.take(i as int);
            assert(all.take(i + 1) =~= before.push(x));
            assert(s0.contains(x) <==> before.contains(x));
            assert forall|k: Seq<char>| #[trigger]
                seen@.contains(k) <==> all.take(i + 1).contains(k) by {
                lemma_push_contains(before, x, k);
                assert(s0.contains(k) <==> before.contains(k));
            }
            assert forall|k: Seq<char>| #[trigger]
                texts(dupes@).contains(k) <==> repeated(all.take(i + 1), k) by {
                lemma_repeated_push(before, x, k);
                lemma_push_contains(d0, x, k);
                assert(d0.contains(k) <==> repeated(before, k));
            }
        }
        i += 1;
    }
    assert(all.take(all.len() as int) =~= all);
    let ghost unsorted = texts(dupes@);
    let sorted = sort_texts(dupes);
    assert forall|k: Seq<char>| #[trigger] texts(sorted@).contains(k) <==> repeated(all, k) by {
        assert(unsorted.to_set().contains(k) == unsorted.contains(k));
    }
    sorted
}

/// Warns of duplicate `deb` entries across the files that sources were collected
/// from, of whichever format.
pub fn duplicate_sources(v: &Vec<SourceFile>) -> (c: Check)
    ensures
        exists|dupes: Seq<Seq<char>>| #[trigger]
            lists_repeated(dupes, all_keys(files(v@))) && c@ == duplicate_check(dupes),
{
    let keys = keys_of(v);
    let dupes = repeats(&keys);
    let ghost dv = texts(dupes@);
    assert(lists_repeated(dv, all_keys(files(v@))));
    assert(dv.len() == dupes@.len());
    if dupes.len() == 0 {
        ok("No duplicate apt sources")
    } else {
        Check {
            title: cat2(decimal_usize(dupes.len()).as_str(), " duplicate apt source line(s)"),
            status: Status::Warn,
            detail: dupes,
            fix: Some("review /etc/apt/sources.list.d/".to_owned()),
        }
    }
}

// ---------------------------------------------------------------------------
// The report
// ---------------------------------------------------------------------------

/// How many checks went so.
pub open spec fn tally(v: Seq<CheckView>, s: Status) -> nat
    decreases v.len(),
{
    if v.len() == 0 {
        0
    } else if v.last().status == s {
        tally(v.drop_last(), s) + 1
    } else {
        tally(v.drop_last(), s)
    }
}

/// The mark and the title of a check.
pub open spec fn check_title(color: bool, c: CheckView) -> Seq<char> {
    match c.status {
        Status::Fine => "  "@ + bold_text(color, green_text(color, "✓"@)) + " "@ + c.title,
        Status::Warn => "  "@ + bold_text(color, yellow_text(color, "!"@)) + " "@ + yellow_text(
            color,
            c.title,
        ),
        Status::Problem => "  "@ + bold_text(color, red_text(color, "✗"@)) + " "@ + red_text(
            color,
            c.title,
        ),
    }
}

/// The details of a check, below the given lines.
pub open spec fn detail_lines(
    above: Seq<LineView>,
    color: bool,
    detail: Seq<Seq<char>>,
) -> Seq<LineView>
    decreases detail.len(),
{
    if detail.len() == 0 {
        above
    } else {
        detail_lines(above, color, detail.drop_last()).push(
            LineView::Out("      "@ + dim_text(color, detail.last())),
        )
    }
}

/// A check with its details and its fix, below the given lines.
pub open spec fn check_lines(above: Seq<LineView>, color: bool, c: CheckView) -> Seq<LineView> {
    let told = detail_lines(
        above.push(LineView::Out(check_title(color, c))),
        color,
        c.detail,
    );
    match c.fix {
        Some(f) => told.push(
            LineView::Out("      "@ + dim_text(color, "fix:"@) + " "@ + cyan_text(color, f)),
        ),
        None => told,
    }
}

/// All checks.
pub open spec fn all_check_lines(color: bool, v: Seq<CheckView>) -> Seq<LineView>
    decreases v.len(),
{
    if v.len() == 0 {
        seq![]
    } else {
        check_lines(all_check_lines(color, v.drop_last()), color, v.last())
    }
}

/// The report: all checks, and a last word.
pub open spec fn report(color: bool, v: Seq<CheckView>) -> Seq<LineView> {
    let problems = tally(v, Status::Problem);
    let warnings = tally(v, Status::Warn);
    let told = all_check_lines(color, v).push(LineView::Out(""@));
    if problems == 0 && warnings == 0 {
        told.push(LineView::Out(success_text(color, "Your system looks healthy."@)))
    } else {
        told.push(
            LineView::Error(
                warn_text(
                    color,
                    decimal(problems) + " problem(s), "@ + decimal(warnings)
                        + " warning(s) found."@,
                ),
            ),
        )
    }
}

fn say_check(out: &mut Vec<Line>, color: bool, c: &Check)
    ensures
        line_views(final(out)@) == check_lines(line_views(old(out)@), color, c@),
{
    let title = match c.status {
        Status::Fine => cat4("  ", bold_green(color, "✓").as_str(), " ", c.title.as_str()),
        Status::Warn => cat4(
            "  ",
            bold_yellow(color, "!").as_str(),
            " ",
            yellow(color, c.title.as_str()).as_str(),
        ),
        Status::Problem => cat4(
            "  ",
            bold_red(color, "✗").as_str(),
            " ",
            red(color, c.title.as_str()).as_str(),
        ),
    };
    say(out, title);
    let ghost above = line_views(out@);
    let ghost all = texts(c.detail@);
    let mut i: usize = 0;
    assert(all.take(0) =~= seq![]);
    while i < c.detail.len()
        invariant
            all == texts(c.detail@),
            i <= c.detail@.len(),
            line_views(out@) == detail_lines(above, color, all.take(i as int)),
        decreases c.detail@.len() - i,
    {
        assert(all.take(i + 1).drop_last() =~= all.take(i as int));
        assert(all.take(i + 1).last() == c.detail@[i as int]@);
        say(out, cat2("      ", dimmed(color, c.detail[i].as_str()).as_str()));
        i += 1;
    }
    assert(all.take(all.len() as int) =~= all);
    if let Some(fix) = &c.fix {
        say(
            out,
            cat4(
                "      ",
                dimmed(color, "fix:").as_str(),
                " ",
                cyan(color, fix.as_str()).as_str(),
            ),
        );
    }
}

/// The report of the checks.
pub fn run(color: bool, v: &Vec<Check>) -> (out: Vec<Line>)
    ensures
        line_views(out@) == report(color, checks(v@)),
{
    let ghost all = checks(v@);
    let mut out = no_lines();
    let mut problems: usize = 0;
    let mut warnings: usize = 0;
    let mut i: usize = 0;
    assert(all.take(0) =~= seq![]);
    while i < v.len()
        invariant
            all == checks(v@),
            i <= v@.len(),
            problems <= i,
            warnings <= i,
            problems == tally(all.take(i as int), Status::Problem),
            warnings == tally(all.take(i as int), Status::Warn),
            line_views(out@) == all_check_lines(color, all.take(i as int)),
        decreases v@.len() - i,
    {
        assert(all.take(i + 1).drop_last() =~= all.take(i as int));
        assert(all.take(i + 1).last() == v@[i as int]@);
        match v[i].status {
            Status::Fine => {},
            Status::Warn => {
                warnings += 1;
            },
            Status::Problem => {
                problems += 1;
            },
        }
        say_check(&mut out, color, &v[i]);
        i += 1;
    }
    assert(all.take(all.len() as int) =~= all);
    say(&mut out, "".to_owned());
    if problems == 0 && warnings == 0 {
        say(&mut out, success_line(color, "Your system looks healthy."));
    } else {
        let text = cat4(
            decimal_usize(problems).as_str(),
            " problem(s), ",
            decimal_usize(warnings).as_str(),
            " warning(s) found.",
        );
        complain(&mut out, warn_line(color, text.as_str()));
    }
    out
}

} // verus!
