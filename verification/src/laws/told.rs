//! Laws of what is told of mirrors, dependencies, releases and settings as a
//! whole.

use vstd::prelude::*;

use crate::apt::ChangeView;
use crate::cli::{does, options, would_do, Cli, Command, Job, RepoCmd};
use crate::cnf::{hook_text, shell_hook};
use crate::commands::{history_row, history_text, hold_text, summary_text, upgradable_text};
use crate::config::{or, ConfigView};
use crate::fetch::{
    applied_lines, archive_file, archive_line, distro_of, distro_step, is_place, is_same_mirror,
    lists_mirror, ProbeView,
};
use crate::history::{by_number, EntryView};
use crate::laws::text::{
    a_character_is_taken_off_again, a_text_is_held_where_it_is_put, trimming_gives_the_text_back,
};
use crate::listpkgs::{
    by_change_name, by_row_name, fixes, installed_lines, upgradable_lines, RowView,
};
use crate::number::{decimal, padded, padded_left};
use crate::order::text_le;
use crate::repo::{list_lines, FileView};
use crate::report::{
    chain_texts, manual_lines, orphan_lines, paths_text, root_lines, status_text, why_text,
};
use crate::resolve::{candidates, hint_text, hints, suggests, unknown_package};
use crate::selfupdate::{os_tag, os_value};
use crate::text::{has_prefix, has_suffix, has_text, is_space, join, lines, opt_text, texts, trim};
use crate::ui::{header_text, question, success_text, warn_text, LineView};
use crate::why::{
    bare_lines, bare_name, depends, is_graph_of, is_root, ExplanationView, Graph, RecordView,
};

verus! {

// ---------------------------------------------------------------------------
// Mirrors
// ---------------------------------------------------------------------------

/// The distribution is read line by line, a later line over an earlier one.
pub proof fn the_distribution_is_read_line_by_line(ls: Seq<Seq<char>>, line: Seq<char>)
    ensures
        distro_of(seq![]).0.len() == 0,
        distro_of(seq![]).1.len() == 0,
        distro_of(ls.push(line)) == distro_step(distro_of(ls), line),
{
    assert(ls.push(line).drop_last() =~= ls);
}

/// The archive in use is that of the first file that names one.
pub proof fn the_first_file_names_the_archive(
    before: Seq<Seq<char>>,
    text: Seq<char>,
    after: Seq<Seq<char>>,
)
    requires
        forall|i: int| 0 <= i < before.len() ==> archive_line(lines(#[trigger] before[i])) is None,
        archive_line(lines(text)) is Some,
    ensures
        archive_file(before + seq![text] + after) == archive_line(lines(text)),
        archive_file(before) is None,
    decreases before.len(),
{
    let all = before + seq![text] + after;
    if before.len() == 0 {
        assert(all[0] == text);
    } else {
        let rest = before.skip(1);
        assert(all[0] == before[0]);
        assert(all.skip(1) =~= rest + seq![text] + after);
        assert forall|i: int| 0 <= i < rest.len() implies archive_line(
            lines(#[trigger] rest[i]),
        ) is None by {
            assert(rest[i] == before[i + 1]);
        }
        the_first_file_names_the_archive(rest, text, after);
    }
}

/// A mirror is listed with or without a slash at its end.
pub proof fn a_mirror_is_listed_with_or_without_its_slash(v: Seq<Seq<char>>, k: int, m: Seq<char>)
    requires
        0 <= k < v.len(),
        m.len() > 0,
        m[0] != '/',
        m.last() != '/',
        v[k] == m || v[k] == m + seq!['/'],
    ensures
        lists_mirror(v, m),
        lists_mirror(v, m + seq!['/']),
{
    a_character_is_taken_off_again(m, '/');
    assert(is_same_mirror(v[k], m));
    assert(is_same_mirror(v[k], m + seq!['/']));
}

/// A mirror has one place in a ranking.
pub proof fn a_mirror_has_one_place(v: Seq<ProbeView>, c: Seq<char>, i: int, j: int)
    requires
        is_place(v, c, i),
        is_place(v, c, j),
    ensures
        i == j,
        is_same_mirror(v[i].url, c),
{
    assert(is_same_mirror(v[i].url, c) && is_same_mirror(v[j].url, c));
}

/// What was switched is counted; where nothing was, the mirror is named for the
/// user to do it.
pub proof fn what_was_switched_is_counted(files: nat, uris: nat, mirror: Seq<char>)
    ensures
        files > 0 ==> applied_lines(false, files, uris, mirror)[0] == LineView::Out(
            success_text(
                false,
                "Switched "@ + decimal(uris) + " archive source(s) to "@ + mirror + "."@,
            ),
        ),
        applied_lines(false, 0, uris, mirror).last() == LineView::Out("    "@ + mirror),
        applied_lines(false, 0, uris, mirror)[0] is Error,
{
}

// ---------------------------------------------------------------------------
// Releases
// ---------------------------------------------------------------------------

/// The last line for a key gives its value, with or without quotes.
pub proof fn the_last_line_gives_the_value(
    ls: Seq<Seq<char>>,
    prefix: Seq<char>,
    value: Seq<char>,
    other: Seq<char>,
)
    requires
        value.len() > 0,
        value[0] != '"',
        value.last() != '"',
        !is_space(value[0]),
        !is_space(value.last()),
        !has_prefix(other, prefix),
    ensures
        os_value(ls.push(prefix + value), prefix) == Some(value),
        os_value(ls.push(prefix + (seq!['"'] + value + seq!['"'])), prefix) == Some(value),
        os_value(ls.push(other), prefix) == os_value(ls, prefix),
        os_value(seq![], prefix) is None,
{
    let e = Seq::<char>::empty();
    let quoted = seq!['"'] + value + seq!['"'];
    a_text_is_held_where_it_is_put(e, prefix, value);
    a_text_is_held_where_it_is_put(e, prefix, quoted);
    assert(!is_space('"'));
    trimming_gives_the_text_back(e, value, e);
    assert(e + value + e =~= value);
    assert(quoted[0] == '"' && quoted.last() == '"');
    trimming_gives_the_text_back(e, quoted, e);
    assert(e + quoted + e =~= quoted);
    a_character_is_taken_off_again(value, '"');
    assert(ls.push(prefix + value).drop_last() =~= ls);
    assert(ls.push(prefix + quoted).drop_last() =~= ls);
    assert(ls.push(other).drop_last() =~= ls);
}

/// The tag of a system is its identifier and its version, one behind the other.
pub proof fn a_system_is_its_name_and_version(text: Seq<char>)
    ensures
        os_value(lines(text), "ID="@) is Some && os_value(lines(text), "VERSION_ID="@) is Some
            ==> os_tag(text) == Some(
            os_value(lines(text), "ID="@)->0 + os_value(lines(text), "VERSION_ID="@)->0,
        ),
        os_value(lines(text), "ID="@) is None || os_value(lines(text), "VERSION_ID="@) is None
            ==> os_tag(text) is None,
{
}

// ---------------------------------------------------------------------------
// Dependencies
// ---------------------------------------------------------------------------

/// In a graph a package is needed by exactly those that depend on it, and it was
/// installed on purpose exactly where apt did not mark it.
pub proof fn a_graph_shows_who_needs_whom(
    g: Graph,
    records: Seq<RecordView>,
    auto: Seq<Seq<char>>,
    name: Seq<char>,
    by: Seq<char>,
)
    requires
        is_graph_of(g, records, auto),
    ensures
        g.parents(name).contains(by) <==> depends(records, name, by),
        g.installed().contains(name) <==> exists|i: int|
            0 <= i < records.len() && (#[trigger] records[i]).package == name,
        is_root(g, by, name) <==> name != by && !auto.contains(name),
{
    assert(g.auto().contains(name) <==> auto.contains(name));
}

/// The marks of apt are read line by line, without blanks and architecture.
pub proof fn a_mark_is_read_without_its_architecture(
    ls: Seq<Seq<char>>,
    name: Seq<char>,
    arch: Seq<char>,
)
    requires
        name.len() > 0,
        !name.contains(':'),
        !is_space(name[0]),
        !is_space(name.last()),
        arch.len() > 0,
        !is_space(arch.last()),
    ensures
        bare_lines(ls.push(name)) == bare_lines(ls).push(name),
        bare_lines(ls.push(name + seq![':'] + arch)) == bare_lines(ls).push(name),
{
    let e = Seq::<char>::empty();
    let s = name + seq![':'] + arch;
    trimming_gives_the_text_back(e, name, e);
    assert(e + name + e =~= name);
    assert(s[0] == name[0] && s.last() == arch.last());
    trimming_gives_the_text_back(e, s, e);
    assert(e + s + e =~= s);
    crate::laws::why::a_name_stands_before_its_architecture(name, arch);
    assert(bare_lines(ls.push(name)) =~= bare_lines(ls).push(name));
    assert(bare_lines(ls.push(s)) =~= bare_lines(ls).push(name));
}

/// Why a package is installed: not at all, on purpose, or through another; where
/// nothing needs it, that it looks orphaned.
pub proof fn why_a_package_is_installed(e: ExplanationView, all: bool)
    ensures
        !e.installed ==> why_text(false, e, all) == seq![
            LineView::Error(warn_text(false, e.package + " is not installed."@)),
        ],
        e.installed ==> why_text(false, e, all)[0] == LineView::Out(header_text(false, e.package)),
        e.installed && e.manual ==> why_text(false, e, all)[1] == LineView::Out(
            "   "@ + "Installed manually — you asked for this package directly."@,
        ),
        e.installed && !e.manual ==> why_text(false, e, all)[1]
            == LineView::Out("   "@ + "Installed automatically, as a dependency."@),
        e.installed && !e.manual && !all && e.chain.len() < 2 && e.required_by.len() == 0
            ==> why_text(false, e, all).contains(
            LineView::Out("   "@ + "Nothing installed depends on it — it looks orphaned."@),
        ),
        e.installed && !e.manual && !all && e.chain.len() >= 2
            ==> why_text(false, e, all)[3] == LineView::Out(
            "   "@ + e.chain[0] + " installed it manually, which pulls in:"@,
        ),
{
    let none: Seq<LineView> = seq![];
    let head = none.push(LineView::Out(header_text(false, e.package)));
    let a = head.push(LineView::Out("   "@ + "Installed automatically, as a dependency."@));
    if e.installed && !e.manual {
        lemma_roots(a, e.roots, 0);
        lemma_roots(a, e.roots, 1);
        let b = if all {
            root_lines(a, false, e.roots)
        } else if e.chain.len() >= 2 {
            crate::report::chain_lines(a, false, e.chain)
        } else if e.required_by.len() == 0 {
            orphan_lines(a, false)
        } else {
            a
        };
        lemma_dependents(b, e.required_by, 0);
        lemma_dependents(b, e.required_by, 1);
        lemma_dependents(b, e.required_by, 3);
        if !all && e.chain.len() < 2 && e.required_by.len() == 0 {
            assert(why_text(false, e, all)[3] == LineView::Out(
                "   "@ + "Nothing installed depends on it — it looks orphaned."@,
            ));
        }
    }
}

proof fn lemma_dependents(above: Seq<LineView>, by: Seq<Seq<char>>, i: int)
    ensures
        crate::report::dependent_lines(above, false, by).len() >= above.len(),
        0 <= i < above.len() ==> crate::report::dependent_lines(above, false, by)[i] == above[i],
{
    if by.len() > 0 {
        let a = above.push(LineView::Out(""@)).push(
            LineView::Out("   "@ + "Directly required by"@ + " ("@ + decimal(by.len()) + "):"@),
        );
        crate::laws::shown::every_dependent_has_a_line(a, false, by, i);
        crate::laws::shown::every_dependent_has_a_line(a, false, by.take(10), i);
    }
}

proof fn lemma_roots(above: Seq<LineView>, roots: Seq<Seq<char>>, i: int)
    ensures
        root_lines(above, false, roots).len() >= above.len(),
        0 <= i < above.len() ==> root_lines(above, false, roots)[i] == above[i],
{
    let a = above.push(LineView::Out(""@)).push(
        LineView::Out(
            "   "@ + "Pulled in by these packages you installed manually"@ + " ("@ + decimal(
                roots.len(),
            ) + "):"@,
        ),
    );
    crate::laws::shown::every_dependent_has_a_line(a, false, roots, i);
}

/// The status of an installed package says whether it was asked for.
pub proof fn the_status_says_whether_it_was_asked_for(e: ExplanationView)
    ensures
        !e.installed ==> status_text(false, e).len() == 0,
        e.installed && e.manual ==> status_text(false, e)[1] == LineView::Out(
            "Status:"@ + " "@ + "installed (manual)"@,
        ),
        e.installed && !e.manual ==> status_text(false, e)[1] == LineView::Out(
            "Status:"@ + " "@ + "installed (automatic)"@,
        ),
{
}

// ---------------------------------------------------------------------------
// Lists
// ---------------------------------------------------------------------------

/// Packages are listed by name, entries of the history by number.
pub proof fn lists_go_by_name(a: RowView, b: RowView, c: ChangeView, d: ChangeView, e: EntryView, f: EntryView)
    ensures
        by_row_name()(a, b) == text_le(a.name, b.name),
        by_change_name()(c, d) == text_le(c.name, d.name),
        by_number()(e, f) == (e.id <= f.id),
{
}

/// A list is headed by its number; an empty one is said to be empty.
pub proof fn a_list_is_headed_by_its_number(color: bool, v: Seq<RowView>, u: Seq<ChangeView>)
    ensures
        installed_lines(color, false, seq![]) == seq![
            LineView::Error(warn_text(color, "No matching packages."@)),
        ],
        v.len() > 0 ==> installed_lines(color, false, v)[0] == LineView::Out(
            header_text(color, "Installed ("@ + decimal(v.len()) + ")"@),
        ),
        v.len() > 0 ==> installed_lines(color, true, v)[0] == LineView::Out(
            header_text(color, "Manually installed ("@ + decimal(v.len()) + ")"@),
        ),
        upgradable_lines(color, seq![]) == seq![
            LineView::Out(success_text(color, "Everything is up to date."@)),
        ],
        u.len() > 0 && fixes(u) > 0 ==> upgradable_lines(color, u)[0] == LineView::Out(
            header_text(
                color,
                "Upgradable ("@ + decimal(u.len()) + ", "@ + decimal(fixes(u)) + " security)"@,
            ),
        ),
        u.len() > 0 && fixes(u) == 0 ==> upgradable_lines(color, u)[0] == LineView::Out(
            header_text(color, "Upgradable ("@ + decimal(u.len()) + ")"@),
        ),
{
    crate::laws::shown::every_package_has_a_line(
        color,
        "Installed ("@ + decimal(v.len()) + ")"@,
        crate::listpkgs::widest_row(v),
        v,
        seq![],
        0,
    );
    crate::laws::shown::every_package_has_a_line(
        color,
        "Manually installed ("@ + decimal(v.len()) + ")"@,
        crate::listpkgs::widest_row(v),
        v,
        seq![],
        0,
    );
    crate::laws::shown::every_package_has_a_line(
        color,
        "Upgradable ("@ + decimal(u.len()) + ", "@ + decimal(fixes(u)) + " security)"@,
        crate::ui::widest(u),
        seq![],
        u,
        0,
    );
    crate::laws::shown::every_package_has_a_line(
        color,
        "Upgradable ("@ + decimal(u.len()) + ")"@,
        crate::ui::widest(u),
        seq![],
        u,
        0,
    );
}

/// The history is told entry by entry below its heading, each with its number,
/// date and summary.
pub proof fn the_history_is_told_entry_by_entry(
    es: Seq<EntryView>,
    dates: Seq<Seq<char>>,
    i: int,
)
    requires
        es.len() == dates.len(),
        0 <= i < es.len(),
    ensures
        history_text(false, es, dates).len() == es.len() + 1,
        history_text(false, es, dates)[i + 1] == LineView::Out(
            "  "@ + padded_left(decimal(es[i].id as nat), 4) + "  "@ + padded(dates[i], 16) + "  "@
                + summary_text(es[i]),
        ),
        history_text(false, seq![], seq![]).len() == 1,
{
    let none: Seq<LineView> = seq![];
    let above = none.push(
        LineView::Out(
            "  "@ + padded_left("ID"@, 4) + "  "@ + padded("Date"@, 16) + "  "@ + "Action"@,
        ),
    );
    crate::laws::shown::every_entry_has_a_line(above, false, es, dates, i);
}

/// Sources are counted in the heading; without any the place is named.
pub proof fn sources_are_counted_in_the_heading(color: bool, root: Seq<char>, v: Seq<FileView>)
    ensures
        list_lines(color, root, seq![]) == seq![
            LineView::Error(
                warn_text(color, "No software sources found under "@ + root + "."@),
            ),
        ],
        v.len() > 0 ==> list_lines(color, root, v)[0] == LineView::Out(
            header_text(
                color,
                "Software sources ("@ + decimal(crate::repo::source_count(v)) + ")"@,
            ),
        ),
{
    let none: Seq<LineView> = seq![];
    lemma_files(
        none.push(
            LineView::Out(
                header_text(
                    color,
                    "Software sources ("@ + decimal(crate::repo::source_count(v)) + ")"@,
                ),
            ),
        ),
        color,
        v,
    );
}

proof fn lemma_files(above: Seq<LineView>, color: bool, v: Seq<FileView>)
    requires
        above.len() > 0,
    ensures
        crate::repo::file_lines(above, color, v).len() >= above.len(),
        crate::repo::file_lines(above, color, v)[0] == above[0],
    decreases v.len(),
{
    if v.len() > 0 {
        lemma_files(above, color, v.drop_last());
        let a = crate::repo::file_lines(above, color, v.drop_last()).push(LineView::Out(""@)).push(
            LineView::Out("   "@ + crate::ui::bold_text(color, v.last().path)),
        );
        crate::laws::shown::every_source_has_a_line(a, color, v.last().sources, 0);
    }
}

/// What was held or released is counted; where nothing changed that is said, with
/// the packages.
pub proof fn what_was_held_is_counted(packages: Seq<Seq<char>>, changed: nat)
    ensures
        hold_text(true, packages, 0) == "Nothing changed ("@ + join(packages, ", "@)
            + " already in that state)."@,
        changed > 1 ==> hold_text(true, packages, changed) == "Held"@ + " "@ + decimal(changed)
            + " package"@ + "s"@ + "."@,
        changed > 1 ==> hold_text(false, packages, changed) == "Unheld"@ + " "@ + decimal(changed)
            + " package"@ + "s"@ + "."@,
        upgradable_text(false, 0) == "All packages are up to date."@,
        changed > 1 ==> upgradable_text(false, changed) == decimal(changed) + " package"@ + "s"@
            + " can be upgraded (run "@ + "wrapt upgrade"@ + ")."@,
{
}

/// A question says which answer is the default.
pub proof fn a_question_says_its_default(prompt: Seq<char>)
    ensures
        question(false, prompt, true) == "::"@ + " "@ + prompt + " "@ + "[Y/n]"@ + " "@,
        question(false, prompt, false) == "::"@ + " "@ + prompt + " "@ + "[y/N]"@ + " "@,
{
}

// ---------------------------------------------------------------------------
// Hints and commands
// ---------------------------------------------------------------------------

/// A hint for an unknown package rests on the names that apt knows, one to a line.
pub proof fn a_hint_rests_on_the_names_apt_knows(
    hint: Option<Seq<char>>,
    raw: Seq<char>,
    named: Seq<Seq<char>>,
    pkgnames: Seq<char>,
)
    requires
        hints(hint, raw, named, Some(pkgnames)),
        unknown_package(raw) is Some,
    ensures
        exists|s: Seq<Seq<char>>|
            suggests(s, unknown_package(raw)->0, lines(pkgnames)) && hint == #[trigger] hint_text(
                raw,
                named,
                s,
            ),
        candidates(None).len() == 0,
{
}

/// Each of three shells gets a hook that calls the program, and the others none.
pub proof fn three_shells_get_a_hook(body: Seq<char>, rc: Seq<char>, enable: Seq<char>)
    ensures
        shell_hook(crate::cli::Shell::Bash) is Some,
        shell_hook(crate::cli::Shell::Zsh) is Some,
        shell_hook(crate::cli::Shell::Fish) is Some,
        shell_hook(crate::cli::Shell::Elvish) is None,
        shell_hook(crate::cli::Shell::PowerShell) is None,
        has_text(hook_text(body, rc, enable), body),
        has_text(hook_text(body, rc, enable), rc),
        has_text(hook_text(body, rc, enable), enable),
{
    let a = "# wrapt command-not-found handler\n"@;
    let b = "#\n# To enable, add the following line to "@;
    let c = ":\n#   "@;
    let d = "\n"@;
    let all = hook_text(body, rc, enable);
    a_text_is_held_where_it_is_put(a, body, b + rc + c + enable + d);
    assert(all =~= a + body + (b + rc + c + enable + d));
    a_text_is_held_where_it_is_put(a + body + b, rc, c + enable + d);
    assert(all =~= (a + body + b) + rc + (c + enable + d));
    a_text_is_held_where_it_is_put(a + body + b + rc + c, enable, d);
    assert(all =~= (a + body + b + rc + c) + enable + d);
}

/// Kernels are cleaned by the number set, two where none is; a flag names the
/// country over the setting.
pub proof fn settings_reach_their_commands(job: Job, cli: Cli, cfg: ConfigView)
    requires
        does(job, cli, cfg),
        !cli.dry_run,
    ensures
        cli.command matches Command::Clean { all, kernels } && kernels ==> job == (
        Job::CleanKernels {
            keep: if cfg.keep_kernels is Some {
                cfg.keep_kernels->0
            } else {
                2
            },
        }),
        cli.command matches Command::Clean { all, kernels } && !kernels ==> job == (Job::Clean {
            all: cli.command->Clean_all,
        }),
        cli.command matches Command::Fetch { apply, count, country } ==> job is Fetch
            && job->Fetch_apply == apply && job->Fetch_count == count && (opt_text(country) is Some
            ==> opt_text(job->Fetch_country) == opt_text(country)) && (opt_text(country) is None
            ==> opt_text(job->Fetch_country) == cfg.mirror_country),
        cli.command matches Command::Hold { packages } ==> job == (Job::Hold {
            hold: true,
            packages,
        }),
        cli.command matches Command::Unhold { packages } ==> job == (Job::Hold {
            hold: false,
            packages,
        }),
        cli.command matches Command::Remove { packages, yes, purge } ==> job is Transaction
            && texts(job->Transaction_args@)[0] == (if purge {
            "purge"@
        } else {
            "remove"@
        }) && texts(job->Transaction_args@).skip(1) == texts(packages@) && texts(
            job->Transaction_named@,
        ) == texts(packages@),
        cli.command matches Command::Reinstall { packages, yes } ==> job is Transaction && texts(
            job->Transaction_args@,
        ) == seq!["install"@, "--reinstall"@] + texts(packages@),
        cli.command matches Command::Autoremove { yes } ==> job is Transaction && texts(
            job->Transaction_args@,
        ) == seq!["autoremove"@],
        cli.command matches Command::Upgrade { yes, full, security_only } ==> job == (Job::Upgrade {
            full,
            security_only,
            notify: cfg.notify_updates == Some(true),
        }),
        cli.command matches Command::Undo { id, yes } ==> job == (Job::Undo { id }),
        cli.command matches Command::Redo { id, yes } ==> job == (Job::Redo { id }),
        cli.command matches Command::Rollback { id, yes } ==> job == (Job::Rollback { id }),
        cli.command matches Command::SelfUpdate { check } ==> job == (Job::SelfUpdate { check }),
{
    if let Command::Remove { packages, yes, purge } = cli.command {
        let first = if purge {
            "purge"@
        } else {
            "remove"@
        };
        assert((seq![first] + texts(packages@)).skip(1) =~= texts(packages@));
    }
}

/// Every other command is done as it was given.
pub proof fn commands_are_done_as_given(job: Job, cli: Cli, cfg: ConfigView)
    requires
        does(job, cli, cfg),
        !cli.dry_run,
    ensures
        cli.command matches Command::Install { packages, yes } ==> job == (Job::Install { packages }),
        cli.command matches Command::Download { packages } ==> job == (Job::Download { packages }),
        cli.command matches Command::Plan { packages } ==> job == (Job::Plan { packages }),
        cli.command matches Command::List { upgradable, manual, pattern } ==> job == (Job::List {
            upgradable,
            manual,
            pattern,
        }),
        cli.command matches Command::WhyNot { package } ==> job == (Job::WhyNot { package }),
        cli.command matches Command::Changelog { package } ==> job == (Job::Changelog { package }),
        cli.command matches Command::Repo { action } ==> job == (Job::Repo { action }),
        cli.command matches Command::History { id } ==> job == (Job::History { id }),
        cli.command matches Command::Config { init, path } ==> job == (Job::Config { init, path }),
        cli.command matches Command::Completions { shell } ==> job == (Job::Completions { shell }),
        cli.command matches Command::Search { query } ==> job == (Job::Search { query }),
        cli.command matches Command::Show { package } ==> job == (Job::Show { package }),
        cli.command matches Command::Why { package, all } ==> job == (Job::Why { package, all }),
        cli.command matches Command::Provides { pattern } ==> job == (Job::Provides { pattern }),
        cli.command matches Command::CommandNotFound { command, init } ==> (init is Some ==> job is Hook
            && Some(job->Hook_shell) == init) && (init is None ==> job is Lookup && Some(
            job->Lookup_command,
        ) == command),
        cli.command is Update ==> job is Update,
        cli.command is Held ==> job is Held,
        cli.command is ConfigDiff ==> job is ConfigDiff,
        cli.command is Man ==> job is Man,
        cli.command is Doctor ==> job is Doctor,
{
}

/// In a dry run a command that changes something by itself only says what it
/// would do.
pub proof fn a_dry_run_says_what_would_be_done(job: Job, cli: Cli, cfg: ConfigView)
    requires
        cli.dry_run,
        would_do(cli.command) is Some,
        does(job, cli, cfg),
    ensures
        job is Preview,
        job->would@ == would_do(cli.command)->0,
        cli.command matches Command::Repo { action: RepoCmd::Add { repo, yes } } ==> job->would@
            == "Would add the repository "@ + repo@,
        cli.command matches Command::Repo { action: RepoCmd::Remove { repo, yes } } ==> job->would@
            == "Would remove the repository "@ + repo@,
        cli.command matches Command::Config { init, path } ==> job->would@
            == "Would write a starter config."@,
{
}

} // verus!
