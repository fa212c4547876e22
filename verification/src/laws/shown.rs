//! Laws of the lists that are shown: every item has its line, in its place.

use vstd::prelude::*;

use crate::apt::{ChangeView, ResultView, TransactionView};
use crate::cnf::{install_hint, install_hints, missing_lines, shell_hook};
use crate::commands::{
    bold_list, held_text, history_row, history_rows, history_text, hold_text, redo_request,
    undo_request, upgradable_text, upgrade_word, DecisionView,
};
use crate::config::RowView as SettingView;
use crate::doctor::{check_lines, check_title, detail_lines, CheckView, Status};
use crate::fetch::{applied_lines, mirror_lines, mirror_text, ranking_lines, ProbeView};
use crate::history::{undo_texts, what_text, EntryView};
use crate::laws::text::a_text_is_held_where_it_is_put;
use crate::listpkgs::{
    auto_badge, held_badge, installed_lines, row_lines, row_text, upgradable_lines,
    upgradable_row_lines, RowView,
};
use crate::number::{decimal, padded, padded_left};
use crate::progress::{kept_lines, log_lines, with_faint};
use crate::provides::{found_lines, owner_of, provided_lines};
use crate::repo::{
    file_lines, list_lines, source_count, source_lines, source_text, FileView, SourceView,
};
use crate::report::{
    dependent_lines, green_list, plain_list, result_lines, result_rows, setting_lines, setting_text,
    why_text,
};
use crate::resolve::{diff_head, diff_lines, diff_text, review};
use crate::restart::{rest_text, services_text, unit_lines};
use crate::selfupdate::update_lines;
use crate::text::{has_prefix, has_suffix, has_text, join, lines};
use crate::transact::{collateral, outcome_text, plan_lines, Outcome};
use crate::ui::{
    bold_text, cyan_text, dim_text, green_text, header_text, plan_text, plural, red_text, size_text,
    success_text, upgrade_text, warn_text, yellow_text, LineView,
};
use crate::why::ExplanationView;

verus! {

// ---------------------------------------------------------------------------
// One line for each item
// ---------------------------------------------------------------------------

/// The detail of a check is told below its title, a line for each.
pub proof fn every_detail_has_a_line(
    above: Seq<LineView>,
    color: bool,
    detail: Seq<Seq<char>>,
    i: int,
)
    ensures
        detail_lines(above, color, detail).len() == above.len() + detail.len(),
        0 <= i < above.len() ==> detail_lines(above, color, detail)[i] == above[i],
        0 <= i < detail.len() ==> detail_lines(above, color, detail)[above.len() + i]
            == LineView::Out("      "@ + dim_text(color, detail[i])),
    decreases detail.len(),
{
    if detail.len() > 0 {
        every_detail_has_a_line(above, color, detail.drop_last(), i);
    }
}

/// So are the units, of services that are restarted or left alone.
pub proof fn every_unit_has_a_line(above: Seq<LineView>, color: bool, v: Seq<Seq<char>>, i: int)
    ensures
        unit_lines(above, color, v).len() == above.len() + v.len(),
        0 <= i < above.len() ==> unit_lines(above, color, v)[i] == above[i],
        0 <= i < v.len() ==> unit_lines(above, color, v)[above.len() + i] == LineView::Out(
            "   "@ + yellow_text(color, v[i]),
        ),
    decreases v.len(),
{
    if v.len() > 0 {
        every_unit_has_a_line(above, color, v.drop_last(), i);
    }
}

/// So are the mirrors, each with its place.
pub proof fn every_mirror_has_a_line(
    above: Seq<LineView>,
    color: bool,
    v: Seq<ProbeView>,
    current: Option<Seq<char>>,
    i: int,
)
    ensures
        mirror_lines(above, color, v, current).len() == above.len() + v.len(),
        0 <= i < above.len() ==> mirror_lines(above, color, v, current)[i] == above[i],
        0 <= i < v.len() ==> mirror_lines(above, color, v, current)[above.len() + i]
            == LineView::Out(mirror_text(color, (i + 1) as nat, v[i], current)),
    decreases v.len(),
{
    if v.len() > 0 {
        every_mirror_has_a_line(above, color, v.drop_last(), current, i);
    }
}

/// So are the sources of a file.
pub proof fn every_source_has_a_line(
    above: Seq<LineView>,
    color: bool,
    v: Seq<SourceView>,
    i: int,
)
    ensures
        source_lines(above, color, v).len() == above.len() + v.len(),
        0 <= i < above.len() ==> source_lines(above, color, v)[i] == above[i],
        0 <= i < v.len() ==> source_lines(above, color, v)[above.len() + i] == LineView::Out(
            source_text(color, v[i]),
        ),
    decreases v.len(),
{
    if v.len() > 0 {
        every_source_has_a_line(above, color, v.drop_last(), i);
    }
}

/// So are the packages that pull another in, and those that need it.
pub proof fn every_dependent_has_a_line(
    above: Seq<LineView>,
    color: bool,
    v: Seq<Seq<char>>,
    i: int,
)
    ensures
        green_list(above, color, v).len() == above.len() + v.len(),
        plain_list(above, v).len() == above.len() + v.len(),
        bold_list(above, color, v).len() == above.len() + v.len(),
        0 <= i < above.len() ==> green_list(above, color, v)[i] == above[i] && plain_list(
            above,
            v,
        )[i] == above[i] && bold_list(above, color, v)[i] == above[i],
        0 <= i < v.len() ==> green_list(above, color, v)[above.len() + i] == LineView::Out(
            "     "@ + green_text(color, v[i]),
        ),
        0 <= i < v.len() ==> plain_list(above, v)[above.len() + i] == LineView::Out("     "@ + v[i]),
        0 <= i < v.len() ==> bold_list(above, color, v)[above.len() + i] == LineView::Out(
            "   "@ + bold_text(color, v[i]),
        ),
    decreases v.len(),
{
    if v.len() > 0 {
        every_dependent_has_a_line(above, color, v.drop_last(), i);
    }
}

/// So are the packages that hold a missing command.
pub proof fn every_suggestion_has_a_line(
    above: Seq<LineView>,
    color: bool,
    v: Seq<Seq<char>>,
    i: int,
)
    ensures
        install_hints(above, color, v).len() == above.len() + v.len(),
        0 <= i < above.len() ==> install_hints(above, color, v)[i] == above[i],
        0 <= i < v.len() ==> install_hints(above, color, v)[above.len() + i] == LineView::Error(
            "  "@ + cyan_text(color, "sudo wrapt install "@ + v[i]),
        ),
    decreases v.len(),
{
    if v.len() > 0 {
        every_suggestion_has_a_line(above, color, v.drop_last(), i);
    }
}

/// So are the entries of the history, each with its date.
pub proof fn every_entry_has_a_line(
    above: Seq<LineView>,
    color: bool,
    es: Seq<EntryView>,
    dates: Seq<Seq<char>>,
    i: int,
)
    requires
        es.len() == dates.len(),
    ensures
        history_rows(above, color, es, dates).len() == above.len() + es.len(),
        0 <= i < above.len() ==> history_rows(above, color, es, dates)[i] == above[i],
        0 <= i < es.len() ==> history_rows(above, color, es, dates)[above.len() + i] == history_row(
            color,
            es[i],
            dates[i],
        ),
    decreases es.len(),
{
    if es.len() > 0 {
        every_entry_has_a_line(above, color, es.drop_last(), dates.drop_last(), i);
    }
}

/// So are the settings.
pub proof fn every_setting_has_a_line(
    above: Seq<LineView>,
    color: bool,
    v: Seq<SettingView>,
    i: int,
)
    ensures
        setting_lines(above, color, v).len() == above.len() + v.len(),
        0 <= i < above.len() ==> setting_lines(above, color, v)[i] == above[i],
        0 <= i < v.len() ==> setting_lines(above, color, v)[above.len() + i] == LineView::Out(
            setting_text(color, v[i]),
        ),
    decreases v.len(),
{
    if v.len() > 0 {
        every_setting_has_a_line(above, color, v.drop_last(), i);
    }
}

/// So are the installed packages and the upgrades.
pub proof fn every_package_has_a_line(
    color: bool,
    title: Seq<char>,
    width: nat,
    v: Seq<RowView>,
    u: Seq<ChangeView>,
    i: int,
)
    ensures
        row_lines(color, title, width, v).len() == v.len() + 1,
        row_lines(color, title, width, v)[0] == LineView::Out(header_text(color, title)),
        0 <= i < v.len() ==> row_lines(color, title, width, v)[i + 1] == LineView::Out(
            row_text(color, width, v[i]),
        ),
        upgradable_row_lines(color, title, width, u).len() == u.len() + 1,
        upgradable_row_lines(color, title, width, u)[0] == LineView::Out(header_text(color, title)),
        0 <= i < u.len() ==> upgradable_row_lines(color, title, width, u)[i + 1] == LineView::Out(
            upgrade_text(color, width, u[i]),
        ),
    decreases v.len() + u.len(),
{
    if v.len() > 0 {
        every_package_has_a_line(color, title, width, v.drop_last(), seq![], i);
    }
    if u.len() > 0 {
        every_package_has_a_line(color, title, width, seq![], u.drop_last(), i);
    }
}

/// So are the results of a search, two lines for each, numbered where one may be
/// picked.
pub proof fn every_result_has_its_lines(
    color: bool,
    v: Seq<ResultView>,
    interactive: bool,
    width: nat,
    i: int,
)
    ensures
        result_rows(color, v, interactive, width).len() == 2 * v.len(),
        0 <= i < v.len() ==> result_rows(color, v, interactive, width)[2 * i] == result_lines(
            color,
            v[i],
            if interactive {
                Some((i + 1) as nat)
            } else {
                None
            },
            width,
        ).0,
        0 <= i < v.len() ==> result_rows(color, v, interactive, width)[2 * i + 1] == result_lines(
            color,
            v[i],
            if interactive {
                Some((i + 1) as nat)
            } else {
                None
            },
            width,
        ).1,
    decreases v.len(),
{
    if v.len() > 0 {
        every_result_has_its_lines(color, v.drop_last(), interactive, width, i);
    }
}

/// So are the files that were found, a line for the package and one for the file.
pub proof fn every_file_has_its_lines(
    above: Seq<LineView>,
    color: bool,
    installed: Set<Seq<char>>,
    ps: Seq<(Seq<char>, Seq<char>)>,
    i: int,
)
    ensures
        found_lines(above, color, installed, ps).len() == above.len() + 2 * ps.len(),
        0 <= i < above.len() ==> found_lines(above, color, installed, ps)[i] == above[i],
        0 <= i < ps.len() ==> found_lines(above, color, installed, ps)[above.len() + 2 * i]
            == LineView::Out(
            "   "@ + bold_text(color, ps[i].0) + (if installed.contains(ps[i].0) {
                " "@ + green_text(color, "[installed]"@)
            } else {
                ""@
            }),
        ),
        0 <= i < ps.len() ==> found_lines(above, color, installed, ps)[above.len() + 2 * i + 1]
            == LineView::Out("     "@ + dim_text(color, ps[i].1)),
    decreases ps.len(),
{
    if ps.len() > 0 {
        every_file_has_its_lines(above, color, installed, ps.drop_last(), i);
    }
}

/// So are the lines of a log and of a difference.
pub proof fn every_log_line_has_a_line(
    above: Seq<LineView>,
    color: bool,
    v: Seq<Seq<char>>,
    i: int,
)
    ensures
        with_faint(above, color, v).len() == above.len() + v.len(),
        diff_lines(above, color, v).len() == above.len() + v.len(),
        0 <= i < above.len() ==> with_faint(above, color, v)[i] == above[i] && diff_lines(
            above,
            color,
            v,
        )[i] == above[i],
        0 <= i < v.len() ==> with_faint(above, color, v)[above.len() + i] == LineView::Error(
            "    "@ + dim_text(color, v[i]),
        ),
        0 <= i < v.len() ==> diff_lines(above, color, v)[above.len() + i] == LineView::Out(
            "     "@ + diff_text(color, v[i]),
        ),
    decreases v.len(),
{
    if v.len() > 0 {
        every_log_line_has_a_line(above, color, v.drop_last(), i);
    }
}

// ---------------------------------------------------------------------------
// Titles and limits
// ---------------------------------------------------------------------------

/// A check that is fine is ticked, a warning and a problem are marked otherwise;
/// its fix comes last.
pub proof fn a_check_is_marked_by_its_status(above: Seq<LineView>, c: CheckView)
    ensures
        c.status == Status::Fine ==> check_title(false, c) == "  "@ + "✓"@ + " "@ + c.title,
        c.status == Status::Warn ==> check_title(false, c) == "  "@ + "!"@ + " "@ + c.title,
        c.status == Status::Problem ==> check_title(false, c) == "  "@ + "✗"@ + " "@ + c.title,
        check_lines(above, false, c)[above.len() as int] == LineView::Out(check_title(false, c)),
        c.fix is None ==> check_lines(above, false, c).len() == above.len() + 1 + c.detail.len(),
        c.fix is Some ==> check_lines(above, false, c).len() == above.len() + 2 + c.detail.len()
            && check_lines(above, false, c).last() == LineView::Out(
            "      "@ + "fix:"@ + " "@ + c.fix->0,
        ),
{
    let one = above.push(LineView::Out(check_title(false, c)));
    every_detail_has_a_line(one, false, c.detail, above.len() as int);
}

/// At most so many mirrors are shown as were asked for, from the fastest on.
pub proof fn so_many_mirrors_are_shown(
    color: bool,
    v: Seq<ProbeView>,
    current: Option<Seq<char>>,
    count: nat,
    country_given: bool,
    i: int,
)
    requires
        v.len() >= 2,
    ensures
        v.len() > count ==> ranking_lines(color, v, current, count, country_given).len() == count
            + 2,
        v.len() <= count ==> ranking_lines(color, v, current, count, country_given).len() == v.len()
            + 2,
        0 <= i < v.len() && i < count ==> ranking_lines(color, v, current, count, country_given)[i
            + 1] == LineView::Out(mirror_text(color, (i + 1) as nat, v[i], current)),
{
    let shown = if v.len() > count {
        v.take(count as int)
    } else {
        v
    };
    let none: Seq<LineView> = seq![];
    let above = none.push(LineView::Out(""@));
    every_mirror_has_a_line(above, color, shown, current, i);
}

/// A single mirror, without a country given, is warned of.
pub proof fn a_single_mirror_is_warned_of(
    color: bool,
    v: Seq<ProbeView>,
    current: Option<Seq<char>>,
    count: nat,
    country_given: bool,
)
    requires
        v.len() < 2,
    ensures
        !country_given ==> ranking_lines(color, v, current, count, country_given).contains(
            LineView::Error(warn_text(color, "Only one mirror was found for your location."@)),
        ),
        country_given ==> ranking_lines(color, v, current, count, country_given).last()
            == LineView::Out(""@),
{
    let all = ranking_lines(color, v, current, count, country_given);
    if !country_given {
        let k = all.len() - 2;
        assert(all[k] == all.drop_last().last());
        assert(all.contains(all[k]));
    }
}

/// Up to fifteen files are shown; of more the first fifteen, and how many are left.
pub proof fn fifteen_files_are_shown(
    color: bool,
    pattern: Seq<char>,
    installed: Set<Seq<char>>,
    apt_file: bool,
    ps: Seq<(Seq<char>, Seq<char>)>,
)
    requires
        ps.len() > 0,
    ensures
        ps.len() <= 15 ==> provided_lines(color, pattern, installed, apt_file, ps).len() == 1 + 2
            * ps.len(),
        ps.len() > 15 ==> provided_lines(color, pattern, installed, apt_file, ps).len() == 32
            && provided_lines(color, pattern, installed, apt_file, ps).last() == LineView::Out(
            "   "@ + dim_text(
                color,
                "… and "@ + decimal((ps.len() - 15) as nat) + " more match(es)"@,
            ),
        ),
        provided_lines(color, pattern, installed, apt_file, ps)[0] == LineView::Out(
            header_text(color, "Packages providing '"@ + pattern + "'"@),
        ),
{
    let none: Seq<LineView> = seq![];
    let title = none.push(
        LineView::Out(header_text(color, "Packages providing '"@ + pattern + "'"@)),
    );
    every_file_has_its_lines(title, color, installed, ps, 0);
    every_file_has_its_lines(title, color, installed, ps.take(15), 0);
}

/// Where nothing was found that is said, and how to search further only where that
/// was not done.
pub proof fn nothing_found_is_said(
    color: bool,
    pattern: Seq<char>,
    installed: Set<Seq<char>>,
    cmd: Seq<char>,
)
    ensures
        provided_lines(color, pattern, installed, true, seq![]) == seq![
            LineView::Error(warn_text(color, "No package found providing '"@ + pattern + "'."@)),
        ],
        provided_lines(color, pattern, installed, false, seq![]).len() == 3,
        provided_lines(color, pattern, installed, false, seq![])[0] == LineView::Error(
            warn_text(color, "No package found providing '"@ + pattern + "'."@),
        ),
        missing_lines(false, cmd, seq![], true) == seq![
            LineView::Error("!"@ + " command not found: "@ + cmd),
        ],
        missing_lines(false, cmd, seq![], false).len() == 3,
{
    assert(provided_lines(color, pattern, installed, true, seq![]) =~= seq![
        LineView::Error(warn_text(color, "No package found providing '"@ + pattern + "'."@)),
    ]);
    assert(missing_lines(false, cmd, seq![], true) =~= seq![
        LineView::Error("!"@ + " command not found: "@ + cmd),
    ]);
}

/// A missing command is told with every package that holds it.
pub proof fn a_missing_command_is_told_its_packages(
    cmd: Seq<char>,
    pkgs: Seq<Seq<char>>,
    apt_file: bool,
    i: int,
)
    requires
        0 <= i < pkgs.len(),
    ensures
        missing_lines(false, cmd, pkgs, apt_file).len() == pkgs.len() + 1,
        missing_lines(false, cmd, pkgs, apt_file)[i + 1] == LineView::Error(
            "  "@ + ("sudo wrapt install "@ + pkgs[i]),
        ),
{
    if pkgs.len() > 1 {
        let none: Seq<LineView> = seq![];
        every_suggestion_has_a_line(
            none.push(
                LineView::Error(
                    "!"@ + " "@ + cmd + " is provided by several packages. Install one of:"@,
                ),
            ),
            false,
            pkgs,
            i,
        );
    }
}

/// Up to ten packages that need another are shown; of more the first ten, and how
/// many are left.
pub proof fn ten_dependents_are_shown(above: Seq<LineView>, color: bool, by: Seq<Seq<char>>)
    ensures
        by.len() == 0 ==> dependent_lines(above, color, by) == above,
        0 < by.len() <= 10 ==> dependent_lines(above, color, by).len() == above.len() + 2
            + by.len(),
        by.len() > 10 ==> dependent_lines(above, color, by).len() == above.len() + 13
            && dependent_lines(above, color, by).last() == LineView::Out(
            "     "@ + dim_text(color, "… and "@ + decimal((by.len() - 10) as nat) + " more"@),
        ),
{
    if by.len() > 0 {
        let a = above.push(LineView::Out(""@)).push(
            LineView::Out(
                "   "@ + bold_text(color, "Directly required by"@) + " ("@ + decimal(by.len())
                    + "):"@,
            ),
        );
        every_dependent_has_a_line(a, color, by, 0);
        every_dependent_has_a_line(a, color, by.take(10), 0);
    }
}

/// The owner of a file is the package before the colon of the first line, where
/// dpkg knows one.
pub proof fn the_owner_stands_before_the_colon(pkg: Seq<char>, rest: Seq<char>)
    requires
        !pkg.contains(':'),
        !pkg.contains('\n'),
        !rest.contains('\n'),
    ensures
        owner_of(true, pkg + seq![':'] + rest) == Some(pkg),
        owner_of(false, pkg + seq![':'] + rest) is None,
        owner_of(true, seq![]) is None,
{
    let s = pkg + seq![':'] + rest;
    assert(!s.contains('\n')) by {
        assert forall|i: int| 0 <= i < s.len() implies s[i] != '\n' by {
            if i < pkg.len() {
                assert(pkg.contains(pkg[i]));
            } else if i > pkg.len() {
                assert(rest.contains(rest[i - pkg.len() - 1]));
            }
        }
    }
    crate::laws::text::a_line_ends_at_the_line_feed(s, seq![]);
    crate::laws::text::a_line_ends_at_the_line_feed(seq![], seq![]);
    crate::laws::text::a_piece_ends_at_the_character(pkg, ':', rest);
}

/// A newer release is told; otherwise that there is none.
pub proof fn a_newer_release_is_told(check: bool, current: Seq<char>, latest: Seq<char>)
    ensures
        crate::lists::versions_rel(latest, current) != crate::version::Rel::Greater
            ==> update_lines(false, check, current, latest) == seq![
            LineView::Out(
                success_text(false, "wrapt is already up to date (v"@ + current + ")."@),
            ),
        ],
        crate::lists::versions_rel(latest, current) == crate::version::Rel::Greater
            ==> update_lines(false, check, current, latest)[0] == LineView::Out(
            "   "@ + "Update available:"@ + " "@ + ("v"@ + current) + " "@ + "→"@ + " "@ + ("v"@
                + latest),
        ) && update_lines(false, check, current, latest).len() == (if check {
            2nat
        } else {
            1nat
        }),
{
}

/// The services to restart are counted and named; with none nothing is said.
pub proof fn services_are_counted_and_named(color: bool, v: Seq<Seq<char>>, i: int)
    ensures
        services_text(color, seq![]).len() == 0,
        v.len() > 0 ==> services_text(color, v).len() == v.len() + 2,
        0 <= i < v.len() ==> services_text(color, v)[i + 1] == LineView::Out(
            "   "@ + yellow_text(color, v[i]),
        ),
{
    if v.len() > 0 {
        let none: Seq<LineView> = seq![];
        let above = none.push(
            LineView::Out(
                header_text(
                    color,
                    decimal(v.len()) + " service"@ + plural(v.len())
                        + " need restarting (using outdated libraries):"@,
                ),
            ),
        );
        every_unit_has_a_line(above, color, v, i);
    }
}

/// What is left alone is named too, and an outdated kernel asks for a reboot.
pub proof fn what_is_left_alone_is_named(
    color: bool,
    deferred: Seq<Seq<char>>,
    kernel_reboot: bool,
    i: int,
)
    ensures
        rest_text(color, seq![], false).len() == 0,
        0 <= i < deferred.len() ==> rest_text(color, deferred, kernel_reboot)[i + 1]
            == LineView::Out("   "@ + yellow_text(color, deferred[i])),
        kernel_reboot ==> rest_text(color, deferred, kernel_reboot).last() == LineView::Error(
            warn_text(color, "The running kernel is outdated — a reboot is recommended."@),
        ),
{
    if deferred.len() > 0 {
        let none: Seq<LineView> = seq![];
        let above = none.push(
            LineView::Error(
                warn_text(
                    color,
                    decimal(deferred.len()) + " service"@ + plural(deferred.len())
                        + " also updated, but wrapt will not restart "@ + (if deferred.len() == 1 {
                        "it"@
                    } else {
                        "them"@
                    }) + ":"@,
                ),
            ),
        );
        every_unit_has_a_line(above, color, deferred, i);
    }
}

/// A hidden log is told whole where a run fails.
pub proof fn a_hidden_log_is_told_whole(color: bool, log: Seq<Seq<char>>, i: int)
    ensures
        log_lines(color, seq![]).len() == 0,
        log.len() > 0 ==> log_lines(color, log).len() == log.len() + 1,
        0 <= i < log.len() ==> log_lines(color, log)[i + 1] == LineView::Error(
            "    "@ + dim_text(color, log[i]),
        ),
{
    if log.len() > 0 {
        every_log_line_has_a_line(
            seq![LineView::Error(warn_text(color, "apt output:"@))],
            color,
            log,
            i,
        );
    }
}

/// A line that a difference adds is green, one that it takes away red.
pub proof fn a_difference_is_coloured_by_its_sign(line: Seq<char>)
    requires
        line.len() > 0,
    ensures
        line[0] == '+' ==> diff_text(true, line) == green_text(true, line),
        line[0] == '-' ==> diff_text(true, line) == red_text(true, line),
        line[0] == '@' ==> diff_text(true, line) == cyan_text(true, line),
        diff_text(false, line) == line,
{
}

/// A row tells the name, the version, and whether the package is held or
/// automatic.
pub proof fn a_row_tells_what_is_held(width: nat, r: RowView)
    ensures
        row_text(false, width, r) == "   "@ + padded(r.name, width) + "  "@ + r.version
            + held_badge(false, r) + auto_badge(false, r),
        r.held ==> held_badge(false, r) == " "@ + "[held]"@,
        !r.held ==> held_badge(false, r) == ""@,
        r.auto ==> auto_badge(false, r) == " "@ + "[auto]"@,
        !r.auto ==> auto_badge(false, r) == ""@,
{
}

/// A source tells its kind, address, suite and components, and whether it is
/// disabled.
pub proof fn a_source_tells_whether_it_is_disabled(s: SourceView)
    ensures
        s.enabled && s.components.len() > 0 ==> source_text(false, s) =~= "     "@ + s.kind + " "@
            + s.uri + " "@ + s.suite + " "@ + s.components,
        !s.enabled ==> has_suffix(source_text(false, s), "(disabled)"@),
{
    reveal_strlit("");
    if !s.enabled {
        let a = "     "@ + s.kind + " "@ + s.uri + " "@ + s.suite + (if s.components.len() == 0 {
            ""@
        } else {
            " "@ + s.components
        }) + " "@;
        a_text_is_held_where_it_is_put(a, "(disabled)"@, seq![]);
        assert(source_text(false, s) =~= a + "(disabled)"@);
    }
}

/// A plan that takes away what the user installed on purpose says so, and names
/// all of it.
pub proof fn lost_packages_are_named(
    color: bool,
    tx: TransactionView,
    manual: Set<Seq<char>>,
    named: Seq<Seq<char>>,
)
    ensures
        plan_lines(color, tx, manual, named)[0] == LineView::Out(plan_text(color, tx, manual)),
        collateral(tx.remove, manual, named).len() == 0 ==> plan_lines(
            color,
            tx,
            manual,
            named,
        ).len() == 1,
        collateral(tx.remove, manual, named).len() > 0 ==> plan_lines(color, tx, manual, named).len()
            == 4 && plan_lines(color, tx, manual, named)[2] == LineView::Error(
            "    "@ + yellow_text(color, join(collateral(tx.remove, manual, named), ", "@)),
        ),
{
}

/// How a transaction ended is told apart.
pub proof fn how_it_ended_is_told(color: bool)
    ensures
        outcome_text(color, Outcome::NothingToDo) == LineView::Out(
            success_text(color, "Nothing to do — everything is up to date."@),
        ),
        outcome_text(color, Outcome::DryRun) == LineView::Out(
            success_text(color, "Dry run — nothing was changed."@),
        ),
        outcome_text(color, Outcome::Aborted) == LineView::Error(warn_text(color, "Aborted."@)),
{
}

/// What is held is counted and named.
pub proof fn what_is_held_is_named(color: bool, held: Seq<Seq<char>>, i: int)
    ensures
        held_text(color, seq![]) == seq![
            LineView::Out(success_text(color, "No packages are held."@)),
        ],
        held.len() > 0 ==> held_text(color, held).len() == held.len() + 1 && held_text(
            color,
            held,
        )[0] == LineView::Out(
            header_text(color, "Held packages ("@ + decimal(held.len()) + ")"@),
        ),
        0 <= i < held.len() ==> held_text(color, held)[i + 1] == LineView::Out(
            "   "@ + bold_text(color, held[i]),
        ),
{
    let none: Seq<LineView> = seq![];
    let above = none.push(
        LineView::Out(header_text(color, "Held packages ("@ + decimal(held.len()) + ")"@)),
    );
    every_dependent_has_a_line(above, color, held, i);
    every_dependent_has_a_line(above, color, held, 0);
    assert(held_text(color, seq![]) =~= seq![
        LineView::Out(success_text(color, "No packages are held."@)),
    ]);
}

/// To undo an entry is to run what turns it back, and to redo it is to run its
/// own command again.
pub proof fn undoing_and_redoing_run_the_right_thing(color: bool, e: EntryView, date: Seq<char>)
    ensures
        undo_request(color, e, date) is Ask,
        undo_request(color, e, date)->1.args == undo_texts(e),
        undo_request(color, e, date)->1.named.len() == 0,
        undo_request(color, e, date)->1.label == Some("undo #"@ + decimal(e.id as nat)),
        redo_request(color, e) is Ask,
        redo_request(color, e)->1.args == e.command,
        redo_request(color, e)->1.label == Some("redo #"@ + decimal(e.id as nat)),
        upgrade_word(true) == "dist-upgrade"@,
        upgrade_word(false) == "upgrade"@,
{
}

} // verus!
