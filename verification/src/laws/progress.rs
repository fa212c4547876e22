//! Laws of apt's progress: what its status lines mean, and what is taken for a
//! question.

use vstd::prelude::*;

use crate::laws::text::{
    a_cut_gives_the_parts_back, a_cut_is_made_at_the_first_place, a_text_is_held_where_it_is_put,
};
use crate::laws::version::lemma_first_byte;
use crate::progress::{
    after_round, completed, failure, full_lines, is_question, kept_lines, last_part, log_lines,
    no_arch, prompts, read_all, status_fields, status_step, stderr_step, stdout_step, tick,
    unfinished, ActionView, RunView, Stage, StatusView,
};
use crate::text::{
    after_prefix, cut, first_occurs_at, has_prefix, has_suffix, has_text, join, lemma_cut,
    lossy_text, occurs_at, trim_end_char, without_text,
};
use crate::ui::{bold_text, green_text, red_text, warn_text, LineView};

verus! {

// ---------------------------------------------------------------------------
// Status lines
// ---------------------------------------------------------------------------

/// A status line is the sort, the package, the percentage and the message, with
/// colons between them; the message may hold more of them.
pub proof fn a_status_line_has_four_fields(
    sort: Seq<char>,
    pkg: Seq<char>,
    percent: Seq<char>,
    msg: Seq<char>,
)
    requires
        !sort.contains(':'),
        !pkg.contains(':'),
        !percent.contains(':'),
    ensures
        status_fields(sort + seq![':'] + (pkg + seq![':'] + (percent + seq![':'] + msg)))
            == (StatusView { kind: sort, pkg, percent, msg }),
{
    reveal_strlit(":");
    assert(":"@ =~= seq![':']);
    let c = percent + seq![':'] + msg;
    let b = pkg + seq![':'] + c;
    a_cut_gives_the_parts_back(sort, ':', b);
    a_cut_gives_the_parts_back(pkg, ':', c);
    a_cut_gives_the_parts_back(percent, ':', msg);
}

proof fn lemma_lacks(s: Seq<char>, p: Seq<char>)
    requires
        !s.contains('('),
        p.contains('('),
    ensures
        without_text(s, p) == s,
{
    a_cut_is_made_at_the_first_place(s, p);
    if let Some((a, b)) = cut(s, p) {
        let k = choose|k: int| 0 <= k < p.len() && p[k] == '(';
        assert(s[a.len() + k] == '(');
        assert(s.contains('('));
    }
}

proof fn lemma_cut_off(name: Seq<char>, p: Seq<char>)
    requires
        !name.contains('('),
        p.len() > 1,
        p[0] == ' ',
        p[1] == '(',
    ensures
        without_text(name + p, p) == name,
{
    let s = name + p;
    assert(s.subrange(name.len() as int, name.len() as int + p.len()) =~= p);
    assert forall|j: int| 0 <= j < name.len() implies !occurs_at(s, p, j) by {
        if occurs_at(s, p, j) {
            assert(s.subrange(j, j + p.len())[1] == s[j + 1]);
            if j + 1 < name.len() {
                assert(name[j + 1] == '(');
                assert(name.contains('('));
            }
        }
    }
    assert(first_occurs_at(s, p, name.len() as int));
    lemma_cut(s, p, name.len() as int);
    let e = Seq::<char>::empty();
    assert(s.take(name.len() as int) =~= name);
    assert(s.skip(name.len() as int + p.len()) =~= e);
    a_cut_is_made_at_the_first_place(e, p);
    assert(without_text(e, p) =~= e);
    assert(name + e =~= name);
}

proof fn lemma_other(name: Seq<char>, q: Seq<char>, p: Seq<char>, k: int)
    requires
        !name.contains('('),
        q.len() > 1,
        q[0] == ' ',
        q[1] == '(',
        forall|i: int| 2 <= i < q.len() ==> #[trigger] q[i] != '(',
        p.len() > 1,
        p[0] == ' ',
        p[1] == '(',
        0 <= k < p.len(),
        k >= q.len() || p[k] != q[k],
    ensures
        without_text(name + q, p) == name + q,
{
    let s = name + q;
    a_cut_is_made_at_the_first_place(s, p);
    if let Some((a, b)) = cut(s, p) {
        let j = a.len() as int;
        assert(s[j + 1] == p[1]);
        if j + 1 < name.len() {
            assert(name[j + 1] == '(');
            assert(name.contains('('));
        }
        if j > name.len() {
            assert(q[j + 1 - name.len()] == '(');
        }
        if j + 1 == name.len() {
            assert(s[j + 1] == q[0]);
        }
        assert(j == name.len());
        assert(s[j + k] == p[k]);
        assert(s[j + k] == q[k]);
    }
}

/// The architecture behind a package's name is not shown, whichever of the five
/// it is.
pub proof fn the_architecture_is_not_shown(name: Seq<char>)
    requires
        !name.contains('('),
    ensures
        no_arch(name + " (amd64)"@) == name,
        no_arch(name + " (i386)"@) == name,
        no_arch(name + " (all)"@) == name,
        no_arch(name + " (arm64)"@) == name,
        no_arch(name + " (armhf)"@) == name,
        no_arch(name) == name,
{
    lemma_amd64(name);
    lemma_i386(name);
    lemma_all(name);
    lemma_arm64(name);
    lemma_armhf(name);
    lemma_shapes();
    lemma_lacks(name, " (amd64)"@);
    lemma_lacks(name, " (i386)"@);
    lemma_lacks(name, " (all)"@);
    lemma_lacks(name, " (arm64)"@);
    lemma_lacks(name, " (armhf)"@);
}

/// A blank, a bracket, and no bracket behind it.
spec fn is_tag(p: Seq<char>) -> bool {
    &&& p.len() > 5
    &&& p[0] == ' '
    &&& p[1] == '('
    &&& p.contains('(')
    &&& forall|i: int| 2 <= i < p.len() ==> #[trigger] p[i] != '('
}

proof fn lemma_shapes()
    ensures
        is_tag(" (amd64)"@),
        is_tag(" (i386)"@),
        is_tag(" (all)"@),
        is_tag(" (arm64)"@),
        is_tag(" (armhf)"@),
        " (amd64)"@[2] == 'a' && " (amd64)"@[3] == 'm',
        " (i386)"@[2] == 'i',
        " (all)"@[2] == 'a' && " (all)"@[3] == 'l',
        " (arm64)"@[2] == 'a' && " (arm64)"@[3] == 'r' && " (arm64)"@[5] == '6',
        " (armhf)"@[2] == 'a' && " (armhf)"@[3] == 'r' && " (armhf)"@[5] == 'h',
        " (arm64)"@.len() == 8,
        " (armhf)"@.len() == 8,
{
    lemma_shape_amd64();
    lemma_shape_i386();
    lemma_shape_all();
    lemma_shape_arm64();
    lemma_shape_armhf();
}

proof fn lemma_shape_amd64()
    ensures
        is_tag(" (amd64)"@),
        " (amd64)"@[2] == 'a' && " (amd64)"@[3] == 'm',
{
    reveal_strlit(" (amd64)");
    assert(" (amd64)"@[1] == '(');
}

proof fn lemma_shape_i386()
    ensures
        is_tag(" (i386)"@),
        " (i386)"@[2] == 'i',
{
    reveal_strlit(" (i386)");
    assert(" (i386)"@[1] == '(');
}

proof fn lemma_shape_all()
    ensures
        is_tag(" (all)"@),
        " (all)"@[2] == 'a' && " (all)"@[3] == 'l',
{
    reveal_strlit(" (all)");
    assert(" (all)"@[1] == '(');
}

proof fn lemma_shape_arm64()
    ensures
        is_tag(" (arm64)"@),
        " (arm64)"@[2] == 'a' && " (arm64)"@[3] == 'r' && " (arm64)"@[5] == '6',
        " (arm64)"@.len() == 8,
{
    reveal_strlit(" (arm64)");
    assert(" (arm64)"@[1] == '(');
}

proof fn lemma_shape_armhf()
    ensures
        is_tag(" (armhf)"@),
        " (armhf)"@[2] == 'a' && " (armhf)"@[3] == 'r' && " (armhf)"@[5] == 'h',
        " (armhf)"@.len() == 8,
{
    reveal_strlit(" (armhf)");
    assert(" (armhf)"@[1] == '(');
}

proof fn lemma_amd64(name: Seq<char>)
    requires
        !name.contains('('),
    ensures
        no_arch(name + " (amd64)"@) == name,
{
    lemma_shapes();
    lemma_cut_off(name, " (amd64)"@);
    lemma_lacks(name, " (i386)"@);
    lemma_lacks(name, " (all)"@);
    lemma_lacks(name, " (arm64)"@);
    lemma_lacks(name, " (armhf)"@);
}

proof fn lemma_i386(name: Seq<char>)
    requires
        !name.contains('('),
    ensures
        no_arch(name + " (i386)"@) == name,
{
    lemma_shapes();
    lemma_other(name, " (i386)"@, " (amd64)"@, 2);
    lemma_cut_off(name, " (i386)"@);
    lemma_lacks(name, " (all)"@);
    lemma_lacks(name, " (arm64)"@);
    lemma_lacks(name, " (armhf)"@);
}

proof fn lemma_all(name: Seq<char>)
    requires
        !name.contains('('),
    ensures
        no_arch(name + " (all)"@) == name,
{
    lemma_shapes();
    lemma_other(name, " (all)"@, " (amd64)"@, 3);
    lemma_other(name, " (all)"@, " (i386)"@, 2);
    lemma_cut_off(name, " (all)"@);
    lemma_lacks(name, " (arm64)"@);
    lemma_lacks(name, " (armhf)"@);
}

proof fn lemma_arm64(name: Seq<char>)
    requires
        !name.contains('('),
    ensures
        no_arch(name + " (arm64)"@) == name,
{
    lemma_shapes();
    lemma_other(name, " (arm64)"@, " (amd64)"@, 3);
    lemma_other(name, " (arm64)"@, " (i386)"@, 2);
    lemma_other(name, " (arm64)"@, " (all)"@, 3);
    lemma_cut_off(name, " (arm64)"@);
    lemma_lacks(name, " (armhf)"@);
}

proof fn lemma_armhf(name: Seq<char>)
    requires
        !name.contains('('),
    ensures
        no_arch(name + " (armhf)"@) == name,
{
    lemma_shapes();
    lemma_other(name, " (armhf)"@, " (amd64)"@, 3);
    lemma_other(name, " (armhf)"@, " (i386)"@, 2);
    lemma_other(name, " (armhf)"@, " (all)"@, 3);
    lemma_other(name, " (armhf)"@, " (arm64)"@, 5);
    lemma_cut_off(name, " (armhf)"@);
}

/// A status of the package manager moves the bar and labels it; a package that is
/// reported installed, or removed, is announced where it was not yet.
pub proof fn a_completed_package_is_announced(
    s: Stage,
    color: bool,
    pkg: Seq<char>,
    percent: Seq<char>,
    name: Seq<char>,
)
    requires
        !pkg.contains(':'),
        !percent.contains(':'),
        !s.run.done.contains(pkg),
    ensures
        ({
            let line = "pmstatus"@ + seq![':'] + (pkg + seq![':'] + (percent + seq![':']
                + ("Installed "@ + name)));
            let t = status_step(s, color, line);
            &&& t.run.done == s.run.done.insert(pkg)
            &&& t.run.last_completion
            &&& t.shown == s.shown.push(ActionView::Position(percent)).push(
                ActionView::Message(no_arch("Installed "@ + name)),
            ).push(
                ActionView::Print(
                    LineView::Out(
                        "  "@ + bold_text(color, green_text(color, "✓"@)) + " "@ + no_arch(name),
                    ),
                ),
            )
        }),
        ({
            let line = "pmstatus"@ + seq![':'] + (pkg + seq![':'] + (percent + seq![':']
                + ("Removed "@ + name)));
            let t = status_step(s, color, line);
            &&& t.run.done == s.run.done.insert(pkg)
            &&& t.run.last_completion
            &&& t.shown == s.shown.push(ActionView::Position(percent)).push(
                ActionView::Message(no_arch("Removed "@ + name)),
            ).push(
                ActionView::Print(
                    LineView::Out(
                        "  "@ + bold_text(color, red_text(color, "-"@)) + " "@ + no_arch(name),
                    ),
                ),
            )
        }),
{
    let sort = "pmstatus"@;
    reveal_strlit("pmstatus");
    reveal_strlit("Installed ");
    reveal_strlit("Removed ");
    assert(!sort.contains(':'));
    a_status_line_has_four_fields(sort, pkg, percent, "Installed "@ + name);
    a_status_line_has_four_fields(sort, pkg, percent, "Removed "@ + name);
    a_text_is_held_where_it_is_put(seq![], "Installed "@, name);
    a_text_is_held_where_it_is_put(seq![], "Removed "@, name);
    let r = "Removed "@ + name;
    assert(r[0] == 'R');
    if has_prefix(r, "Installed "@) {
        assert(r.take(10)[0] == 'I');
    }
}

/// An error is shown, a changed configuration file is noted by its package, and a
/// line of any other sort does nothing.
pub proof fn errors_and_changed_files_are_noted(
    s: Stage,
    color: bool,
    sort: Seq<char>,
    pkg: Seq<char>,
    percent: Seq<char>,
    msg: Seq<char>,
)
    requires
        !sort.contains(':'),
        !pkg.contains(':'),
        !percent.contains(':'),
    ensures
        ({
            let t = status_step(
                s,
                color,
                sort + seq![':'] + (pkg + seq![':'] + (percent + seq![':'] + msg)),
            );
            &&& sort == "pmerror"@ ==> t.run == s.run && t.shown == s.shown.push(
                ActionView::Print(
                    LineView::Out(
                        "  "@ + bold_text(color, red_text(color, "✗"@)) + " "@ + red_text(
                            color,
                            msg,
                        ),
                    ),
                ),
            )
            &&& sort == "pmconffile"@ ==> t.shown == s.shown && t.run.conffiles
                == s.run.conffiles.push(pkg)
            &&& sort != "pmstatus"@ && sort != "pmerror"@ && sort != "pmconffile"@ ==> t == s
        }),
{
    a_status_line_has_four_fields(sort, pkg, percent, msg);
    reveal_strlit("pmstatus");
    reveal_strlit("pmerror");
    reveal_strlit("pmconffile");
    assert("pmstatus"@[2] == 's' && "pmerror"@[2] == 'e' && "pmconffile"@[2] == 'c');
}

// ---------------------------------------------------------------------------
// Questions
// ---------------------------------------------------------------------------

/// An unfinished line with one of apt's choices in it, or that ends in a question
/// mark or in a bracketed choice, is a question.
pub proof fn a_choice_is_a_question(a: Seq<char>, b: Seq<char>)
    requires
        !(a + b).contains('\n'),
        !(a + b).contains('\r'),
    ensures
        is_question(a + "[Y/n]"@ + b),
        is_question(a + "[y/N]"@ + b),
        is_question(a + "[yes/no]"@ + b),
        is_question(a + "[default="@ + b),
        is_question(a + "?"@),
        is_question(a + "["@ + b + "]"@),
        is_question(a + "["@ + b + "]:"@),
{
    reveal_strlit("[Y/n]");
    reveal_strlit("[y/N]");
    reveal_strlit("[yes/no]");
    reveal_strlit("[default=");
    reveal_strlit("?");
    reveal_strlit("[");
    reveal_strlit("]");
    reveal_strlit("]:");
    a_text_is_held_where_it_is_put(a, "[Y/n]"@, b);
    a_text_is_held_where_it_is_put(a, "[y/N]"@, b);
    a_text_is_held_where_it_is_put(a, "[yes/no]"@, b);
    a_text_is_held_where_it_is_put(a, "[default="@, b);
    a_text_is_held_where_it_is_put(a, "?"@, seq![]);
    a_text_is_held_where_it_is_put(a, "["@, b + "]"@);
    a_text_is_held_where_it_is_put(a, "["@, b + "]:"@);
    a_text_is_held_where_it_is_put(a + "["@ + b, "]"@, seq![]);
    a_text_is_held_where_it_is_put(a + "["@ + b, "]:"@, seq![]);
    assert(a + "["@ + b + "]"@ =~= a + "["@ + (b + "]"@));
    assert(a + "["@ + b + "]:"@ =~= a + "["@ + (b + "]:"@));
}

/// Without any of these a line is none.
pub proof fn other_lines_are_no_questions(t: Seq<char>)
    requires
        !has_text(t, "["@),
        !has_suffix(t, "?"@),
    ensures
        !is_question(t),
{
    lemma_bracket(t, "[Y/n]"@);
    lemma_bracket(t, "[y/N]"@);
    lemma_bracket(t, "[yes/no]"@);
    lemma_bracket(t, "[default="@);
}

proof fn lemma_bracket(t: Seq<char>, p: Seq<char>)
    requires
        !has_text(t, "["@),
        p == "[Y/n]"@ || p == "[y/N]"@ || p == "[yes/no]"@ || p == "[default="@,
    ensures
        !has_text(t, p),
{
    reveal_strlit("[");
    reveal_strlit("[Y/n]");
    reveal_strlit("[y/N]");
    reveal_strlit("[yes/no]");
    reveal_strlit("[default=");
    if has_text(t, p) {
        let i = choose|i: int| occurs_at(t, p, i);
        assert(t.subrange(i, i + p.len())[0] == t[i]);
        assert(t.subrange(i, i + 1) =~= "["@);
        assert(occurs_at(t, "["@, i));
    }
}

/// Only what stands behind the last end of a line counts, without the blanks at
/// its end.
pub proof fn only_the_last_line_is_a_question(before: Seq<char>, t: Seq<char>, c: char)
    requires
        c == '\n' || c == '\r',
        !t.contains('\n'),
        !t.contains('\r'),
    ensures
        last_part(before + seq![c] + t) == t,
        prompts(before + seq![c] + t) <==> is_question(trim_end_char(t, ' ')),
        !prompts(before + seq![c]),
    decreases t.len(),
{
    let s = before + seq![c] + t;
    let e = Seq::<char>::empty();
    assert(before + seq![c] =~= before + seq![c] + e);
    assert(last_part(before + seq![c]) =~= e);
    assert(trim_end_char(e, ' ') =~= e);
    if t.len() == 0 {
        assert(s =~= before + seq![c]);
        assert(last_part(s) =~= t);
    } else {
        let u = t.drop_last();
        assert(s.drop_last() =~= before + seq![c] + u);
        assert(!u.contains('\n') && !u.contains('\r')) by {
            assert forall|i: int| 0 <= i < u.len() implies u[i] != '\n' && u[i] != '\r' by {
                assert(t.contains(t[i]));
            }
        }
        only_the_last_line_is_a_question(before, u, c);
        assert(t.contains(t[t.len() - 1]));
        assert(s.last() == t.last());
        assert(last_part(s) =~= t);
    }
}

/// A question is put to the user only where there is one to answer it: without a
/// user nothing that was hidden is revealed.
pub proof fn nothing_is_revealed_without_a_user(r: RunView, color: bool, quiet: bool)
    requires
        !read_all(r, color).run.interactive,
        !read_all(r, color).run.revealing,
    ensures
        !after_round(r, color, quiet).run.revealing,
        after_round(r, color, quiet).run.stdout == read_all(r, color).run.stdout,
{
}

/// Once apt is quiet, an unfinished question on its output is shown to the user,
/// whole, and from then on nothing is hidden.
pub proof fn a_pending_question_is_put(r: RunView, color: bool)
    requires
        read_all(r, color).run.interactive,
        !read_all(r, color).run.revealing,
        read_all(r, color).run.conffiles.len() == r.conffiles.len(),
        prompts(lossy_text(read_all(r, color).run.stdout)),
    ensures
        after_round(r, color, true).run.revealing,
        after_round(r, color, true).run.stdout.len() == 0,
        after_round(r, color, true).shown.last() == ActionView::Prompt(
            lossy_text(read_all(r, color).run.stdout),
        ),
        !after_round(r, color, false).run.revealing,
{
}

// ---------------------------------------------------------------------------
// Output
// ---------------------------------------------------------------------------

/// A warning is shown at once and kept for the log; an error is kept, and told at
/// the end.
pub proof fn warnings_are_shown_at_once(s: Stage, color: bool, msg: Seq<char>)
    ensures
        stderr_step(s, color, "W: "@ + msg).shown == s.shown.push(
            ActionView::Print(LineView::Error(warn_text(color, msg))),
        ),
        stderr_step(s, color, "W: "@ + msg).run.log == s.run.log.push("W: "@ + msg),
        stderr_step(s, color, "W: "@ + msg).run.errors == s.run.errors,
        stderr_step(s, color, "E: "@ + msg).shown == s.shown,
        stderr_step(s, color, "E: "@ + msg).run.errors == s.run.errors.push(msg),
        stderr_step(s, color, "E: "@ + msg).run.log == s.run.log.push("E: "@ + msg),
{
    a_text_is_held_where_it_is_put(seq![], "W: "@, msg);
    a_text_is_held_where_it_is_put(seq![], "E: "@, msg);
    reveal_strlit("W: ");
    reveal_strlit("E: ");
    let w = "W: "@ + msg;
    assert(w[0] == 'W');
    if has_prefix(w, "E: "@) {
        assert(w.take(3)[0] == 'E');
    }
}

/// Output is hidden in the log until something is revealed, and shown from then
/// on.
pub proof fn output_is_hidden_until_revealed(s: Stage, line: Seq<char>)
    requires
        line.len() > 0,
    ensures
        s.run.revealing ==> stdout_step(s, line).shown == s.shown.push(
            ActionView::Print(LineView::Out(line)),
        ) && stdout_step(s, line).run == s.run,
        !s.run.revealing ==> stdout_step(s, line).run.log == s.run.log.push(line),
        !s.run.revealing && !(s.run.last_completion && has_prefix(line, "Processing triggers"@))
            ==> stdout_step(s, line).shown == s.shown,
{
}

/// A failed run is told by apt's errors, one below the other; without any, by its
/// exit.
pub proof fn a_failure_is_told_by_its_errors(errors: Seq<Seq<char>>, status: Seq<char>)
    ensures
        errors.len() > 0 ==> failure(errors, status) == join(errors, "\n"@),
        failure(seq![], status) == "apt-get exited with "@ + status,
{
}

/// A changed configuration file is shown to a user who can answer, at once.
pub proof fn a_changed_file_is_revealed(r: RunView, color: bool, quiet: bool)
    requires
        read_all(r, color).run.interactive,
        !read_all(r, color).run.revealing,
        read_all(r, color).run.conffiles.len() > r.conffiles.len(),
    ensures
        after_round(r, color, quiet).run.revealing,
        after_round(r, color, quiet).shown == read_all(r, color).shown.push(ActionView::Reveal),
{
}

/// Once the last package is done and apt is quiet, or says that it processes
/// triggers, the bar says so.
pub proof fn the_end_is_announced(r: RunView, color: bool, s: Stage, rest: Seq<char>)
    requires
        !read_all(r, color).run.interactive,
        !read_all(r, color).run.revealing,
        !s.run.revealing,
        s.run.last_completion,
    ensures
        read_all(r, color).run.last_completion ==> after_round(r, color, true).shown == read_all(
            r,
            color,
        ).shown.push(ActionView::Message("Finishing up..."@)),
        !read_all(r, color).run.last_completion ==> after_round(r, color, true).shown == read_all(
            r,
            color,
        ).shown,
        after_round(r, color, false).shown == read_all(r, color).shown,
        stdout_step(s, "Processing triggers"@ + rest).shown == s.shown.push(
            ActionView::Message("Finishing up..."@),
        ),
{
    reveal_strlit("Processing triggers");
    a_text_is_held_where_it_is_put(seq![], "Processing triggers"@, rest);
    assert(("Processing triggers"@ + rest).len() > 0);
}

/// A status that completes nothing moves and labels the bar, and nothing else.
pub proof fn a_plain_status_moves_the_bar(
    s: Stage,
    color: bool,
    pkg: Seq<char>,
    percent: Seq<char>,
    msg: Seq<char>,
)
    requires
        !pkg.contains(':'),
        !percent.contains(':'),
        !has_prefix(msg, "Installed "@),
        !has_prefix(msg, "Removed "@),
    ensures
        ({
            let t = status_step(
                s,
                color,
                "pmstatus"@ + seq![':'] + (pkg + seq![':'] + (percent + seq![':'] + msg)),
            );
            &&& t.shown == s.shown.push(ActionView::Position(percent)).push(
                ActionView::Message(no_arch(msg)),
            )
            &&& !t.run.last_completion
            &&& t.run.done == s.run.done
            &&& t.run.conffiles == s.run.conffiles
        }),
{
    reveal_strlit("pmstatus");
    assert(!"pmstatus"@.contains(':'));
    a_status_line_has_four_fields("pmstatus"@, pkg, percent, msg);
}

/// Kept configuration files are counted and named by their packages.
pub proof fn kept_files_are_counted(names: Seq<Seq<char>>, i: int)
    ensures
        kept_lines(false, names).len() == names.len() + 1,
        0 <= i < names.len() ==> kept_lines(false, names)[i + 1] == LineView::Error(
            "    "@ + names[i],
        ),
        names.len() > 1 ==> kept_lines(false, names)[0] == LineView::Error(
            warn_text(
                false,
                crate::number::decimal(names.len()) + " package"@ + "s"@
                    + " shipped changed config files; kept your existing versions (new ones saved alongside as *.dpkg-dist):"@,
            ),
        ),
{
    let above = seq![
        LineView::Error(
            warn_text(
                false,
                crate::number::decimal(names.len()) + " package"@ + crate::ui::plural(names.len())
                    + " shipped changed config files; kept your existing versions (new ones saved alongside as *.dpkg-dist):"@,
            ),
        ),
    ];
    crate::laws::shown::every_log_line_has_a_line(above, false, names, i);
    crate::laws::shown::every_log_line_has_a_line(above, false, names, 0);
}

/// A text is taken for a question exactly for one of these reasons.
pub proof fn a_question_is_told_by_these_signs(t: Seq<char>)
    ensures
        is_question(t) <==> t.len() > 0 && (has_suffix(t, "?"@) || has_text(t, "[Y/n]"@)
            || has_text(t, "[y/N]"@) || has_text(t, "[yes/no]"@) || has_text(t, "[default="@) || (
        has_text(t, "["@) && (has_suffix(t, "]"@) || has_suffix(t, "]:"@)))),
{
}

/// A status line with fewer fields leaves the last ones empty.
pub proof fn missing_fields_are_empty(sort: Seq<char>, pkg: Seq<char>, percent: Seq<char>)
    requires
        !sort.contains(':'),
        !pkg.contains(':'),
        !percent.contains(':'),
    ensures
        status_fields(sort).kind == sort,
        status_fields(sort).pkg.len() == 0,
        status_fields(sort + seq![':'] + pkg).kind == sort,
        status_fields(sort + seq![':'] + pkg).pkg == pkg,
        status_fields(sort + seq![':'] + pkg).percent.len() == 0,
        status_fields(sort + seq![':'] + (pkg + seq![':'] + percent)).percent == percent,
        status_fields(sort + seq![':'] + (pkg + seq![':'] + percent)).msg.len() == 0,
{
    reveal_strlit("");
    reveal_strlit(":");
    assert(":"@ =~= seq![':']);
    a_cut_gives_the_parts_back(sort, ':', pkg);
    a_cut_gives_the_parts_back(sort, ':', pkg + seq![':'] + percent);
    a_cut_gives_the_parts_back(pkg, ':', percent);
    a_cut_gives_the_parts_back(percent, ':', pkg);
}

/// A line is what stands before its line feed, without carriage returns at its
/// end; what follows the last line feed waits.
pub proof fn a_line_is_read_off_the_stream(a: Seq<u8>, b: Seq<u8>)
    requires
        !a.contains(10u8),
    ensures
        full_lines(a + seq![10u8] + b) == seq![trim_end_char(lossy_text(a), '\r')] + full_lines(b),
        unfinished(a + seq![10u8] + b) == unfinished(b),
        full_lines(a).len() == 0,
        unfinished(a) == a,
{
    let s = a + seq![10u8] + b;
    assert forall|i: int| 0 <= i < a.len() implies #[trigger] s[i] != 10 by {
        assert(a.contains(a[i]));
    }
    assert forall|i: int| 0 <= i < a.len() implies #[trigger] a[i] != 10 by {
        assert(a.contains(a[i]));
    }
    lemma_first_byte(s, 10, a.len() as int);
    lemma_first_byte(a, 10, a.len() as int);
    assert(s.take(a.len() as int) =~= a);
    assert(s.skip(a.len() + 1int) =~= b);
}

/// A blank line is neither shown nor kept while output is hidden; another line on
/// the error stream is kept, or shown once something was revealed.
pub proof fn other_errors_are_kept(s: Stage, color: bool, line: Seq<char>)
    requires
        !has_prefix(line, "E: "@),
        !has_prefix(line, "W: "@),
    ensures
        s.run.revealing ==> stderr_step(s, color, line).shown == s.shown.push(
            ActionView::Print(LineView::Error(line)),
        ) && stderr_step(s, color, line).run == s.run,
        !s.run.revealing && line.len() > 0 ==> stderr_step(s, color, line).run.log
            == s.run.log.push(line) && stderr_step(s, color, line).shown == s.shown,
        !s.run.revealing && line.len() == 0 ==> stderr_step(s, color, line) == s,
        !s.run.revealing ==> stdout_step(s, seq![]) == s,
        s.run.revealing ==> stdout_step(s, seq![]).shown == s.shown.push(
            ActionView::Print(LineView::Out(seq![])),
        ),
{
}

} // verus!
