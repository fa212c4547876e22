//! Laws of the restarts: what is left running, and what is out of date.

use vstd::prelude::*;
use vstd::utf8::encode_utf8;

use crate::laws::text::{
    a_text_is_held_where_it_is_put, trimming_gives_the_text_back,
    trimming_takes_the_white_space_at_the_ends, what_holds_a_text_is_put_around_it,
};
use crate::lists::versions_rel;
use crate::restart::{
    asks, cgroup_service, critical_units, declared, display_managers, expects_kernel, first_words,
    is_deleted_lib, is_newer_kernel, is_outdated, is_stale, last_after, last_service, mode_of,
    named_services, owns_session, protected, restarts, stale_services, unit_name, Mode,
};
use crate::text::{
    after_prefix, before_suffix, has_prefix, has_suffix, has_text, is_space, lines, split, trim,
    words,
};
use crate::version::Rel;

verus! {

/// The units that hold a session up: the message bus, the login and policy
/// daemons, systemd itself, and every display manager.
pub open spec fn holds_sessions_up(name: Seq<char>) -> bool {
    ||| name == "dbus"@
    ||| name == "dbus-broker"@
    ||| name == "systemd-logind"@
    ||| name == "polkit"@
    ||| name == "polkitd"@
    ||| name == "systemd"@
    ||| name == "init"@
    ||| name == "display-manager"@
    ||| name == "gdm"@
    ||| name == "gdm3"@
    ||| name == "sddm"@
    ||| name == "lightdm"@
    ||| name == "lxdm"@
    ||| name == "xdm"@
    ||| name == "slim"@
    ||| name == "greetd"@
    ||| name == "ly"@
}

proof fn lemma_listed(name: Seq<char>)
    ensures
        critical_units().contains(name) || display_managers().contains(name) <==> holds_sessions_up(
            name,
        ),
{
    let (a, b) = (critical_units(), display_managers());
    assert(a[0] == "dbus"@ && a[1] == "dbus-broker"@ && a[2] == "systemd-logind"@ && a[3]
        == "polkit"@ && a[4] == "polkitd"@ && a[5] == "systemd"@ && a[6] == "init"@);
    assert(b[0] == "display-manager"@ && b[1] == "gdm"@ && b[2] == "gdm3"@ && b[3] == "sddm"@
        && b[4] == "lightdm"@ && b[5] == "lxdm"@ && b[6] == "xdm"@ && b[7] == "slim"@ && b[8]
        == "greetd"@ && b[9] == "ly"@);
}

/// With or without the suffix of a service, a unit is left alone where it holds
/// sessions up, is some user's own manager, was declared, or owns a live session
/// (a session's service begins with its name of three bytes or more); and for no
/// other reason.
pub proof fn a_unit_is_left_alone_for_these_reasons(
    explicit: Set<Seq<char>>,
    sessions: Seq<Seq<char>>,
    name: Seq<char>,
)
    requires
        !has_suffix(name, ".service"@),
    ensures
        protected(explicit, sessions, name) <==> (holds_sessions_up(name) || has_prefix(
            name,
            "user@"@,
        ) || explicit.contains(name) || (encode_utf8(name).len() >= 3 && exists|i: int|
            0 <= i < sessions.len() && has_prefix(#[trigger] sessions[i], name))),
        protected(explicit, sessions, name + ".service"@) <==> (protected(explicit, sessions, name)
            || explicit.contains(name + ".service"@)),
{
    lemma_listed(name);
    a_text_is_held_where_it_is_put(name, ".service"@, seq![]);
}

/// The display managers and the buses are left alone whoever is logged in and
/// whatever was declared.
pub proof fn what_holds_sessions_up_is_left_alone(
    explicit: Set<Seq<char>>,
    sessions: Seq<Seq<char>>,
    name: Seq<char>,
)
    requires
        holds_sessions_up(name),
    ensures
        protected(explicit, sessions, name + ".service"@),
{
    lemma_listed(name);
    a_text_is_held_where_it_is_put(name, ".service"@, seq![]);
}

/// A service whose name begins a live session's is left alone: `gdm` owns
/// `gdm-password`.
pub proof fn the_owner_of_a_session_is_left_alone(
    explicit: Set<Seq<char>>,
    sessions: Seq<Seq<char>>,
    name: Seq<char>,
    rest: Seq<char>,
    i: int,
)
    requires
        0 <= i < sessions.len(),
        sessions[i] == name + rest,
        encode_utf8(name).len() >= 3,
    ensures
        protected(explicit, sessions, name + ".service"@),
{
    a_text_is_held_where_it_is_put(name, ".service"@, seq![]);
    a_text_is_held_where_it_is_put(seq![], name, rest);
    assert(has_prefix(sessions[i], name));
}

// ---------------------------------------------------------------------------
// Outdated libraries
// ---------------------------------------------------------------------------

/// A mapping of a shared library below `/usr/` or `/lib` that was deleted makes a
/// process stale, wherever the line stands.
pub proof fn a_deleted_library_makes_a_process_stale(
    maps: Seq<char>,
    k: int,
    a: Seq<char>,
    b: Seq<char>,
    c: Seq<char>,
)
    requires
        0 <= k < lines(maps).len(),
        lines(maps)[k] == a + "/usr/"@ + b + ".so"@ + c + "(deleted)"@ || lines(maps)[k] == a
            + "/lib"@ + b + ".so"@ + c + "(deleted)"@,
    ensures
        is_stale(maps),
{
    let line = lines(maps)[k];
    let d = "(deleted)"@;
    if line == a + "/usr/"@ + b + ".so"@ + c + d {
        a_text_is_held_where_it_is_put(a + "/usr/"@ + b + ".so"@ + c, d, seq![]);
        a_text_is_held_where_it_is_put(a + "/usr/"@ + b, ".so"@, c + d);
        assert(line =~= a + "/usr/"@ + b + ".so"@ + (c + d));
        a_text_is_held_where_it_is_put(a, "/usr/"@, b + ".so"@ + c + d);
        assert(line =~= a + "/usr/"@ + (b + ".so"@ + c + d));
    } else {
        a_text_is_held_where_it_is_put(a + "/lib"@ + b + ".so"@ + c, d, seq![]);
        a_text_is_held_where_it_is_put(a + "/lib"@ + b, ".so"@, c + d);
        assert(line =~= a + "/lib"@ + b + ".so"@ + (c + d));
        a_text_is_held_where_it_is_put(a, "/lib"@, b + ".so"@ + c + d);
        assert(line =~= a + "/lib"@ + (b + ".so"@ + c + d));
    }
    assert(is_deleted_lib(line));
}

/// A file that still exists, that is no shared library, or that lies elsewhere,
/// makes no process stale.
pub proof fn other_mappings_make_no_process_stale(maps: Seq<char>)
    requires
        forall|k: int|
            0 <= k < lines(maps).len() ==> !has_suffix(#[trigger] lines(maps)[k], "(deleted)"@)
                || !has_text(lines(maps)[k], ".so"@) || (!has_text(lines(maps)[k], "/usr/"@)
                && !has_text(lines(maps)[k], "/lib"@)),
    ensures
        !is_stale(maps),
{
}

/// The unit of a process is the last segment of its path that names a service,
/// where the path lies in the system's slice; a process of a user has none.
pub proof fn the_last_service_of_the_path_is_the_unit(
    cgroup: Seq<char>,
    before: Seq<Seq<char>>,
    name: Seq<char>,
    after: Seq<Seq<char>>,
)
    requires
        name.len() > 0,
        !is_space(name[0]),
        split(trim(cgroup), '/') == before + seq![name + ".service"@] + after,
        forall|i: int| 0 <= i < after.len() ==> !has_suffix(#[trigger] after[i], ".service"@),
    ensures
        has_text(cgroup, "system.slice"@) ==> cgroup_service(cgroup) == Some(name + ".service"@),
        !has_text(cgroup, "system.slice"@) ==> cgroup_service(cgroup) is None,
{
    a_text_is_held_where_it_is_put(name, ".service"@, seq![]);
    lemma_last(before, name + ".service"@, after);
    reveal_strlit(".service");
    let e = Seq::<char>::empty();
    let s = name + ".service"@;
    assert(s[0] == name[0]);
    assert(s.last() == 'e');
    trimming_gives_the_text_back(e, s, e);
    assert(e + s + e =~= s);
}

proof fn lemma_last(before: Seq<Seq<char>>, s: Seq<char>, after: Seq<Seq<char>>)
    requires
        has_suffix(s, ".service"@),
        forall|i: int| 0 <= i < after.len() ==> !has_suffix(#[trigger] after[i], ".service"@),
    ensures
        last_service(before + seq![s] + after) == Some(trim(s)),
    decreases after.len(),
{
    let all = before + seq![s] + after;
    if after.len() == 0 {
        assert(all.last() == s);
    } else {
        assert(all.last() == after[after.len() - 1]);
        assert(all.drop_last() =~= before + seq![s] + after.drop_last());
        lemma_last(before, s, after.drop_last());
    }
}

/// A path without any service names no unit.
pub proof fn a_path_without_a_service_names_no_unit(cgroup: Seq<char>)
    requires
        forall|i: int|
            0 <= i < split(trim(cgroup), '/').len() ==> !has_suffix(
                #[trigger] split(trim(cgroup), '/')[i],
                ".service"@,
            ),
    ensures
        cgroup_service(cgroup) is None,
{
    lemma_no_last(split(trim(cgroup), '/'));
}

proof fn lemma_no_last(v: Seq<Seq<char>>)
    requires
        forall|i: int| 0 <= i < v.len() ==> !has_suffix(#[trigger] v[i], ".service"@),
    ensures
        last_service(v) is None,
    decreases v.len(),
{
    if v.len() > 0 {
        assert(v.last() == v[v.len() - 1]);
        lemma_no_last(v.drop_last());
    }
}

// ---------------------------------------------------------------------------
// Sessions and kernels
// ---------------------------------------------------------------------------

/// Each line `Service=name` tells a session's service, any other line none.
pub proof fn a_session_tells_its_service(ls: Seq<Seq<char>>, name: Seq<char>, other: Seq<char>)
    requires
        name.len() > 0,
        !is_space(name[0]),
        !is_space(name.last()),
        !has_prefix(other, "Service="@),
    ensures
        named_services(seq![]).len() == 0,
        named_services(ls.push("Service="@ + name)) == named_services(ls).push(name),
        named_services(ls.push("Service="@)) == named_services(ls),
        named_services(ls.push(other)) == named_services(ls),
{
    let e = Seq::<char>::empty();
    let p = "Service="@;
    a_text_is_held_where_it_is_put(e, p, name);
    a_text_is_held_where_it_is_put(e, p, e);
    assert(p + e =~= p);
    trimming_gives_the_text_back(e, name, e);
    assert(e + name + e =~= name);
    trimming_gives_the_text_back(e, e, e);
    assert(e + e + e =~= e);
    assert(ls.push(p + name).drop_last() =~= ls);
    assert(ls.push(p).drop_last() =~= ls);
    assert(ls.push(other).drop_last() =~= ls);
}

/// The identifier of a session is the first word of its line; a blank line has
/// none.
pub proof fn a_session_is_told_by_its_first_word(ls: Seq<Seq<char>>, line: Seq<char>)
    ensures
        words(line).len() > 0 ==> first_words(ls.push(line)) == first_words(ls).push(
            words(line)[0],
        ),
        words(line).len() == 0 ==> first_words(ls.push(line)) == first_words(ls),
{
    assert(ls.push(line).drop_last() =~= ls);
}

/// A kernel image on disk outdates the running kernel exactly where its version,
/// behind `vmlinuz-`, is the later one.
pub proof fn a_later_image_outdates_the_kernel(
    version: Seq<char>,
    running: Seq<char>,
    other: Seq<char>,
)
    requires
        !has_prefix(other, "vmlinuz-"@),
    ensures
        is_newer_kernel("vmlinuz-"@ + version, running) <==> versions_rel(version, running)
            == Rel::Greater,
        !is_newer_kernel(other, running),
{
    a_text_is_held_where_it_is_put(seq![], "vmlinuz-"@, version);
}

/// Each line `NEEDRESTART-SVC: unit` names a service to restart.
pub proof fn needrestart_names_each_service(
    ls: Seq<Seq<char>>,
    unit: Seq<char>,
    other: Seq<char>,
)
    requires
        unit.len() > 0,
        !is_space(unit[0]),
        !is_space(unit.last()),
        !has_prefix(other, "NEEDRESTART-SVC: "@),
    ensures
        stale_services(seq![]).len() == 0,
        stale_services(ls.push("NEEDRESTART-SVC: "@ + unit)) == stale_services(ls).push(unit),
        stale_services(ls.push(other)) == stale_services(ls),
{
    let e = Seq::<char>::empty();
    let p = "NEEDRESTART-SVC: "@;
    a_text_is_held_where_it_is_put(e, p, unit);
    trimming_gives_the_text_back(e, unit, e);
    assert(e + unit + e =~= unit);
    assert(ls.push(p + unit).drop_last() =~= ls);
    assert(ls.push(other).drop_last() =~= ls);
}

/// The lines give the field the value, and no line behind it gives another.
pub open spec fn told(ls: Seq<Seq<char>>, field: Seq<char>, k: int, value: Seq<char>) -> bool {
    &&& 0 <= k < ls.len()
    &&& ls[k] == field + value
    &&& forall|i: int| k < i < ls.len() ==> !has_prefix(#[trigger] ls[i], field)
}

proof fn lemma_last_after(ls: Seq<Seq<char>>, field: Seq<char>, k: int, value: Seq<char>)
    requires
        told(ls, field, k, value),
    ensures
        last_after(ls, field) == Some(trim(value)),
    decreases ls.len(),
{
    a_text_is_held_where_it_is_put(seq![], field, value);
    if k < ls.len() - 1 {
        assert(!has_prefix(ls[ls.len() - 1], field));
        let before = ls.drop_last();
        assert forall|i: int| k < i < before.len() implies !has_prefix(
            #[trigger] before[i],
            field,
        ) by {
            assert(before[i] == ls[i]);
        }
        lemma_last_after(before, field, k, value);
    }
}

/// A reboot is due exactly where the running kernel and the expected one, both
/// told, differ.
pub proof fn another_expected_kernel_asks_for_a_reboot(
    ls: Seq<Seq<char>>,
    i: int,
    running: Seq<char>,
    j: int,
    expected: Seq<char>,
)
    requires
        told(ls, "NEEDRESTART-KCUR: "@, i, running),
        told(ls, "NEEDRESTART-KEXP: "@, j, expected),
    ensures
        expects_kernel(ls) <==> trim(running) != trim(expected),
{
    lemma_last_after(ls, "NEEDRESTART-KCUR: "@, i, running);
    lemma_last_after(ls, "NEEDRESTART-KEXP: "@, j, expected);
}

/// Services are restarted without a question where that is set, and otherwise
/// only on a yes, given beforehand or to the question; never where that is set.
pub proof fn a_restart_needs_a_yes(yes: bool, answer: bool)
    ensures
        restarts(Mode::Auto, yes, answer),
        restarts(Mode::Ask, yes, answer) <==> yes || answer,
        !restarts(Mode::Never, yes, answer),
{
}

/// A service that was declared, with or without its suffix and with blanks around
/// it, is that service in both forms.
pub proof fn a_declared_service_has_both_forms(
    blanks: Seq<char>,
    name: Seq<char>,
    more: Seq<char>,
    unit: Seq<char>,
)
    requires
        name.len() > 0,
        !is_space(name[0]),
        !is_space(name.last()),
        !has_suffix(name, ".service"@),
        forall|i: int| 0 <= i < blanks.len() ==> is_space(#[trigger] blanks[i]),
        forall|i: int| 0 <= i < more.len() ==> is_space(#[trigger] more[i]),
    ensures
        declared(blanks + name + more, unit) <==> unit == name || unit == name + ".service"@,
        declared(blanks + (name + ".service"@) + more, unit) <==> unit == name || unit == name
            + ".service"@,
{
    reveal_strlit(".service");
    let s = name + ".service"@;
    assert(s[0] == name[0] && s.last() == 'e');
    trimming_gives_the_text_back(blanks, name, more);
    trimming_gives_the_text_back(blanks, s, more);
    crate::laws::text::a_suffix_is_taken_off(name, ".service"@);
}

/// The setting `auto` restarts without asking, `never` does not restart; `ask`,
/// and anything else, asks.
pub proof fn a_setting_asks_unless_it_says_otherwise(value: Option<Seq<char>>)
    ensures
        mode_of(Some("auto"@)) == Mode::Auto,
        mode_of(Some("never"@)) == Mode::Never,
        mode_of(Some("ask"@)) == Mode::Ask,
        mode_of(None) == Mode::Ask,
        value != Some("auto"@) && value != Some("never"@) ==> mode_of(value) == Mode::Ask,
{
    reveal_strlit("auto");
    reveal_strlit("never");
    reveal_strlit("ask");
    assert("auto"@.len() == 4 && "never"@.len() == 5 && "ask"@.len() == 3);
}

/// The user is asked exactly where the answer makes a difference.
pub proof fn the_user_is_asked_where_it_matters(mode: Mode, yes: bool)
    ensures
        asks(mode, yes) <==> restarts(mode, yes, true) != restarts(mode, yes, false),
{
}

/// The kernel is outdated as soon as one later image is there, and not before.
pub proof fn one_later_image_outdates_the_kernel(
    running: Seq<char>,
    files: Seq<Seq<char>>,
    version: Seq<char>,
    i: int,
)
    requires
        0 <= i < files.len(),
        files[i] == "vmlinuz-"@ + version,
        versions_rel(version, running) == Rel::Greater,
    ensures
        is_outdated(running, files),
        !is_outdated(running, seq![]),
{
    a_text_is_held_where_it_is_put(seq![], "vmlinuz-"@, version);
    assert(is_newer_kernel(files[i], running));
}

/// Without a later image the kernel is not outdated.
pub proof fn without_a_later_image_the_kernel_stays(running: Seq<char>, files: Seq<Seq<char>>)
    requires
        forall|i: int, v: Seq<char>|
            0 <= i < files.len() && #[trigger] files[i] == #[trigger] ("vmlinuz-"@ + v)
                ==> versions_rel(v, running) != Rel::Greater,
    ensures
        !is_outdated(running, files),
{
    if is_outdated(running, files) {
        let i = choose|i: int| 0 <= i < files.len() && is_newer_kernel(#[trigger] files[i], running);
        let v = after_prefix(files[i], "vmlinuz-"@)->0;
        assert(files[i] =~= "vmlinuz-"@ + v);
    }
}

/// A line `Service=` with nothing but blanks behind it tells no service.
pub proof fn a_blank_service_is_not_told(ls: Seq<Seq<char>>, blanks: Seq<char>)
    requires
        forall|i: int| 0 <= i < blanks.len() ==> is_space(#[trigger] blanks[i]),
    ensures
        named_services(ls.push("Service="@ + blanks)) == named_services(ls),
{
    let p = "Service="@;
    a_text_is_held_where_it_is_put(seq![], p, blanks);
    trimming_takes_the_white_space_at_the_ends(blanks);
    let (a, b) = choose|a: int, b: int|
        0 <= a <= b <= blanks.len() && trim(blanks) == #[trigger] blanks.subrange(a, b) && (
        forall|i: int| 0 <= i < a || b <= i < blanks.len() ==> is_space(#[trigger] blanks[i]));
    if trim(blanks).len() > 0 {
        assert(trim(blanks)[0] == blanks[a]);
    }
    assert(ls.push(p + blanks).drop_last() =~= ls);
}

} // verus!
