//! After a transaction: which running services still use outdated libraries, and
//! which of them can be restarted without harm.

use vstd::prelude::*;
use vstd::utf8::encode_utf8;

use crate::lists::{relate, versions_rel};
use crate::names::Names;
use crate::number::{decimal, decimal_usize};
use crate::order::{lemma_push_contains, listing, sort_texts};
use crate::text::{
    after_prefix, before_suffix, cat2, cat4, cat6, chars_of, digit, ends, has_prefix, has_suffix,
    has_text, holds, is_digit, join, join_strings, lemma_texts_push, lines, lines_of, opt_piece,
    opt_str, opt_text, pieces, same, same_str, split, split_at_char, starts, string_of, strip,
    strip_end, strs, texts, trim, trim_end_text, trim_end_text_of, trim_of, words, words_of,
};
use crate::ui::{
    complain, cyan, cyan_text, dim_text, dimmed, green, green_text, header_line, header_text,
    line_views, no_lines, plural, plural_of, red, red_text, say, warn_line, warn_text, yellow,
    yellow_text, Line, LineView,
};
use crate::version::Rel;

verus! {

// ---------------------------------------------------------------------------
// Policy
// ---------------------------------------------------------------------------

/// What to do about services left using upgraded-out libraries.
#[derive(Debug, Clone, Copy, PartialEq, Eq, Structural)]
pub enum Mode {
    /// Show them and ask (the default).
    Ask,
    /// Restart the safe ones without prompting.
    Auto,
    /// Only report them; never restart anything.
    Never,
}

/// What a setting asks to be done about services.
pub open spec fn mode_of(value: Option<Seq<char>>) -> Mode {
    match value {
        Some(v) => if v == "auto"@ {
            Mode::Auto
        } else if v == "never"@ {
            Mode::Never
        } else {
            Mode::Ask
        },
        None => Mode::Ask,
    }
}

impl Mode {
    /// The mode that a setting names; any other setting stands for the default.
    pub fn from_config(value: Option<&str>) -> (m: Mode)
        ensures
            m == if opt_str(value) == Some("auto"@) {
                Mode::Auto
            } else if opt_str(value) == Some("never"@) {
                Mode::Never
            } else {
                Mode::Ask
            },
            m == mode_of(opt_str(value)),
    {
        match value {
            Some(v) => {
                if same_str(v, "auto") {
                    Mode::Auto
                } else if same_str(v, "never") {
                    Mode::Never
                } else {
                    Mode::Ask
                }
            },
            None => Mode::Ask,
        }
    }
}

impl Default for Mode {
    fn default() -> (m: Mode)
        ensures
            m == Mode::Ask,
    {
        Mode::Ask
    }
}

/// The user's restart preferences.
pub struct Policy {
    pub mode: Mode,
    /// Services declared off-limits, beyond those detected automatically.
    pub never_restart: Vec<String>,
}

impl Default for Policy {
    fn default() -> (p: Policy)
        ensures
            p.mode == Mode::Ask,
            p.never_restart@.len() == 0,
    {
        Policy { mode: Mode::Ask, never_restart: Vec::new() }
    }
}

// ---------------------------------------------------------------------------
// What is not restarted
// ---------------------------------------------------------------------------

/// Core session plumbing, by the names that it has everywhere.
pub open spec fn critical_units() -> Seq<Seq<char>> {
    seq![
        "dbus"@,
        "dbus-broker"@,
        "systemd-logind"@,
        "polkit"@,
        "polkitd"@,
        "systemd"@,
        "init"@,
    ]
}

/// Display managers, for where the system does not name its own.
pub open spec fn display_managers() -> Seq<Seq<char>> {
    seq![
        "display-manager"@,
        "gdm"@,
        "gdm3"@,
        "sddm"@,
        "lightdm"@,
        "lxdm"@,
        "xdm"@,
        "slim"@,
        "greetd"@,
        "ly"@,
    ]
}

/// The name of a unit, without `.service`.
pub open spec fn unit_name(unit: Seq<char>) -> Seq<char> {
    match before_suffix(unit, ".service"@) {
        Some(n) => n,
        None => unit,
    }
}

/// Some session belongs to a service whose name begins so.
pub open spec fn owns_session(sessions: Seq<Seq<char>>, name: Seq<char>) -> bool {
    exists|i: int| 0 <= i < sessions.len() && has_prefix(#[trigger] sessions[i], name)
}

/// Restarting the unit would end a live session or destabilise the system: it
/// is the manager of a user's session, one named outright, core plumbing, a
/// display manager, or the owner of a session. A session's service is named
/// like the unit behind it, but may go on (`gdm-password` for `gdm.service`);
/// very short names are not matched in this way.
pub open spec fn protected(
    explicit: Set<Seq<char>>,
    sessions: Seq<Seq<char>>,
    unit: Seq<char>,
) -> bool {
    let name = unit_name(unit);
    ||| has_prefix(name, "user@"@)
    ||| explicit.contains(unit)
    ||| explicit.contains(name)
    ||| critical_units().contains(name)
    ||| display_managers().contains(name)
    ||| encode_utf8(name).len() >= 3 && owns_session(sessions, name)
}

/// Which units must not be restarted on this machine.
pub struct Guard {
    /// Units named outright: the display manager, whatever wrapt itself is
    /// running inside, and what the user declared off-limits.
    explicit: Names,
    /// PAM service names owning live sessions (`gdm-password`, `sshd`).
    sessions: Vec<String>,
}

/// What is named outright where the user declares a service off-limits: the
/// service with and without `.service`.
pub open spec fn declared(name: Seq<char>, unit: Seq<char>) -> bool {
    let bare = trim_end_text(trim(name), ".service"@);
    ||| unit == trim(name)
    ||| unit == bare
    ||| unit == bare + ".service"@
}

/// Some service declared off-limits names the unit.
pub open spec fn some_declared(names: Seq<Seq<char>>, unit: Seq<char>) -> bool {
    exists|i: int| 0 <= i < names.len() && declared(#[trigger] names[i], unit)
}

fn critical() -> (v: Vec<&'static str>)
    ensures
        strs(v@) == critical_units(),
{
    let v: Vec<&'static str> = vec![
        "dbus",
        "dbus-broker",
        "systemd-logind",
        "polkit",
        "polkitd",
        "systemd",
        "init",
    ];
    assert(strs(v@) =~= critical_units());
    v
}

fn managers() -> (v: Vec<&'static str>)
    ensures
        strs(v@) == display_managers(),
{
    let v: Vec<&'static str> = vec![
        "display-manager",
        "gdm",
        "gdm3",
        "sddm",
        "lightdm",
        "lxdm",
        "xdm",
        "slim",
        "greetd",
        "ly",
    ];
    assert(strs(v@) =~= display_managers());
    v
}

fn is_among(v: &Vec<&'static str>, name: &str) -> (r: bool)
    ensures
        r == strs(v@).contains(name@),
{
    let ghost all = strs(v@);
    let mut i: usize = 0;
    while i < v.len()
        invariant
            all == strs(v@),
            i <= v@.len(),
            forall|k: int| 0 <= k < i ==> #[trigger] all[k] != name@,
        decreases v@.len() - i,
    {
        assert(all[i as int] == v@[i as int]@);
        if same_str(v[i], name) {
            return true;
        }
        i += 1;
    }
    false
}

impl Guard {
    /// The units named outright.
    pub closed spec fn explicit(&self) -> Set<Seq<char>> {
        self.explicit@
    }

    /// The services that own live sessions.
    pub closed spec fn sessions(&self) -> Seq<Seq<char>> {
        texts(self.sessions@)
    }

    /// The guard over the given units and sessions.
    pub fn new(explicit: &Vec<String>, sessions: Vec<String>) -> (g: Guard)
        ensures
            g.explicit() == texts(explicit@).to_set(),
            g.sessions() == texts(sessions@),
    {
        Guard { explicit: Names::of(explicit), sessions }
    }

    /// The guard for what was found on the system: its display manager, the unit
    /// that wrapt runs inside, the services that own sessions, and what the
    /// user declared off-limits, in either naming form.
    pub fn detect(
        display_manager: Option<&str>,
        own_unit: Option<&str>,
        policy: &Policy,
        sessions: Vec<String>,
    ) -> (g: Guard)
        ensures
            forall|u: Seq<char>| #[trigger]
                g.explicit().contains(u) <==> opt_str(display_manager) == Some(u) || opt_str(
                    own_unit,
                ) == Some(u) || some_declared(texts(policy.never_restart@), u),
            g.sessions() == texts(sessions@),
    {
        let ghost names = texts(policy.never_restart@);
        let mut explicit = Names::new();
        if let Some(dm) = display_manager {
            explicit.insert(dm.to_owned());
        }
        if let Some(own) = own_unit {
            explicit.insert(own.to_owned());
        }
        let ghost found = explicit@;
        let mut i: usize = 0;
        proof {
            reveal_strlit(".service");
        }
        while i < policy.never_restart.len()
            invariant
                names == texts(policy.never_restart@),
                i <= policy.never_restart@.len(),
                ".service"@.len() > 0,
                forall|u: Seq<char>| #[trigger]
                    explicit@.contains(u) <==> found.contains(u) || some_declared(
                        names.take(i as int),
                        u,
                    ),
            decreases policy.never_restart@.len() - i,
        {
            let ghost before = explicit@;
            let ghost n = names[i as int];
            assert(n == policy.never_restart@[i as int]@);
            let chars = chars_of(policy.never_restart[i].as_str());
            let name = trim_of(chars.as_slice());
            let bare = string_of(trim_end_text_of(name, ".service"));
            explicit.insert(string_of(name));
            explicit.insert(cat2(bare.as_str(), ".service"));
            explicit.insert(bare);
            proof {
                assert(names.take(i + 1) =~= names.take(i as int).push(n));
                assert forall|u: Seq<char>| #[trigger]
                    explicit@.contains(u) <==> found.contains(u) || some_declared(
                        names.take(i + 1),
                        u,
                    ) by {
                    lemma_declared_push(names.take(i as int), n, u);
                    assert(before.contains(u) <==> found.contains(u) || some_declared(
                        names.take(i as int),
                        u,
                    ));
                }
            }
            i += 1;
        }
        assert(names.take(names.len() as int) =~= names);
        Guard { explicit, sessions }
    }

    /// Whether restarting `unit` would end a live session or destabilise the
    /// system.
    pub fn is_deferred(&self, unit: &str) -> (r: bool)
        ensures
            r == protected(self.explicit(), self.sessions(), unit@),
    {
        let chars = chars_of(unit);
        let s: &[char] = match strip_end(chars.as_slice(), ".service") {
            Some(n) => n,
            None => chars.as_slice(),
        };
        let name = string_of(s);
        let name = name.as_str();
        if starts(s, "user@") {
            return true;
        }
        if self.explicit.contains(unit) || self.explicit.contains(name) {
            return true;
        }
        if is_among(&critical(), name) || is_among(&managers(), name) {
            return true;
        }
        if name.as_bytes().len() < 3 {
            return false;
        }
        let ghost all = texts(self.sessions@);
        let mut i: usize = 0;
        while i < self.sessions.len()
            invariant
                name@ == unit_name(unit@),
                encode_utf8(name@).len() >= 3,
                all == texts(self.sessions@),
                i <= self.sessions@.len(),
                forall|k: int| 0 <= k < i ==> !has_prefix(#[trigger] all[k], name@),
            decreases self.sessions@.len() - i,
        {
            assert(all[i as int] == self.sessions@[i as int]@);
            let service = chars_of(self.sessions[i].as_str());
            if starts(service.as_slice(), name) {
                return true;
            }
            i += 1;
        }
        false
    }
}

impl Default for Guard {
    /// The guard where nothing was found on the system.
    fn default() -> (g: Guard)
        ensures
            g.explicit() == Set::<Seq<char>>::empty(),
            g.sessions() == Seq::<Seq<char>>::empty(),
    {
        let g = Guard { explicit: Names::new(), sessions: Vec::new() };
        assert(g.sessions() =~= Seq::<Seq<char>>::empty());
        g
    }
}

proof fn lemma_declared_push(names: Seq<Seq<char>>, n: Seq<char>, u: Seq<char>)
    ensures
        some_declared(names.push(n), u) <==> some_declared(names, u) || declared(n, u),
{
    let more = names.push(n);
    if some_declared(names, u) {
        let i = choose|i: int| 0 <= i < names.len() && declared(#[trigger] names[i], u);
        assert(more[i] == names[i]);
    }
    if declared(n, u) {
        assert(more[names.len() as int] == n);
    }
    if some_declared(more, u) && !declared(n, u) {
        let i = choose|i: int| 0 <= i < more.len() && declared(#[trigger] more[i], u);
        assert(names[i] == more[i]);
    }
}

/// A service that the user declared off-limits is protected, whether it was
/// declared with `.service` or without, and in whichever form the unit is named.
pub proof fn a_declared_service_is_protected(
    explicit: Set<Seq<char>>,
    sessions: Seq<Seq<char>>,
    never: Seq<Seq<char>>,
    i: int,
)
    requires
        0 <= i < never.len(),
        forall|u: Seq<char>| some_declared(never, u) ==> #[trigger] explicit.contains(u),
    ensures
        protected(explicit, sessions, trim(never[i])),
        protected(explicit, sessions, trim_end_text(trim(never[i]), ".service"@)),
        protected(
            explicit,
            sessions,
            trim_end_text(trim(never[i]), ".service"@) + ".service"@,
        ),
{
    let bare = trim_end_text(trim(never[i]), ".service"@);
    assert(declared(never[i], trim(never[i])));
    assert(declared(never[i], bare));
    assert(declared(never[i], bare + ".service"@));
    assert(explicit.contains(trim(never[i])));
    assert(explicit.contains(bare));
    assert(explicit.contains(bare + ".service"@));
}

/// Core plumbing, display managers, the managers of users' sessions and the
/// services behind live sessions are protected, whatever the user declared.
pub proof fn what_keeps_a_session_is_protected(
    explicit: Set<Seq<char>>,
    sessions: Seq<Seq<char>>,
    name: Seq<char>,
)
    requires
        critical_units().contains(name) || display_managers().contains(name) || has_prefix(
            name,
            "user@"@,
        ) || (encode_utf8(name).len() >= 3 && owns_session(sessions, name)),
    ensures
        protected(explicit, sessions, name + ".service"@),
{
    let unit = name + ".service"@;
    assert(unit.skip(name.len() as int) =~= ".service"@);
    assert(unit.take(name.len() as int) =~= name);
    assert(unit_name(unit) == name);
}

// ---------------------------------------------------------------------------
// Reading the system
// ---------------------------------------------------------------------------

/// The last of the segments that names a service.
pub open spec fn last_service(segments: Seq<Seq<char>>) -> Option<Seq<char>>
    decreases segments.len(),
{
    if segments.len() == 0 {
        None
    } else if has_suffix(segments.last(), ".service"@) {
        Some(trim(segments.last()))
    } else {
        last_service(segments.drop_last())
    }
}

/// The system service in a cgroup file; sessions of users have none.
pub open spec fn cgroup_service(cgroup: Seq<char>) -> Option<Seq<char>> {
    if has_text(cgroup, "system.slice"@) {
        last_service(split(trim(cgroup), '/'))
    } else {
        None
    }
}

/// The system service in a cgroup file; sessions of users, which shouldn't be
/// restarted from under the user, have none.
pub fn service_from_cgroup(cgroup: &str) -> (r: Option<String>)
    ensures
        opt_text(r) == cgroup_service(cgroup@),
{
    let chars = chars_of(cgroup);
    if !holds(chars.as_slice(), "system.slice") {
        return None;
    }
    let segments = split_at_char(trim_of(chars.as_slice()), '/');
    let ghost all = pieces(segments@);
    let mut i: usize = segments.len();
    assert(all.take(i as int) =~= all);
    while i > 0
        invariant
            all == pieces(segments@),
            i <= segments@.len(),
            last_service(all) == last_service(all.take(i as int)),
            cgroup_service(cgroup@) == last_service(all),
        decreases i,
    {
        assert(all.take(i as int).drop_last() =~= all.take(i - 1));
        assert(all.take(i as int).last() == segments@[i - 1]@);
        let segment = segments[i - 1];
        if ends(segment, ".service") {
            return Some(string_of(trim_of(segment)));
        }
        i -= 1;
    }
    None
}

/// The first word of each line that has one.
pub open spec fn first_words(ls: Seq<Seq<char>>) -> Seq<Seq<char>>
    decreases ls.len(),
{
    if ls.len() == 0 {
        seq![]
    } else if words(ls.last()).len() > 0 {
        first_words(ls.drop_last()).push(words(ls.last())[0])
    } else {
        first_words(ls.drop_last())
    }
}

/// The sessions that `loginctl list-sessions` lists.
pub fn session_ids(text: &str) -> (v: Vec<String>)
    ensures
        texts(v@) == first_words(lines(text@)),
{
    let chars = chars_of(text);
    let ls = lines_of(chars.as_slice());
    let ghost all = pieces(ls@);
    let mut v: Vec<String> = Vec::new();
    let mut i: usize = 0;
    assert(all.take(0) =~= seq![]);
    assert(texts(v@) =~= seq![]);
    while i < ls.len()
        invariant
            all == pieces(ls@),
            i <= ls@.len(),
            texts(v@) == first_words(all.take(i as int)),
        decreases ls@.len() - i,
    {
        broadcast use lemma_texts_push;

        assert(all.take(i + 1).drop_last() =~= all.take(i as int));
        assert(all.take(i + 1).last() == ls@[i as int]@);
        let ws = words_of(ls[i]);
        if ws.len() > 0 {
            assert(pieces(ws@)[0] == ws@[0]@);
            v.push(string_of(ws[0]));
        }
        i += 1;
    }
    assert(all.take(all.len() as int) =~= all);
    v
}

/// The services that lines `Service=<name>` name.
pub open spec fn named_services(ls: Seq<Seq<char>>) -> Seq<Seq<char>>
    decreases ls.len(),
{
    if ls.len() == 0 {
        seq![]
    } else {
        let before = named_services(ls.drop_last());
        match after_prefix(ls.last(), "Service="@) {
            Some(s) => if trim(s).len() > 0 {
                before.push(trim(s))
            } else {
                before
            },
            None => before,
        }
    }
}

/// The services in the text of `loginctl show-session`.
pub fn session_services(text: &str) -> (v: Vec<String>)
    ensures
        texts(v@) == named_services(lines(text@)),
{
    let chars = chars_of(text);
    let ls = lines_of(chars.as_slice());
    let ghost all = pieces(ls@);
    let mut v: Vec<String> = Vec::new();
    let mut i: usize = 0;
    assert(all.take(0) =~= seq![]);
    assert(texts(v@) =~= seq![]);
    while i < ls.len()
        invariant
            all == pieces(ls@),
            i <= ls@.len(),
            texts(v@) == named_services(all.take(i as int)),
        decreases ls@.len() - i,
    {
        broadcast use lemma_texts_push;

        assert(all.take(i + 1).drop_last() =~= all.take(i as int));
        assert(all.take(i + 1).last() == ls@[i as int]@);
        if let Some(s) = strip(ls[i], "Service=") {
            let name = trim_of(s);
            if name.len() > 0 {
                v.push(string_of(name));
            }
        }
        i += 1;
    }
    assert(all.take(all.len() as int) =~= all);
    v
}

/// A line of a process's memory map tells of a deleted library.
pub open spec fn is_deleted_lib(line: Seq<char>) -> bool {
    has_suffix(line, "(deleted)"@) && has_text(line, ".so"@) && (has_text(line, "/usr/"@)
        || has_text(line, "/lib"@))
}

/// A process, given its memory map, maps a deleted library.
pub open spec fn is_stale(maps: Seq<char>) -> bool {
    exists|i: int| 0 <= i < lines(maps).len() && is_deleted_lib(#[trigger] lines(maps)[i])
}

/// Whether a process maps a deleted shared library (an upgraded-out one), from
/// its memory map.
pub fn maps_deleted_lib(maps: &str) -> (r: bool)
    ensures
        r == is_stale(maps@),
{
    let chars = chars_of(maps);
    let ls = lines_of(chars.as_slice());
    let ghost all = pieces(ls@);
    let mut i: usize = 0;
    while i < ls.len()
        invariant
            all == pieces(ls@),
            all == lines(maps@),
            i <= ls@.len(),
            forall|k: int| 0 <= k < i ==> !is_deleted_lib(#[trigger] all[k]),
        decreases ls@.len() - i,
    {
        assert(all[i as int] == ls@[i as int]@);
        let line = ls[i];
        if ends(line, "(deleted)") && holds(line, ".so") && (holds(line, "/usr/") || holds(
            line,
            "/lib",
        )) {
            assert(is_deleted_lib(lines(maps@)[i as int]));
            return true;
        }
        i += 1;
    }
    false
}

/// The service that has to be restarted for a process, if any: the one it belongs
/// to, where it maps a deleted library.
pub fn stale_service(maps: &str, cgroup: Option<&str>) -> (r: Option<String>)
    ensures
        opt_text(r) == match cgroup {
            Some(text) => if is_stale(maps@) {
                cgroup_service(text@)
            } else {
                None
            },
            None => None,
        },
{
    match cgroup {
        Some(text) => if maps_deleted_lib(maps) {
            service_from_cgroup(text)
        } else {
            None
        },
        None => None,
    }
}

/// Whether an entry of /proc is a process.
pub fn is_pid(name: &str) -> (r: bool)
    ensures
        r == forall|i: int| 0 <= i < name@.len() ==> is_digit(#[trigger] name@[i]),
{
    let chars = chars_of(name);
    let mut i: usize = 0;
    while i < chars.len()
        invariant
            chars@ == name@,
            i <= chars@.len(),
            forall|k: int| 0 <= k < i ==> is_digit(#[trigger] name@[k]),
        decreases chars@.len() - i,
    {
        if !digit(chars[i]) {
            assert(!is_digit(name@[i as int]));
            return false;
        }
        i += 1;
    }
    true
}

/// A kernel file in /boot is newer than the running release.
pub open spec fn is_newer_kernel(file: Seq<char>, running: Seq<char>) -> bool {
    after_prefix(file, "vmlinuz-"@) matches Some(v) && versions_rel(v, running) == Rel::Greater
}

/// Some kernel image outdates the running kernel.
pub open spec fn is_outdated(running: Seq<char>, files: Seq<Seq<char>>) -> bool {
    exists|i: int| 0 <= i < files.len() && is_newer_kernel(#[trigger] files[i], running)
}

/// Whether a strictly newer kernel is installed than the one running, given the
/// text of its release and the names of the files in /boot.
pub fn kernel_outdated(running: &str, files: &Vec<String>) -> (r: bool)
    ensures
        r == exists|i: int|
            0 <= i < files@.len() && is_newer_kernel(
                #[trigger] texts(files@)[i],
                trim(running@),
            ),
        r == is_outdated(trim(running@), texts(files@)),
{
    let chars = chars_of(running);
    let release = string_of(trim_of(chars.as_slice()));
    let ghost all = texts(files@);
    let mut i: usize = 0;
    while i < files.len()
        invariant
            all == texts(files@),
            release@ == trim(running@),
            i <= files@.len(),
            forall|k: int| 0 <= k < i ==> !is_newer_kernel(#[trigger] all[k], release@),
        decreases files@.len() - i,
    {
        assert(all[i as int] == files@[i as int]@);
        let name = chars_of(files[i].as_str());
        if let Some(v) = strip(name.as_slice(), "vmlinuz-") {
            let newer = match relate(string_of(v).as_str(), release.as_str()) {
                Rel::Greater => true,
                _ => false,
            };
            if newer {
                assert(is_newer_kernel(texts(files@)[i as int], trim(running@)));
                return true;
            }
        }
        i += 1;
    }
    false
}

// ---------------------------------------------------------------------------
// The report
// ---------------------------------------------------------------------------

/// What has to be restarted.
#[derive(Debug)]
pub struct Report {
    /// Services whose processes map deleted libraries.
    pub services: Vec<String>,
    /// Services that need restarting but are unsafe to restart live.
    pub deferred: Vec<String>,
    /// Set when the running kernel differs from the newest installed one.
    pub kernel_reboot: bool,
}

/// The items that are protected, in order.
pub open spec fn kept_back(
    explicit: Set<Seq<char>>,
    sessions: Seq<Seq<char>>,
    v: Seq<Seq<char>>,
) -> Seq<Seq<char>>
    decreases v.len(),
{
    if v.len() == 0 {
        seq![]
    } else if protected(explicit, sessions, v.last()) {
        kept_back(explicit, sessions, v.drop_last()).push(v.last())
    } else {
        kept_back(explicit, sessions, v.drop_last())
    }
}

/// The items that are not protected, in order.
pub open spec fn safe_ones(
    explicit: Set<Seq<char>>,
    sessions: Seq<Seq<char>>,
    v: Seq<Seq<char>>,
) -> Seq<Seq<char>>
    decreases v.len(),
{
    if v.len() == 0 {
        seq![]
    } else if protected(explicit, sessions, v.last()) {
        safe_ones(explicit, sessions, v.drop_last())
    } else {
        safe_ones(explicit, sessions, v.drop_last()).push(v.last())
    }
}

/// No protected unit is among those to restart, and none that needs restarting
/// is lost.
pub proof fn a_protected_unit_is_never_restarted(
    explicit: Set<Seq<char>>,
    sessions: Seq<Seq<char>>,
    v: Seq<Seq<char>>,
    unit: Seq<char>,
)
    ensures
        safe_ones(explicit, sessions, v).contains(unit) <==> v.contains(unit) && !protected(
            explicit,
            sessions,
            unit,
        ),
        kept_back(explicit, sessions, v).contains(unit) <==> v.contains(unit) && protected(
            explicit,
            sessions,
            unit,
        ),
        safe_ones(explicit, sessions, v).len() + kept_back(explicit, sessions, v).len() == v.len(),
    decreases v.len(),
{
    if v.len() > 0 {
        let before = v.drop_last();
        let x = v.last();
        a_protected_unit_is_never_restarted(explicit, sessions, before, unit);
        assert(v =~= before.push(x));
        lemma_push_contains(before, x, unit);
        lemma_push_contains(safe_ones(explicit, sessions, before), x, unit);
        lemma_push_contains(kept_back(explicit, sessions, before), x, unit);
    }
}

impl Default for Report {
    fn default() -> (r: Report)
        ensures
            r.services@.len() == 0,
            r.deferred@.len() == 0,
            !r.kernel_reboot,
    {
        Report { services: Vec::new(), deferred: Vec::new(), kernel_reboot: false }
    }
}

impl Report {
    /// Whether there is nothing to report.
    pub fn is_empty(&self) -> (r: bool)
        ensures
            r == (self.services@.len() == 0 && self.deferred@.len() == 0 && !self.kernel_reboot),
    {
        self.services.len() == 0 && self.deferred.len() == 0 && !self.kernel_reboot
    }

    /// Moves protected units out of the restart list.
    pub fn split_deferred(self, guard: &Guard) -> (r: Report)
        ensures
            texts(r.services@) == safe_ones(
                guard.explicit(),
                guard.sessions(),
                texts(self.services@),
            ),
            texts(r.deferred@) == kept_back(
                guard.explicit(),
                guard.sessions(),
                texts(self.services@),
            ),
            r.kernel_reboot == self.kernel_reboot,
    {
        let ghost e = guard.explicit();
        let ghost ss = guard.sessions();
        let ghost all = texts(self.services@);
        let mut services: Vec<String> = Vec::new();
        let mut deferred: Vec<String> = Vec::new();
        let mut i: usize = 0;
        assert(all.take(0) =~= seq![]);
        assert(texts(services@) =~= seq![]);
        while i < self.services.len()
            invariant
                e == guard.explicit(),
                ss == guard.sessions(),
                all == texts(self.services@),
                i <= self.services@.len(),
                texts(services@) == safe_ones(e, ss, all.take(i as int)),
                texts(deferred@) == kept_back(e, ss, all.take(i as int)),
            decreases self.services@.len() - i,
        {
            broadcast use lemma_texts_push;

            assert(all.take(i + 1).drop_last() =~= all.take(i as int));
            assert(all.take(i + 1).last() == self.services@[i as int]@);
            let unit = self.services[i].clone();
            if guard.is_deferred(unit.as_str()) {
                deferred.push(unit);
            } else {
                services.push(unit);
            }
            i += 1;
        }
        assert(all.take(all.len() as int) =~= all);
        Report { services, deferred, kernel_reboot: self.kernel_reboot }
    }
}

/// What a line of `needrestart -b` says behind a prefix.
pub open spec fn last_after(ls: Seq<Seq<char>>, prefix: Seq<char>) -> Option<Seq<char>>
    decreases ls.len(),
{
    if ls.len() == 0 {
        None
    } else {
        match after_prefix(ls.last(), prefix) {
            Some(v) => Some(trim(v)),
            None => last_after(ls.drop_last(), prefix),
        }
    }
}

/// The services that `needrestart -b` names.
pub open spec fn stale_services(ls: Seq<Seq<char>>) -> Seq<Seq<char>>
    decreases ls.len(),
{
    if ls.len() == 0 {
        seq![]
    } else {
        let before = stale_services(ls.drop_last());
        match after_prefix(ls.last(), "NEEDRESTART-SVC: "@) {
            Some(s) => before.push(trim(s)),
            None => before,
        }
    }
}

/// `needrestart -b` expects another kernel than the one that runs.
pub open spec fn expects_kernel(ls: Seq<Seq<char>>) -> bool {
    match (last_after(ls, "NEEDRESTART-KCUR: "@), last_after(ls, "NEEDRESTART-KEXP: "@)) {
        (Some(c), Some(e)) => c != e,
        _ => false,
    }
}

proof fn lemma_prefixes_apart(line: Seq<char>)
    ensures
        has_prefix(line, "NEEDRESTART-SVC: "@) ==> !has_prefix(line, "NEEDRESTART-KCUR: "@)
            && !has_prefix(line, "NEEDRESTART-KEXP: "@),
        has_prefix(line, "NEEDRESTART-KCUR: "@) ==> !has_prefix(line, "NEEDRESTART-KEXP: "@),
{
    reveal_strlit("NEEDRESTART-SVC: ");
    reveal_strlit("NEEDRESTART-KCUR: ");
    reveal_strlit("NEEDRESTART-KEXP: ");
    let (a, b, c) = ("NEEDRESTART-SVC: "@, "NEEDRESTART-KCUR: "@, "NEEDRESTART-KEXP: "@);
    if has_prefix(line, a) {
        assert(line.take(a.len() as int)[12] == line[12]);
        assert(a[12] == 'S');
    }
    if has_prefix(line, b) {
        assert(line.take(b.len() as int)[12] == line[12]);
        assert(line.take(b.len() as int)[13] == line[13]);
        assert(b[12] == 'K' && b[13] == 'C');
    }
    if has_prefix(line, c) {
        assert(line.take(c.len() as int)[12] == line[12]);
        assert(line.take(c.len() as int)[13] == line[13]);
        assert(c[12] == 'K' && c[13] == 'E');
    }
}

/// The report in the batch output of `needrestart -b`.
pub fn parse_needrestart(text: &str) -> (r: Report)
    ensures
        listing(texts(r.services@), stale_services(lines(text@)).to_set()),
        r.deferred@.len() == 0,
        r.kernel_reboot == expects_kernel(lines(text@)),
{
    let chars = chars_of(text);
    let ls = lines_of(chars.as_slice());
    let ghost all = pieces(ls@);
    let mut services: Vec<String> = Vec::new();
    let mut kcur: Option<&[char]> = None;
    let mut kexp: Option<&[char]> = None;
    let mut i: usize = 0;
    assert(all.take(0) =~= seq![]);
    assert(texts(services@) =~= seq![]);
    while i < ls.len()
        invariant
            all == pieces(ls@),
            i <= ls@.len(),
            texts(services@) == stale_services(all.take(i as int)),
            opt_piece(kcur) == last_after(all.take(i as int), "NEEDRESTART-KCUR: "@),
            opt_piece(kexp) == last_after(all.take(i as int), "NEEDRESTART-KEXP: "@),
        decreases ls@.len() - i,
    {
        broadcast use lemma_texts_push;

        assert(all.take(i + 1).drop_last() =~= all.take(i as int));
        assert(all.take(i + 1).last() == ls@[i as int]@);
        proof {
            lemma_prefixes_apart(ls@[i as int]@);
        }
        if let Some(s) = strip(ls[i], "NEEDRESTART-SVC: ") {
            services.push(string_of(trim_of(s)));
        } else if let Some(v) = strip(ls[i], "NEEDRESTART-KCUR: ") {
            kcur = Some(trim_of(v));
        } else if let Some(v) = strip(ls[i], "NEEDRESTART-KEXP: ") {
            kexp = Some(trim_of(v));
        }
        i += 1;
    }
    assert(all.take(all.len() as int) =~= all);
    let kernel_reboot = match (kcur, kexp) {
        (Some(c), Some(e)) => !same(c, e),
        _ => false,
    };
    Report { services: sort_texts(services), deferred: Vec::new(), kernel_reboot }
}

/// What was found out about services.
pub enum Found {
    /// The text of `needrestart -b`.
    Needrestart(String),
    /// The services of processes that map deleted libraries, and whether the
    /// running kernel is outdated.
    Scanned { services: Vec<String>, kernel_outdated: bool },
}

/// The services that were found to need restarting.
pub open spec fn found_services(found: Found) -> Seq<Seq<char>> {
    match found {
        Found::Needrestart(text) => stale_services(lines(text@)),
        Found::Scanned { services, .. } => texts(services@),
    }
}

/// The report on what was found, with the protected units set apart.
pub fn check(found: Found, guard: &Guard) -> (r: Report)
    ensures
        exists|v: Seq<Seq<char>>| #[trigger]
            listing(v, found_services(found).to_set()) && texts(r.services@) == safe_ones(
                guard.explicit(),
                guard.sessions(),
                v,
            ) && texts(r.deferred@) == kept_back(guard.explicit(), guard.sessions(), v),
        r.kernel_reboot == match found {
            Found::Needrestart(text) => expects_kernel(lines(text@)),
            Found::Scanned { kernel_outdated, .. } => kernel_outdated,
        },
{
    let report = match found {
        Found::Needrestart(text) => parse_needrestart(text.as_str()),
        Found::Scanned { services, kernel_outdated } => Report {
            services: sort_texts(services),
            deferred: Vec::new(),
            kernel_reboot: kernel_outdated,
        },
    };
    assert(listing(texts(report.services@), found_services(found).to_set()));
    report.split_deferred(guard)
}

// ---------------------------------------------------------------------------
// The offer
// ---------------------------------------------------------------------------

/// The user has to be asked before services are restarted.
pub open spec fn asks(mode: Mode, yes: bool) -> bool {
    mode == Mode::Ask && !yes
}

/// Whether the user has to be asked before services are restarted.
pub fn must_ask(mode: Mode, yes: bool) -> (r: bool)
    ensures
        r == (mode == Mode::Ask && !yes),
        r == asks(mode, yes),
{
    match mode {
        Mode::Ask => !yes,
        _ => false,
    }
}

/// Services are restarted: never where the policy says so, whatever was agreed
/// to in advance; always where it says so; else on a yes.
pub open spec fn restarts(mode: Mode, yes: bool, answer: bool) -> bool {
    match mode {
        Mode::Never => false,
        Mode::Auto => true,
        Mode::Ask => yes || answer,
    }
}

/// Whether services are restarted, given the answer of the user who was asked.
pub fn restart_now(mode: Mode, yes: bool, answer: bool) -> (r: bool)
    ensures
        r == restarts(mode, yes, answer),
{
    match mode {
        Mode::Never => false,
        Mode::Auto => true,
        Mode::Ask => yes || answer,
    }
}

/// `never` outranks a yes that was said in advance.
pub proof fn never_outranks_yes(yes: bool, answer: bool)
    ensures
        !restarts(Mode::Never, yes, answer),
{
}

/// Units one below the other, below the given lines.
pub open spec fn unit_lines(above: Seq<LineView>, color: bool, v: Seq<Seq<char>>) -> Seq<LineView>
    decreases v.len(),
{
    if v.len() == 0 {
        above
    } else {
        unit_lines(above, color, v.drop_last()).push(
            LineView::Out("   "@ + yellow_text(color, v.last())),
        )
    }
}

/// What is said of the services to restart.
pub open spec fn services_text(color: bool, v: Seq<Seq<char>>) -> Seq<LineView> {
    let none: Seq<LineView> = seq![];
    if v.len() == 0 {
        none
    } else {
        unit_lines(
            none.push(
                LineView::Out(
                    header_text(
                        color,
                        decimal(v.len()) + " service"@ + plural(v.len())
                            + " need restarting (using outdated libraries):"@,
                    ),
                ),
            ),
            color,
            v,
        ).push(LineView::Out(""@))
    }
}

fn say_units(out: &mut Vec<Line>, color: bool, v: &Vec<String>)
    ensures
        line_views(final(out)@) == unit_lines(line_views(old(out)@), color, texts(v@)),
{
    let ghost above = line_views(out@);
    let ghost all = texts(v@);
    let mut i: usize = 0;
    assert(all.take(0) =~= seq![]);
    while i < v.len()
        invariant
            all == texts(v@),
            i <= v@.len(),
            line_views(out@) == unit_lines(above, color, all.take(i as int)),
        decreases v@.len() - i,
    {
        assert(all.take(i + 1).drop_last() =~= all.take(i as int));
        assert(all.take(i + 1).last() == v@[i as int]@);
        say(out, cat2("   ", yellow(color, v[i].as_str()).as_str()));
        i += 1;
    }
    assert(all.take(all.len() as int) =~= all);
}

/// What is said of the services to restart, before the user is asked.
pub fn offer(color: bool, report: &Report) -> (out: Vec<Line>)
    ensures
        line_views(out@) == services_text(color, texts(report.services@)),
{
    let mut out = no_lines();
    let n: usize = report.services.len();
    assert(texts(report.services@).len() == n);
    if n > 0 {
        let title = cat4(
            decimal_usize(n).as_str(),
            " service",
            plural_of(n),
            " need restarting (using outdated libraries):",
        );
        say(&mut out, header_line(color, title.as_str()));
        say_units(&mut out, color, &report.services);
        say(&mut out, "".to_owned());
    }
    out
}

/// How a restart went, in a word.
pub fn restart_outcome(color: bool, ok: bool) -> (r: String)
    ensures
        r@ == if ok {
            green_text(color, "ok"@)
        } else {
            red_text(color, "failed"@)
        },
{
    if ok {
        green(color, "ok")
    } else {
        red(color, "failed")
    }
}

/// How to restart the services later.
pub fn skip_line(color: bool, services: &Vec<String>) -> (r: String)
    ensures
        r@ == "   "@ + dim_text(color, "skip — restart later with:"@) + " "@ + cyan_text(
            color,
            "systemctl restart "@ + join(texts(services@), " "@),
        ),
{
    let command = cat2("systemctl restart ", join_strings(services, " ").as_str());
    cat4(
        "   ",
        dimmed(color, "skip — restart later with:").as_str(),
        " ",
        cyan(color, command.as_str()).as_str(),
    )
}

/// What is said of what is not restarted.
pub open spec fn rest_text(
    color: bool,
    deferred: Seq<Seq<char>>,
    kernel_reboot: bool,
) -> Seq<LineView> {
    let none: Seq<LineView> = seq![];
    let told = if deferred.len() == 0 {
        none
    } else {
        unit_lines(
            none.push(
                LineView::Error(
                    warn_text(
                        color,
                        decimal(deferred.len()) + " service"@ + plural(deferred.len())
                            + " also updated, but wrapt will not restart "@ + (
                        if deferred.len() == 1 {
                            "it"@
                        } else {
                            "them"@
                        }) + ":"@,
                    ),
                ),
            ),
            color,
            deferred,
        ).push(
            LineView::Out(
                "   "@ + dim_text(
                    color,
                    "Restarting these would end your session or interrupt something you rely on."@,
                ),
            ),
        ).push(
            LineView::Out("   "@ + dim_text(color, "They take effect on your next reboot."@)),
        ).push(LineView::Out(""@))
    };
    if kernel_reboot {
        told.push(
            LineView::Error(
                warn_text(color, "The running kernel is outdated — a reboot is recommended."@),
            ),
        )
    } else {
        told
    }
}

/// What is said of what is not restarted.
pub fn rest_lines(color: bool, report: &Report) -> (out: Vec<Line>)
    ensures
        line_views(out@) == rest_text(color, texts(report.deferred@), report.kernel_reboot),
{
    let mut out = no_lines();
    let n: usize = report.deferred.len();
    assert(texts(report.deferred@).len() == n);
    if n > 0 {
        let whom = if n == 1 {
            "it"
        } else {
            "them"
        };
        let title = cat6(
            decimal_usize(n).as_str(),
            " service",
            plural_of(n),
            " also updated, but wrapt will not restart ",
            whom,
            ":",
        );
        complain(&mut out, warn_line(color, title.as_str()));
        say_units(&mut out, color, &report.deferred);
        let why = dimmed(
            color,
            "Restarting these would end your session or interrupt something you rely on.",
        );
        say(&mut out, cat2("   ", why.as_str()));
        let when = dimmed(color, "They take effect on your next reboot.");
        say(&mut out, cat2("   ", when.as_str()));
        say(&mut out, "".to_owned());
    }
    if report.kernel_reboot {
        complain(
            &mut out,
            warn_line(color, "The running kernel is outdated — a reboot is recommended."),
        );
    }
    out
}

} // verus!
