//! The history of transactions, and how to go back in it.

use chrono::TimeZone;
use vstd::hash_map::StringHashMap;
use vstd::prelude::*;
use vstd::string::StringExecFns;

use crate::apt::{changes, copy_changes, Change, ChangeView, Transaction, TransactionView};
use crate::number::{decimal, decimal_u64, decimal_usize};
use crate::order::{
    ascending, by_rank, in_order, lemma_in_order_mapped, lemma_push_contains, sort, sort_texts,
    Ranked,
};
use crate::text::{
    cat2, cat3, cat4, copy_option, copy_strings, cut, join, join_strings, lemma_cut,
    lemma_texts_push, occurs_at, opt_text, texts,
};

verus! {

// ---------------------------------------------------------------------------
// Entries
// ---------------------------------------------------------------------------

/// One recorded transaction.
pub struct Entry {
    pub id: u64,
    /// Unix timestamp (seconds).
    pub time: i64,
    /// The apt-level command that ran, e.g. ["install", "htop"]. Always kept
    /// executable, since `redo` replays it verbatim.
    pub command: Vec<String>,
    /// How the transaction came about, when its command doesn't say it legibly
    /// (e.g. "undo #5", whose command is a list of pinned versions).
    pub label: Option<String>,
    pub install: Vec<Change>,
    pub remove: Vec<Change>,
}

pub struct EntryView {
    pub id: u64,
    pub time: i64,
    pub command: Seq<Seq<char>>,
    pub label: Option<Seq<char>>,
    pub install: Seq<ChangeView>,
    pub remove: Seq<ChangeView>,
}

impl View for Entry {
    type V = EntryView;

    open spec fn view(&self) -> EntryView {
        EntryView {
            id: self.id,
            time: self.time,
            command: texts(self.command@),
            label: opt_text(self.label),
            install: changes(self.install@),
            remove: changes(self.remove@),
        }
    }
}

/// The entries as values.
pub open spec fn entries(v: Seq<Entry>) -> Seq<EntryView> {
    v.map_values(|e: Entry| e@)
}

pub broadcast proof fn lemma_entries_push(v: Seq<Entry>, e: Entry)
    ensures
        #[trigger] entries(v.push(e)) == entries(v).push(e@),
{
    assert(entries(v.push(e)) =~= entries(v).push(e@));
}

/// A copy of an entry.
pub fn copy_entry(e: &Entry) -> (r: Entry)
    ensures
        r@ == e@,
{
    Entry {
        id: e.id,
        time: e.time,
        command: copy_strings(&e.command),
        label: copy_option(&e.label),
        install: copy_changes(&e.install),
        remove: copy_changes(&e.remove),
    }
}

/// How dates are shown.
pub const DATE_PATTERN: &'static str = "%Y-%m-%d %H:%M";

/// The name of what chrono writes for a pattern of a point in time, given in
/// seconds since 1970 UTC, in a zone so many seconds east of UTC. There is
/// nothing to write where chrono knows no such time or zone.
pub uninterp spec fn written_time(time: i64, east: i32, pattern: Seq<char>) -> Option<Seq<char>>;

/// chrono's `DateTime::format` with a pattern, of the time that
/// `TimeZone::timestamp_opt` makes in the zone of `FixedOffset::east_opt`. The
/// text depends on the two numbers and the pattern alone. A zone is known exactly
/// where it is less than a day away from UTC. The one pattern that is asked for
/// can be written of every time; chrono panics on a pattern that it cannot write.
#[verifier::external_body]
fn write_time(time: i64, east: i32, pattern: &str) -> (r: Option<String>)
    requires
        pattern@ == DATE_PATTERN@,
    ensures
        opt_text(r) == written_time(time, east, pattern@),
        !(-86_400 < east < 86_400) ==> r is None,
{
    let zone = chrono::FixedOffset::east_opt(east)?;
    let moment = zone.timestamp_opt(time, 0).single()?;
    Some(moment.format(pattern).to_string())
}

/// The date as it is shown, `?` where it could not be written.
pub open spec fn date_text(written: Option<Seq<char>>) -> Seq<char> {
    match written {
        Some(t) => t,
        None => "?"@,
    }
}

/// The date as it is shown, `?` where it could not be written.
pub fn show_date(written: Option<String>) -> (r: String)
    ensures
        r@ == date_text(opt_text(written)),
{
    match written {
        Some(t) => t,
        None => "?".to_owned(),
    }
}

/// What an entry did, for people to read.
pub open spec fn what_text(e: EntryView) -> Seq<char> {
    match e.label {
        Some(l) => l,
        None => join(e.command, " "@),
    }
}

/// How many packages are new to the system.
pub open spec fn new_count(v: Seq<ChangeView>) -> nat
    decreases v.len(),
{
    if v.len() == 0 {
        0
    } else if v.last().old is None {
        new_count(v.drop_last()) + 1
    } else {
        new_count(v.drop_last())
    }
}

/// The counts of an entry: new, upgraded and removed packages.
pub open spec fn counts(e: EntryView) -> Seq<Seq<char>> {
    let new = new_count(e.install);
    let upgraded = (e.install.len() - new) as nat;
    seq!["+"@ + decimal(new), "~"@ + decimal(upgraded), "-"@ + decimal(e.remove.len())]
}

/// The package at this version: `name=version`.
pub open spec fn pinned(name: Seq<char>, version: Seq<char>) -> Seq<char> {
    name + "="@ + version
}

/// The package gone: `name-`.
pub open spec fn dropped(name: Seq<char>) -> Seq<char> {
    name + "-"@
}

/// The argument that reverts an installation or upgrade.
pub open spec fn undo_install(c: ChangeView) -> Seq<char> {
    match c.old {
        None => dropped(c.name),
        Some(old) => pinned(c.name, old),
    }
}

/// The argument that reverts a removal.
pub open spec fn undo_remove(c: ChangeView) -> Seq<char> {
    match c.old {
        Some(old) => pinned(c.name, old),
        None => c.name,
    }
}

/// How the arguments of every step back begin.
pub open spec fn restore_command() -> Seq<Seq<char>> {
    seq!["install"@, "--allow-downgrades"@]
}

/// The arguments that revert an entry.
pub open spec fn undo_texts(e: EntryView) -> Seq<Seq<char>> {
    restore_command() + e.install.map_values(|c: ChangeView| undo_install(c))
        + e.remove.map_values(|c: ChangeView| undo_remove(c))
}

fn restore_args() -> (args: Vec<String>)
    ensures
        texts(args@) == restore_command(),
{
    let mut args: Vec<String> = Vec::new();
    args.push("install".to_owned());
    args.push("--allow-downgrades".to_owned());
    assert(texts(args@) =~= restore_command());
    args
}

impl Entry {
    /// The date of the transaction in a zone so many seconds east of UTC, which
    /// is unknown where that is.
    pub fn date(&self, east: Option<i32>) -> (r: String)
        ensures
            r@ == match east {
                Some(e) => date_text(written_time(self.time, e, DATE_PATTERN@)),
                None => "?"@,
            },
    {
        match east {
            Some(e) => show_date(write_time(self.time, e, DATE_PATTERN)),
            None => "?".to_owned(),
        }
    }

    /// The human-facing description of what this transaction did.
    pub fn what(&self) -> (r: String)
        ensures
            r@ == what_text(self@),
    {
        match &self.label {
            Some(l) => l.clone(),
            None => join_strings(&self.command, " "),
        }
    }

    /// e.g. "install htop  (+2 ~1 -0)"
    pub fn summary(&self) -> (r: String)
        ensures
            r@ == what_text(self@) + "  ("@ + join(counts(self@), " "@) + ")"@,
    {
        let new: usize = new_count_of(&self.install);
        let mut parts: Vec<String> = Vec::new();
        parts.push(cat2("+", decimal_usize(new).as_str()));
        parts.push(cat2("~", decimal_usize(self.install.len() - new).as_str()));
        parts.push(cat2("-", decimal_usize(self.remove.len()).as_str()));
        assert(texts(parts@) =~= counts(self@));
        cat4(
            self.what().as_str(),
            "  (",
            join_strings(&parts, " ").as_str(),
            ")",
        )
    }

    /// The changes of the transaction.
    pub fn to_transaction(&self) -> (r: Transaction)
        ensures
            r@ == (TransactionView { install: self@.install, remove: self@.remove }),
    {
        Transaction { install: copy_changes(&self.install), remove: copy_changes(&self.remove) }
    }

    /// The apt-get arguments that revert this transaction, in apt's combined
    /// syntax: `pkg-` removes, `pkg=version` installs or downgrades.
    pub fn undo_args(&self) -> (args: Vec<String>)
        ensures
            texts(args@) == undo_texts(self@),
    {
        let mut args = restore_args();
        let ghost head = restore_command();
        let ghost ins = self@.install;
        let ghost gone = self@.remove;
        let mut i: usize = 0;
        assert(texts(args@) =~= head + ins.take(0).map_values(|c: ChangeView| undo_install(c)));
        while i < self.install.len()
            invariant
                ins == changes(self.install@),
                i <= self.install@.len(),
                texts(args@) == head + ins.take(i as int).map_values(
                    |c: ChangeView| undo_install(c),
                ),
            decreases self.install@.len() - i,
        {
            broadcast use lemma_texts_push;

            let c = &self.install[i];
            assert(ins[i as int] == c@);
            match &c.old {
                None => args.push(cat2(c.name.as_str(), "-")),
                Some(old) => args.push(cat3(c.name.as_str(), "=", old.as_str())),
            }
            assert(texts(args@) =~= head + ins.take(i + 1).map_values(
                |c: ChangeView| undo_install(c),
            ));
            i += 1;
        }
        assert(ins.take(ins.len() as int) =~= ins);
        let ghost before = texts(args@);
        let mut j: usize = 0;
        assert(before =~= before + gone.take(0).map_values(|c: ChangeView| undo_remove(c)));
        while j < self.remove.len()
            invariant
                gone == changes(self.remove@),
                j <= self.remove@.len(),
                texts(args@) == before + gone.take(j as int).map_values(
                    |c: ChangeView| undo_remove(c),
                ),
            decreases self.remove@.len() - j,
        {
            broadcast use lemma_texts_push;

            let c = &self.remove[j];
            assert(gone[j as int] == c@);
            match &c.old {
                Some(old) => args.push(cat3(c.name.as_str(), "=", old.as_str())),
                None => args.push(c.name.clone()),
            }
            assert(texts(args@) =~= before + gone.take(j + 1).map_values(
                |c: ChangeView| undo_remove(c),
            ));
            j += 1;
        }
        assert(gone.take(gone.len() as int) =~= gone);
        args
    }
}

fn new_count_of(v: &Vec<Change>) -> (r: usize)
    ensures
        r == new_count(changes(v@)),
        r <= v@.len(),
{
    let ghost all = changes(v@);
    let mut n: usize = 0;
    let mut i: usize = 0;
    while i < v.len()
        invariant
            all == changes(v@),
            i <= v@.len(),
            n <= i,
            n == new_count(all.take(i as int)),
        decreases v@.len() - i,
    {
        assert(all.take(i + 1).drop_last() =~= all.take(i as int));
        assert(all.take(i + 1).last() == v@[i as int]@);
        if v[i].old.is_none() {
            n += 1;
        }
        i += 1;
    }
    assert(all.take(all.len() as int) =~= all);
    n
}

// ---------------------------------------------------------------------------
// Rolling back
// ---------------------------------------------------------------------------

/// The changes of all entries, in order.
pub open spec fn all_changes(es: Seq<EntryView>) -> Seq<ChangeView>
    decreases es.len(),
{
    if es.len() == 0 {
        seq![]
    } else {
        all_changes(es.drop_last()) + es.last().install + es.last().remove
    }
}

/// Some change is one of the package.
pub open spec fn touched(cs: Seq<ChangeView>, name: Seq<char>) -> bool {
    exists|i: int| 0 <= i < cs.len() && (#[trigger] cs[i]).name == name
}

/// The version of the package before the first change of it; none where it was
/// not installed.
pub open spec fn first_old(cs: Seq<ChangeView>, name: Seq<char>) -> Option<Seq<char>>
    decreases cs.len(),
{
    if cs.len() == 0 {
        None
    } else if cs[0].name == name {
        cs[0].old
    } else {
        first_old(cs.skip(1), name)
    }
}

/// The argument that brings a package back to a version, or removes it.
pub open spec fn restored(name: Seq<char>, old: Option<Seq<char>>) -> Seq<char> {
    match old {
        Some(version) => pinned(name, version),
        None => dropped(name),
    }
}

/// The arguments that bring the packages back to what they were before the
/// first change of each.
pub open spec fn rollback_texts(names: Seq<Seq<char>>, cs: Seq<ChangeView>) -> Seq<Seq<char>> {
    restore_command() + names.map_values(|n: Seq<char>| restored(n, first_old(cs, n)))
}

/// The arguments roll back the combined effect of the entries.
pub open spec fn rolls_back(args: Seq<Seq<char>>, es: Seq<EntryView>) -> bool {
    exists|names: Seq<Seq<char>>|
        ascending(names) && (forall|n: Seq<char>| #[trigger]
            names.contains(n) <==> touched(all_changes(es), n)) && args == #[trigger] rollback_texts(
            names,
            all_changes(es),
        )
}

/// Where in a list of changes the first of a package stands.
proof fn lemma_first_old(cs: Seq<ChangeView>, name: Seq<char>, k: int)
    requires
        0 <= k < cs.len(),
        cs[k].name == name,
        forall|j: int| 0 <= j < k ==> (#[trigger] cs[j]).name != name,
    ensures
        first_old(cs, name) == cs[k].old,
    decreases cs.len(),
{
    if k > 0 {
        assert(cs[0].name != name);
        assert forall|j: int| 0 <= j < k - 1 implies (#[trigger] cs.skip(1)[j]).name != name by {
            assert(cs[j + 1].name != name);
        }
        lemma_first_old(cs.skip(1), name, k - 1);
    }
}

/// The first change of each package, found by name.
struct Firsts {
    index: StringHashMap<usize>,
    names: Vec<String>,
    olds: Vec<Option<String>>,
}

impl Firsts {
    /// It holds the first change of each package in `cs`.
    spec fn of(&self, cs: Seq<ChangeView>) -> bool {
        &&& self.names@.len() == self.olds@.len()
        &&& forall|n: Seq<char>| #[trigger] self.index@.contains_key(n) <==> touched(cs, n)
        &&& forall|n: Seq<char>| #[trigger]
            self.index@.contains_key(n) ==> self.index@[n] < self.names@.len() && opt_text(
                self.olds@[self.index@[n] as int],
            ) == first_old(cs, n)
        &&& forall|n: Seq<char>| #[trigger] texts(self.names@).contains(n) <==> touched(cs, n)
    }

    fn add_all(&mut self, v: &Vec<Change>, Ghost(cs): Ghost<Seq<ChangeView>>)
        requires
            old(self).of(cs),
        ensures
            final(self).of(cs + changes(v@)),
    {
        let ghost all = changes(v@);
        let mut i: usize = 0;
        assert(cs + all.take(0) =~= cs);
        while i < v.len()
            invariant
                all == changes(v@),
                i <= v@.len(),
                self.of(cs + all.take(i as int)),
            decreases v@.len() - i,
        {
            broadcast use lemma_texts_push;

            let ghost before = cs + all.take(i as int);
            let c = &v[i];
            let ghost x = c@;
            assert(all[i as int] == x);
            assert(cs + all.take(i + 1) =~= before.push(x));
            proof {
                assert forall|n: Seq<char>| #[trigger]
                    touched(before.push(x), n) <==> touched(before, n) || n == x.name by {
                    lemma_touched_push(before, x, n);
                }
                assert forall|n: Seq<char>| touched(before, n) implies first_old(before.push(x), n)
                    == #[trigger] first_old(before, n) by {
                    lemma_first_old_push(before, x, n);
                }
                if !touched(before, x.name) {
                    assert forall|j: int| 0 <= j < before.len() implies (#[trigger] before.push(
                        x,
                    )[j]).name != x.name by {
                        assert(before[j].name != x.name);
                    }
                    lemma_first_old(before.push(x), x.name, before.len() as int);
                }
            }
            if !self.index.contains_key(c.name.as_str()) {
                let at: usize = self.names.len();
                let ghost names0 = texts(self.names@);
                self.index.insert(c.name.clone(), at);
                self.names.push(c.name.clone());
                self.olds.push(copy_option(&c.old));
                proof {
                    assert forall|n: Seq<char>| #[trigger]
                        texts(self.names@).contains(n) <==> touched(before.push(x), n) by {
                        lemma_push_contains(names0, x.name, n);
                        assert(names0.contains(n) <==> touched(before, n));
                        assert(touched(before.push(x), n) <==> touched(before, n) || n == x.name);
                    }
                    assert forall|n: Seq<char>| #[trigger]
                        self.index@.contains_key(n) implies self.index@[n] < self.names@.len()
                        && opt_text(self.olds@[self.index@[n] as int]) == first_old(
                        before.push(x),
                        n,
                    ) by {
                        assert(touched(before.push(x), n) <==> touched(before, n) || n == x.name);
                        if n != x.name {
                            assert(first_old(before.push(x), n) == first_old(before, n));
                        }
                    }
                }
            } else {
                proof {
                    assert(touched(before, x.name));
                    assert forall|n: Seq<char>| #[trigger]
                        self.index@.contains_key(n) implies opt_text(
                        self.olds@[self.index@[n] as int],
                    ) == first_old(before.push(x), n) by {
                        assert(first_old(before.push(x), n) == first_old(before, n));
                    }
                    assert forall|n: Seq<char>| #[trigger]
                        texts(self.names@).contains(n) <==> touched(before.push(x), n) by {
                        assert(touched(before.push(x), n) <==> touched(before, n) || n == x.name);
                    }
                }
            }
            i += 1;
        }
        assert(all.take(all.len() as int) =~= all);
    }
}

proof fn lemma_touched_push(cs: Seq<ChangeView>, x: ChangeView, n: Seq<char>)
    ensures
        touched(cs.push(x), n) <==> touched(cs, n) || n == x.name,
{
    let more = cs.push(x);
    if touched(cs, n) {
        let i = choose|i: int| 0 <= i < cs.len() && (#[trigger] cs[i]).name == n;
        assert(more[i].name == n);
    }
    if n == x.name {
        assert(more[cs.len() as int].name == n);
    }
    if touched(more, n) && n != x.name {
        let i = choose|i: int| 0 <= i < more.len() && (#[trigger] more[i]).name == n;
        assert(cs[i].name == n);
    }
}

proof fn lemma_first_old_push(cs: Seq<ChangeView>, x: ChangeView, n: Seq<char>)
    requires
        touched(cs, n),
    ensures
        first_old(cs.push(x), n) == first_old(cs, n),
    decreases cs.len(),
{
    assert(cs.push(x)[0] == cs[0]);
    if cs[0].name != n {
        let i = choose|i: int| 0 <= i < cs.len() && (#[trigger] cs[i]).name == n;
        assert(cs.skip(1)[i - 1].name == n);
        assert(cs.push(x).skip(1) =~= cs.skip(1).push(x));
        lemma_first_old_push(cs.skip(1), x, n);
    }
}

/// The apt-get arguments that roll back the combined effect of the entries,
/// given in ascending order: each package goes back to the version that it had
/// before the first of them that touched it, and one that was not installed
/// then is removed.
pub fn rollback_args(es: &Vec<Entry>) -> (args: Vec<String>)
    ensures
        rolls_back(texts(args@), entries(es@)),
{
    let ghost all = entries(es@);
    let mut firsts = Firsts { index: StringHashMap::new(), names: Vec::new(), olds: Vec::new() };
    let mut i: usize = 0;
    assert(all.take(0) =~= seq![]);
    assert(texts(firsts.names@) =~= seq![]);
    while i < es.len()
        invariant
            all == entries(es@),
            i <= es@.len(),
            firsts.of(all_changes(all.take(i as int))),
        decreases es@.len() - i,
    {
        assert(all.take(i + 1).drop_last() =~= all.take(i as int));
        assert(all.take(i + 1).last() == es@[i as int]@);
        let ghost cs = all_changes(all.take(i as int));
        firsts.add_all(&es[i].install, Ghost(cs));
        firsts.add_all(&es[i].remove, Ghost(cs + changes(es@[i as int].install@)));
        i += 1;
    }
    assert(all.take(all.len() as int) =~= all);
    let ghost cs = all_changes(all);
    let names = sort_texts(copy_strings(&firsts.names));
    let ghost ns = texts(names@);
    proof {
        assert forall|n: Seq<char>| #[trigger] ns.contains(n) <==> touched(cs, n) by {
            assert(texts(firsts.names@).to_set().contains(n) == texts(firsts.names@).contains(n));
        }
    }
    let mut args = restore_args();
    let mut k: usize = 0;
    assert(texts(args@) =~= rollback_texts(ns.take(0), cs));
    while k < names.len()
        invariant
            ns == texts(names@),
            k <= names@.len(),
            firsts.of(cs),
            forall|n: Seq<char>| #[trigger] ns.contains(n) <==> touched(cs, n),
            texts(args@) == rollback_texts(ns.take(k as int), cs),
        decreases names@.len() - k,
    {
        broadcast use lemma_texts_push;

        let name = names[k].as_str();
        let ghost n = ns[k as int];
        assert(ns.contains(n));
        assert(firsts.index@.contains_key(n));
        let ghost before = texts(args@);
        if let Some(at) = firsts.index.get(name) {
            match &firsts.olds[*at] {
                Some(version) => args.push(cat3(name, "=", version.as_str())),
                None => args.push(cat2(name, "-")),
            }
        }
        assert(texts(args@) == before.push(restored(n, first_old(cs, n))));
        assert(texts(args@) =~= rollback_texts(ns.take(k + 1), cs));
        k += 1;
    }
    assert(ns.take(ns.len() as int) =~= ns);
    assert(texts(args@) == rollback_texts(ns, cs));
    args
}

// ---------------------------------------------------------------------------
// The past restored
// ---------------------------------------------------------------------------

/// The version of a package that a system has installed, if any.
pub open spec fn has_version(system: Map<Seq<char>, Seq<char>>, name: Seq<char>) -> Option<
    Seq<char>,
> {
    if system.contains_key(name) {
        Some(system[name])
    } else {
        None
    }
}

/// The system with a package at a version, or without it.
pub open spec fn with_version(
    system: Map<Seq<char>, Seq<char>>,
    name: Seq<char>,
    version: Option<Seq<char>>,
) -> Map<Seq<char>, Seq<char>> {
    match version {
        Some(v) => system.insert(name, v),
        None => system.remove(name),
    }
}

/// The system once the changes are made, one after the other.
pub open spec fn changed(system: Map<Seq<char>, Seq<char>>, cs: Seq<ChangeView>) -> Map<
    Seq<char>,
    Seq<char>,
>
    decreases cs.len(),
{
    if cs.len() == 0 {
        system
    } else {
        with_version(changed(system, cs.drop_last()), cs.last().name, cs.last().new)
    }
}

/// Each change tells the version that its package had just before it.
pub open spec fn tells_the_past(system: Map<Seq<char>, Seq<char>>, cs: Seq<ChangeView>) -> bool
    decreases cs.len(),
{
    if cs.len() == 0 {
        true
    } else {
        &&& tells_the_past(system, cs.drop_last())
        &&& cs.last().old == has_version(changed(system, cs.drop_last()), cs.last().name)
    }
}

/// A name that apt can read in front of a version.
pub open spec fn is_plain(name: Seq<char>) -> bool {
    !name.contains('=')
}

/// The changes are of packages with plain names.
pub open spec fn plain_names(cs: Seq<ChangeView>) -> bool {
    forall|i: int| 0 <= i < cs.len() ==> is_plain((#[trigger] cs[i]).name)
}

/// What apt reads in an argument: `name=version` is a package at a version,
/// `name-` one that is to go.
pub open spec fn asked(arg: Seq<char>) -> (Seq<char>, Option<Seq<char>>) {
    match cut(arg, "="@) {
        Some((name, version)) => (name, Some(version)),
        None => (arg.drop_last(), None),
    }
}

/// The system once apt has done what the arguments ask for.
pub open spec fn obeyed(system: Map<Seq<char>, Seq<char>>, args: Seq<Seq<char>>) -> Map<
    Seq<char>,
    Seq<char>,
>
    decreases args.len(),
{
    if args.len() == 0 {
        system
    } else {
        let (name, version) = asked(args.last());
        with_version(obeyed(system, args.drop_last()), name, version)
    }
}

/// apt reads in an argument what it was written for.
proof fn lemma_asked(name: Seq<char>, old: Option<Seq<char>>)
    requires
        is_plain(name),
    ensures
        asked(restored(name, old)) == (name, old),
{
    reveal_strlit("=");
    reveal_strlit("-");
    let arg = restored(name, old);
    match old {
        Some(version) => {
            let at = name.len() as int;
            assert(arg.subrange(at, at + 1) =~= "="@);
            assert forall|j: int| 0 <= j < at implies !occurs_at(arg, "="@, j) by {
                assert(arg[j] == name[j]);
                assert(name.contains(name[j]));
                assert(arg.subrange(j, j + 1)[0] == name[j]);
            }
            lemma_cut(arg, "="@, at);
            assert(arg.take(at) =~= name);
            assert(arg.skip(at + 1) =~= version);
        },
        None => {
            assert forall|j: int| !occurs_at(arg, "="@, j) by {
                if 0 <= j < arg.len() {
                    assert(arg.subrange(j, j + 1)[0] == arg[j]);
                    if j < name.len() {
                        assert(name.contains(name[j]));
                    }
                }
            }
            assert(arg.drop_last() =~= name);
        },
    }
}

proof fn lemma_rolled_back(
    system: Map<Seq<char>, Seq<char>>,
    names: Seq<Seq<char>>,
    cs: Seq<ChangeView>,
    n: Seq<char>,
)
    requires
        forall|i: int| 0 <= i < names.len() ==> is_plain(#[trigger] names[i]),
    ensures
        has_version(
            obeyed(system, names.map_values(|m: Seq<char>| restored(m, first_old(cs, m)))),
            n,
        ) == if names.contains(n) {
            first_old(cs, n)
        } else {
            has_version(system, n)
        },
    decreases names.len(),
{
    let f = |m: Seq<char>| restored(m, first_old(cs, m));
    if names.len() > 0 {
        let before = names.drop_last();
        let last = names.last();
        assert forall|i: int| 0 <= i < before.len() implies is_plain(#[trigger] before[i]) by {
            assert(before[i] == names[i]);
        }
        lemma_rolled_back(system, before, cs, n);
        assert(names =~= before.push(last));
        assert(names.map_values(f).drop_last() =~= before.map_values(f));
        assert(is_plain(names[names.len() - 1]));
        lemma_asked(last, first_old(cs, last));
        lemma_push_contains(before, last, n);
    }
}

proof fn lemma_past(system: Map<Seq<char>, Seq<char>>, cs: Seq<ChangeView>, n: Seq<char>)
    requires
        tells_the_past(system, cs),
    ensures
        touched(cs, n) ==> first_old(cs, n) == has_version(system, n),
        !touched(cs, n) ==> has_version(changed(system, cs), n) == has_version(system, n),
    decreases cs.len(),
{
    if cs.len() > 0 {
        let before = cs.drop_last();
        let x = cs.last();
        lemma_past(system, before, n);
        assert(cs =~= before.push(x));
        lemma_touched_push(before, x, n);
        if touched(before, n) {
            lemma_first_old_push(before, x, n);
        } else if n == x.name {
            assert forall|j: int| 0 <= j < before.len() implies (#[trigger] cs[j]).name != n by {
                assert(before[j].name != n);
            }
            lemma_first_old(cs, n, before.len() as int);
        }
    }
}

/// Rolling back restores the past: where the entries tell the versions that
/// their packages had, what [`rollback_args`] asks for brings the system back
/// to what it was before the earliest of them.
pub proof fn rollback_restores_the_past(
    system: Map<Seq<char>, Seq<char>>,
    es: Seq<EntryView>,
    args: Seq<Seq<char>>,
)
    requires
        tells_the_past(system, all_changes(es)),
        plain_names(all_changes(es)),
        rolls_back(args, es),
    ensures
        args.take(2) == restore_command(),
        obeyed(changed(system, all_changes(es)), args.skip(2)) == system,
{
    let cs = all_changes(es);
    let names = choose|names: Seq<Seq<char>>|
        ascending(names) && (forall|n: Seq<char>| #[trigger]
            names.contains(n) <==> touched(cs, n)) && args == #[trigger] rollback_texts(names, cs);
    let f = |m: Seq<char>| restored(m, first_old(cs, m));
    assert(args.take(2) =~= restore_command());
    assert(args.skip(2) =~= names.map_values(f));
    assert forall|i: int| 0 <= i < names.len() implies is_plain(#[trigger] names[i]) by {
        assert(names.contains(names[i]));
        let k = choose|k: int| 0 <= k < cs.len() && (#[trigger] cs[k]).name == names[i];
        assert(is_plain(cs[k].name));
    }
    let after = obeyed(changed(system, cs), names.map_values(f));
    assert forall|n: Seq<char>| has_version(after, n) == has_version(system, n) by {
        lemma_past(system, cs, n);
        lemma_rolled_back(changed(system, cs), names, cs, n);
        assert(names.contains(n) <==> touched(cs, n));
    }
    lemma_same_versions(after, system);
}

/// Systems with the same versions are the same.
proof fn lemma_same_versions(a: Map<Seq<char>, Seq<char>>, b: Map<Seq<char>, Seq<char>>)
    requires
        forall|n: Seq<char>| has_version(a, n) == has_version(b, n),
    ensures
        a == b,
{
    assert forall|n: Seq<char>| #[trigger] a.contains_key(n) <==> b.contains_key(n) by {
        assert(has_version(a, n) == has_version(b, n));
    }
    assert forall|n: Seq<char>| #[trigger] a.contains_key(n) implies a[n] == b[n] by {
        assert(has_version(a, n) == has_version(b, n));
    }
    assert(a =~= b);
}

/// No two changes are of one package.
pub open spec fn distinct_packages(cs: Seq<ChangeView>) -> bool {
    forall|i: int, j: int|
        0 <= i < j < cs.len() ==> (#[trigger] cs[i]).name != (#[trigger] cs[j]).name
}

proof fn lemma_undone(system: Map<Seq<char>, Seq<char>>, cs: Seq<ChangeView>, n: Seq<char>)
    requires
        distinct_packages(cs),
        plain_names(cs),
    ensures
        has_version(
            obeyed(system, cs.map_values(|c: ChangeView| restored(c.name, c.old))),
            n,
        ) == if touched(cs, n) {
            first_old(cs, n)
        } else {
            has_version(system, n)
        },
    decreases cs.len(),
{
    let f = |c: ChangeView| restored(c.name, c.old);
    if cs.len() > 0 {
        let before = cs.drop_last();
        let x = cs.last();
        assert(plain_names(before)) by {
            assert(forall|i: int| 0 <= i < before.len() ==> #[trigger] before[i] == cs[i]);
        }
        lemma_undone(system, before, n);
        assert(cs =~= before.push(x));
        assert(cs.map_values(f).drop_last() =~= before.map_values(f));
        assert(is_plain(cs[cs.len() - 1].name));
        lemma_asked(x.name, x.old);
        lemma_touched_push(before, x, n);
        if n == x.name {
            assert forall|j: int| 0 <= j < before.len() implies (#[trigger] cs[j]).name != n by {
                assert(cs[j].name != cs[before.len() as int].name);
            }
            lemma_first_old(cs, n, before.len() as int);
        } else if touched(before, n) {
            lemma_first_old_push(before, x, n);
        }
    }
}

/// Undoing restores the past: where a transaction changes each package once and
/// tells the version that it had, what [`Entry::undo_args`] asks for brings the
/// system back to what it was before. A package that was removed had a version.
pub proof fn undo_restores_the_past(system: Map<Seq<char>, Seq<char>>, e: EntryView)
    requires
        tells_the_past(system, e.install + e.remove),
        distinct_packages(e.install + e.remove),
        plain_names(e.install + e.remove),
        forall|i: int| 0 <= i < e.remove.len() ==> (#[trigger] e.remove[i]).old is Some,
    ensures
        undo_texts(e).take(2) == restore_command(),
        obeyed(changed(system, e.install + e.remove), undo_texts(e).skip(2)) == system,
{
    let cs = e.install + e.remove;
    let f = |c: ChangeView| restored(c.name, c.old);
    let args = undo_texts(e).skip(2);
    assert(undo_texts(e).take(2) =~= restore_command());
    assert forall|k: int| 0 <= k < args.len() implies #[trigger] args[k] == cs.map_values(f)[k] by {
        let r = k - e.install.len();
        if 0 <= r < e.remove.len() {
            assert(e.remove[r].old is Some);
        }
    }
    assert(args =~= cs.map_values(f));
    let after = obeyed(changed(system, cs), args);
    assert forall|n: Seq<char>| has_version(after, n) == has_version(system, n) by {
        lemma_past(system, cs, n);
        lemma_undone(changed(system, cs), cs, n);
    }
    lemma_same_versions(after, system);
}

// ---------------------------------------------------------------------------
// Finding and recording
// ---------------------------------------------------------------------------

/// The entries after a transaction: those with a higher number, as they are
/// recorded.
pub open spec fn later(es: Seq<EntryView>, id: u64) -> Seq<EntryView>
    decreases es.len(),
{
    if es.len() == 0 {
        seq![]
    } else if es.last().id > id {
        later(es.drop_last(), id).push(es.last())
    } else {
        later(es.drop_last(), id)
    }
}

/// The order of entries: by number.
pub open spec fn by_number() -> spec_fn(EntryView, EntryView) -> bool {
    |a: EntryView, b: EntryView| a.id <= b.id
}

impl Ranked for Entry {
    open spec fn rank_le(&self, other: &Self) -> bool {
        self.id <= other.id
    }

    proof fn rank_total(a: &Self, b: &Self) {
    }

    proof fn rank_trans(a: &Self, b: &Self, c: &Self) {
    }

    fn at_most(&self, other: &Self) -> (r: bool) {
        self.id <= other.id
    }
}

/// All recorded transactions with a number strictly greater than `id`, ascending.
pub fn after(es: &Vec<Entry>, id: u64) -> (r: Vec<Entry>)
    ensures
        in_order(entries(r@), later(entries(es@), id), by_number()),
{
    let ghost all = entries(es@);
    let mut out: Vec<Entry> = Vec::new();
    let mut i: usize = 0;
    assert(all.take(0) =~= seq![]);
    assert(entries(out@) =~= seq![]);
    while i < es.len()
        invariant
            all == entries(es@),
            i <= es@.len(),
            entries(out@) == later(all.take(i as int), id),
        decreases es@.len() - i,
    {
        broadcast use lemma_entries_push;

        assert(all.take(i + 1).drop_last() =~= all.take(i as int));
        assert(all.take(i + 1).last() == es@[i as int]@);
        if es[i].id > id {
            out.push(copy_entry(&es[i]));
        }
        i += 1;
    }
    assert(all.take(all.len() as int) =~= all);
    let ghost given = out@;
    let sorted = sort(out);
    proof {
        lemma_in_order_mapped(sorted@, given, by_rank::<Entry>(), |e: Entry| e@, by_number());
    }
    sorted
}

/// The entry is the first with its number.
pub open spec fn first_with(es: Seq<EntryView>, id: u64, e: EntryView) -> bool {
    exists|k: int|
        0 <= k < es.len() && #[trigger] es[k] == e && e.id == id && forall|j: int|
            0 <= j < k ==> (#[trigger] es[j]).id != id
}

/// Some entry has the number.
pub open spec fn has_id(es: Seq<EntryView>, id: u64) -> bool {
    exists|k: int| 0 <= k < es.len() && (#[trigger] es[k]).id == id
}

/// Whether some entry has the number.
pub fn knows(es: &Vec<Entry>, id: u64) -> (r: bool)
    ensures
        r == has_id(entries(es@), id),
{
    let ghost all = entries(es@);
    let mut i: usize = 0;
    while i < es.len()
        invariant
            all == entries(es@),
            i <= es@.len(),
            forall|j: int| 0 <= j < i ==> (#[trigger] all[j]).id != id,
        decreases es@.len() - i,
    {
        assert(all[i as int] == es@[i as int]@);
        if es[i].id == id {
            return true;
        }
        i += 1;
    }
    false
}

/// The transaction with the number, or without one the most recent.
pub fn find(es: &Vec<Entry>, id: Option<u64>) -> (r: Result<Entry, String>)
    ensures
        match (id, r) {
            (Some(n), Ok(e)) => first_with(entries(es@), n, e@),
            (Some(n), Err(m)) => !has_id(entries(es@), n) && m@ == "no transaction "@ + decimal(
                n as nat,
            ) + " in history"@,
            (None, Ok(e)) => es@.len() > 0 && e@ == entries(es@).last(),
            (None, Err(m)) => es@.len() == 0 && m@ == "the transaction history is empty"@,
        },
{
    let ghost all = entries(es@);
    match id {
        Some(n) => {
            let mut i: usize = 0;
            while i < es.len()
                invariant
                    id == Some(n),
                    all == entries(es@),
                    i <= es@.len(),
                    forall|j: int| 0 <= j < i ==> (#[trigger] all[j]).id != n,
                decreases es@.len() - i,
            {
                assert(all[i as int] == es@[i as int]@);
                if es[i].id == n {
                    return Ok(copy_entry(&es[i]));
                }
                i += 1;
            }
            Err(cat3("no transaction ", decimal_u64(n).as_str(), " in history"))
        },
        None => {
            if es.len() == 0 {
                Err("the transaction history is empty".to_owned())
            } else {
                assert(all.last() == es@[es@.len() - 1]@);
                Ok(copy_entry(&es[es.len() - 1]))
            }
        },
    }
}

/// The highest number of an entry, 0 where there are none.
pub open spec fn highest(es: Seq<EntryView>) -> nat
    decreases es.len(),
{
    if es.len() == 0 {
        0
    } else {
        let before = highest(es.drop_last());
        if es.last().id > before {
            es.last().id as nat
        } else {
            before
        }
    }
}

proof fn lemma_highest(es: Seq<EntryView>, k: int)
    requires
        0 <= k < es.len(),
    ensures
        es[k].id <= highest(es),
    decreases es.len(),
{
    if k < es.len() - 1 {
        lemma_highest(es.drop_last(), k);
        assert(es.drop_last()[k] == es[k]);
    }
}

/// The number of the next transaction: one past the highest, *not* one past the
/// last, so that it is a number that no entry has.
pub fn next_id(es: &Vec<Entry>) -> (r: u64)
    requires
        highest(entries(es@)) < u64::MAX,
    ensures
        r == highest(entries(es@)) + 1,
        !has_id(entries(es@), r),
{
    let n: u64 = highest_id(es);
    let ghost all = entries(es@);
    proof {
        assert forall|k: int| 0 <= k < all.len() implies (#[trigger] all[k]).id != n + 1 by {
            lemma_highest(all, k);
        }
    }
    n + 1
}

/// The highest number of an entry, 0 where there are none.
pub fn highest_id(es: &Vec<Entry>) -> (r: u64)
    ensures
        r == highest(entries(es@)),
{
    let ghost all = entries(es@);
    let mut n: u64 = 0;
    let mut i: usize = 0;
    while i < es.len()
        invariant
            all == entries(es@),
            i <= es@.len(),
            n == highest(all.take(i as int)),
        decreases es@.len() - i,
    {
        assert(all.take(i + 1).drop_last() =~= all.take(i as int));
        assert(all.take(i + 1).last() == es@[i as int]@);
        if es[i].id > n {
            n = es[i].id;
        }
        i += 1;
    }
    assert(all.take(all.len() as int) =~= all);
    n
}

/// The last `limit` entries.
pub open spec fn newest(es: Seq<EntryView>, limit: nat) -> Seq<EntryView> {
    if es.len() > limit {
        es.skip(es.len() - limit)
    } else {
        es
    }
}

/// The history with one more transaction at its end, made at `time`. Where it
/// grows longer than `limit`, the oldest entries are dropped.
pub fn record(
    es: Vec<Entry>,
    command: &Vec<String>,
    label: Option<String>,
    tx: &Transaction,
    time: i64,
    limit: usize,
) -> (r: Vec<Entry>)
    requires
        highest(entries(es@)) < u64::MAX,
        limit > 0,
    ensures
        entries(r@) == newest(
            entries(es@).push(
                EntryView {
                    id: (highest(entries(es@)) + 1) as u64,
                    time,
                    command: texts(command@),
                    label: opt_text(label),
                    install: tx@.install,
                    remove: tx@.remove,
                },
            ),
            limit as nat,
        ),
{
    broadcast use lemma_entries_push;

    let ghost given = entries(es@);
    let id: u64 = next_id(&es);
    let entry = Entry {
        id,
        time,
        command: copy_strings(command),
        label,
        install: copy_changes(&tx.install),
        remove: copy_changes(&tx.remove),
    };
    let mut all = es;
    let ghost e = entry@;
    all.push(entry);
    assert(entries(all@) == given.push(e));
    let ghost grown = all@;
    let n: usize = all.len();
    if n > limit {
        let kept = all.split_off(n - limit);
        assert(entries(kept@) =~= entries(grown).skip(n - limit));
        kept
    } else {
        all
    }
}

/// A recorded transaction can be found, by its number and as the most recent,
/// whatever older entries were dropped.
pub proof fn a_recorded_transaction_is_found(es: Seq<EntryView>, e: EntryView, limit: nat)
    requires
        limit > 0,
        e.id == highest(es) + 1,
    ensures
        newest(es.push(e), limit).last() == e,
        first_with(newest(es.push(e), limit), e.id, e),
        newest(es.push(e), limit).len() <= limit,
{
    let all = es.push(e);
    let kept = newest(all, limit);
    let gone = all.len() - kept.len();
    assert forall|j: int| 0 <= j < kept.len() - 1 implies (#[trigger] kept[j]).id != e.id by {
        assert(kept[j] == es[j + gone]);
        lemma_highest(es, j + gone);
    }
    assert(kept[kept.len() - 1] == e);
}

} // verus!
