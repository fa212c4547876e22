//! Old kernels, for `wrapt clean --kernels`.
//!
//! Ubuntu keeps every installed kernel forever, which slowly fills `/boot`.
//! This finds the versioned `linux-*` packages outside the newest few kernels
//! (and the running one), so they can be purged.

use std::cmp::Ordering;

use vstd::prelude::*;
use vstd::utf8::encode_utf8;

use crate::apt::{pairs, Output};
use crate::lists::{deb_version_cmp, relate, versions_rel};
use crate::names::Names;
use crate::number::all_digits;
use crate::order::{
    ascending, by_rank, in_order, lemma_in_order_contains, lemma_in_order_mapped,
    lemma_push_contains, puts_in_order, sort, sort_texts, Ranked,
};
use crate::text::{
    after_prefix, cat3, chars_of, digit, has_prefix, has_text, holds, is_digit, lemma_texts_push,
    opt_piece, opt_str, opt_text, pieces, same_str, split, split_at_char, starts, string_of, strip,
    strs, texts, trim, trim_of,
};
use crate::version::{
    version_order_is_antisymmetric, version_order_is_reflexive, version_order_is_transitive, Rel,
};

verus! {

// ---------------------------------------------------------------------------
// Kernel names
// ---------------------------------------------------------------------------

/// Prefixes of versioned kernel packages. Each is followed by a version that
/// starts with a digit (e.g. `linux-image-6.8.0-31-generic`); the unversioned
/// meta-packages (`linux-image-generic`) don't match and are never touched.
pub open spec fn kernel_prefixes() -> Seq<Seq<char>> {
    seq![
        "linux-image-unsigned-"@,
        "linux-image-"@,
        "linux-headers-"@,
        "linux-modules-extra-"@,
        "linux-modules-"@,
        "linux-buildinfo-"@,
        "linux-tools-"@,
        "linux-cloud-tools-"@,
    ]
}

fn prefixes() -> (v: Vec<&'static str>)
    ensures
        strs(v@) == kernel_prefixes(),
{
    let v: Vec<&'static str> = vec![
        "linux-image-unsigned-",
        "linux-image-",
        "linux-headers-",
        "linux-modules-extra-",
        "linux-modules-",
        "linux-buildinfo-",
        "linux-tools-",
        "linux-cloud-tools-",
    ];
    assert(strs(v@) =~= kernel_prefixes());
    v
}

/// The ABI (`major.minor.patch-build`) in a kernel version, without a trailing
/// flavour: `6.8.0-31` of `6.8.0-31-generic`.
pub open spec fn version_abi(version: Seq<char>) -> Option<Seq<char>> {
    let parts = split(version, '-');
    if parts.len() >= 2 && has_text(parts[0], "."@) && all_digits(parts[1]) {
        Some(parts[0] + "-"@ + parts[1])
    } else {
        None
    }
}

/// What stands in a name behind a prefix, where it starts with a digit.
pub open spec fn versioned(name: Seq<char>, prefix: Seq<char>) -> Option<Seq<char>> {
    match after_prefix(name, prefix) {
        Some(rest) => if rest.len() > 0 && is_digit(rest[0]) {
            Some(rest)
        } else {
            None
        },
        None => None,
    }
}

/// The ABI in a name, behind the first of the prefixes that a version follows.
pub open spec fn prefixed_abi(name: Seq<char>, from: Seq<Seq<char>>) -> Option<Seq<char>>
    decreases from.len(),
{
    if from.len() == 0 {
        None
    } else {
        match versioned(name, from[0]) {
            Some(rest) => version_abi(rest),
            None => prefixed_abi(name, from.skip(1)),
        }
    }
}

/// The ABI that the name of a versioned kernel package encodes.
pub open spec fn package_abi(name: Seq<char>) -> Option<Seq<char>> {
    prefixed_abi(name, kernel_prefixes())
}

fn digits_only(s: &[char]) -> (r: bool)
    ensures
        r == all_digits(s@),
{
    let mut i: usize = 0;
    while i < s.len()
        invariant
            i <= s@.len(),
            forall|k: int| 0 <= k < i ==> is_digit(#[trigger] s@[k]),
        decreases s@.len() - i,
    {
        if !digit(s[i]) {
            return false;
        }
        i += 1;
    }
    true
}

fn abi_in(version: &[char]) -> (r: Option<String>)
    ensures
        opt_text(r) == version_abi(version@),
{
    let parts = split_at_char(version, '-');
    let ghost ps = pieces(parts@);
    assert(forall|k: int| 0 <= k < ps.len() ==> #[trigger] ps[k] == parts@[k]@);
    if parts.len() < 2 {
        return None;
    }
    if !holds(parts[0], ".") {
        return None;
    }
    if !digits_only(parts[1]) {
        return None;
    }
    Some(cat3(string_of(parts[0]).as_str(), "-", string_of(parts[1]).as_str()))
}

/// The ABI (`major.minor.patch-build`) in a kernel version, without a trailing
/// flavour.
pub fn abi_of(version: &str) -> (r: Option<String>)
    ensures
        opt_text(r) == version_abi(version@),
{
    let chars = chars_of(version);
    abi_in(chars.as_slice())
}

fn versioned_part<'a>(name: &'a [char], prefix: &str) -> (r: Option<&'a [char]>)
    ensures
        opt_piece(r) == versioned(name@, prefix@),
{
    match strip(name, prefix) {
        Some(rest) => {
            if rest.len() > 0 && digit(rest[0]) {
                Some(rest)
            } else {
                None
            }
        },
        None => None,
    }
}

/// The kernel ABI that a package name encodes, or `None` if it isn't a versioned
/// kernel package.
pub fn kernel_abi(name: &str) -> (r: Option<String>)
    ensures
        opt_text(r) == package_abi(name@),
{
    let chars = chars_of(name);
    let from = prefixes();
    let ghost all = kernel_prefixes();
    let mut i: usize = 0;
    assert(all.skip(0) =~= all);
    while i < from.len()
        invariant
            all == strs(from@),
            chars@ == name@,
            i <= from@.len(),
            prefixed_abi(name@, kernel_prefixes()) == prefixed_abi(name@, all.skip(i as int)),
        decreases from@.len() - i,
    {
        assert(all.skip(i as int)[0] == from@[i as int]@);
        assert(all.skip(i as int).skip(1) =~= all.skip(i + 1));
        if let Some(rest) = versioned_part(chars.as_slice(), from[i]) {
            return abi_in(rest);
        }
        i += 1;
    }
    None
}

/// Whether a kernel package holds the image that boots.
pub fn is_image(name: &str) -> (r: bool)
    ensures
        r == has_prefix(name@, "linux-image-"@),
{
    let chars = chars_of(name);
    starts(chars.as_slice(), "linux-image-")
}

/// Orders two ABIs, the oldest first.
pub fn abi_cmp(a: &str, b: &str) -> (r: Ordering)
    ensures
        r == match versions_rel(a@, b@) {
            Rel::Less => Ordering::Less,
            Rel::Equal => Ordering::Equal,
            Rel::Greater => Ordering::Greater,
        },
{
    deb_version_cmp(a, b)
}

// ---------------------------------------------------------------------------
// What to keep
// ---------------------------------------------------------------------------

/// An installed kernel package: its name, its ABI and its version.
pub struct KernelView {
    pub name: Seq<char>,
    pub abi: Seq<char>,
    pub version: Seq<char>,
}

/// The kernel packages as values.
pub open spec fn kernels(v: Seq<(String, String, String)>) -> Seq<KernelView> {
    v.map_values(|k: (String, String, String)| KernelView { name: k.0@, abi: k.1@, version: k.2@ })
}

/// A kernel that boots, with the newest version of its image.
pub struct BootView {
    pub abi: Seq<char>,
    pub version: Seq<char>,
}

/// Where in the list the ABI stands; the length of the list where it does not.
pub open spec fn abi_at(v: Seq<BootView>, abi: Seq<char>) -> int
    decreases v.len(),
{
    if v.len() == 0 || v[0].abi == abi {
        0
    } else {
        1 + abi_at(v.skip(1), abi)
    }
}

/// The list with one more image: a new ABI goes to the end, a known one takes
/// the version where it is newer.
pub open spec fn with_image(v: Seq<BootView>, k: KernelView) -> Seq<BootView> {
    let at = abi_at(v, k.abi);
    if at == v.len() {
        v.push(BootView { abi: k.abi, version: k.version })
    } else if versions_rel(k.version, v[at].version) == Rel::Greater {
        v.update(at, BootView { abi: v[at].abi, version: k.version })
    } else {
        v
    }
}

/// The kernels that boot: the ABIs that have an image package, in the order in
/// which they come.
pub open spec fn bootable(ks: Seq<KernelView>) -> Seq<BootView>
    decreases ks.len(),
{
    if ks.len() == 0 {
        seq![]
    } else if has_prefix(ks.last().name, "linux-image-"@) {
        with_image(bootable(ks.drop_last()), ks.last())
    } else {
        bootable(ks.drop_last())
    }
}

/// The order of kernels: the newest first.
pub open spec fn newest_first() -> spec_fn(BootView, BootView) -> bool {
    |a: BootView, b: BootView| versions_rel(b.version, a.version) != Rel::Greater
}

/// The ABI is that of the running kernel, or one of the `keep` that come first;
/// at least one is kept.
pub open spec fn is_kept(
    order: Seq<BootView>,
    running: Option<Seq<char>>,
    keep: nat,
    abi: Seq<char>,
) -> bool {
    ||| running == Some(abi)
    ||| exists|i: int|
        0 <= i < order.len() && (i < keep || i == 0) && (#[trigger] order[i]).abi == abi
}

/// A package of that name belongs to a kernel that is not kept.
pub open spec fn is_old(
    ks: Seq<KernelView>,
    order: Seq<BootView>,
    running: Option<Seq<char>>,
    keep: nat,
    name: Seq<char>,
) -> bool {
    exists|i: int|
        0 <= i < ks.len() && (#[trigger] ks[i]).name == name && !is_kept(
            order,
            running,
            keep,
            ks[i].abi,
        )
}

/// The names are those of the packages to remove, each once and in order.
pub open spec fn removes(
    names: Seq<Seq<char>>,
    ks: Seq<KernelView>,
    running: Option<Seq<char>>,
    keep: nat,
) -> bool {
    exists|order: Seq<BootView>|
        #[trigger] in_order(order, bootable(ks), newest_first()) && ascending(names) && forall|
            n: Seq<char>,
        | #[trigger]
            names.contains(n) <==> is_old(ks, order, running, keep, n)
}

struct Boot {
    abi: String,
    version: String,
}

impl View for Boot {
    type V = BootView;

    closed spec fn view(&self) -> BootView {
        BootView { abi: self.abi@, version: self.version@ }
    }
}

spec fn boots(v: Seq<Boot>) -> Seq<BootView> {
    v.map_values(|b: Boot| b@)
}

impl Ranked for Boot {
    closed spec fn rank_le(&self, other: &Self) -> bool {
        versions_rel(other.version@, self.version@) != Rel::Greater
    }

    proof fn rank_total(a: &Self, b: &Self) {
        version_order_is_antisymmetric(encode_utf8(a.version@), encode_utf8(b.version@));
    }

    proof fn rank_trans(a: &Self, b: &Self, c: &Self) {
        version_order_is_transitive(
            encode_utf8(c.version@),
            encode_utf8(b.version@),
            encode_utf8(a.version@),
        );
    }

    fn at_most(&self, other: &Self) -> (r: bool) {
        match relate(other.version.as_str(), self.version.as_str()) {
            Rel::Greater => false,
            _ => true,
        }
    }
}

proof fn lemma_abi_at(v: Seq<BootView>, abi: Seq<char>, k: int)
    requires
        0 <= k <= v.len(),
        forall|j: int| 0 <= j < k ==> (#[trigger] v[j]).abi != abi,
        k < v.len() ==> v[k].abi == abi,
    ensures
        abi_at(v, abi) == k,
    decreases v.len(),
{
    if k > 0 {
        assert(v[0].abi != abi);
        assert forall|j: int| 0 <= j < k - 1 implies (#[trigger] v.skip(1)[j]).abi != abi by {
            assert(v[j + 1].abi != abi);
        }
        lemma_abi_at(v.skip(1), abi, k - 1);
    }
}

fn place_of(v: &Vec<Boot>, abi: &str) -> (r: usize)
    ensures
        r == abi_at(boots(v@), abi@),
        r <= v@.len(),
{
    let ghost all = boots(v@);
    let mut i: usize = 0;
    while i < v.len()
        invariant
            all == boots(v@),
            i <= v@.len(),
            forall|j: int| 0 <= j < i ==> (#[trigger] all[j]).abi != abi@,
        decreases v@.len() - i,
    {
        assert(all[i as int] == v@[i as int]@);
        if same_str(v[i].abi.as_str(), abi) {
            proof {
                lemma_abi_at(all, abi@, i as int);
            }
            return i;
        }
        i += 1;
    }
    proof {
        lemma_abi_at(all, abi@, i as int);
    }
    i
}

fn bootable_of(ks: &Vec<(String, String, String)>) -> (v: Vec<Boot>)
    ensures
        boots(v@) == bootable(kernels(ks@)),
{
    let ghost all = kernels(ks@);
    let mut v: Vec<Boot> = Vec::new();
    let mut i: usize = 0;
    assert(all.take(0) =~= seq![]);
    assert(boots(v@) =~= seq![]);
    while i < ks.len()
        invariant
            all == kernels(ks@),
            i <= ks@.len(),
            boots(v@) == bootable(all.take(i as int)),
        decreases ks@.len() - i,
    {
        assert(all.take(i + 1).drop_last() =~= all.take(i as int));
        let ghost k = all[i as int];
        assert(all.take(i + 1).last() == k);
        let (name, abi, version) = (&ks[i].0, &ks[i].1, &ks[i].2);
        if is_image(name.as_str()) {
            let ghost before = v@;
            let at: usize = place_of(&v, abi.as_str());
            if at == v.len() {
                let b = Boot { abi: abi.clone(), version: version.clone() };
                v.push(b);
                assert(boots(v@) =~= boots(before).push(b@));
            } else {
                let newer = match relate(version.as_str(), v[at].version.as_str()) {
                    Rel::Greater => true,
                    _ => false,
                };
                if newer {
                    let b = Boot { abi: v[at].abi.clone(), version: version.clone() };
                    v.set(at, b);
                    assert(boots(v@) =~= boots(before).update(at as int, b@));
                }
            }
        }
        i += 1;
    }
    assert(all.take(all.len() as int) =~= all);
    v
}

/// The ABIs to keep.
fn kept_of(order: &Vec<Boot>, running: Option<&str>, keep: usize) -> (s: Names)
    ensures
        forall|abi: Seq<char>| #[trigger]
            s@.contains(abi) <==> is_kept(boots(order@), opt_str(running), keep as nat, abi),
{
    let ghost all = boots(order@);
    let mut s = Names::new();
    let mut i: usize = 0;
    while i < order.len() && (i < keep || i == 0)
        invariant
            all == boots(order@),
            i <= order@.len(),
            i <= keep || i <= 1,
            forall|abi: Seq<char>| #[trigger]
                s@.contains(abi) <==> exists|j: int| 0 <= j < i && (#[trigger] all[j]).abi == abi,
        decreases order@.len() - i,
    {
        let ghost before = s@;
        assert(all[i as int] == order@[i as int]@);
        s.insert(order[i].abi.clone());
        proof {
            assert forall|abi: Seq<char>| #[trigger]
                s@.contains(abi) <==> exists|j: int|
                    0 <= j < i + 1 && (#[trigger] all[j]).abi == abi by {
                if s@.contains(abi) && abi != all[i as int].abi {
                    assert(before.contains(abi));
                    let j = choose|j: int| 0 <= j < i && (#[trigger] all[j]).abi == abi;
                    assert(all[j].abi == abi);
                }
                if exists|j: int| 0 <= j < i + 1 && (#[trigger] all[j]).abi == abi {
                    let j = choose|j: int| 0 <= j < i + 1 && (#[trigger] all[j]).abi == abi;
                    if j < i {
                        assert(before.contains(abi));
                    }
                }
            }
        }
        i += 1;
    }
    let ghost newest = s@;
    if let Some(r) = running {
        s.insert(r.to_owned());
    }
    proof {
        assert forall|abi: Seq<char>| #[trigger]
            s@.contains(abi) <==> is_kept(all, opt_str(running), keep as nat, abi) by {
            if newest.contains(abi) {
                let j = choose|j: int| 0 <= j < i && (#[trigger] all[j]).abi == abi;
                assert(all[j].abi == abi);
                assert(j < keep || j == 0);
            }
            if exists|j: int|
                0 <= j < all.len() && (j < keep || j == 0) && (#[trigger] all[j]).abi == abi {
                let j = choose|j: int|
                    0 <= j < all.len() && (j < keep || j == 0) && (#[trigger] all[j]).abi == abi;
                assert(j < i);
                assert(newest.contains(abi));
            }
        }
    }
    s
}

/// The packages to remove: those of every kernel but the `keep` newest (at least
/// one) and the running one. Only kernels that have an image package are
/// ranked, so that leftover headers cannot take the place of a kernel that
/// boots.
pub fn select_removable(
    ks: &Vec<(String, String, String)>,
    running: Option<&str>,
    keep: usize,
) -> (r: Vec<String>)
    ensures
        removes(texts(r@), kernels(ks@), opt_str(running), keep as nat),
{
    broadcast use lemma_texts_push;

    let ranked = bootable_of(ks);
    let ghost given = ranked@;
    let order = sort(ranked);
    let ghost ov = boots(order@);
    proof {
        assert forall|a: int, b: int|
            #![trigger given[a], given[b]]
            0 <= a < given.len() && 0 <= b < given.len() implies by_rank::<Boot>()(
            given[a],
            given[b],
        ) == newest_first()(given[a]@, given[b]@) by {
        }
        lemma_in_order_mapped(order@, given, by_rank::<Boot>(), |b: Boot| b@, newest_first());
    }
    let kept = kept_of(&order, running, keep);
    let ghost all = kernels(ks@);
    let mut names: Vec<String> = Vec::new();
    let mut i: usize = 0;
    while i < ks.len()
        invariant
            all == kernels(ks@),
            i <= ks@.len(),
            forall|abi: Seq<char>| #[trigger]
                kept@.contains(abi) <==> is_kept(ov, opt_str(running), keep as nat, abi),
            forall|n: Seq<char>| #[trigger]
                texts(names@).contains(n) <==> is_old(
                    all.take(i as int),
                    ov,
                    opt_str(running),
                    keep as nat,
                    n,
                ),
        decreases ks@.len() - i,
    {
        broadcast use lemma_texts_push;

        let ghost before = texts(names@);
        let ghost k = all[i as int];
        if !kept.contains(ks[i].1.as_str()) {
            names.push(ks[i].0.clone());
        }
        proof {
            assert(all.take(i + 1) =~= all.take(i as int).push(k));
            assert forall|n: Seq<char>| #[trigger]
                texts(names@).contains(n) <==> is_old(
                    all.take(i + 1),
                    ov,
                    opt_str(running),
                    keep as nat,
                    n,
                ) by {
                lemma_old_push(all.take(i as int), k, ov, opt_str(running), keep as nat, n);
                lemma_push_contains(before, k.name, n);
                assert(before.contains(n) <==> is_old(
                    all.take(i as int),
                    ov,
                    opt_str(running),
                    keep as nat,
                    n,
                ));
            }
        }
        i += 1;
    }
    assert(all.take(all.len() as int) =~= all);
    let ghost unsorted = texts(names@);
    let sorted = sort_texts(names);
    proof {
        assert forall|n: Seq<char>| #[trigger]
            texts(sorted@).contains(n) <==> is_old(all, ov, opt_str(running), keep as nat, n) by {
            assert(unsorted.to_set().contains(n) == unsorted.contains(n));
        }
        assert(in_order(ov, bootable(all), newest_first()));
    }
    sorted
}

proof fn lemma_old_push(
    ks: Seq<KernelView>,
    k: KernelView,
    order: Seq<BootView>,
    running: Option<Seq<char>>,
    keep: nat,
    n: Seq<char>,
)
    ensures
        is_old(ks.push(k), order, running, keep, n) <==> is_old(ks, order, running, keep, n) || (
        k.name == n && !is_kept(order, running, keep, k.abi)),
{
    let more = ks.push(k);
    if is_old(ks, order, running, keep, n) {
        let i = choose|i: int|
            0 <= i < ks.len() && (#[trigger] ks[i]).name == n && !is_kept(
                order,
                running,
                keep,
                ks[i].abi,
            );
        assert(more[i] == ks[i]);
    }
    if k.name == n && !is_kept(order, running, keep, k.abi) {
        assert(more[ks.len() as int] == k);
    }
    if is_old(more, order, running, keep, n) && !(k.name == n && !is_kept(
        order,
        running,
        keep,
        k.abi,
    )) {
        let i = choose|i: int|
            0 <= i < more.len() && (#[trigger] more[i]).name == n && !is_kept(
                order,
                running,
                keep,
                more[i].abi,
            );
        assert(ks[i] == more[i]);
    }
}

/// The kernel packages among installed ones.
pub open spec fn kernel_packages(installed: Seq<(Seq<char>, Seq<char>)>) -> Seq<KernelView>
    decreases installed.len(),
{
    if installed.len() == 0 {
        seq![]
    } else {
        let before = kernel_packages(installed.drop_last());
        let (name, version) = installed.last();
        match package_abi(name) {
            Some(abi) => before.push(KernelView { name, abi, version }),
            None => before,
        }
    }
}

/// The ABI of a kernel release, if it is known.
pub open spec fn release_abi(release: Option<Seq<char>>) -> Option<Seq<char>> {
    match release {
        Some(r) => version_abi(r),
        None => None,
    }
}

/// Names of installed kernel packages that are safe to purge: everything outside
/// the `keep` newest kernels, and the running one whatever its age. They come
/// in order.
pub fn old_kernel_packages(
    installed: &Vec<(String, String)>,
    release: Option<&str>,
    keep: usize,
) -> (r: Vec<String>)
    ensures
        removes(
            texts(r@),
            kernel_packages(pairs(installed@)),
            release_abi(opt_str(release)),
            keep as nat,
        ),
{
    let ghost all = pairs(installed@);
    let mut ks: Vec<(String, String, String)> = Vec::new();
    let mut i: usize = 0;
    assert(all.take(0) =~= seq![]);
    assert(kernels(ks@) =~= seq![]);
    while i < installed.len()
        invariant
            all == pairs(installed@),
            i <= installed@.len(),
            kernels(ks@) == kernel_packages(all.take(i as int)),
        decreases installed@.len() - i,
    {
        assert(all.take(i + 1).drop_last() =~= all.take(i as int));
        assert(all.take(i + 1).last() == all[i as int]);
        let ghost before = ks@;
        if let Some(abi) = kernel_abi(installed[i].0.as_str()) {
            let ghost k = KernelView { name: all[i as int].0, abi: abi@, version: all[i as int].1 };
            ks.push((installed[i].0.clone(), abi, installed[i].1.clone()));
            assert(kernels(ks@) =~= kernels(before).push(k));
        }
        i += 1;
    }
    assert(all.take(all.len() as int) =~= all);
    let running = match release {
        Some(r) => abi_of(r),
        None => None,
    };
    match &running {
        Some(abi) => select_removable(&ks, Some(abi.as_str()), keep),
        None => select_removable(&ks, None, keep),
    }
}

/// The release that `uname -r` printed, if it could be run and printed one.
pub fn running_release(out: Option<&Output>) -> (r: Option<String>)
    ensures
        opt_text(r) == match out {
            Some(o) => if o.success && trim(o.stdout@).len() > 0 {
                Some(trim(o.stdout@))
            } else {
                None
            },
            None => None,
        },
{
    match out {
        Some(o) => {
            if !o.success {
                return None;
            }
            let chars = chars_of(o.stdout.as_str());
            let release = trim_of(chars.as_slice());
            if release.len() == 0 {
                None
            } else {
                Some(string_of(release))
            }
        },
        None => None,
    }
}

// ---------------------------------------------------------------------------
// What is never removed
// ---------------------------------------------------------------------------

proof fn lemma_kernel_packages(installed: Seq<(Seq<char>, Seq<char>)>, i: int)
    requires
        0 <= i < kernel_packages(installed).len(),
    ensures
        package_abi(kernel_packages(installed)[i].name) == Some(kernel_packages(installed)[i].abi),
    decreases installed.len(),
{
    if installed.len() > 0 {
        let before = kernel_packages(installed.drop_last());
        if i < before.len() {
            lemma_kernel_packages(installed.drop_last(), i);
        }
    }
}

/// No package of the running kernel is removed, however old it is and however
/// few are kept.
pub proof fn the_running_kernel_is_never_removed(
    names: Seq<Seq<char>>,
    installed: Seq<(Seq<char>, Seq<char>)>,
    running: Seq<char>,
    keep: nat,
    i: int,
)
    requires
        removes(names, kernel_packages(installed), Some(running), keep),
        0 <= i < names.len(),
    ensures
        package_abi(names[i]) != Some(running),
{
    let ks = kernel_packages(installed);
    let order = choose|order: Seq<BootView>|
        #[trigger] in_order(order, bootable(ks), newest_first()) && ascending(names) && forall|
            n: Seq<char>,
        | #[trigger]
            names.contains(n) <==> is_old(ks, order, Some(running), keep, n);
    assert(names.contains(names[i]));
    let k = choose|k: int|
        0 <= k < ks.len() && (#[trigger] ks[k]).name == names[i] && !is_kept(
            order,
            Some(running),
            keep,
            ks[k].abi,
        );
    lemma_kernel_packages(installed, k);
}

/// Some kernel that boots survives, if there is one, even where none is asked to
/// be kept: no package of the newest is removed. No kernel that boots is newer.
pub proof fn a_newest_kernel_is_never_removed(
    names: Seq<Seq<char>>,
    installed: Seq<(Seq<char>, Seq<char>)>,
    running: Option<Seq<char>>,
    keep: nat,
)
    requires
        removes(names, kernel_packages(installed), running, keep),
        bootable(kernel_packages(installed)).len() > 0,
    ensures
        exists|newest: BootView| #[trigger]
            bootable(kernel_packages(installed)).contains(newest) && (forall|b: BootView| #[trigger]
                bootable(kernel_packages(installed)).contains(b) ==> versions_rel(
                    b.version,
                    newest.version,
                ) != Rel::Greater) && (forall|i: int|
                0 <= i < names.len() ==> package_abi(#[trigger] names[i]) != Some(newest.abi)),
{
    let ks = kernel_packages(installed);
    let all = bootable(ks);
    let le = newest_first();
    let order = choose|order: Seq<BootView>|
        #[trigger] in_order(order, all, le) && ascending(names) && forall|n: Seq<char>| #[trigger]
            names.contains(n) <==> is_old(ks, order, running, keep, n);
    lemma_in_order_contains(order, all, le, order[0]);
    let newest = order[0];
    assert(order.contains(newest));
    assert(all.contains(newest));
    let p = choose|p: Seq<int>| #[trigger] puts_in_order(p, order, all, le);
    assert forall|b: BootView| #[trigger] all.contains(b) implies versions_rel(
        b.version,
        newest.version,
    ) != Rel::Greater by {
        lemma_in_order_contains(order, all, le, b);
        let j = choose|j: int| 0 <= j < order.len() && order[j] == b;
        if j > 0 {
            assert(le(order[0], order[j]));
        } else {
            version_order_is_reflexive(encode_utf8(b.version));
        }
    }
    assert forall|i: int| 0 <= i < names.len() implies package_abi(#[trigger] names[i]) != Some(
        newest.abi,
    ) by {
        assert(names.contains(names[i]));
        let k = choose|k: int|
            0 <= k < ks.len() && (#[trigger] ks[k]).name == names[i] && !is_kept(
                order,
                running,
                keep,
                ks[k].abi,
            );
        lemma_kernel_packages(installed, k);
        assert(order[0].abi == newest.abi);
    }
}

} // verus!
