//! Laws of the kernels: which packages belong to one, and which are removed.

use vstd::prelude::*;
use vstd::utf8::encode_utf8;

use crate::kernels::{
    abi_at, bootable, is_kept, is_old, kernel_packages, kernel_prefixes, newest_first, package_abi,
    prefixed_abi, release_abi, removes, version_abi, versioned, with_image, BootView, KernelView,
};
use crate::laws::text::{a_piece_ends_at_the_character, a_text_is_held_where_it_is_put};
use crate::lists::versions_rel;
use crate::number::all_digits;
use crate::order::{ascending, in_order, order_is_unique};
use crate::text::{after_prefix, has_prefix, has_text, is_digit, split};
use crate::version::{
    version_order_is_antisymmetric, version_order_is_reflexive, version_order_is_transitive, Rel,
};

verus! {

/// A release as kernels have it: a dotted number, a hyphen and the number of the
/// build.
pub open spec fn is_release(base: Seq<char>, build: Seq<char>) -> bool {
    &&& base.len() > 0
    &&& '0' <= base[0] <= '9'
    &&& base.contains('.')
    &&& !base.contains('-')
    &&& build.len() > 0
    &&& forall|i: int| 0 <= i < build.len() ==> '0' <= #[trigger] build[i] <= '9'
}

/// The beginning of a package's name, one for each sort of versioned kernel
/// package.
pub open spec fn is_kernel_start(p: Seq<char>) -> bool {
    ||| p == "linux-image-"@
    ||| p == "linux-image-unsigned-"@
    ||| p == "linux-headers-"@
    ||| p == "linux-modules-"@
    ||| p == "linux-modules-extra-"@
    ||| p == "linux-buildinfo-"@
    ||| p == "linux-tools-"@
    ||| p == "linux-cloud-tools-"@
}

proof fn lemma_build(build: Seq<char>)
    requires
        forall|i: int| 0 <= i < build.len() ==> '0' <= #[trigger] build[i] <= '9',
        build.len() > 0,
    ensures
        all_digits(build),
        !build.contains('-'),
{
    assert forall|i: int| 0 <= i < build.len() implies is_digit(#[trigger] build[i]) by {
    }
    if build.contains('-') {
        let i = choose|i: int| 0 <= i < build.len() && build[i] == '-';
        assert('0' <= build[i]);
    }
}

/// The ABI of a release is its number and its build, with or without a flavour
/// behind them.
pub proof fn the_abi_is_the_number_and_the_build(
    base: Seq<char>,
    build: Seq<char>,
    flavour: Seq<char>,
)
    requires
        is_release(base, build),
    ensures
        version_abi(base + seq!['-'] + build) == Some(base + seq!['-'] + build),
        version_abi(base + seq!['-'] + (build + seq!['-'] + flavour)) == Some(
            base + seq!['-'] + build,
        ),
        release_abi(Some(base + seq!['-'] + (build + seq!['-'] + flavour))) == Some(
            base + seq!['-'] + build,
        ),
{
    let tail = build + seq!['-'] + flavour;
    lemma_build(build);
    a_piece_ends_at_the_character(base, '-', build);
    a_piece_ends_at_the_character(base, '-', tail);
    a_piece_ends_at_the_character(build, '-', flavour);
    reveal_strlit(".");
    reveal_strlit("-");
    let k = choose|k: int| 0 <= k < base.len() && base[k] == '.';
    a_text_is_held_where_it_is_put(base.take(k), "."@, base.skip(k + 1));
    assert(base =~= base.take(k) + "."@ + base.skip(k + 1));
    assert("-"@ =~= seq!['-']);
    let (v, w) = (base + seq!['-'] + build, base + seq!['-'] + tail);
    assert(split(v, '-') =~= seq![base, build]);
    assert(split(w, '-')[0] == base);
    assert(split(w, '-')[1] == build);
}

/// A release whose number has no dot, or whose second part is no number, has no
/// ABI; neither has one without a hyphen.
pub proof fn other_releases_have_no_abi(base: Seq<char>, next: Seq<char>, rest: Seq<char>)
    requires
        !base.contains('-'),
        !next.contains('-'),
        !base.contains('.') || exists|i: int|
            0 <= i < next.len() && !(48 <= (#[trigger] next[i]) as u32 <= 57),
    ensures
        version_abi(base) is None,
        version_abi(base + seq!['-'] + next) is None,
        version_abi(base + seq!['-'] + (next + seq!['-'] + rest)) is None,
{
    let tail = next + seq!['-'] + rest;
    a_piece_ends_at_the_character(base, '-', next);
    a_piece_ends_at_the_character(base, '-', tail);
    a_piece_ends_at_the_character(next, '-', rest);
    reveal_strlit(".");
    if has_text(base, "."@) {
        crate::laws::text::what_holds_a_text_is_put_around_it(base, "."@);
        let (a, b) = choose|a: Seq<char>, b: Seq<char>| base == #[trigger] (a + "."@ + b);
        assert(base[a.len() as int] == '.');
        assert(base.contains('.'));
    }
    if all_digits(next) {
        assert forall|i: int| 0 <= i < next.len() implies is_digit(#[trigger] next[i]) by {
        }
    }
    let (v, w) = (base + seq!['-'] + next, base + seq!['-'] + tail);
    assert(split(v, '-')[0] == base && split(v, '-')[1] == next);
    assert(split(w, '-')[0] == base && split(w, '-')[1] == next);
}

proof fn lemma_no_prefix(name: Seq<char>, p: Seq<char>, i: int)
    requires
        0 <= i < p.len(),
        i < name.len(),
        name[i] != p[i],
    ensures
        versioned(name, p) is None,
{
    if has_prefix(name, p) {
        assert(name.take(p.len() as int)[i] == name[i]);
    }
}

proof fn lemma_prefix(p: Seq<char>, v: Seq<char>)
    requires
        v.len() > 0,
        '0' <= v[0] <= '9',
    ensures
        versioned(p + v, p) == Some(v),
{
    assert((p + v).take(p.len() as int) =~= p);
    assert((p + v).skip(p.len() as int) =~= v);
}

proof fn lemma_start(p: Seq<char>, v: Seq<char>)
    requires
        is_kernel_start(p),
        v.len() > 0,
        '0' <= v[0] <= '9',
    ensures
        package_abi(p + v) == version_abi(v),
{
    reveal_strlit("linux-image-unsigned-");
    reveal_strlit("linux-image-");
    reveal_strlit("linux-headers-");
    reveal_strlit("linux-modules-extra-");
    reveal_strlit("linux-modules-");
    reveal_strlit("linux-buildinfo-");
    reveal_strlit("linux-tools-");
    reveal_strlit("linux-cloud-tools-");
    let all = kernel_prefixes();
    let name = p + v;
    lemma_prefix(p, v);
    assert(name[p.len() as int] == v[0]);
    assert forall|k: int| 0 <= k < all.len() && all[k] != p implies versioned(
        name,
        #[trigger] all[k],
    ) is None by {
        let q = all[k];
        if q == "linux-image-"@ && p == "linux-image-unsigned-"@ {
            if has_prefix(name, q) {
                assert(name.skip(q.len() as int)[0] == name[12]);
                assert(name[12] == 'u');
            }
        } else if q == "linux-modules-"@ && p == "linux-modules-extra-"@ {
            if has_prefix(name, q) {
                assert(name.skip(q.len() as int)[0] == name[14]);
                assert(name[14] == 'e');
            }
        } else if q == "linux-image-unsigned-"@ && p == "linux-image-"@ {
            assert(name[12] == v[0]);
            lemma_no_prefix(name, q, 12);
        } else if q == "linux-modules-extra-"@ && p == "linux-modules-"@ {
            assert(name[14] == v[0]);
            lemma_no_prefix(name, q, 14);
        } else if q[6] != p[6] {
            assert(name[6] == p[6]);
            lemma_no_prefix(name, q, 6);
        } else {
            assert(false);
        }
    }
    assert(exists|k: int| 0 <= k < all.len() && all[k] == p) by {
        assert(all[0] == "linux-image-unsigned-"@);
        assert(all[1] == "linux-image-"@);
        assert(all[2] == "linux-headers-"@);
        assert(all[3] == "linux-modules-extra-"@);
        assert(all[4] == "linux-modules-"@);
        assert(all[5] == "linux-buildinfo-"@);
        assert(all[6] == "linux-tools-"@);
        assert(all[7] == "linux-cloud-tools-"@);
    }
    lemma_only(name, all, p, v);
}

proof fn lemma_only(name: Seq<char>, from: Seq<Seq<char>>, p: Seq<char>, v: Seq<char>)
    requires
        versioned(name, p) == Some(v),
        forall|k: int|
            0 <= k < from.len() && from[k] != p ==> versioned(name, #[trigger] from[k]) is None,
        exists|k: int| 0 <= k < from.len() && from[k] == p,
    ensures
        prefixed_abi(name, from) == version_abi(v),
    decreases from.len(),
{
    let k = choose|k: int| 0 <= k < from.len() && from[k] == p;
    if from[0] != p {
        let rest = from.skip(1);
        assert(rest[k - 1] == p);
        assert forall|j: int| 0 <= j < rest.len() && rest[j] != p implies versioned(
            name,
            #[trigger] rest[j],
        ) is None by {
            assert(rest[j] == from[j + 1]);
        }
        lemma_only(name, rest, p, v);
    }
}

/// A package of each sort — an image, signed or not, headers, modules, extra
/// modules, build information, tools, cloud tools — belongs to the kernel whose
/// release stands in its name.
pub proof fn every_sort_of_kernel_package_is_known(
    p: Seq<char>,
    base: Seq<char>,
    build: Seq<char>,
    flavour: Seq<char>,
)
    requires
        is_kernel_start(p),
        is_release(base, build),
    ensures
        package_abi(p + (base + seq!['-'] + build)) == Some(base + seq!['-'] + build),
        package_abi(p + (base + seq!['-'] + (build + seq!['-'] + flavour))) == Some(
            base + seq!['-'] + build,
        ),
{
    the_abi_is_the_number_and_the_build(base, build, flavour);
    let (v, w) = (base + seq!['-'] + build, base + seq!['-'] + (build + seq!['-'] + flavour));
    assert(v[0] == base[0] && w[0] == base[0]);
    lemma_start(p, v);
    lemma_start(p, w);
}

/// The package that stands for the newest kernel, such as `linux-image-generic`,
/// and any package whose name begins otherwise, belongs to no kernel.
pub proof fn other_packages_belong_to_no_kernel(p: Seq<char>, rest: Seq<char>, other: Seq<char>)
    requires
        rest.len() == 0 || !(48 <= rest[0] as u32 <= 57),
        !has_prefix(other, "linux-"@),
    ensures
        package_abi("linux-headers-"@ + rest) is None,
        package_abi("linux-tools-"@ + rest) is None,
        package_abi("linux-buildinfo-"@ + rest) is None,
        package_abi("linux-cloud-tools-"@ + rest) is None,
        rest.len() == 0 || (rest[0] != 'u' && rest[0] != 'e') ==> package_abi(
            "linux-image-"@ + rest,
        ) is None && package_abi("linux-modules-"@ + rest) is None,
        package_abi(other) is None,
{
    reveal_strlit("linux-image-unsigned-");
    reveal_strlit("linux-image-");
    reveal_strlit("linux-headers-");
    reveal_strlit("linux-modules-extra-");
    reveal_strlit("linux-modules-");
    reveal_strlit("linux-buildinfo-");
    reveal_strlit("linux-tools-");
    reveal_strlit("linux-cloud-tools-");
    reveal_strlit("linux-");
    let all = kernel_prefixes();
    assert forall|k: int| 0 <= k < all.len() implies versioned(other, #[trigger] all[k]) is None by {
        if has_prefix(other, all[k]) {
            assert(other.take(6) =~= all[k].take(6)) by {
                assert(other.take(all[k].len() as int).take(6) =~= other.take(6));
            }
            assert(all[k].take(6) =~= "linux-"@);
        }
    }
    lemma_none(other, all);
    lemma_none_at("linux-headers-"@, rest);
    lemma_none_at("linux-tools-"@, rest);
    lemma_none_at("linux-buildinfo-"@, rest);
    lemma_none_at("linux-cloud-tools-"@, rest);
    if rest.len() == 0 || (rest[0] != 'u' && rest[0] != 'e') {
        lemma_none_at("linux-image-"@, rest);
        lemma_none_at("linux-modules-"@, rest);
    }
}

proof fn lemma_none_at(p: Seq<char>, rest: Seq<char>)
    requires
        rest.len() == 0 || !(48 <= rest[0] as u32 <= 57),
        p == "linux-headers-"@ || p == "linux-tools-"@ || p == "linux-buildinfo-"@ || p
            == "linux-cloud-tools-"@ || ((p == "linux-image-"@ || p == "linux-modules-"@) && (
        rest.len() == 0 || (rest[0] != 'u' && rest[0] != 'e'))),
    ensures
        package_abi(p + rest) is None,
{
    reveal_strlit("linux-image-unsigned-");
    reveal_strlit("linux-image-");
    reveal_strlit("linux-headers-");
    reveal_strlit("linux-modules-extra-");
    reveal_strlit("linux-modules-");
    reveal_strlit("linux-buildinfo-");
    reveal_strlit("linux-tools-");
    reveal_strlit("linux-cloud-tools-");
    let all = kernel_prefixes();
    let name = p + rest;
    assert("linux-headers-"@[6] == 'h' && "linux-tools-"@[6] == 't' && "linux-buildinfo-"@[6]
        == 'b' && "linux-cloud-tools-"@[6] == 'c');
    assert(p[6] == 'm' ==> p == "linux-modules-"@);
    assert(p[6] == 'i' ==> p == "linux-image-"@);
    assert forall|k: int| 0 <= k < all.len() implies versioned(name, #[trigger] all[k]) is None by {
        let q = all[k];
        if q == p {
            assert(name.skip(p.len() as int) =~= rest);
            assert(rest.len() > 0 ==> !is_digit(rest[0]));
        } else if q == "linux-image-unsigned-"@ && p == "linux-image-"@ {
            if name.len() > 12 {
                assert(name[12] == rest[0]);
                lemma_no_prefix(name, q, 12);
            }
        } else if q == "linux-modules-extra-"@ && p == "linux-modules-"@ {
            if name.len() > 14 {
                assert(name[14] == rest[0]);
                lemma_no_prefix(name, q, 14);
            }
        } else {
            assert(q[6] != p[6]);
            assert(name[6] == p[6]);
            lemma_no_prefix(name, q, 6);
        }
    }
    lemma_none(name, all);
}

proof fn lemma_none(name: Seq<char>, from: Seq<Seq<char>>)
    requires
        forall|k: int| 0 <= k < from.len() ==> versioned(name, #[trigger] from[k]) is None,
    ensures
        prefixed_abi(name, from) is None,
    decreases from.len(),
{
    if from.len() > 0 {
        let rest = from.skip(1);
        assert forall|j: int| 0 <= j < rest.len() implies versioned(
            name,
            #[trigger] rest[j],
        ) is None by {
            assert(rest[j] == from[j + 1]);
        }
        lemma_none(name, rest);
    }
}

proof fn lemma_packages(installed: Seq<(Seq<char>, Seq<char>)>, i: int) -> (k: int)
    requires
        0 <= i < installed.len(),
        package_abi(installed[i].0) is Some,
    ensures
        0 <= k < kernel_packages(installed).len(),
        kernel_packages(installed)[k] == (KernelView {
            name: installed[i].0,
            abi: package_abi(installed[i].0)->0,
            version: installed[i].1,
        }),
    decreases installed.len(),
{
    if i == installed.len() - 1 {
        kernel_packages(installed).len() - 1
    } else {
        let before = installed.drop_last();
        assert(before[i] == installed[i]);
        lemma_packages(before, i)
    }
}

/// Every installed package of a kernel that is not kept is removed: neither the
/// running one's, nor those of the newest `keep`.
pub proof fn every_package_of_an_old_kernel_is_removed(
    names: Seq<Seq<char>>,
    installed: Seq<(Seq<char>, Seq<char>)>,
    running: Option<Seq<char>>,
    keep: nat,
    i: int,
    p: Seq<char>,
    base: Seq<char>,
    build: Seq<char>,
    flavour: Seq<char>,
)
    requires
        removes(names, kernel_packages(installed), running, keep),
        0 <= i < installed.len(),
        is_kernel_start(p),
        is_release(base, build),
        installed[i].0 == p + (base + seq!['-'] + (build + seq!['-'] + flavour)),
    ensures
        names.contains(installed[i].0) || running == Some(base + seq!['-'] + build) || exists|
            order: Seq<BootView>,
            k: int,
        |
            #[trigger] in_order(order, bootable(kernel_packages(installed)), newest_first()) && 0
                <= k < order.len() && (k < keep || k == 0) && (#[trigger] order[k]).abi == base
                + seq!['-'] + build,
{
    every_sort_of_kernel_package_is_known(p, base, build, flavour);
    let ks = kernel_packages(installed);
    let name = installed[i].0;
    let abi = base + seq!['-'] + build;
    let k = lemma_packages(installed, i);
    let order = choose|order: Seq<BootView>|
        #[trigger] in_order(order, bootable(ks), newest_first()) && ascending(names) && forall|
            n: Seq<char>,
        | #[trigger]
            names.contains(n) <==> is_old(ks, order, running, keep, n);
    assert(ks[k].name == name);
    if !names.contains(name) && running != Some(abi) {
        assert(!is_old(ks, order, running, keep, name));
        assert(is_kept(order, running, keep, ks[k].abi));
    }
}

spec fn ascending_names(names: Seq<Seq<char>>) -> bool {
    crate::order::ascending(names)
}

/// Only packages of installed kernels are ever removed.
pub proof fn only_kernel_packages_are_removed(
    names: Seq<Seq<char>>,
    installed: Seq<(Seq<char>, Seq<char>)>,
    running: Option<Seq<char>>,
    keep: nat,
    i: int,
)
    requires
        removes(names, kernel_packages(installed), running, keep),
        0 <= i < names.len(),
    ensures
        package_abi(names[i]) is Some,
        exists|k: int| 0 <= k < installed.len() && (#[trigger] installed[k]).0 == names[i],
{
    let ks = kernel_packages(installed);
    assert(names.contains(names[i]));
    let order = choose|order: Seq<BootView>|
        #[trigger] in_order(order, bootable(ks), newest_first()) && ascending(names) && forall|
            n: Seq<char>,
        | #[trigger]
            names.contains(n) <==> is_old(ks, order, running, keep, n);
    assert(is_old(ks, order, running, keep, names[i]));
    let k = choose|k: int|
        0 <= k < ks.len() && (#[trigger] ks[k]).name == names[i] && !is_kept(
            order,
            running,
            keep,
            ks[k].abi,
        );
    lemma_packages_back(installed, k);
}

proof fn lemma_packages_back(installed: Seq<(Seq<char>, Seq<char>)>, k: int)
    requires
        0 <= k < kernel_packages(installed).len(),
    ensures
        package_abi(kernel_packages(installed)[k].name) == Some(kernel_packages(installed)[k].abi),
        exists|j: int|
            0 <= j < installed.len() && (#[trigger] installed[j]).0 == kernel_packages(
                installed,
            )[k].name,
    decreases installed.len(),
{
    if installed.len() > 0 {
        let before = installed.drop_last();
        if k < kernel_packages(before).len() {
            lemma_packages_back(before, k);
            let j = choose|j: int|
                0 <= j < before.len() && (#[trigger] before[j]).0 == kernel_packages(
                    before,
                )[k].name;
            assert(installed[j].0 == kernel_packages(installed)[k].name);
        } else {
            assert(installed[installed.len() - 1].0 == kernel_packages(installed)[k].name);
        }
    }
}

/// No package of a kernel among the newest `keep`, or of the newest of all, is
/// removed.
pub proof fn no_package_of_a_kept_kernel_is_removed(
    names: Seq<Seq<char>>,
    installed: Seq<(Seq<char>, Seq<char>)>,
    running: Option<Seq<char>>,
    keep: nat,
    order: Seq<BootView>,
    k: int,
    name: Seq<char>,
)
    requires
        removes(names, kernel_packages(installed), running, keep),
        in_order(order, bootable(kernel_packages(installed)), newest_first()),
        0 <= k < order.len(),
        k < keep || k == 0,
        package_abi(name) == Some(order[k].abi),
    ensures
        !names.contains(name),
{
    let ks = kernel_packages(installed);
    let other = choose|other: Seq<BootView>|
        #[trigger] in_order(other, bootable(ks), newest_first()) && ascending(names) && forall|
            n: Seq<char>,
        | #[trigger]
            names.contains(n) <==> is_old(ks, other, running, keep, n);
    order_is_unique(order, other, bootable(ks), newest_first());
    if names.contains(name) {
        assert(is_old(ks, order, running, keep, name));
        let i = choose|i: int|
            0 <= i < ks.len() && (#[trigger] ks[i]).name == name && !is_kept(
                order,
                running,
                keep,
                ks[i].abi,
            );
        lemma_packages_back(installed, i);
        assert(order[k].abi == ks[i].abi);
    }
}

/// Of two kernels the one whose image has the later version comes first.
pub proof fn the_newest_kernel_comes_first(
    installed: Seq<(Seq<char>, Seq<char>)>,
    order: Seq<BootView>,
    i: int,
    j: int,
)
    requires
        in_order(order, bootable(kernel_packages(installed)), newest_first()),
        0 <= i < j < order.len(),
    ensures
        versions_rel(order[j].version, order[i].version) != Rel::Greater,
{
    let ks = kernel_packages(installed);
    let p = choose|p: Seq<int>| #[trigger]
        crate::order::puts_in_order(p, order, bootable(ks), newest_first());
    assert(newest_first()(order[i], order[j]));
}

proof fn lemma_abi_at(v: Seq<BootView>, abi: Seq<char>)
    ensures
        0 <= abi_at(v, abi) <= v.len(),
        abi_at(v, abi) < v.len() ==> v[abi_at(v, abi)].abi == abi,
    decreases v.len(),
{
    if v.len() > 0 && v[0].abi != abi {
        lemma_abi_at(v.skip(1), abi);
    }
}

/// Some kernel has the ABI, and its image is of no lower a version.
pub open spec fn boots(v: Seq<BootView>, abi: Seq<char>, version: Seq<char>) -> bool {
    exists|k: int|
        0 <= k < v.len() && (#[trigger] v[k]).abi == abi && versions_rel(v[k].version, version)
            != Rel::Less
}

proof fn lemma_with_image(v: Seq<BootView>, x: KernelView, abi: Seq<char>, version: Seq<char>)
    requires
        boots(v, abi, version),
    ensures
        boots(with_image(v, x), abi, version),
{
    lemma_abi_at(v, x.abi);
    let k = choose|k: int|
        0 <= k < v.len() && (#[trigger] v[k]).abi == abi && versions_rel(v[k].version, version)
            != Rel::Less;
    let w = with_image(v, x);
    let at = abi_at(v, x.abi);
    if at < v.len() && at == k && versions_rel(x.version, v[at].version) == Rel::Greater {
        let (a, b, c) = (
            encode_utf8(version),
            encode_utf8(v[k].version),
            encode_utf8(x.version),
        );
        version_order_is_antisymmetric(c, b);
        version_order_is_antisymmetric(b, a);
        version_order_is_antisymmetric(c, a);
        version_order_is_transitive(a, b, c);
        assert(w[k].abi == abi);
    } else {
        assert(w[k] == v[k]);
    }
}

/// Every installed image makes its kernel one that can be booted, in no lower a
/// version.
pub proof fn every_image_can_be_booted(ks: Seq<KernelView>, i: int)
    requires
        0 <= i < ks.len(),
        has_prefix(ks[i].name, "linux-image-"@),
    ensures
        boots(bootable(ks), ks[i].abi, ks[i].version),
    decreases ks.len(),
{
    let before = ks.drop_last();
    if i < before.len() {
        assert(before[i] == ks[i]);
        every_image_can_be_booted(before, i);
        lemma_with_image(bootable(before), ks.last(), ks[i].abi, ks[i].version);
    } else {
        let v = bootable(before);
        let x = ks.last();
        lemma_abi_at(v, x.abi);
        let w = with_image(v, x);
        let at = abi_at(v, x.abi);
        version_order_is_reflexive(encode_utf8(x.version));
        if at == v.len() {
            assert(w[at].abi == x.abi);
        } else {
            version_order_is_antisymmetric(
                encode_utf8(x.version),
                encode_utf8(v[at].version),
            );
            assert(w[at].abi == x.abi);
        }
    }
}

/// Only installed images count: headers, modules and tools alone make no kernel
/// that can be booted.
pub proof fn only_images_can_be_booted(ks: Seq<KernelView>, k: int)
    requires
        0 <= k < bootable(ks).len(),
    ensures
        exists|i: int|
            0 <= i < ks.len() && has_prefix((#[trigger] ks[i]).name, "linux-image-"@) && ks[i].abi
                == bootable(ks)[k].abi,
    decreases ks.len(),
{
    let before = ks.drop_last();
    let v = bootable(before);
    let last = ks.len() - 1;
    lemma_abi_at(v, ks.last().abi);
    if k < v.len() {
        only_images_can_be_booted(before, k);
        let i = choose|i: int|
            0 <= i < before.len() && has_prefix((#[trigger] before[i]).name, "linux-image-"@)
                && before[i].abi == v[k].abi;
        assert(ks[i] == before[i]);
    } else {
        assert(ks[last].abi == bootable(ks)[k].abi);
    }
}

/// With one kernel more to keep, nothing more is removed.
pub proof fn keeping_more_removes_no_more(
    order: Seq<BootView>,
    running: Option<Seq<char>>,
    keep: nat,
    abi: Seq<char>,
)
    requires
        is_kept(order, running, keep, abi),
    ensures
        is_kept(order, running, keep + 1, abi),
{
    if running != Some(abi) {
        let i = choose|i: int|
            0 <= i < order.len() && (i < keep || i == 0) && (#[trigger] order[i]).abi == abi;
        assert(order[i].abi == abi && i < keep + 1);
    }
}

} // verus!
