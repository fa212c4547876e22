//! `wrapt self-update`: keeps wrapt itself current from its published releases.

use vstd::prelude::*;
use vstd::utf8::encode_utf8;

use crate::apt::Output;
use crate::lists::{relate, versions_rel};
use crate::text::{
    after_prefix, cat2, cat3, cat5, cat6, chars_of, ends, has_suffix, has_text, holds, lines,
    lines_of, opt_str, opt_text, pieces, split, split_at_char, split_at_text, split_by, string_of,
    strip, trim, trim_char, trim_char_of, trim_of, trim_start_char, trim_start_char_of,
};
use crate::ui::{
    bold, bold_green, bold_text, complain, cyan, cyan_text, dim_text, dimmed, green_text,
    line_views, no_lines, say, success_line, success_text, warn_line, warn_text, Line, LineView,
};
use crate::version::{
    version_order_is_antisymmetric, version_order_is_reflexive, version_order_is_transitive, Rel,
};

verus! {

/// The repository that releases come from unless another is set.
pub const DEFAULT_REPO: &'static str = "marc-cr1810/wrapt";

/// The setting, unless it is blank.
pub open spec fn filled(setting: Option<Seq<char>>) -> Option<Seq<char>> {
    match setting {
        Some(s) => if trim(s).len() > 0 {
            Some(s)
        } else {
            None
        },
        None => None,
    }
}

fn is_blank(s: &str) -> (r: bool)
    ensures
        r == (trim(s@).len() == 0),
{
    let chars = chars_of(s);
    trim_of(chars.as_slice()).len() == 0
}

/// The repository that releases come from.
pub open spec fn repo_of(env: Option<Seq<char>>, setting: Option<Seq<char>>) -> Seq<char> {
    match (filled(env), filled(setting)) {
        (Some(e), _) => e,
        (None, Some(c)) => c,
        (None, None) => DEFAULT_REPO@,
    }
}

/// The `owner/repo` to update from: the environment wins, then the config file,
/// then the default.
pub fn resolve_repo(env: Option<&str>, config_repo: Option<&str>) -> (r: String)
    ensures
        r@ == match filled(opt_str(env)) {
            Some(e) => e,
            None => match filled(opt_str(config_repo)) {
                Some(c) => c,
                None => DEFAULT_REPO@,
            },
        },
        r@ == repo_of(opt_str(env), opt_str(config_repo)),
{
    if let Some(e) = env {
        if !is_blank(e) {
            return e.to_owned();
        }
    }
    if let Some(c) = config_repo {
        if !is_blank(c) {
            return c.to_owned();
        }
    }
    DEFAULT_REPO.to_owned()
}

// ---------------------------------------------------------------------------
// Choosing what to install
// ---------------------------------------------------------------------------

/// A file of a release.
#[derive(Debug)]
pub struct Asset {
    pub name: String,
    pub browser_download_url: String,
    pub size: u64,
}

/// The names of the files.
pub open spec fn asset_names(v: Seq<Asset>) -> Seq<Seq<char>> {
    v.map_values(|a: Asset| a.name@)
}

/// The OS version in a name such as `wrapt_0.2.0_ubuntu24.04_amd64.deb`.
pub open spec fn os_version(name: Seq<char>) -> Option<Seq<char>> {
    let parts = split_by(name, "_ubuntu"@);
    if parts.len() > 1 && split(parts[1], '_')[0].len() > 0 {
        Some(split(parts[1], '_')[0])
    } else {
        None
    }
}

/// The OS version in a name such as `wrapt_0.2.0_ubuntu24.04_amd64.deb`.
pub fn asset_os_version(name: &str) -> (r: Option<String>)
    ensures
        opt_text(r) == os_version(name@),
{
    proof {
        reveal_strlit("_ubuntu");
    }
    let chars = chars_of(name);
    let parts = split_at_text(chars.as_slice(), "_ubuntu");
    if parts.len() < 2 {
        assert(pieces(parts@).len() < 2);
        return None;
    }
    assert(pieces(parts@)[1] == parts@[1]@);
    let words = split_at_char(parts[1], '_');
    assert(pieces(words@)[0] == words@[0]@);
    if words[0].len() == 0 {
        None
    } else {
        Some(string_of(words[0]))
    }
}

/// The first build needs no newer system than the second: a general build runs
/// everywhere, and a lower OS version on more systems.
pub open spec fn no_newer(a: Seq<char>, b: Seq<char>) -> bool {
    match (os_version(a), os_version(b)) {
        (Some(x), Some(y)) => versions_rel(x, y) != Rel::Greater,
        (Some(_), None) => false,
        (None, _) => true,
    }
}

/// The file is a package for the architecture.
pub open spec fn is_build(name: Seq<char>, arch: Seq<char>) -> bool {
    has_suffix(name, "_"@ + arch + ".deb"@)
}

/// The file is a package for the architecture and for the system.
pub open spec fn is_own_build(name: Seq<char>, arch: Seq<char>, host: Option<Seq<char>>) -> bool {
    is_build(name, arch) && (host matches Some(tag) && has_text(name, "_"@ + tag + "_"@))
}

/// Number `i` is the first with the property.
pub open spec fn is_first(names: Seq<Seq<char>>, p: spec_fn(Seq<char>) -> bool, i: int) -> bool {
    &&& 0 <= i < names.len()
    &&& p(names[i])
    &&& forall|j: int| 0 <= j < i ==> !p(#[trigger] names[j])
}

/// Some name has the property.
pub open spec fn some_name(names: Seq<Seq<char>>, p: spec_fn(Seq<char>) -> bool) -> bool {
    exists|j: int| 0 <= j < names.len() && p(#[trigger] names[j])
}

pub open spec fn a_build(arch: Seq<char>) -> spec_fn(Seq<char>) -> bool {
    |n: Seq<char>| is_build(n, arch)
}

pub open spec fn an_own_build(arch: Seq<char>, host: Option<Seq<char>>) -> spec_fn(Seq<char>) -> bool {
    |n: Seq<char>| is_own_build(n, arch, host)
}

pub open spec fn a_package() -> spec_fn(Seq<char>) -> bool {
    |n: Seq<char>| has_suffix(n, ".deb"@)
}

/// Number `i` is the file to install: the first package built for this
/// architecture and system; else the first of those for the architecture that
/// need the oldest system; else the first package of any kind.
pub open spec fn is_pick(
    names: Seq<Seq<char>>,
    arch: Seq<char>,
    host: Option<Seq<char>>,
    i: int,
) -> bool {
    if !some_name(names, a_build(arch)) {
        is_first(names, a_package(), i)
    } else if some_name(names, an_own_build(arch, host)) {
        is_first(names, an_own_build(arch, host), i)
    } else {
        &&& 0 <= i < names.len()
        &&& is_build(names[i], arch)
        &&& forall|j: int|
            0 <= j < names.len() && is_build(#[trigger] names[j], arch) ==> no_newer(
                names[i],
                names[j],
            ) && (j < i ==> !no_newer(names[j], names[i]))
    }
}

proof fn lemma_no_newer_total(a: Seq<char>, b: Seq<char>)
    ensures
        no_newer(a, b) || no_newer(b, a),
        no_newer(a, a),
{
    if let Some(x) = os_version(a) {
        version_order_is_reflexive(encode_utf8(x));
        if let Some(y) = os_version(b) {
            version_order_is_antisymmetric(encode_utf8(x), encode_utf8(y));
        }
    }
}

proof fn lemma_no_newer_trans(a: Seq<char>, b: Seq<char>, c: Seq<char>)
    requires
        no_newer(a, b),
        no_newer(b, c),
    ensures
        no_newer(a, c),
{
    if let (Some(x), Some(y), Some(z)) = (os_version(a), os_version(b), os_version(c)) {
        version_order_is_transitive(encode_utf8(x), encode_utf8(y), encode_utf8(z));
    }
}

fn needs_no_newer(a: &str, b: &str) -> (r: bool)
    ensures
        r == no_newer(a@, b@),
{
    match (asset_os_version(a), asset_os_version(b)) {
        (Some(x), Some(y)) => match relate(x.as_str(), y.as_str()) {
            Rel::Greater => false,
            _ => true,
        },
        (Some(_), None) => false,
        (None, _) => true,
    }
}

/// The release asset to install for this host.
pub fn pick_asset<'a>(assets: &'a Vec<Asset>, arch: &str, host_tag: Option<&str>) -> (r: Option<
    &'a Asset,
>)
    ensures
        match r {
            Some(a) => exists|i: int|
                #[trigger] is_pick(asset_names(assets@), arch@, opt_str(host_tag), i) && *a
                    == assets@[i],
            None => !some_name(asset_names(assets@), a_package()) && !some_name(
                asset_names(assets@),
                a_build(arch@),
            ),
        },
{
    let ghost names = asset_names(assets@);
    let ghost host = opt_str(host_tag);
    let suffix = cat3("_", arch, ".deb");
    let needle: Option<String> = match host_tag {
        Some(tag) => Some(cat3("_", tag, "_")),
        None => None,
    };
    // The first of each kind, and the first of the best builds.
    let mut package: Option<usize> = None;
    let mut own: Option<usize> = None;
    let mut best: Option<usize> = None;
    let mut i: usize = 0;
    while i < assets.len()
        invariant
            names == asset_names(assets@),
            host == opt_str(host_tag),
            suffix@ == "_"@ + arch@ + ".deb"@,
            match needle {
                Some(n) => host matches Some(tag) && n@ == "_"@ + tag + "_"@,
                None => host is None,
            },
            i <= assets@.len(),
            match package {
                Some(k) => k < i && is_first(names, a_package(), k as int),
                None => forall|j: int| 0 <= j < i ==> !has_suffix(#[trigger] names[j], ".deb"@),
            },
            match own {
                Some(k) => k < i && is_first(names, an_own_build(arch@, host), k as int),
                None => forall|j: int|
                    0 <= j < i ==> !is_own_build(#[trigger] names[j], arch@, host),
            },
            match best {
                Some(k) => k < i && is_build(names[k as int], arch@) && forall|j: int|
                    0 <= j < i && is_build(#[trigger] names[j], arch@) ==> no_newer(
                        names[k as int],
                        names[j],
                    ) && (j < k ==> !no_newer(names[j], names[k as int])),
                None => forall|j: int| 0 <= j < i ==> !is_build(#[trigger] names[j], arch@),
            },
        decreases assets@.len() - i,
    {
        let ghost name = names[i as int];
        assert(name == assets@[i as int].name@);
        let chars = chars_of(assets[i].name.as_str());
        let s = chars.as_slice();
        if package.is_none() && ends(s, ".deb") {
            package = Some(i);
        }
        if ends(s, suffix.as_str()) {
            if own.is_none() {
                if let Some(n) = &needle {
                    if holds(s, n.as_str()) {
                        own = Some(i);
                    }
                }
            }
            match best {
                None => {
                    proof {
                        lemma_no_newer_total(name, name);
                    }
                    best = Some(i);
                },
                Some(k) => {
                    proof {
                        lemma_no_newer_total(names[k as int], name);
                        lemma_no_newer_total(name, name);
                    }
                    if !needs_no_newer(assets[k].name.as_str(), assets[i].name.as_str()) {
                        proof {
                            assert forall|j: int|
                                0 <= j < i + 1 && is_build(#[trigger] names[j], arch@) implies no_newer(
                                name,
                                names[j],
                            ) && (j < i ==> !no_newer(names[j], name)) by {
                                if j < i {
                                    lemma_no_newer_trans(name, names[k as int], names[j]);
                                    if no_newer(names[j], name) {
                                        lemma_no_newer_trans(names[k as int], names[j], name);
                                    }
                                }
                            }
                        }
                        best = Some(i);
                    }
                },
            }
        }
        i += 1;
    }
    if let Some(k) = best {
        assert(a_build(arch@)(names[k as int]));
        if let Some(m) = own {
            assert(an_own_build(arch@, host)(names[m as int]));
            assert(is_pick(names, arch@, host, m as int));
            return Some(&assets[m]);
        }
        assert(is_pick(names, arch@, host, k as int));
        return Some(&assets[k]);
    }
    assert(!some_name(names, a_build(arch@)));
    match package {
        Some(k) => {
            assert(is_pick(names, arch@, host, k as int));
            Some(&assets[k])
        },
        None => None,
    }
}

// ---------------------------------------------------------------------------
// The system
// ---------------------------------------------------------------------------

/// The value of the last line with that prefix, without blanks and quotes.
pub open spec fn os_value(ls: Seq<Seq<char>>, prefix: Seq<char>) -> Option<Seq<char>>
    decreases ls.len(),
{
    if ls.len() == 0 {
        None
    } else {
        match after_prefix(ls.last(), prefix) {
            Some(v) => Some(trim_char(trim(v), '"')),
            None => os_value(ls.drop_last(), prefix),
        }
    }
}

/// The tag of a system such as `ubuntu24.04`, from its os-release text.
pub open spec fn os_tag(text: Seq<char>) -> Option<Seq<char>> {
    match (os_value(lines(text), "ID="@), os_value(lines(text), "VERSION_ID="@)) {
        (Some(id), Some(version)) => Some(id + version),
        _ => None,
    }
}

fn os_value_of(ls: &Vec<&[char]>, prefix: &str) -> (r: Option<String>)
    ensures
        opt_text(r) == os_value(pieces(ls@), prefix@),
{
    let ghost all = pieces(ls@);
    let mut value: Option<String> = None;
    let mut i: usize = 0;
    assert(all.take(0) =~= seq![]);
    while i < ls.len()
        invariant
            all == pieces(ls@),
            i <= ls@.len(),
            opt_text(value) == os_value(all.take(i as int), prefix@),
        decreases ls@.len() - i,
    {
        assert(all.take(i + 1).drop_last() =~= all.take(i as int));
        assert(all.take(i + 1).last() == ls@[i as int]@);
        if let Some(v) = strip(ls[i], prefix) {
            value = Some(string_of(trim_char_of(trim_of(v), '"')));
        }
        i += 1;
    }
    assert(all.take(all.len() as int) =~= all);
    value
}

/// The running system's tag (`ubuntu24.04`), from the text of
/// `/etc/os-release`.
pub fn host_os_tag(text: &str) -> (r: Option<String>)
    ensures
        opt_text(r) == os_tag(text@),
{
    let chars = chars_of(text);
    let ls = lines_of(chars.as_slice());
    match (os_value_of(&ls, "ID="), os_value_of(&ls, "VERSION_ID=")) {
        (Some(id), Some(version)) => Some(cat2(id.as_str(), version.as_str())),
        _ => None,
    }
}

/// The architecture that dpkg printed, `amd64` where it printed none.
pub fn dpkg_arch(out: Option<&Output>) -> (r: String)
    ensures
        r@ == match out {
            Some(o) => if o.success && trim(o.stdout@).len() > 0 {
                trim(o.stdout@)
            } else {
                "amd64"@
            },
            None => "amd64"@,
        },
{
    if let Some(o) = out {
        if o.success {
            let chars = chars_of(o.stdout.as_str());
            let arch = trim_of(chars.as_slice());
            if arch.len() > 0 {
                return string_of(arch);
            }
        }
    }
    "amd64".to_owned()
}

// ---------------------------------------------------------------------------
// Updating
// ---------------------------------------------------------------------------

/// The version that a tag such as `v0.3.0` names.
pub open spec fn tag_version(tag: Seq<char>) -> Seq<char> {
    trim_start_char(tag, 'v')
}

/// The version that a tag such as `v0.3.0` names.
pub fn version_of_tag(tag: &str) -> (r: String)
    ensures
        r@ == tag_version(tag@),
{
    let chars = chars_of(tag);
    string_of(trim_start_char_of(chars.as_slice(), 'v'))
}

/// Whether the latest release is newer than the running version.
pub fn is_newer(latest: &str, current: &str) -> (r: bool)
    ensures
        r == (versions_rel(latest@, current@) == Rel::Greater),
{
    match relate(latest, current) {
        Rel::Greater => true,
        _ => false,
    }
}

/// What is said once the latest release is known, and whether it is to be
/// installed: only where it is newer and not merely asked about.
pub open spec fn update_lines(
    color: bool,
    check: bool,
    current: Seq<char>,
    latest: Seq<char>,
) -> Seq<LineView> {
    let none: Seq<LineView> = seq![];
    if versions_rel(latest, current) != Rel::Greater {
        none.push(
            LineView::Out(
                success_text(color, "wrapt is already up to date (v"@ + current + ")."@),
            ),
        )
    } else {
        let told = none.push(
            LineView::Out(
                "   "@ + bold_text(color, "Update available:"@) + " "@ + dim_text(
                    color,
                    "v"@ + current,
                ) + " "@ + cyan_text(color, "→"@) + " "@ + bold_text(
                    color,
                    green_text(color, "v"@ + latest),
                ),
            ),
        );
        if check {
            told.push(
                LineView::Out(
                    "   Run "@ + cyan_text(color, "sudo wrapt self-update"@) + " to install it."@,
                ),
            )
        } else {
            told
        }
    }
}

/// What is said once the latest release is known, and whether it is to be
/// installed.
pub fn run(color: bool, check: bool, current: &str, latest: &str) -> (r: (Vec<Line>, bool))
    ensures
        line_views(r.0@) == update_lines(color, check, current@, latest@),
        r.1 == (versions_rel(latest@, current@) == Rel::Greater && !check),
{
    let mut out = no_lines();
    if !is_newer(latest, current) {
        let text = cat3("wrapt is already up to date (v", current, ").");
        say(&mut out, success_line(color, text.as_str()));
        return (out, false);
    }
    let from = cat6(
        "   ",
        bold(color, "Update available:").as_str(),
        " ",
        dimmed(color, cat2("v", current).as_str()).as_str(),
        " ",
        cyan(color, "→").as_str(),
    );
    let to = bold_green(color, cat2("v", latest).as_str());
    say(&mut out, cat3(from.as_str(), " ", to.as_str()));
    if check {
        let command = cyan(color, "sudo wrapt self-update");
        say(&mut out, cat3("   Run ", command.as_str(), " to install it."));
    }
    (out, !check)
}

/// The notice of a newer release after an upgrade, if there is one.
pub fn notify_if_outdated(color: bool, current: &str, latest: &str) -> (out: Vec<Line>)
    ensures
        line_views(out@) == if versions_rel(latest@, current@) == Rel::Greater {
            seq![
                LineView::Out(""@),
                LineView::Error(
                    warn_text(
                        color,
                        "A newer wrapt is available (v"@ + current@ + " → v"@ + latest@
                            + "). Run `wrapt self-update`."@,
                    ),
                ),
            ]
        } else {
            seq![]
        },
{
    let mut out = no_lines();
    if is_newer(latest, current) {
        say(&mut out, "".to_owned());
        let text = cat5(
            "A newer wrapt is available (v",
            current,
            " → v",
            latest,
            "). Run `wrapt self-update`.",
        );
        complain(&mut out, warn_line(color, text.as_str()));
        assert(line_views(out@) =~= seq![
            LineView::Out(""@),
            LineView::Error(
                warn_text(
                    color,
                    "A newer wrapt is available (v"@ + current@ + " → v"@ + latest@
                        + "). Run `wrapt self-update`."@,
                ),
            ),
        ]);
    }
    out
}

/// Where the latest release of a repository is described.
pub fn release_url(repo: &str) -> (r: String)
    ensures
        r@ == "https://api.github.com/repos/"@ + repo@ + "/releases/latest"@,
{
    cat3("https://api.github.com/repos/", repo, "/releases/latest")
}

/// The error where a repository has no release.
pub fn no_release(repo: &str) -> (r: String)
    ensures
        r@ == "no published release found for '"@ + repo@
            + "' — check the repo name (override with WRAPT_REPO=owner/name) or tag a release first"@,
{
    cat3(
        "no published release found for '",
        repo,
        "' — check the repo name (override with WRAPT_REPO=owner/name) or tag a release first",
    )
}

/// The error where a release has no package for the architecture.
pub fn no_asset(latest: &str, arch: &str, html_url: &str) -> (r: String)
    ensures
        r@ == "release v"@ + latest@ + " has no .deb for architecture '"@ + arch@
            + "' — install it manually from "@ + html_url@,
{
    cat6(
        "release v",
        latest,
        " has no .deb for architecture '",
        arch,
        "' — install it manually from ",
        html_url,
    )
}

} // verus!
