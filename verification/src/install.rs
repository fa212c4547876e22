//! What `wrapt install` is given: plain package names, paths of local `.deb`
//! files and `http(s)://` addresses of remote ones, which are fetched first.

use vstd::prelude::*;

use crate::config::{below, join_path};
use crate::download::{items, lemma_items_push, DownloadItem, ItemView};
use crate::names::Names;
use crate::number::{
    decimal, decimal_u64, lemma_decimal_digits, lemma_decimal_injective, lemma_decimal_len,
};
use crate::text::{
    cat3, cat5, chars_of, cut_last, cut_last_at, ends, has_prefix, has_suffix, last_index_of,
    lemma_texts_push, reads, starts, string_of, take, texts,
};

verus! {

// ---------------------------------------------------------------------------
// File names
// ---------------------------------------------------------------------------

/// The text before the first `?` or `#`.
pub open spec fn before_query(s: Seq<char>) -> Seq<char>
    decreases s.len(),
{
    if s.len() == 0 {
        s
    } else {
        let before = before_query(s.drop_last());
        if before.len() < s.len() - 1 || s.last() == '?' || s.last() == '#' {
            before
        } else {
            s
        }
    }
}

/// The text behind the last slash.
pub open spec fn base_name(path: Seq<char>) -> Seq<char> {
    match cut_last(path, '/') {
        Some((_, name)) => name,
        None => path,
    }
}

/// A plain file name.
pub open spec fn is_plain(name: Seq<char>) -> bool {
    name.len() > 0 && name != "."@ && name != ".."@ && !name.contains('\0')
}

/// The file name that an address is saved under: its last path segment, with any
/// query or fragment dropped, or a fixed name where that is no plain file name.
pub open spec fn saved_as(url: Seq<char>) -> Seq<char> {
    let name = base_name(before_query(url));
    if is_plain(name) {
        name
    } else {
        "package.deb"@
    }
}

proof fn lemma_before_query(s: Seq<char>, n: int)
    requires
        0 <= n <= s.len(),
        forall|i: int| 0 <= i < n ==> s[i] != '?' && s[i] != '#',
        n < s.len() ==> s[n] == '?' || s[n] == '#',
    ensures
        before_query(s) == s.take(n),
    decreases s.len(),
{
    if s.len() > 0 {
        let t = s.drop_last();
        if n == s.len() {
            lemma_before_query(t, n - 1);
            assert(t.take(n - 1) =~= t);
            assert(s.take(n) =~= s);
        } else {
            lemma_before_query(t, n);
            assert(t.take(n) =~= s.take(n));
        }
    } else {
        assert(s.take(n) =~= s);
    }
}

/// What an address is saved under names a file, whatever the address: it holds no
/// slash, is no directory and is not empty.
pub proof fn an_address_is_saved_under_a_plain_name(url: Seq<char>)
    ensures
        is_plain(saved_as(url)),
        !saved_as(url).contains('/'),
{
    let path = before_query(url);
    let name = base_name(path);
    lemma_cut_last(path, '/');
    if is_plain(name) {
        assert forall|i: int| 0 <= i < name.len() implies name[i] != '/' by {
            let k = last_index_of(path, '/');
            if k >= 0 {
                assert(name[i] == path[k + 1 + i]);
            }
        }
    } else {
        reveal_strlit("package.deb");
        reveal_strlit(".");
        reveal_strlit("..");
    }
}

fn has_nul(s: &[char]) -> (r: bool)
    ensures
        r == s@.contains('\0'),
{
    let mut i: usize = 0;
    while i < s.len()
        invariant
            i <= s@.len(),
            forall|j: int| 0 <= j < i ==> s@[j] != '\0',
        decreases s@.len() - i,
    {
        if s[i] == '\0' {
            assert(s@[i as int] == '\0');
            return true;
        }
        i += 1;
    }
    false
}

/// The file name to save a package address under: its last path segment, with
/// any query or fragment dropped. Anything that is no plain file name falls back
/// to a fixed name, so that an address cannot steer the path that is written to.
pub fn url_filename(url: &str) -> (r: String)
    ensures
        r@ == saved_as(url@),
{
    let chars = chars_of(url);
    let mut n: usize = 0;
    while n < chars.len() && chars[n] != '?' && chars[n] != '#'
        invariant
            n <= chars@.len(),
            forall|i: int| 0 <= i < n ==> chars@[i] != '?' && chars@[i] != '#',
        decreases chars@.len() - n,
    {
        n += 1;
    }
    proof {
        lemma_before_query(chars@, n as int);
    }
    let path = take(chars.as_slice(), n);
    let name = match cut_last_at(path, '/') {
        Some((_, name)) => name,
        None => path,
    };
    if name.len() == 0 || reads(name, ".") || reads(name, "..") || has_nul(name) {
        return "package.deb".to_owned();
    }
    string_of(name)
}

/// The `n`th name to try beside a name that is taken: `htop-1.deb` beside
/// `htop.deb`.
pub open spec fn variant(name: Seq<char>, n: nat) -> Seq<char> {
    match cut_last(name, '.') {
        None => name + "-"@ + decimal(n),
        Some((stem, ext)) => if ext.len() == 0 {
            stem + "-"@ + decimal(n)
        } else {
            stem + "-"@ + decimal(n) + "."@ + ext
        },
    }
}

/// `n` is the first number whose name is not taken.
pub open spec fn is_first_free(name: Seq<char>, used: Set<Seq<char>>, n: nat) -> bool {
    &&& 1 <= n
    &&& !used.contains(variant(name, n))
    &&& forall|m: nat| 1 <= m < n ==> used.contains(#[trigger] variant(name, m))
}

/// The name itself where it is not taken, else the first variant that is not.
pub open spec fn free_name(name: Seq<char>, used: Set<Seq<char>>) -> Seq<char> {
    if used.contains(name) {
        variant(name, choose|n: nat| is_first_free(name, used, n))
    } else {
        name
    }
}

proof fn lemma_cut_last(s: Seq<char>, c: char)
    ensures
        -1 <= last_index_of(s, c) < s.len(),
        forall|j: int| last_index_of(s, c) < j < s.len() ==> s[j] != c,
        cut_last(s, c) matches Some((a, b)) ==> s.len() == a.len() + 1 + b.len(),
    decreases s.len(),
{
    if s.len() > 0 && s.last() != c {
        let t = s.drop_last();
        lemma_cut_last(t, c);
        assert forall|j: int| last_index_of(s, c) < j < s.len() implies s[j] != c by {
            if j < t.len() {
                assert(t[j] != c);
            }
        }
    }
}

proof fn lemma_variant(name: Seq<char>, m: nat, n: nat)
    requires
        variant(name, m) == variant(name, n),
    ensures
        m == n,
{
    reveal_strlit("-");
    reveal_strlit(".");
    let (stem, ext) = match cut_last(name, '.') {
        None => (name, ""@),
        Some((stem, ext)) => (stem, ext),
    };
    let a = variant(name, m);
    let b = variant(name, n);
    let tail = match cut_last(name, '.') {
        None => 0int,
        Some((_, ext)) => if ext.len() == 0 {
            0int
        } else {
            1int + ext.len()
        },
    };
    assert(a.len() == stem.len() + 1 + decimal(m).len() + tail);
    assert(b.len() == stem.len() + 1 + decimal(n).len() + tail);
    assert(a.subrange(stem.len() + 1int, a.len() - tail) =~= decimal(m));
    assert(b.subrange(stem.len() + 1int, b.len() - tail) =~= decimal(n));
    lemma_decimal_injective(m, n);
}

proof fn lemma_variant_longer(name: Seq<char>, n: nat)
    ensures
        variant(name, n) != name,
{
    reveal_strlit("-");
    reveal_strlit(".");
    lemma_decimal_len(n);
    lemma_cut_last(name, '.');
    assert(variant(name, n).len() > name.len());
}

/// The name and its first `n` variants.
spec fn tried(name: Seq<char>, n: nat) -> Set<Seq<char>>
    decreases n,
{
    if n == 0 {
        Set::empty().insert(name)
    } else {
        tried(name, (n - 1) as nat).insert(variant(name, n))
    }
}

proof fn lemma_tried(name: Seq<char>, n: nat)
    ensures
        tried(name, n).finite(),
        tried(name, n).len() == n + 1,
        forall|x: Seq<char>| #[trigger]
            tried(name, n).contains(x) ==> x == name || exists|m: nat|
                1 <= m <= n && x == #[trigger] variant(name, m),
    decreases n,
{
    if n > 0 {
        let k = (n - 1) as nat;
        lemma_tried(name, k);
        if tried(name, k).contains(variant(name, n)) {
            lemma_variant_longer(name, n);
            let m = choose|m: nat| 1 <= m <= k && variant(name, n) == #[trigger] variant(name, m);
            lemma_variant(name, m, n);
        }
        assert forall|x: Seq<char>| #[trigger] tried(name, n).contains(x) implies x == name
            || exists|m: nat| 1 <= m <= n && x == #[trigger] variant(name, m) by {
            if x == variant(name, n) {
            } else {
                assert(tried(name, k).contains(x));
                if x != name {
                    let m = choose|m: nat| 1 <= m <= k && x == #[trigger] variant(name, m);
                    assert(1 <= m <= n && x == variant(name, m));
                }
            }
        }
    }
}

proof fn lemma_taken(name: Seq<char>, used: Set<Seq<char>>, n: nat)
    requires
        used.finite(),
        used.contains(name),
        forall|m: nat| 1 <= m <= n ==> used.contains(#[trigger] variant(name, m)),
    ensures
        n + 1 <= used.len(),
{
    lemma_tried(name, n);
    assert(tried(name, n).subset_of(used));
    vstd::set_lib::lemma_len_subset(tried(name, n), used);
}

proof fn lemma_some_free(name: Seq<char>, used: Set<Seq<char>>, n: nat)
    requires
        used.finite(),
        used.contains(name),
        1 <= n,
        forall|m: nat| 1 <= m < n ==> used.contains(#[trigger] variant(name, m)),
    ensures
        exists|k: nat| is_first_free(name, used, k),
    decreases used.len() + 1 - n,
{
    if used.contains(variant(name, n)) {
        lemma_taken(name, used, n);
        lemma_some_free(name, used, n + 1);
    } else {
        assert(is_first_free(name, used, n));
    }
}

proof fn lemma_first_free(name: Seq<char>, used: Set<Seq<char>>, n: nat)
    requires
        is_first_free(name, used, n),
        used.contains(name),
    ensures
        free_name(name, used) == variant(name, n),
{
    let k = choose|k: nat| is_first_free(name, used, k);
    if k < n {
        assert(used.contains(variant(name, k)));
    } else if n < k {
        assert(used.contains(variant(name, n)));
    }
}

/// A name that is chosen is not taken already.
pub proof fn a_chosen_name_is_free(name: Seq<char>, used: Set<Seq<char>>)
    requires
        used.finite(),
    ensures
        !used.contains(free_name(name, used)),
{
    if used.contains(name) {
        lemma_some_free(name, used, 1);
    }
}

fn make_variant(name: &str, n: u64) -> (r: String)
    ensures
        r@ == variant(name@, n as nat),
{
    let chars = chars_of(name);
    let digits = decimal_u64(n);
    match cut_last_at(chars.as_slice(), '.') {
        None => cat3(name, "-", digits.as_str()),
        Some((stem, ext)) => if ext.len() == 0 {
            cat3(string_of(stem).as_str(), "-", digits.as_str())
        } else {
            cat5(
                string_of(stem).as_str(),
                "-",
                digits.as_str(),
                ".",
                string_of(ext).as_str(),
            )
        },
    }
}

/// Keeps file names distinct, so that two addresses that end in the same name do
/// not collapse onto one file (which would silently install the same package
/// twice).
pub fn unique_name(name: String, used: &mut Names) -> (r: String)
    ensures
        r@ == free_name(name@, old(used)@),
        final(used)@ == old(used)@.insert(r@),
        !old(used)@.contains(r@),
{
    if !used.contains(name.as_str()) {
        used.insert(name.clone());
        return name;
    }
    let count: usize = used.len();
    let ghost before = used@;
    let mut n: u64 = 1;
    loop
        invariant
            used@ == before,
            before == old(used)@,
            before.finite(),
            count == before.len(),
            before.contains(name@),
            1 <= n,
            forall|m: nat| 1 <= m < n ==> before.contains(#[trigger] variant(name@, m)),
        decreases count - n,
    {
        let candidate = make_variant(name.as_str(), n);
        if !used.contains(candidate.as_str()) {
            proof {
                assert(is_first_free(name@, before, n as nat));
                lemma_first_free(name@, before, n as nat);
            }
            used.insert(candidate.clone());
            return candidate;
        }
        proof {
            assert forall|m: nat| 1 <= m <= n implies before.contains(
                #[trigger] variant(name@, m),
            ) by {}
            lemma_taken(name@, before, n as nat);
        }
        n += 1;
    }
}

// ---------------------------------------------------------------------------
// What is given
// ---------------------------------------------------------------------------

/// What a word given to `wrapt install` stands for.
#[derive(Debug, Clone, Copy, PartialEq, Eq, Structural)]
pub enum SpecKind {
    /// The address of a remote package.
    Url,
    /// The path of a local package.
    File,
    /// The name of a package.
    Name,
}

/// The word is an address.
pub open spec fn is_address(spec: Seq<char>) -> bool {
    has_prefix(spec, "http://"@) || has_prefix(spec, "https://"@)
}

/// What a word stands for, given whether a file is there under it.
pub open spec fn stands_for(spec: Seq<char>, is_file: bool) -> SpecKind {
    if is_address(spec) {
        SpecKind::Url
    } else if has_suffix(spec, ".deb"@) && is_file {
        SpecKind::File
    } else {
        SpecKind::Name
    }
}

/// What a word stands for, given whether a file is there under it.
pub fn classify(spec: &str, is_file: bool) -> (r: SpecKind)
    ensures
        r == stands_for(spec@, is_file),
{
    let chars = chars_of(spec);
    let c = chars.as_slice();
    if starts(c, "http://") || starts(c, "https://") {
        SpecKind::Url
    } else if ends(c, ".deb") && is_file {
        SpecKind::File
    } else {
        SpecKind::Name
    }
}

/// What is to be installed: the address, the absolute path or the name of a
/// package.
#[derive(Debug)]
pub enum Given {
    Url(String),
    File(String),
    Name(String),
}

pub enum GivenView {
    Url(Seq<char>),
    File(Seq<char>),
    Name(Seq<char>),
}

impl View for Given {
    type V = GivenView;

    open spec fn view(&self) -> GivenView {
        match self {
            Given::Url(s) => GivenView::Url(s@),
            Given::File(s) => GivenView::File(s@),
            Given::Name(s) => GivenView::Name(s@),
        }
    }
}

/// What is given, as values.
pub open spec fn givens(v: Seq<Given>) -> Seq<GivenView> {
    v.map_values(|g: Given| g@)
}

/// An install: the arguments for apt-get, the packages that were named and the
/// files to fetch first.
#[derive(Debug)]
pub struct Install {
    pub args: Vec<String>,
    pub named: Vec<String>,
    pub fetch: Vec<DownloadItem>,
}

pub struct InstallView {
    pub args: Seq<Seq<char>>,
    pub named: Seq<Seq<char>>,
    pub fetch: Seq<ItemView>,
    /// The file names that are taken.
    pub used: Set<Seq<char>>,
}

/// The install of what is given; what is remote is fetched into a directory.
pub open spec fn assembled(v: Seq<GivenView>, dir: Seq<char>) -> InstallView
    decreases v.len(),
{
    if v.len() == 0 {
        InstallView { args: seq!["install"@], named: seq![], fetch: seq![], used: Set::empty() }
    } else {
        let before = assembled(v.drop_last(), dir);
        match v.last() {
            GivenView::Url(url) => {
                let filename = free_name(saved_as(url), before.used);
                InstallView {
                    args: before.args.push(below(dir, filename)),
                    fetch: before.fetch.push(ItemView { url, filename, size: 0, hash: None }),
                    used: before.used.insert(filename),
                    ..before
                }
            },
            GivenView::File(path) => InstallView { args: before.args.push(path), ..before },
            GivenView::Name(name) => InstallView {
                args: before.args.push(name),
                named: before.named.push(name),
                ..before
            },
        }
    }
}

/// The install of what is given; what is remote is fetched into a directory.
pub fn assemble(v: &Vec<Given>, dir: &str) -> (r: Install)
    ensures
        texts(r.args@) == assembled(givens(v@), dir@).args,
        texts(r.named@) == assembled(givens(v@), dir@).named,
        items(r.fetch@) == assembled(givens(v@), dir@).fetch,
{
    let ghost all = givens(v@);
    let mut args: Vec<String> = Vec::new();
    args.push("install".to_owned());
    let mut named: Vec<String> = Vec::new();
    let mut fetch: Vec<DownloadItem> = Vec::new();
    let mut used = Names::new();
    let mut i: usize = 0;
    proof {
        assert(all.take(0).len() == 0);
        assert(texts(args@) =~= seq!["install"@]);
        assert(texts(named@) =~= seq![]);
        assert(items(fetch@) =~= seq![]);
    }
    while i < v.len()
        invariant
            i <= v@.len(),
            all == givens(v@),
            texts(args@) == assembled(all.take(i as int), dir@).args,
            texts(named@) == assembled(all.take(i as int), dir@).named,
            items(fetch@) == assembled(all.take(i as int), dir@).fetch,
            used@ == assembled(all.take(i as int), dir@).used,
        decreases v@.len() - i,
    {
        broadcast use {lemma_texts_push, lemma_items_push};

        assert(all.take(i + 1).drop_last() =~= all.take(i as int));
        assert(all.take(i + 1).last() == v@[i as int]@);
        match &v[i] {
            Given::Url(url) => {
                let filename = unique_name(url_filename(url.as_str()), &mut used);
                args.push(join_path(dir, filename.as_str()));
                fetch.push(DownloadItem { url: url.clone(), filename, size: 0, hash: None });
            },
            Given::File(path) => {
                args.push(path.clone());
            },
            Given::Name(name) => {
                args.push(name.clone());
                named.push(name.clone());
            },
        }
        i += 1;
    }
    assert(all.take(all.len() as int) =~= all);
    Install { args, named, fetch }
}

proof fn lemma_used(v: Seq<GivenView>, dir: Seq<char>)
    ensures
        assembled(v, dir).used.finite(),
        forall|i: int|
            0 <= i < assembled(v, dir).fetch.len() ==> assembled(v, dir).used.contains(
                (#[trigger] assembled(v, dir).fetch[i]).filename,
            ),
    decreases v.len(),
{
    if v.len() > 0 {
        lemma_used(v.drop_last(), dir);
        let before = assembled(v.drop_last(), dir);
        let after = assembled(v, dir);
        assert forall|i: int| 0 <= i < after.fetch.len() implies after.used.contains(
            (#[trigger] after.fetch[i]).filename,
        ) by {
            if i < before.fetch.len() {
                assert(after.fetch[i] == before.fetch[i]);
            }
        }
    }
}

/// No two remote packages are saved under one name, even where their addresses
/// end alike.
pub proof fn remote_packages_are_saved_apart(v: Seq<GivenView>, dir: Seq<char>, i: int, j: int)
    requires
        0 <= i < j < assembled(v, dir).fetch.len(),
    ensures
        assembled(v, dir).fetch[i].filename != assembled(v, dir).fetch[j].filename,
    decreases v.len(),
{
    let before = assembled(v.drop_last(), dir);
    let after = assembled(v, dir);
    lemma_used(v.drop_last(), dir);
    if j < before.fetch.len() {
        remote_packages_are_saved_apart(v.drop_last(), dir, i, j);
        assert(after.fetch[i] == before.fetch[i]);
        assert(after.fetch[j] == before.fetch[j]);
    } else {
        assert(after.fetch[i] == before.fetch[i]);
        assert(before.used.contains(before.fetch[i].filename));
        match v.last() {
            GivenView::Url(url) => {
                a_chosen_name_is_free(saved_as(url), before.used);
            },
            _ => {},
        }
    }
}

proof fn lemma_free_name_stays(name: Seq<char>, used: Set<Seq<char>>)
    requires
        !name.contains('/'),
    ensures
        !free_name(name, used).contains('/'),
{
    if used.contains(name) {
        let n = choose|n: nat| is_first_free(name, used, n);
        let out = variant(name, n);
        reveal_strlit("-");
        reveal_strlit(".");
        lemma_decimal_digits(n);
        lemma_cut_last(name, '.');
        assert forall|i: int| 0 <= i < name.len() implies name[i] != '/' by {}
        let k = last_index_of(name, '.');
        assert forall|i: int| 0 <= i < out.len() implies out[i] != '/' by {
            let d = decimal(n);
            match cut_last(name, '.') {
                None => {
                    if i < name.len() {
                        assert(out[i] == name[i]);
                    } else if i > name.len() {
                        assert(out[i] == d[i - name.len() - 1]);
                    }
                },
                Some((stem, ext)) => {
                    let e = stem.len() + 1 + d.len();
                    if i < stem.len() {
                        assert(out[i] == name[i]);
                    } else if stem.len() < i < e {
                        assert(out[i] == d[i - stem.len() - 1]);
                    } else if i > e {
                        assert(out[i] == ext[i - e - 1]);
                        assert(ext[i - e - 1] == name[k + 1 + (i - e - 1)]);
                    }
                },
            }
        }
    }
}

/// A remote package is saved in the directory itself: no address leads out of it.
pub proof fn remote_packages_stay_in_the_directory(v: Seq<GivenView>, dir: Seq<char>, i: int)
    requires
        0 <= i < assembled(v, dir).fetch.len(),
    ensures
        !assembled(v, dir).fetch[i].filename.contains('/'),
    decreases v.len(),
{
    let before = assembled(v.drop_last(), dir);
    let after = assembled(v, dir);
    if i < before.fetch.len() {
        remote_packages_stay_in_the_directory(v.drop_last(), dir, i);
        assert(after.fetch[i] == before.fetch[i]);
    } else {
        match v.last() {
            GivenView::Url(url) => {
                an_address_is_saved_under_a_plain_name(url);
                lemma_free_name_stays(saved_as(url), before.used);
            },
            _ => {},
        }
    }
}

} // verus!
