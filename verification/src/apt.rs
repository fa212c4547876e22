//! What apt says: transactions, downloads and package records, read from the
//! output of its tools.

use vstd::prelude::*;
use vstd::utf8::{decode_utf8, valid_utf8};

use crate::download::{
    items, lemma_items_push, opt_hash, DownloadItem, ExpectedHash, HashView, ItemView,
};
use crate::names::Names;
use crate::number::{parse_u64, unsigned_up_to};
use crate::order::{
    by_rank, comes_first, in_order, lemma_in_order_mapped, lemma_text_le_total, lemma_text_le_trans,
    sort, text_le, Ranked,
};
use crate::text::{
    after_prefix, cat3, cat4, chars_of, copy_option, cut, cut_at, decode_lossy, has_prefix,
    has_text, holds, join, join_strings, lemma_texts_push, lines, lines_of, lossy_text, lowercase,
    opt_str, opt_text, pieces, reads, split, split_at_char, split_at_text, split_by, starts,
    string_of, strings_of, strip, texts, trim, trim_char, trim_char_of, trim_end_char,
    trim_end_char_of, trim_of, trim_start_char, trim_start_char_of, words, words_of,
};
use crate::ui::{self, bold_text, cyan_text, dim_text, green_text, red_text, yellow_text};

verus! {

// ---------------------------------------------------------------------------
// Transactions
// ---------------------------------------------------------------------------

/// One package changed by a transaction. `old` is the currently installed
/// version (upgrade/removal), `new` the version being installed.
#[derive(Debug, Clone)]
pub struct Change {
    pub name: String,
    pub old: Option<String>,
    pub new: Option<String>,
    /// The new version comes from a security pocket (`-security`).
    pub security: bool,
}

#[verifier::ext_equal]
pub struct ChangeView {
    pub name: Seq<char>,
    pub old: Option<Seq<char>>,
    pub new: Option<Seq<char>>,
    pub security: bool,
}

impl View for Change {
    type V = ChangeView;

    open spec fn view(&self) -> ChangeView {
        ChangeView {
            name: self.name@,
            old: opt_text(self.old),
            new: opt_text(self.new),
            security: self.security,
        }
    }
}

/// The changes as values.
pub open spec fn changes(v: Seq<Change>) -> Seq<ChangeView> {
    v.map_values(|c: Change| c@)
}

pub broadcast proof fn lemma_changes_push(v: Seq<Change>, c: Change)
    ensures
        #[trigger] changes(v.push(c)) == changes(v).push(c@),
{
    assert(changes(v.push(c)) =~= changes(v).push(c@));
}

/// What apt would install and remove.
#[derive(Debug)]
pub struct Transaction {
    pub install: Vec<Change>,
    pub remove: Vec<Change>,
}

#[verifier::ext_equal]
pub struct TransactionView {
    pub install: Seq<ChangeView>,
    pub remove: Seq<ChangeView>,
}

impl View for Transaction {
    type V = TransactionView;

    open spec fn view(&self) -> TransactionView {
        TransactionView { install: changes(self.install@), remove: changes(self.remove@) }
    }
}

impl Default for Transaction {
    /// The transaction that changes nothing.
    fn default() -> (r: Self)
        ensures
            r@.install.len() == 0,
            r@.remove.len() == 0,
    {
        Transaction { install: Vec::new(), remove: Vec::new() }
    }
}

impl Transaction {
    /// Whether nothing is installed or removed.
    pub fn is_empty(&self) -> (r: bool)
        ensures
            r == (self@.install.len() == 0 && self@.remove.len() == 0),
    {
        self.install.len() == 0 && self.remove.len() == 0
    }
}

/// State-changing commands are for root only.
pub fn ensure_root(root: bool) -> (r: Result<(), String>)
    ensures
        match r {
            Ok(()) => root,
            Err(e) => !root && e@
                == "this operation requires root privileges — try: sudo wrapt ..."@,
        },
{
    if root {
        Ok(())
    } else {
        Err("this operation requires root privileges — try: sudo wrapt ...".to_owned())
    }
}

/// What a finished command left behind.
#[derive(Debug)]
pub struct Output {
    pub success: bool,
    pub stdout: String,
    pub stderr: String,
}

impl Output {
    /// What a command left behind, read from the bytes that it wrote.
    pub fn captured(success: bool, stdout: &[u8], stderr: &[u8]) -> (r: Output)
        ensures
            r.success == success,
            r.stdout@ == lossy_text(stdout@),
            r.stderr@ == lossy_text(stderr@),
            valid_utf8(stdout@) ==> r.stdout@ == decode_utf8(stdout@),
            valid_utf8(stderr@) ==> r.stderr@ == decode_utf8(stderr@),
    {
        Output { success, stdout: decode_lossy(stdout), stderr: decode_lossy(stderr) }
    }
}

// ---------------------------------------------------------------------------
// Errors
// ---------------------------------------------------------------------------

/// What stands behind `prefix` in the lines that begin with it.
pub open spec fn lines_after(ls: Seq<Seq<char>>, prefix: Seq<char>) -> Seq<Seq<char>>
    decreases ls.len(),
{
    if ls.len() == 0 {
        seq![]
    } else {
        let before = lines_after(ls.drop_last(), prefix);
        match after_prefix(ls.last(), prefix) {
            Some(rest) => before.push(rest),
            None => before,
        }
    }
}

/// The error lines of apt, or all it said where it marked none.
pub open spec fn apt_error_text(stderr: Seq<char>) -> Seq<char> {
    let errors = lines_after(lines(stderr), "E: "@);
    if errors.len() == 0 {
        stderr
    } else {
        join(errors, "\n"@)
    }
}

/// What stands behind `prefix` in the lines that begin with it.
pub fn after_in_lines(ls: &Vec<&[char]>, prefix: &str) -> (r: Vec<String>)
    ensures
        texts(r@) == lines_after(pieces(ls@), prefix@),
{
    broadcast use lemma_texts_push;

    let ghost all = pieces(ls@);
    let mut out: Vec<String> = Vec::new();
    let mut i: usize = 0;
    assert(all.take(0) =~= seq![]);
    assert(texts(out@) =~= seq![]);
    while i < ls.len()
        invariant
            all == pieces(ls@),
            i <= ls@.len(),
            texts(out@) == lines_after(all.take(i as int), prefix@),
        decreases ls@.len() - i,
    {
        broadcast use lemma_texts_push;

        assert(all.take(i + 1).drop_last() =~= all.take(i as int));
        assert(all.take(i + 1).last() == ls@[i as int]@);
        if let Some(rest) = strip(ls[i], prefix) {
            out.push(string_of(rest));
        }
        i += 1;
    }
    assert(all.take(all.len() as int) =~= all);
    out
}

/// The message in apt's "E: ..." lines, or all it said where there are none.
pub fn apt_error(stderr: &str) -> (r: String)
    ensures
        r@ == apt_error_text(stderr@),
{
    let chars = chars_of(stderr);
    let ls = lines_of(chars.as_slice());
    let errors = after_in_lines(&ls, "E: ");
    assert(texts(errors@).len() == errors@.len());
    if errors.len() == 0 {
        stderr.to_owned()
    } else {
        join_strings(&errors, "\n")
    }
}

// ---------------------------------------------------------------------------
// Simulations
// ---------------------------------------------------------------------------

/// Some text holds `-security`.
pub open spec fn names_security(v: Seq<Seq<char>>) -> bool {
    exists|i: int| 0 <= i < v.len() && has_text(#[trigger] v[i], "-security"@)
}

/// The installed version that the words behind a name begin with: `[1.0]`.
pub open spec fn old_version(rest: Seq<Seq<char>>) -> Option<Seq<char>> {
    if rest.len() == 0 {
        None
    } else {
        match after_prefix(rest[0], "["@) {
            Some(v) => Some(trim_end_char(v, ']')),
            None => None,
        }
    }
}

/// The change of `Inst <name> [<old>] (<new> <origin> [<arch>])`.
pub open spec fn install_change(tokens: Seq<Seq<char>>) -> ChangeView {
    let name = if tokens.len() > 1 {
        tokens[1]
    } else {
        ""@
    };
    let rest = if tokens.len() > 2 {
        tokens.skip(2)
    } else {
        seq![]
    };
    let old = old_version(rest);
    let later = if old is Some {
        rest.skip(1)
    } else {
        rest
    };
    ChangeView {
        name,
        old,
        new: if later.len() > 0 {
            after_prefix(later[0], "("@)
        } else {
            None
        },
        security: names_security(later),
    }
}

/// The change of `Remv <name> [<old>]`.
pub open spec fn remove_change(tokens: Seq<Seq<char>>) -> ChangeView {
    ChangeView {
        name: if tokens.len() > 1 {
            tokens[1]
        } else {
            ""@
        },
        old: if tokens.len() > 2 {
            Some(trim_end_char(trim_start_char(tokens[2], '['), ']'))
        } else {
            None
        },
        new: None,
        security: false,
    }
}

/// The transaction that the lines of a simulation tell of.
pub open spec fn simulated(ls: Seq<Seq<char>>) -> TransactionView
    decreases ls.len(),
{
    if ls.len() == 0 {
        TransactionView { install: seq![], remove: seq![] }
    } else {
        let before = simulated(ls.drop_last());
        let tokens = words(ls.last());
        if tokens.len() > 0 && tokens[0] == "Inst"@ {
            TransactionView { install: before.install.push(install_change(tokens)), ..before }
        } else if tokens.len() > 0 && tokens[0] == "Remv"@ {
            TransactionView { remove: before.remove.push(remove_change(tokens)), ..before }
        } else {
            before
        }
    }
}

fn security_from(tokens: &Vec<&[char]>, from: usize) -> (r: bool)
    requires
        from <= tokens@.len(),
    ensures
        r == names_security(pieces(tokens@).skip(from as int)),
{
    let ghost all = pieces(tokens@);
    let mut i: usize = from;
    while i < tokens.len()
        invariant
            from <= i <= tokens@.len(),
            all == pieces(tokens@),
            forall|k: int| from <= k < i ==> !has_text(#[trigger] all[k], "-security"@),
        decreases tokens@.len() - i,
    {
        assert(all[i as int] == tokens@[i as int]@);
        if holds(tokens[i], "-security") {
            assert(all.skip(from as int)[i - from] == all[i as int]);
            return true;
        }
        i += 1;
    }
    assert forall|k: int| 0 <= k < all.skip(from as int).len() implies !has_text(
        #[trigger] all.skip(from as int)[k],
        "-security"@,
    ) by {
        assert(all.skip(from as int)[k] == all[k + from]);
    }
    false
}

fn read_install(tokens: &Vec<&[char]>) -> (c: Change)
    requires
        tokens@.len() > 0,
    ensures
        c@ == install_change(pieces(tokens@)),
{
    let ghost ts = pieces(tokens@);
    assert(forall|k: int| 0 <= k < ts.len() ==> #[trigger] ts[k] == tokens@[k]@);
    if tokens.len() == 1 {
        assert(!names_security(Seq::<Seq<char>>::empty()));
        return Change { name: "".to_owned(), old: None, new: None, security: false };
    }
    let name = string_of(tokens[1]);
    if tokens.len() == 2 {
        assert(!names_security(Seq::<Seq<char>>::empty()));
        return Change { name, old: None, new: None, security: false };
    }
    let ghost rest = ts.skip(2);
    assert(rest[0] == ts[2]);
    let (old, at): (Option<String>, usize) = match strip(tokens[2], "[") {
        Some(v) => {
            assert(rest.skip(1) =~= ts.skip(3));
            (Some(string_of(trim_end_char_of(v, ']'))), 3)
        },
        None => (None, 2),
    };
    let new = if at < tokens.len() {
        match strip(tokens[at], "(") {
            Some(v) => Some(string_of(v)),
            None => None,
        }
    } else {
        None
    };
    Change { name, old, new, security: security_from(tokens, at) }
}

fn read_removal(tokens: &Vec<&[char]>) -> (c: Change)
    requires
        tokens@.len() > 0,
    ensures
        c@ == remove_change(pieces(tokens@)),
{
    let ghost ts = pieces(tokens@);
    assert(forall|k: int| 0 <= k < ts.len() ==> #[trigger] ts[k] == tokens@[k]@);
    let name = if tokens.len() > 1 {
        string_of(tokens[1])
    } else {
        "".to_owned()
    };
    let old = if tokens.len() > 2 {
        Some(string_of(trim_end_char_of(trim_start_char_of(tokens[2], '['), ']')))
    } else {
        None
    };
    Change { name, old, new: None, security: false }
}

/// The transaction that `apt-get -s` tells of, or its error message.
pub fn simulate(out: &Output) -> (r: Result<Transaction, String>)
    ensures
        match r {
            Ok(tx) => out.success && tx@ == simulated(lines(out.stdout@)),
            Err(e) => !out.success && e@ == apt_error_text(out.stderr@),
        },
{
    if !out.success {
        return Err(apt_error(out.stderr.as_str()));
    }
    let chars = chars_of(out.stdout.as_str());
    let ls = lines_of(chars.as_slice());
    let ghost all = pieces(ls@);
    let mut install: Vec<Change> = Vec::new();
    let mut remove: Vec<Change> = Vec::new();
    let mut i: usize = 0;
    assert(all.take(0) =~= seq![]);
    assert(changes(install@) =~= seq![]);
    while i < ls.len()
        invariant
            all == pieces(ls@),
            i <= ls@.len(),
            changes(install@) == simulated(all.take(i as int)).install,
            changes(remove@) == simulated(all.take(i as int)).remove,
        decreases ls@.len() - i,
    {
        broadcast use lemma_changes_push;

        assert(all.take(i + 1).drop_last() =~= all.take(i as int));
        assert(all.take(i + 1).last() == ls@[i as int]@);
        let tokens = words_of(ls[i]);
        let ghost ts = pieces(tokens@);
        if tokens.len() > 0 {
            assert(ts[0] == tokens@[0]@);
            if reads(tokens[0], "Inst") {
                install.push(read_install(&tokens));
            } else if reads(tokens[0], "Remv") {
                remove.push(read_removal(&tokens));
            }
        }
        i += 1;
    }
    assert(all.take(all.len() as int) =~= all);
    Ok(Transaction { install, remove })
}

// ---------------------------------------------------------------------------
// Disk usage
// ---------------------------------------------------------------------------

/// Disk usage impact of a transaction, in bytes.
pub struct DiskUsage {
    /// Total installed size of everything being installed/upgraded.
    pub installed: u64,
    /// Net change on disk once old versions/removals are accounted for.
    pub net_change: i64,
}

/// `name=version` of each change with a new version.
pub open spec fn version_specs(v: Seq<ChangeView>) -> Seq<Seq<char>>
    decreases v.len(),
{
    if v.len() == 0 {
        seq![]
    } else {
        let before = version_specs(v.drop_last());
        match v.last().new {
            Some(n) => before.push(v.last().name + "="@ + n),
            None => before,
        }
    }
}

/// The names of the changes that replace a version.
pub open spec fn replaced_names(v: Seq<ChangeView>) -> Seq<Seq<char>>
    decreases v.len(),
{
    if v.len() == 0 {
        seq![]
    } else if v.last().old is Some {
        replaced_names(v.drop_last()).push(v.last().name)
    } else {
        replaced_names(v.drop_last())
    }
}

/// The names of changes.
pub open spec fn change_names(v: Seq<ChangeView>) -> Seq<Seq<char>> {
    v.map_values(|c: ChangeView| c.name)
}

/// A count of KiB, 0 where the text is none.
pub open spec fn kib(s: Seq<char>) -> nat {
    match unsigned_up_to(trim(s), u64::MAX as nat) {
        Some(n) => n,
        None => 0,
    }
}

/// The size in KiB that a package record states first.
pub open spec fn record_kib(ls: Seq<Seq<char>>) -> nat
    decreases ls.len(),
{
    if ls.len() == 0 {
        0
    } else {
        match after_prefix(ls[0], "Installed-Size: "@) {
            Some(v) => kib(v),
            None => record_kib(ls.skip(1)),
        }
    }
}

/// The sizes in bytes that the records state, together.
pub open spec fn records_bytes(records: Seq<Seq<char>>) -> nat
    decreases records.len(),
{
    if records.len() == 0 {
        0
    } else {
        records_bytes(records.drop_last()) + record_kib(lines(records.last())) * 1024
    }
}

/// The bytes that `apt-cache show` states for its packages.
pub open spec fn shown_bytes(text: Seq<char>) -> nat {
    records_bytes(split_by(text, "\n\n"@))
}

/// The bytes that lines of KiB add up to.
pub open spec fn listed_bytes(ls: Seq<Seq<char>>) -> nat
    decreases ls.len(),
{
    if ls.len() == 0 {
        0
    } else {
        listed_bytes(ls.drop_last()) + kib(ls.last()) * 1024
    }
}

/// The packages whose sizes `apt-cache show` is asked for.
pub fn install_specs(tx: &Transaction) -> (r: Vec<String>)
    ensures
        texts(r@) == version_specs(tx@.install),
{
    let ghost all = tx@.install;
    let mut out: Vec<String> = Vec::new();
    let mut i: usize = 0;
    assert(all.take(0) =~= seq![]);
    assert(texts(out@) =~= seq![]);
    while i < tx.install.len()
        invariant
            all == changes(tx.install@),
            i <= tx.install@.len(),
            texts(out@) == version_specs(all.take(i as int)),
        decreases tx.install@.len() - i,
    {
        broadcast use lemma_texts_push;

        assert(all.take(i + 1).drop_last() =~= all.take(i as int));
        assert(all.take(i + 1).last() == tx.install@[i as int]@);
        let c = &tx.install[i];
        if let Some(n) = &c.new {
            out.push(cat3(c.name.as_str(), "=", n.as_str()));
        }
        i += 1;
    }
    assert(all.take(all.len() as int) =~= all);
    out
}

/// The packages whose installed sizes `dpkg-query` is asked for.
pub fn old_names(tx: &Transaction) -> (r: Vec<String>)
    ensures
        texts(r@) == replaced_names(tx@.install) + change_names(tx@.remove),
{
    let ghost all = tx@.install;
    let mut out: Vec<String> = Vec::new();
    let mut i: usize = 0;
    assert(all.take(0) =~= seq![]);
    assert(texts(out@) =~= seq![]);
    while i < tx.install.len()
        invariant
            all == changes(tx.install@),
            i <= tx.install@.len(),
            texts(out@) == replaced_names(all.take(i as int)),
        decreases tx.install@.len() - i,
    {
        broadcast use lemma_texts_push;

        assert(all.take(i + 1).drop_last() =~= all.take(i as int));
        assert(all.take(i + 1).last() == tx.install@[i as int]@);
        let c = &tx.install[i];
        if c.old.is_some() {
            out.push(c.name.clone());
        }
        i += 1;
    }
    assert(all.take(all.len() as int) =~= all);
    let ghost first = texts(out@);
    let ghost gone = tx@.remove;
    let mut j: usize = 0;
    assert(first + change_names(gone.take(0)) =~= first);
    while j < tx.remove.len()
        invariant
            gone == changes(tx.remove@),
            j <= tx.remove@.len(),
            texts(out@) == first + change_names(gone.take(j as int)),
        decreases tx.remove@.len() - j,
    {
        broadcast use lemma_texts_push;

        assert(gone[j as int] == tx.remove@[j as int]@);
        out.push(tx.remove[j].name.clone());
        assert(texts(out@) =~= first + change_names(gone.take(j + 1)));
        j += 1;
    }
    assert(gone.take(gone.len() as int) =~= gone);
    out
}

fn kib_of(s: &[char]) -> (r: u64)
    ensures
        r == kib(s@),
{
    match parse_u64(trim_of(s)) {
        Some(n) => n,
        None => 0,
    }
}

fn record_kib_of(ls: &Vec<&[char]>) -> (r: u64)
    ensures
        r == record_kib(pieces(ls@)),
{
    let ghost all = pieces(ls@);
    let mut i: usize = 0;
    assert(all.skip(0) =~= all);
    while i < ls.len()
        invariant
            all == pieces(ls@),
            i <= ls@.len(),
            record_kib(all) == record_kib(all.skip(i as int)),
        decreases ls@.len() - i,
    {
        assert(all.skip(i as int)[0] == ls@[i as int]@);
        assert(all.skip(i as int).skip(1) =~= all.skip(i + 1));
        if let Some(v) = strip(ls[i], "Installed-Size: ") {
            return kib_of(v);
        }
        i += 1;
    }
    0
}

/// `total` and 1024 times `n` together, where that can be counted.
fn add_kib(total: u64, n: u64) -> (r: Option<u64>)
    ensures
        match r {
            Some(t) => t == total + n * 1024,
            None => total + n * 1024 > u64::MAX,
        },
{
    match n.checked_mul(1024) {
        Some(b) => total.checked_add(b),
        None => None,
    }
}

fn records_total(records: &Vec<&[char]>) -> (r: Option<u64>)
    ensures
        match r {
            Some(n) => n == records_bytes(pieces(records@)),
            None => records_bytes(pieces(records@)) > u64::MAX,
        },
{
    let ghost all = pieces(records@);
    let mut total: u64 = 0;
    let mut i: usize = 0;
    while i < records.len()
        invariant
            all == pieces(records@),
            i <= records@.len(),
            total == records_bytes(all.take(i as int)),
        decreases records@.len() - i,
    {
        assert(all.take(i + 1).drop_last() =~= all.take(i as int));
        assert(all.take(i + 1).last() == records@[i as int]@);
        let ls = lines_of(records[i]);
        match add_kib(total, record_kib_of(&ls)) {
            Some(n) => {
                total = n;
            },
            None => {
                proof {
                    lemma_records_grow(all, i + 1);
                }
                return None;
            },
        }
        i += 1;
    }
    assert(all.take(all.len() as int) =~= all);
    Some(total)
}

proof fn lemma_records_grow(v: Seq<Seq<char>>, k: int)
    requires
        0 <= k <= v.len(),
    ensures
        records_bytes(v.take(k)) <= records_bytes(v),
    decreases v.len() - k,
{
    if k < v.len() {
        lemma_records_grow(v, k + 1);
        assert(v.take(k + 1).drop_last() =~= v.take(k));
    } else {
        assert(v.take(k) =~= v);
    }
}

proof fn lemma_listed_grow(v: Seq<Seq<char>>, k: int)
    requires
        0 <= k <= v.len(),
    ensures
        listed_bytes(v.take(k)) <= listed_bytes(v),
    decreases v.len() - k,
{
    if k < v.len() {
        lemma_listed_grow(v, k + 1);
        assert(v.take(k + 1).drop_last() =~= v.take(k));
    } else {
        assert(v.take(k) =~= v);
    }
}

/// The bytes that `apt-cache show` states for its packages, where they can be
/// counted.
pub fn shown_total(text: &str) -> (r: Option<u64>)
    ensures
        match r {
            Some(n) => n == shown_bytes(text@),
            None => shown_bytes(text@) > u64::MAX,
        },
{
    proof {
        reveal_strlit("\n\n");
    }
    let chars = chars_of(text);
    let records = split_at_text(chars.as_slice(), "\n\n");
    records_total(&records)
}

/// The bytes that lines of KiB add up to, where they can be counted.
pub fn listed_total(text: &str) -> (r: Option<u64>)
    ensures
        match r {
            Some(n) => n == listed_bytes(lines(text@)),
            None => listed_bytes(lines(text@)) > u64::MAX,
        },
{
    let chars = chars_of(text);
    let ls = lines_of(chars.as_slice());
    let ghost all = pieces(ls@);
    let mut total: u64 = 0;
    let mut i: usize = 0;
    while i < ls.len()
        invariant
            all == pieces(ls@),
            all == lines(text@),
            i <= ls@.len(),
            total == listed_bytes(all.take(i as int)),
        decreases ls@.len() - i,
    {
        assert(all.take(i + 1).drop_last() =~= all.take(i as int));
        assert(all.take(i + 1).last() == ls@[i as int]@);
        match add_kib(total, kib_of(ls[i])) {
            Some(n) => {
                total = n;
            },
            None => {
                proof {
                    lemma_listed_grow(all, i + 1);
                }
                return None;
            },
        }
        i += 1;
    }
    assert(all.take(all.len() as int) =~= all);
    Some(total)
}

/// The bytes that are installed: none where no package is asked about.
pub open spec fn installed_bytes(tx: TransactionView, show: Option<Seq<char>>) -> nat {
    match show {
        Some(t) => if version_specs(tx.install).len() > 0 {
            shown_bytes(t)
        } else {
            0
        },
        None => 0,
    }
}

/// The bytes of the versions that are replaced or removed.
pub open spec fn replaced_bytes(tx: TransactionView, sizes: Option<Seq<char>>) -> nat {
    match sizes {
        Some(t) => if replaced_names(tx.install).len() + tx.remove.len() > 0 {
            listed_bytes(lines(t))
        } else {
            0
        },
        None => 0,
    }
}

/// The disk usage impact of a transaction. `show` is what `apt-cache show` says
/// of the packages in [`install_specs`], `sizes` what `dpkg-query` says of those
/// in [`old_names`]; either may have failed. Without what is asked of
/// `apt-cache` the impact is unknown.
pub fn disk_usage(tx: &Transaction, show: Option<&str>, sizes: Option<&str>) -> (r: Option<
    DiskUsage,
>)
    requires
        installed_bytes(tx@, opt_str(show)) <= i64::MAX,
        replaced_bytes(tx@, opt_str(sizes)) <= i64::MAX,
    ensures
        match r {
            Some(d) => (version_specs(tx@.install).len() == 0 || show is Some) && d.installed
                == installed_bytes(tx@, opt_str(show)) && d.net_change == installed_bytes(
                tx@,
                opt_str(show),
            ) - replaced_bytes(tx@, opt_str(sizes)),
            None => version_specs(tx@.install).len() > 0 && show is None,
        },
{
    let specs = install_specs(tx);
    assert(texts(specs@).len() == specs@.len());
    let mut installed: u64 = 0;
    if specs.len() > 0 {
        match show {
            Some(t) => {
                match shown_total(t) {
                    Some(n) => {
                        installed = n;
                    },
                    None => {},
                }
            },
            None => {
                return None;
            },
        }
    }
    let names = old_names(tx);
    assert(texts(names@).len() == names@.len());
    let mut old_size: u64 = 0;
    if names.len() > 0 {
        if let Some(t) = sizes {
            match listed_total(t) {
                Some(n) => {
                    old_size = n;
                },
                None => {},
            }
        }
    }
    Some(DiskUsage { installed, net_change: installed as i64 - old_size as i64 })
}

/// As [`disk_usage`], but tells by `None` of an impact that cannot be counted.
pub fn try_disk_usage(tx: &Transaction, show: Option<&str>, sizes: Option<&str>) -> (r: Option<
    Option<DiskUsage>,
>)
    ensures
        r is None <==> installed_bytes(tx@, opt_str(show)) > i64::MAX || replaced_bytes(
            tx@,
            opt_str(sizes),
        ) > i64::MAX,
        r matches Some(d) ==> match d {
            Some(d) => (version_specs(tx@.install).len() == 0 || show is Some) && d.installed
                == installed_bytes(tx@, opt_str(show)) && d.net_change == installed_bytes(
                tx@,
                opt_str(show),
            ) - replaced_bytes(tx@, opt_str(sizes)),
            None => version_specs(tx@.install).len() > 0 && show is None,
        },
{
    let specs = install_specs(tx);
    assert(texts(specs@).len() == specs@.len());
    if specs.len() > 0 {
        if let Some(t) = show {
            match shown_total(t) {
                Some(n) => {
                    if n > i64::MAX as u64 {
                        return None;
                    }
                },
                None => {
                    return None;
                },
            }
        }
    }
    let names = old_names(tx);
    assert(texts(names@).len() == names@.len());
    if names.len() > 0 {
        if let Some(t) = sizes {
            match listed_total(t) {
                Some(n) => {
                    if n > i64::MAX as u64 {
                        return None;
                    }
                },
                None => {
                    return None;
                },
            }
        }
    }
    Some(disk_usage(tx, show, sizes))
}

// ---------------------------------------------------------------------------
// Downloads
// ---------------------------------------------------------------------------

/// The checksum that a word such as `SHA256:0abc` states.
pub open spec fn stated_hash(token: Seq<char>) -> Option<HashView> {
    match cut(token, ":"@) {
        Some((kind, digits)) => if kind == "SHA256"@ {
            Some(HashView::Sha256(lowercase(digits)))
        } else if kind == "MD5Sum"@ {
            Some(HashView::Md5(lowercase(digits)))
        } else {
            None
        },
        None => None,
    }
}

/// The download of a line `'<url>' <file> <size> <checksum>`.
pub open spec fn line_item(line: Seq<char>) -> Option<ItemView> {
    let t = words(line);
    if t.len() < 3 || !has_prefix(t[0], "'"@) {
        None
    } else {
        Some(
            ItemView {
                url: trim_char(t[0], '\''),
                filename: t[1],
                size: match unsigned_up_to(t[2], u64::MAX as nat) {
                    Some(n) => n as u64,
                    None => 0,
                },
                hash: if t.len() > 3 {
                    stated_hash(t[3])
                } else {
                    None
                },
            },
        )
    }
}

/// The downloads of the lines that tell of one.
pub open spec fn line_items(ls: Seq<Seq<char>>) -> Seq<ItemView>
    decreases ls.len(),
{
    if ls.len() == 0 {
        seq![]
    } else {
        let before = line_items(ls.drop_last());
        match line_item(ls.last()) {
            Some(i) => before.push(i),
            None => before,
        }
    }
}

fn read_hash(token: &[char]) -> (r: Option<ExpectedHash>)
    ensures
        opt_hash(r) == stated_hash(token@),
{
    match cut_at(token, ":") {
        Some((kind, digits)) => {
            if reads(kind, "SHA256") {
                Some(ExpectedHash::Sha256(string_of(digits).as_str().to_lowercase()))
            } else if reads(kind, "MD5Sum") {
                Some(ExpectedHash::Md5(string_of(digits).as_str().to_lowercase()))
            } else {
                None
            }
        },
        None => None,
    }
}

fn read_item(line: &[char]) -> (r: Option<DownloadItem>)
    ensures
        match r {
            Some(i) => line_item(line@) == Some(i@),
            None => line_item(line@) is None,
        },
{
    let t = words_of(line);
    let ghost ts = pieces(t@);
    assert(forall|k: int| 0 <= k < ts.len() ==> #[trigger] ts[k] == t@[k]@);
    if t.len() < 3 {
        return None;
    }
    if !starts(t[0], "'") {
        return None;
    }
    let hash = if t.len() > 3 {
        read_hash(t[3])
    } else {
        None
    };
    let size: u64 = match parse_u64(t[2]) {
        Some(n) => n,
        None => 0,
    };
    Some(
        DownloadItem {
            url: string_of(trim_char_of(t[0], '\'')),
            filename: string_of(t[1]),
            size,
            hash,
        },
    )
}

/// The packages that `apt-get --print-uris` would download, or its error
/// message.
pub fn print_uris(out: &Output) -> (r: Result<Vec<DownloadItem>, String>)
    ensures
        match r {
            Ok(v) => out.success && items(v@) == line_items(lines(out.stdout@)),
            Err(e) => !out.success && e@ == apt_error_text(out.stderr@),
        },
{
    if !out.success {
        return Err(apt_error(out.stderr.as_str()));
    }
    let chars = chars_of(out.stdout.as_str());
    let ls = lines_of(chars.as_slice());
    let ghost all = pieces(ls@);
    let mut v: Vec<DownloadItem> = Vec::new();
    let mut i: usize = 0;
    assert(all.take(0) =~= seq![]);
    assert(items(v@) =~= seq![]);
    while i < ls.len()
        invariant
            all == pieces(ls@),
            i <= ls@.len(),
            items(v@) == line_items(all.take(i as int)),
        decreases ls@.len() - i,
    {
        broadcast use lemma_items_push;

        assert(all.take(i + 1).drop_last() =~= all.take(i as int));
        assert(all.take(i + 1).last() == ls@[i as int]@);
        if let Some(item) = read_item(ls[i]) {
            v.push(item);
        }
        i += 1;
    }
    assert(all.take(all.len() as int) =~= all);
    Ok(v)
}

// ---------------------------------------------------------------------------
// Refreshing the package lists
// ---------------------------------------------------------------------------

/// How a line of `apt-get update` is shown; other lines are not.
pub open spec fn update_text(color: bool, line: Seq<char>) -> Option<Seq<char>> {
    match cut(line, " "@) {
        Some((tag, rest)) => {
            let kind = split(tag, ':')[0];
            if kind == "Hit"@ {
                Some("  "@ + bold_text(color, green_text(color, "✓"@)) + " "@ + dim_text(color, rest))
            } else if kind == "Get"@ {
                Some("  "@ + bold_text(color, cyan_text(color, "↓"@)) + " "@ + rest)
            } else if kind == "Ign"@ {
                Some("  "@ + bold_text(color, yellow_text(color, "–"@)) + " "@ + dim_text(color, rest))
            } else if kind == "Err"@ {
                Some("  "@ + bold_text(color, red_text(color, "✗"@)) + " "@ + rest)
            } else {
                None
            }
        },
        None => None,
    }
}

/// How a line of `apt-get update` is shown, if it is.
pub fn update_line(color: bool, line: &str) -> (r: Option<String>)
    ensures
        opt_text(r) == update_text(color, line@),
{
    let chars = chars_of(line);
    match cut_at(chars.as_slice(), " ") {
        Some((tag, rest)) => {
            let parts = split_at_char(tag, ':');
            assert(pieces(parts@)[0] == parts@[0]@);
            let kind = parts[0];
            let text = string_of(rest);
            if reads(kind, "Hit") {
                let shown = ui::dimmed(color, text.as_str());
                Some(cat4("  ", ui::bold_green(color, "✓").as_str(), " ", shown.as_str()))
            } else if reads(kind, "Get") {
                Some(cat4("  ", ui::bold_cyan(color, "↓").as_str(), " ", text.as_str()))
            } else if reads(kind, "Ign") {
                let shown = ui::dimmed(color, text.as_str());
                Some(cat4("  ", ui::bold_yellow(color, "–").as_str(), " ", shown.as_str()))
            } else if reads(kind, "Err") {
                Some(cat4("  ", ui::bold_red(color, "✗").as_str(), " ", text.as_str()))
            } else {
                None
            }
        },
        None => None,
    }
}

fn after_in_strings(ls: &Vec<String>, prefix: &str) -> (r: Vec<String>)
    ensures
        texts(r@) == lines_after(texts(ls@), prefix@),
{
    let ghost all = texts(ls@);
    let mut out: Vec<String> = Vec::new();
    let mut i: usize = 0;
    assert(all.take(0) =~= seq![]);
    assert(texts(out@) =~= seq![]);
    while i < ls.len()
        invariant
            all == texts(ls@),
            i <= ls@.len(),
            texts(out@) == lines_after(all.take(i as int), prefix@),
        decreases ls@.len() - i,
    {
        broadcast use lemma_texts_push;

        assert(all.take(i + 1).drop_last() =~= all.take(i as int));
        assert(all.take(i + 1).last() == ls@[i as int]@);
        let chars = chars_of(ls[i].as_str());
        if let Some(rest) = strip(chars.as_slice(), prefix) {
            out.push(string_of(rest));
        }
        i += 1;
    }
    assert(all.take(all.len() as int) =~= all);
    out
}

/// What is left to say when `apt-get update` is done: its warnings, and the
/// error message where it failed.
pub fn update_result(stderr_lines: &Vec<String>, success: bool) -> (r: (
    Vec<String>,
    Result<(), String>,
))
    ensures
        texts(r.0@) == lines_after(texts(stderr_lines@), "W: "@),
        match r.1 {
            Ok(_) => success,
            Err(e) => !success && e@ == join(lines_after(texts(stderr_lines@), "E: "@), "\n"@),
        },
{
    let warnings = after_in_strings(stderr_lines, "W: ");
    if success {
        return (warnings, Ok(()));
    }
    let errors = after_in_strings(stderr_lines, "E: ");
    (warnings, Err(join_strings(&errors, "\n")))
}

// ---------------------------------------------------------------------------
// Installed, held and manual packages
// ---------------------------------------------------------------------------

/// The line tells that a package of this name is installed; the name of
/// `name:arch` counts with and without the architecture.
pub open spec fn tells_installed(line: Seq<char>, name: Seq<char>) -> bool {
    match after_prefix(line, "installed "@) {
        Some(pkg) => pkg == name || (cut(pkg, ":"@) matches Some((n, _)) && n == name),
        None => false,
    }
}

/// Some line tells that a package of this name is installed.
pub open spec fn told_installed(ls: Seq<Seq<char>>, name: Seq<char>) -> bool {
    exists|i: int| 0 <= i < ls.len() && tells_installed(#[trigger] ls[i], name)
}

/// Names of all currently installed packages (both plain and name:arch forms),
/// from the lines `<state> <package>` of `dpkg-query`.
pub fn installed_set(text: &str) -> (s: Names)
    ensures
        forall|n: Seq<char>| #[trigger] s@.contains(n) <==> told_installed(lines(text@), n),
{
    let chars = chars_of(text);
    let ls = lines_of(chars.as_slice());
    let ghost all = pieces(ls@);
    let mut s = Names::new();
    let mut i: usize = 0;
    while i < ls.len()
        invariant
            all == pieces(ls@),
            i <= ls@.len(),
            forall|n: Seq<char>| #[trigger]
                s@.contains(n) <==> told_installed(all.take(i as int), n),
        decreases ls@.len() - i,
    {
        let ghost before = s@;
        let ghost line = all[i as int];
        assert(line == ls@[i as int]@);
        if let Some(pkg) = strip(ls[i], "installed ") {
            s.insert(string_of(pkg));
            if let Some((name, _)) = cut_at(pkg, ":") {
                s.insert(string_of(name));
            }
        }
        proof {
            assert forall|n: Seq<char>| #[trigger]
                s@.contains(n) <==> told_installed(all.take(i + 1), n) by {
                lemma_told_push(all.take(i as int), line, n);
                assert(all.take(i + 1) =~= all.take(i as int).push(line));
                assert(before.contains(n) <==> told_installed(all.take(i as int), n));
            }
        }
        i += 1;
    }
    assert(all.take(all.len() as int) =~= all);
    s
}

proof fn lemma_told_push(ls: Seq<Seq<char>>, line: Seq<char>, name: Seq<char>)
    ensures
        told_installed(ls.push(line), name) <==> told_installed(ls, name) || tells_installed(
            line,
            name,
        ),
{
    let more = ls.push(line);
    if told_installed(ls, name) {
        let i = choose|i: int| 0 <= i < ls.len() && tells_installed(#[trigger] ls[i], name);
        assert(more[i] == ls[i]);
    }
    if tells_installed(line, name) {
        assert(more[ls.len() as int] == line);
    }
    if told_installed(more, name) && !tells_installed(line, name) {
        let i = choose|i: int| 0 <= i < more.len() && tells_installed(#[trigger] more[i], name);
        assert(ls[i] == more[i]);
    }
}

/// The action of `apt-mark` that sets or releases a hold.
pub fn hold_action(hold: bool) -> (r: &'static str)
    ensures
        r@ == if hold {
            "hold"@
        } else {
            "unhold"@
        },
{
    if hold {
        "hold"
    } else {
        "unhold"
    }
}

/// The lines that `apt-mark hold` or `unhold` printed, one for each package that
/// it changed, or its error message.
pub fn set_hold(out: &Output) -> (r: Result<Vec<String>, String>)
    ensures
        match r {
            Ok(v) => out.success && texts(v@) == lines(out.stdout@),
            Err(e) => !out.success && e@ == apt_error_text(out.stderr@),
        },
{
    if !out.success {
        return Err(apt_error(out.stderr.as_str()));
    }
    let chars = chars_of(out.stdout.as_str());
    let ls = lines_of(chars.as_slice());
    Ok(strings_of(&ls))
}

/// Packages currently held, from the text of `apt-mark showhold` if it could be
/// run.
pub fn held(text: Option<&str>) -> (r: Vec<String>)
    ensures
        texts(r@) == match text {
            Some(t) => lines(t@),
            None => seq![],
        },
{
    match text {
        Some(t) => {
            let chars = chars_of(t);
            let ls = lines_of(chars.as_slice());
            strings_of(&ls)
        },
        None => {
            let none: Vec<String> = Vec::new();
            assert(texts(none@) =~= seq![]);
            none
        },
    }
}

/// The packages that lines of `apt-mark` name, without their architectures.
pub open spec fn marked_names(ls: Seq<Seq<char>>) -> Seq<Seq<char>> {
    ls.map_values(|l: Seq<char>| trim(split(l, ':')[0]))
}

/// Names that apt considers manually installed, from the text of
/// `apt-mark showmanual`.
pub fn manual_set(text: &str) -> (s: Names)
    ensures
        s@ == marked_names(lines(text@)).to_set(),
{
    let chars = chars_of(text);
    let ls = lines_of(chars.as_slice());
    let ghost all = pieces(ls@);
    let mut names: Vec<String> = Vec::new();
    let mut i: usize = 0;
    assert(texts(names@) =~= marked_names(all.take(0)));
    while i < ls.len()
        invariant
            all == pieces(ls@),
            i <= ls@.len(),
            texts(names@) == marked_names(all.take(i as int)),
        decreases ls@.len() - i,
    {
        broadcast use lemma_texts_push;

        assert(all[i as int] == ls@[i as int]@);
        let parts = split_at_char(ls[i], ':');
        assert(pieces(parts@)[0] == parts@[0]@);
        names.push(string_of(trim_of(parts[0])));
        assert(texts(names@) =~= marked_names(all.take(i + 1)));
        i += 1;
    }
    assert(all.take(all.len() as int) =~= all);
    Names::of(&names)
}

/// The first of the records that `apt-cache show` printed, or its error message.
pub fn show(out: &Output) -> (r: Result<String, String>)
    ensures
        match r {
            Ok(s) => out.success && s@ == split_by(out.stdout@, "\n\n"@)[0],
            Err(e) => !out.success && e@ == apt_error_text(out.stderr@),
        },
{
    if !out.success {
        return Err(apt_error(out.stderr.as_str()));
    }
    proof {
        reveal_strlit("\n\n");
    }
    let chars = chars_of(out.stdout.as_str());
    let records = split_at_text(chars.as_slice(), "\n\n");
    assert(pieces(records@)[0] == records@[0]@);
    Ok(string_of(records[0]))
}

// ---------------------------------------------------------------------------
// Searching
// ---------------------------------------------------------------------------

/// A package that a search found.
#[derive(Debug)]
pub struct SearchResult {
    pub name: String,
    pub version: Option<String>,
    pub description: String,
    pub installed: bool,
}

pub struct ResultView {
    pub name: Seq<char>,
    pub version: Option<Seq<char>>,
    pub description: Seq<char>,
    pub installed: bool,
}

impl View for SearchResult {
    type V = ResultView;

    open spec fn view(&self) -> ResultView {
        ResultView {
            name: self.name@,
            version: opt_text(self.version),
            description: self.description@,
            installed: self.installed,
        }
    }
}

/// The results as values.
pub open spec fn results(v: Seq<SearchResult>) -> Seq<ResultView> {
    v.map_values(|r: SearchResult| r@)
}

pub broadcast proof fn lemma_results_push(v: Seq<SearchResult>, r: SearchResult)
    ensures
        #[trigger] results(v.push(r)) == results(v).push(r@),
{
    assert(results(v.push(r)) =~= results(v).push(r@));
}

/// Exact matches go first, then names that hold the query, then the others.
pub open spec fn tier(query: Seq<char>, name: Seq<char>) -> int {
    if name == query {
        0
    } else if has_text(name, query) {
        1
    } else {
        2
    }
}

/// The order of results: by tier, then by name.
pub open spec fn by_match(query: Seq<char>) -> spec_fn(ResultView, ResultView) -> bool {
    |a: ResultView, b: ResultView|
        tier(query, a.name) < tier(query, b.name) || (tier(query, a.name) == tier(query, b.name)
            && text_le(a.name, b.name))
}

struct Hit {
    tier: u8,
    result: SearchResult,
}

impl Ranked for Hit {
    closed spec fn rank_le(&self, other: &Self) -> bool {
        self.tier < other.tier || (self.tier == other.tier && text_le(
            self.result.name@,
            other.result.name@,
        ))
    }

    proof fn rank_total(a: &Self, b: &Self) {
        lemma_text_le_total(a.result.name@, b.result.name@);
    }

    proof fn rank_trans(a: &Self, b: &Self, c: &Self) {
        if a.tier == b.tier && b.tier == c.tier {
            lemma_text_le_trans(a.result.name@, b.result.name@, c.result.name@);
        }
    }

    fn at_most(&self, other: &Self) -> (r: bool) {
        self.tier < other.tier || (self.tier == other.tier && comes_first(
            self.result.name.as_str(),
            other.result.name.as_str(),
        ))
    }
}

fn copy_result(r: &SearchResult) -> (c: SearchResult)
    ensures
        c@ == r@,
{
    SearchResult {
        name: r.name.clone(),
        version: copy_option(&r.version),
        description: r.description.clone(),
        installed: r.installed,
    }
}

/// The results with the best matches first.
pub fn arrange(query: &str, v: &Vec<SearchResult>) -> (out: Vec<SearchResult>)
    ensures
        in_order(results(out@), results(v@), by_match(query@)),
{
    let mut hits: Vec<Hit> = Vec::new();
    let mut i: usize = 0;
    while i < v.len()
        invariant
            i <= v@.len(),
            hits@.len() == i,
            forall|k: int|
                0 <= k < i ==> (#[trigger] hits@[k]).result@ == v@[k]@ && hits@[k].tier == tier(
                    query@,
                    v@[k].name@,
                ),
        decreases v@.len() - i,
    {
        let chars = chars_of(v[i].name.as_str());
        let tier: u8 = if reads(chars.as_slice(), query) {
            0
        } else if holds(chars.as_slice(), query) {
            1
        } else {
            2
        };
        hits.push(Hit { tier, result: copy_result(&v[i]) });
        i += 1;
    }
    let ghost given = hits@;
    let sorted = sort(hits);
    let ghost f = |h: Hit| h.result@;
    proof {
        assert forall|a: int, b: int|
            #![trigger given[a], given[b]]
            0 <= a < given.len() && 0 <= b < given.len() implies by_rank::<Hit>()(
            given[a],
            given[b],
        ) == by_match(query@)(f(given[a]), f(given[b])) by {
            assert(given[a].result@ == v@[a]@ && given[b].result@ == v@[b]@);
        }
        lemma_in_order_mapped(sorted@, given, by_rank::<Hit>(), f, by_match(query@));
        assert(given.map_values(f) =~= results(v@));
    }
    let mut out: Vec<SearchResult> = Vec::new();
    let mut j: usize = 0;
    while j < sorted.len()
        invariant
            j <= sorted@.len(),
            out@.len() == j,
            forall|k: int| 0 <= k < j ==> (#[trigger] out@[k])@ == sorted@[k].result@,
        decreases sorted@.len() - j,
    {
        out.push(copy_result(&sorted[j].result));
        j += 1;
    }
    assert(results(out@) =~= sorted@.map_values(f));
    out
}

/// The package of a line `<name> - <description>`.
pub open spec fn line_result(line: Seq<char>, installed: Set<Seq<char>>) -> Option<ResultView> {
    match cut(line, " - "@) {
        Some((name, description)) => Some(
            ResultView { name, version: None, description, installed: installed.contains(name) },
        ),
        None => None,
    }
}

/// The packages of the lines that name one.
pub open spec fn line_results(ls: Seq<Seq<char>>, installed: Set<Seq<char>>) -> Seq<ResultView>
    decreases ls.len(),
{
    if ls.len() == 0 {
        seq![]
    } else {
        let before = line_results(ls.drop_last(), installed);
        match line_result(ls.last(), installed) {
            Some(r) => before.push(r),
            None => before,
        }
    }
}

/// What `apt-cache search` found for `query`, the best matches first, or its
/// error message.
pub fn search(query: &str, out: &Output, installed: &Names) -> (r: Result<
    Vec<SearchResult>,
    String,
>)
    ensures
        match r {
            Ok(v) => out.success && in_order(
                results(v@),
                line_results(lines(out.stdout@), installed@),
                by_match(query@),
            ),
            Err(e) => !out.success && e@ == apt_error_text(out.stderr@),
        },
{
    if !out.success {
        return Err(apt_error(out.stderr.as_str()));
    }
    let chars = chars_of(out.stdout.as_str());
    let ls = lines_of(chars.as_slice());
    let ghost all = pieces(ls@);
    let mut v: Vec<SearchResult> = Vec::new();
    let mut i: usize = 0;
    assert(all.take(0) =~= seq![]);
    assert(results(v@) =~= seq![]);
    while i < ls.len()
        invariant
            all == pieces(ls@),
            i <= ls@.len(),
            results(v@) == line_results(all.take(i as int), installed@),
        decreases ls@.len() - i,
    {
        broadcast use lemma_results_push;

        assert(all.take(i + 1).drop_last() =~= all.take(i as int));
        assert(all.take(i + 1).last() == ls@[i as int]@);
        if let Some((name, description)) = cut_at(ls[i], " - ") {
            let name = string_of(name);
            let known = installed.contains(name.as_str());
            v.push(
                SearchResult {
                    name,
                    version: None,
                    description: string_of(description),
                    installed: known,
                },
            );
        }
        i += 1;
    }
    assert(all.take(all.len() as int) =~= all);
    Ok(arrange(query, &v))
}

// ---------------------------------------------------------------------------
// Versions
// ---------------------------------------------------------------------------

/// Pairs of texts as values.
pub open spec fn pairs(v: Seq<(String, String)>) -> Seq<(Seq<char>, Seq<char>)> {
    v.map_values(|p: (String, String)| (p.0@, p.1@))
}

/// Name and version of an installed package, of the tab-separated fields state,
/// package and version.
pub open spec fn line_version(line: Seq<char>) -> Option<(Seq<char>, Seq<char>)> {
    let f = split(line, '\t');
    if f.len() >= 3 && f[0] == "installed"@ {
        Some((f[1], f[2]))
    } else {
        None
    }
}

/// Name and version of the packages that are installed.
pub open spec fn line_versions(ls: Seq<Seq<char>>) -> Seq<(Seq<char>, Seq<char>)>
    decreases ls.len(),
{
    if ls.len() == 0 {
        seq![]
    } else {
        let before = line_versions(ls.drop_last());
        match line_version(ls.last()) {
            Some(p) => before.push(p),
            None => before,
        }
    }
}

/// Name and version of every installed package, from the lines
/// `<state>\t<package>\t<version>` of `dpkg-query`.
pub fn installed_versions(text: &str) -> (v: Vec<(String, String)>)
    ensures
        pairs(v@) == line_versions(lines(text@)),
{
    let chars = chars_of(text);
    let ls = lines_of(chars.as_slice());
    let ghost all = pieces(ls@);
    let mut v: Vec<(String, String)> = Vec::new();
    let mut i: usize = 0;
    assert(all.take(0) =~= seq![]);
    assert(pairs(v@) =~= seq![]);
    while i < ls.len()
        invariant
            all == pieces(ls@),
            i <= ls@.len(),
            pairs(v@) == line_versions(all.take(i as int)),
        decreases ls@.len() - i,
    {
        assert(all.take(i + 1).drop_last() =~= all.take(i as int));
        assert(all.take(i + 1).last() == ls@[i as int]@);
        let f = split_at_char(ls[i], '\t');
        let ghost fs = pieces(f@);
        assert(forall|k: int| 0 <= k < fs.len() ==> #[trigger] fs[k] == f@[k]@);
        if f.len() >= 3 {
            if reads(f[0], "installed") {
                let ghost before = v@;
                v.push((string_of(f[1]), string_of(f[2])));
                assert(pairs(v@) =~= pairs(before).push((fs[1], fs[2])));
            }
        }
        i += 1;
    }
    assert(all.take(all.len() as int) =~= all);
    v
}

/// A copy of a change.
pub fn copy_change(c: &Change) -> (r: Change)
    ensures
        r@ == c@,
{
    Change {
        name: c.name.clone(),
        old: copy_option(&c.old),
        new: copy_option(&c.new),
        security: c.security,
    }
}

/// A copy of changes.
pub fn copy_changes(v: &Vec<Change>) -> (r: Vec<Change>)
    ensures
        changes(r@) == changes(v@),
{
    let mut out: Vec<Change> = Vec::new();
    let mut i: usize = 0;
    while i < v.len()
        invariant
            i <= v@.len(),
            out@.len() == i,
            forall|k: int| 0 <= k < i ==> (#[trigger] out@[k])@ == v@[k]@,
        decreases v@.len() - i,
    {
        out.push(copy_change(&v[i]));
        i += 1;
    }
    assert(changes(out@) =~= changes(v@));
    out
}

} // verus!
