//! What is downloaded, and whether it is what was expected.

use md5::Md5;
use sha2::{Digest, Sha256};
use vstd::prelude::*;

use crate::text::{cat2, chars_of, pieces, same_str, split, split_at_char, string_of};

verus! {

/// The checksum that a download must have, in hexadecimal digits.
#[derive(Debug, Clone)]
pub enum ExpectedHash {
    Sha256(String),
    Md5(String),
}

pub enum HashView {
    Sha256(Seq<char>),
    Md5(Seq<char>),
}

impl View for ExpectedHash {
    type V = HashView;

    open spec fn view(&self) -> HashView {
        match self {
            ExpectedHash::Sha256(s) => HashView::Sha256(s@),
            ExpectedHash::Md5(s) => HashView::Md5(s@),
        }
    }
}

/// A file to download.
#[derive(Debug)]
pub struct DownloadItem {
    pub url: String,
    pub filename: String,
    pub size: u64,
    pub hash: Option<ExpectedHash>,
}

pub struct ItemView {
    pub url: Seq<char>,
    pub filename: Seq<char>,
    pub size: u64,
    pub hash: Option<HashView>,
}

pub open spec fn opt_hash(h: Option<ExpectedHash>) -> Option<HashView> {
    match h {
        Some(x) => Some(x@),
        None => None,
    }
}

impl View for DownloadItem {
    type V = ItemView;

    open spec fn view(&self) -> ItemView {
        ItemView {
            url: self.url@,
            filename: self.filename@,
            size: self.size,
            hash: opt_hash(self.hash),
        }
    }
}

/// The items as values.
pub open spec fn items(v: Seq<DownloadItem>) -> Seq<ItemView> {
    v.map_values(|i: DownloadItem| i@)
}

pub broadcast proof fn lemma_items_push(v: Seq<DownloadItem>, i: DownloadItem)
    ensures
        #[trigger] items(v.push(i)) == items(v).push(i@),
{
    assert(items(v.push(i)) =~= items(v).push(i@));
}

/// The size of all items together.
pub open spec fn sizes(v: Seq<ItemView>) -> nat
    decreases v.len(),
{
    if v.len() == 0 {
        0
    } else {
        sizes(v.drop_last()) + v.last().size as nat
    }
}

/// The size of all items together, where it can be counted.
pub fn total_size(v: &Vec<DownloadItem>) -> (r: Option<u64>)
    ensures
        match r {
            Some(n) => n == sizes(items(v@)),
            None => sizes(items(v@)) > u64::MAX,
        },
{
    let ghost all = items(v@);
    let mut total: u64 = 0;
    let mut i: usize = 0;
    while i < v.len()
        invariant
            all == items(v@),
            i <= v@.len(),
            total == sizes(all.take(i as int)),
        decreases v@.len() - i,
    {
        assert(all.take(i + 1).drop_last() =~= all.take(i as int));
        assert(all.take(i + 1).last() == v@[i as int]@);
        match total.checked_add(v[i].size) {
            Some(n) => {
                total = n;
            },
            None => {
                proof {
                    lemma_sizes_grow(all, i + 1);
                }
                return None;
            },
        }
        i += 1;
    }
    assert(all.take(all.len() as int) =~= all);
    Some(total)
}

proof fn lemma_sizes_grow(v: Seq<ItemView>, k: int)
    requires
        0 <= k <= v.len(),
    ensures
        sizes(v.take(k)) <= sizes(v),
    decreases v.len() - k,
{
    if k < v.len() {
        lemma_sizes_grow(v, k + 1);
        assert(v.take(k + 1).drop_last() =~= v.take(k));
    } else {
        assert(v.take(k) =~= v);
    }
}

impl DownloadItem {
    /// The package name shown next to the progress bar
    /// ("htop_3.4.1_amd64.deb" gives "htop").
    pub fn display_name(&self) -> (r: String)
        ensures
            r@ == split(self.filename@, '_')[0],
    {
        let chars = chars_of(self.filename.as_str());
        let parts = split_at_char(chars.as_slice(), '_');
        assert(pieces(parts@)[0] == parts@[0]@);
        string_of(parts[0])
    }
}

// ---------------------------------------------------------------------------
// Checksums
// ---------------------------------------------------------------------------

/// The name of the SHA-256 digest of bytes.
pub uninterp spec fn sha256_digest(data: Seq<u8>) -> Seq<u8>;

/// `Sha256::digest` of the crate `sha2` computes the SHA-256 digest of the bytes,
/// which depends on them alone and has 32 bytes.
#[verifier::external_body]
fn sha256_of(data: &[u8]) -> (r: Vec<u8>)
    ensures
        r@ == sha256_digest(data@),
        r@.len() == 32,
{
    Sha256::digest(data).to_vec()
}

/// The name of the MD5 digest of bytes.
pub uninterp spec fn md5_digest(data: Seq<u8>) -> Seq<u8>;

/// `Md5::digest` of the crate `md-5` computes the MD5 digest of the bytes, which
/// depends on them alone and has 16 bytes.
#[verifier::external_body]
fn md5_of(data: &[u8]) -> (r: Vec<u8>)
    ensures
        r@ == md5_digest(data@),
        r@.len() == 16,
{
    Md5::digest(data).to_vec()
}

/// A hexadecimal digit, in lower case.
pub open spec fn hex_digit(n: int) -> char {
    "0123456789abcdef"@[n]
}

/// The bytes in hexadecimal digits, two for each byte, the higher one first.
pub open spec fn hex_text(data: Seq<u8>) -> Seq<char> {
    Seq::new(
        2 * data.len(),
        |i: int|
            if i % 2 == 0 {
                hex_digit(data[i / 2] as int / 16)
            } else {
                hex_digit(data[i / 2] as int % 16)
            },
    )
}

/// `hex::encode` writes the bytes in lower-case hexadecimal digits.
#[verifier::external_body]
fn encode_hex(data: &[u8]) -> (r: String)
    ensures
        r@ == hex_text(data@),
{
    hex::encode(data)
}

/// Whether a digest is the expected one, given in hexadecimal digits.
pub fn digest_matches(digest: &[u8], expected: &str) -> (r: bool)
    ensures
        r == (hex_text(digest@) == expected@),
{
    same_str(encode_hex(digest).as_str(), expected)
}

/// Whether the bytes have the expected checksum; where none is expected, they do.
pub open spec fn intact(data: Seq<u8>, expected: Option<HashView>) -> bool {
    match expected {
        Some(HashView::Sha256(h)) => hex_text(sha256_digest(data)) == h,
        Some(HashView::Md5(h)) => hex_text(md5_digest(data)) == h,
        None => true,
    }
}

impl DownloadItem {
    /// Whether the file is in the cache already, going by the size of the file
    /// found there. apt verifies its checksum anyway.
    pub fn is_cached(&self, found: Option<u64>) -> (r: bool)
        ensures
            r == (found == Some(self.size)),
    {
        match found {
            Some(n) => n == self.size,
            None => false,
        }
    }

    /// Holds what was downloaded against the expected checksum.
    pub fn accept(&self, data: &[u8]) -> (r: Result<(), String>)
        ensures
            r is Ok <==> intact(data@, opt_hash(self.hash)),
            r is Err ==> r->Err_0@ == "checksum mismatch (corrupted download?)"@,
    {
        let ok = match &self.hash {
            Some(ExpectedHash::Sha256(expected)) => digest_matches(
                sha256_of(data).as_slice(),
                expected.as_str(),
            ),
            Some(ExpectedHash::Md5(expected)) => digest_matches(
                md5_of(data).as_slice(),
                expected.as_str(),
            ),
            None => true,
        };
        if ok {
            Ok(())
        } else {
            Err("checksum mismatch (corrupted download?)".to_owned())
        }
    }

    /// What is said where the file could not be downloaded.
    pub fn failed(&self) -> (r: String)
        ensures
            r@ == "failed to download "@ + self.filename@,
    {
        cat2("failed to download ", self.filename.as_str())
    }
}

/// Two digests that are written alike are the same.
pub proof fn a_digest_is_read_off_its_text(a: Seq<u8>, b: Seq<u8>)
    requires
        hex_text(a) == hex_text(b),
    ensures
        a == b,
{
    assert(hex_text(a).len() == 2 * a.len());
    assert(hex_text(b).len() == 2 * b.len());
    reveal_strlit("0123456789abcdef");
    assert forall|i: int| 0 <= i < a.len() implies a[i] == b[i] by {
        let x = a[i] as int;
        let y = b[i] as int;
        assert((2 * i) / 2 == i && (2 * i) % 2 == 0 && (2 * i + 1) / 2 == i && (2 * i + 1) % 2
            == 1);
        assert(hex_text(a)[2 * i] == hex_digit(x / 16));
        assert(hex_text(b)[2 * i] == hex_digit(y / 16));
        assert(hex_text(a)[2 * i + 1] == hex_digit(x % 16));
        assert(hex_text(b)[2 * i + 1] == hex_digit(y % 16));
        lemma_hex_digits(x / 16, y / 16);
        lemma_hex_digits(x % 16, y % 16);
    }
    assert(a =~= b);
}

proof fn lemma_hex_digits(m: int, n: int)
    requires
        0 <= m < 16,
        0 <= n < 16,
        hex_digit(m) == hex_digit(n),
    ensures
        m == n,
{
    reveal_strlit("0123456789abcdef");
    let s = "0123456789abcdef"@;
    assert forall|i: int| 0 <= i < 16 implies #[trigger] s[i] as int == if i < 10 {
        48 + i
    } else {
        87 + i
    } by {}
    assert(s[m] == s[n]);
}

/// Where a checksum is expected, bytes with another digest are refused.
pub proof fn a_corrupted_download_is_refused(
    good: Seq<u8>,
    data: Seq<u8>,
    expected: HashView,
)
    requires
        intact(good, Some(expected)),
        match expected {
            HashView::Sha256(_) => sha256_digest(data) != sha256_digest(good),
            HashView::Md5(_) => md5_digest(data) != md5_digest(good),
        },
    ensures
        !intact(data, Some(expected)),
{
    match expected {
        HashView::Sha256(_) => {
            if intact(data, Some(expected)) {
                a_digest_is_read_off_its_text(sha256_digest(data), sha256_digest(good));
            }
        },
        HashView::Md5(_) => {
            if intact(data, Some(expected)) {
                a_digest_is_read_off_its_text(md5_digest(data), md5_digest(good));
            }
        },
    }
}

} // verus!
