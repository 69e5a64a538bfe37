//! Blob identity: digest parsing and hex-payload extraction.
//!
//! A digest has the shape `algorithm:hex`. The hex payload (everything after
//! the first `:`) is the identity of the blob: it keys deduplication, the
//! blob-store location and the cache-bucket name.

use vstd::prelude::*;

verus! {

/// A reference to one layer blob. Identity is the digest; the original
/// reference and the size are informational only.
pub struct LayerReference {
    pub digest: String,
    pub original_ref: Option<String>,
    pub size: Option<u64>,
}

/// The error taxonomy of the cache.
#[derive(Clone, Copy, Debug, PartialEq, Eq, Structural)]
pub enum CacheError {
    /// A digest lacks the `algorithm:hex` structure.
    MalformedDigest,
    /// A resolved archive path could not be opened for reading.
    ArchiveOpenError,
    /// An individual archive entry failed to unpack.
    ArchiveEntryError,
    /// A directory could not be listed during lookup.
    DirectoryReadError,
}

/// The least index at or after `i` where `c` occurs in `s`, or `s.len()`
/// when `c` does not occur there.
pub open spec fn find_char_from(s: Seq<char>, c: char, i: int) -> int
    decreases s.len() - i,
{
    if i < 0 || i >= s.len() {
        s.len() as int
    } else if s[i] == c {
        i
    } else {
        find_char_from(s, c, i + 1)
    }
}

/// Whether the digest has the `algorithm:hex` structure, i.e. holds a colon.
pub open spec fn has_colon(d: Seq<char>) -> bool {
    find_char_from(d, ':', 0) < d.len()
}

/// The hex payload of a digest: everything after the first colon.
pub open spec fn payload_of(d: Seq<char>) -> Seq<char>
    recommends
        has_colon(d),
{
    d.subrange(find_char_from(d, ':', 0) + 1, d.len() as int)
}

proof fn lemma_find_char_from_properties(s: Seq<char>, c: char, i: int)
    requires
        0 <= i <= s.len(),
    ensures
        i <= find_char_from(s, c, i) <= s.len(),
        find_char_from(s, c, i) < s.len() ==> s[find_char_from(s, c, i)] == c,
        forall|j: int| i <= j < find_char_from(s, c, i) ==> s[j] != c,
    decreases s.len() - i,
{
    if i < s.len() && s[i] != c {
        lemma_find_char_from_properties(s, c, i + 1);
    }
}

/// The index of the first colon of `s`, or `None` when `s` has none.
pub fn find_colon(s: &str) -> (r: Option<usize>)
    ensures
        r matches Some(i) ==> i == find_char_from(s@, ':', 0) && i < s@.len(),
        r is None ==> !has_colon(s@),
{
    let n = s.unicode_len();
    let mut i: usize = 0;
    while i < n
        invariant
            0 <= i <= n,
            n == s@.len(),
            forall|j: int| 0 <= j < i ==> s@[j] != ':',
        decreases n - i,
    {
        if s.get_char(i) == ':' {
            proof {
                lemma_find_char_from_properties(s@, ':', 0);
            }
            return Some(i);
        }
        i = i + 1;
    }
    proof {
        lemma_find_char_from_properties(s@, ':', 0);
    }
    None
}

/// The hex payload of a digest, or `None` when the digest is malformed
/// (holds no colon).
pub fn payload(digest: &str) -> (r: Option<String>)
    ensures
        r is Some <==> has_colon(digest@),
        r matches Some(p) ==> p@ == payload_of(digest@),
{
    match find_colon(digest) {
        Some(i) => {
            let n = digest.unicode_len();
            let tail = digest.substring_char(i + 1, n);
            Some(String::from_str(tail))
        },
        None => None,
    }
}

/// The bucket name of a hex payload: its first six characters. Two payloads
/// sharing this prefix share a bucket by design.
pub open spec fn bucket_prefix_of(hex: Seq<char>) -> Seq<char>
    recommends
        hex.len() >= 6,
{
    hex.subrange(0, 6)
}

/// The cache-bucket directory of a hex payload: `cache_dir/<prefix>`.
pub open spec fn bucket_path_of(cache_dir: Seq<char>, hex: Seq<char>) -> Seq<char>
    recommends
        hex.len() >= 6,
{
    cache_dir + "/"@ + bucket_prefix_of(hex)
}

/// The blob-store location of a hex payload: `blobs_dir/<first two hex
/// characters>/<hex>`.
pub open spec fn blob_path_of(blobs_dir: Seq<char>, hex: Seq<char>) -> Seq<char>
    recommends
        hex.len() >= 2,
{
    blobs_dir + "/"@ + hex.subrange(0, 2) + "/"@ + hex
}

/// The cache-bucket directory of a hex payload, under `cache_dir`.
pub fn bucket_path(cache_dir: &str, hex: &str) -> (r: String)
    requires
        hex@.len() >= 6,
    ensures
        r@ == bucket_path_of(cache_dir@, hex@),
{
    let mut s = String::from_str(cache_dir);
    s.append("/");
    s.append(hex.substring_char(0, 6));
    s
}

/// The blob-store location of a hex payload, under `blobs_dir`.
pub fn blob_path(blobs_dir: &str, hex: &str) -> (r: String)
    requires
        hex@.len() >= 2,
    ensures
        r@ == blob_path_of(blobs_dir@, hex@),
{
    let mut s = String::from_str(blobs_dir);
    s.append("/");
    s.append(hex.substring_char(0, 2));
    s.append("/");
    s.append(hex);
    s
}

} // verus!
