//! Scanning gzip-compressed tar archives held in memory.
//!
//! The archive bytes are decoded once to list the entry paths; the decision
//! whether the blob is worth extracting is taken over that list.

use vstd::prelude::*;
use crate::matching::{any_included, find_included_entry};

verus! {

/// The entry paths of the gzip-compressed tar archive that `b` holds, in
/// stream order, or `None` when the bytes do not decode to a well-formed
/// archive whose entry paths are valid UTF-8.
pub uninterp spec fn gz_tar_entry_paths(b: Seq<u8>) -> Option<Seq<Seq<char>>>;

/// The sequence of path views of an optional path list.
pub open spec fn paths_view(r: Option<Vec<String>>) -> Option<Seq<Seq<char>>> {
    match r {
        Some(v) => Some(v.deep_view()),
        None => None,
    }
}

/// Relies on `flate2::read::GzDecoder` and `tar::Archive::entries`: the
/// entry paths of the archive held in `bytes` are a function of the bytes
/// alone, and `None` comes back exactly when the stream, an entry, or an
/// entry path is malformed.
#[verifier::external_body]
pub(crate) fn list_entry_paths(bytes: &Vec<u8>) -> (r: Option<Vec<String>>)
    ensures
        paths_view(r) == gz_tar_entry_paths(bytes@),
{
    let mut archive = tar::Archive::new(flate2::read::GzDecoder::new(bytes.as_slice()));
    let entries = match archive.entries() {
        Ok(entries) => entries,
        Err(_) => return None,
    };
    entries
        .map(|entry| {
            let entry = entry.ok()?;
            let path = entry.path().ok()?;
            Some(path.to_str()?.to_string())
        })
        .collect()
}

/// Whether a blob's archive is worth extracting.
#[derive(Clone, Copy, Debug, PartialEq, Eq, Structural)]
pub enum ScanDecision {
    /// Some entry path is of interest: unpack the whole archive.
    Extract,
    /// No entry path is of interest: leave the blob alone.
    Skip,
}

/// Decide from the archive bytes of one blob whether to extract it:
/// `Extract` exactly when some entry path contains `configs/` or
/// `release-manifests/`, `Skip` otherwise, `None` when the bytes do not
/// decode to a well-formed archive.
pub fn decide_extraction(bytes: &Vec<u8>) -> (r: Option<ScanDecision>)
    ensures
        (r is None) == (gz_tar_entry_paths(bytes@) is None),
        gz_tar_entry_paths(bytes@) matches Some(ps) ==> (r matches Some(d) && ((d
            is Extract) == any_included(ps))),
{
    match list_entry_paths(bytes) {
        None => None,
        Some(paths) => {
            match find_included_entry(&paths) {
                Some(_) => Some(ScanDecision::Extract),
                None => Some(ScanDecision::Skip),
            }
        },
    }
}

} // verus!
