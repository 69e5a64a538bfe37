//! Per-blob extraction decisions.
//!
//! For each unique digest the engine decides, from the digest and from
//! whether its cache bucket already exists, what the caller must do next:
//! nothing (cache hit), or read and scan the blob's archive. Existence of
//! the bucket directory is the sole cache-hit signal.

use vstd::prelude::*;
use crate::digest::{
    blob_path, blob_path_of, bucket_path, bucket_path_of, has_colon, payload, payload_of,
    CacheError,
};

verus! {

/// What the caller must do for one blob.
#[derive(Debug)]
pub enum BlobAction {
    /// The bucket exists already: skip the blob and report a cache hit.
    CacheHit { bucket: String },
    /// The bucket is missing: read the archive at `archive` and scan it; on
    /// a match, unpack the whole archive into `bucket`.
    Scan { bucket: String, archive: String },
}

/// Decide what to do for one blob. A bucket that exists short-circuits to
/// `CacheHit`, so a populated bucket is never re-extracted; otherwise the
/// blob's archive must be read from the blob store and scanned. Fails with
/// `MalformedDigest` exactly when the digest holds no colon.
pub fn decide_blob(blobs_dir: &str, cache_dir: &str, digest: &str, bucket_exists: bool) -> (r:
    Result<BlobAction, CacheError>)
    requires
        has_colon(digest@) ==> payload_of(digest@).len() >= 6,
    ensures
        r is Ok <==> has_colon(digest@),
        r matches Err(e) ==> e == CacheError::MalformedDigest,
        bucket_exists ==> (r matches Ok(a) ==> (a matches BlobAction::CacheHit { bucket }
            && bucket@ == bucket_path_of(cache_dir@, payload_of(digest@)))),
        !bucket_exists ==> (r matches Ok(a) ==> (a matches BlobAction::Scan { bucket, archive }
            && bucket@ == bucket_path_of(cache_dir@, payload_of(digest@)) && archive@
            == blob_path_of(blobs_dir@, payload_of(digest@)))),
{
    let hex = match payload(digest) {
        Some(hex) => hex,
        None => {
            return Err(CacheError::MalformedDigest);
        },
    };
    let bucket = bucket_path(cache_dir, hex.as_str());
    if bucket_exists {
        Ok(BlobAction::CacheHit { bucket })
    } else {
        let archive = blob_path(blobs_dir, hex.as_str());
        Ok(BlobAction::Scan { bucket, archive })
    }
}

/// What one blob's action must look like, given its digest and whether its
/// bucket existed when the decision was taken.
pub open spec fn action_for(
    a: BlobAction,
    blobs_dir: Seq<char>,
    cache_dir: Seq<char>,
    digest: Seq<char>,
    bucket_exists: bool,
) -> bool {
    match a {
        BlobAction::CacheHit { bucket } => bucket_exists && bucket@ == bucket_path_of(
            cache_dir,
            payload_of(digest),
        ),
        BlobAction::Scan { bucket, archive } => !bucket_exists && bucket@ == bucket_path_of(
            cache_dir,
            payload_of(digest),
        ) && archive@ == blob_path_of(blobs_dir, payload_of(digest)),
    }
}

/// Decide what to do for a whole batch of unique digests, one action per
/// digest, where `bucket_exists[i]` says whether the bucket of `digests[i]`
/// already exists. Fails with `MalformedDigest` exactly when some digest
/// holds no colon.
pub fn plan_batch(
    blobs_dir: &str,
    cache_dir: &str,
    digests: &Vec<String>,
    bucket_exists: &Vec<bool>,
) -> (r: Result<Vec<BlobAction>, CacheError>)
    requires
        digests@.len() == bucket_exists@.len(),
        forall|i: int|
            0 <= i < digests@.len() ==> (has_colon(#[trigger] digests@[i]@) ==> payload_of(
                digests@[i]@,
            ).len() >= 6),
    ensures
        r is Ok <==> (forall|i: int| 0 <= i < digests@.len() ==> has_colon(#[trigger] digests@[i]@)),
        r matches Err(e) ==> e == CacheError::MalformedDigest,
        r matches Ok(v) ==> v@.len() == digests@.len() && (forall|i: int|
            0 <= i < v@.len() ==> action_for(
                #[trigger] v@[i],
                blobs_dir@,
                cache_dir@,
                digests@[i]@,
                bucket_exists@[i],
            )),
{
    let n = digests.len();
    let mut actions: Vec<BlobAction> = Vec::new();
    let mut i: usize = 0;
    while i < n
        invariant
            0 <= i <= n,
            n == digests@.len(),
            n == bucket_exists@.len(),
            forall|j: int|
                0 <= j < n ==> (has_colon(#[trigger] digests@[j]@) ==> payload_of(
                    digests@[j]@,
                ).len() >= 6),
            actions@.len() == i,
            forall|j: int| 0 <= j < i ==> has_colon(#[trigger] digests@[j]@),
            forall|j: int|
                0 <= j < i ==> action_for(
                    #[trigger] actions@[j],
                    blobs_dir@,
                    cache_dir@,
                    digests@[j]@,
                    bucket_exists@[j],
                ),
        decreases n - i,
    {
        match decide_blob(blobs_dir, cache_dir, digests[i].as_str(), bucket_exists[i]) {
            Ok(a) => {
                actions.push(a);
            },
            Err(e) => {
                return Err(e);
            },
        }
        i = i + 1;
    }
    Ok(actions)
}

/// When every bucket already exists, a batch plan performs no extraction
/// work: each action is a cache hit, so a second run over already-extracted
/// blobs reads and writes nothing.
pub proof fn lemma_existing_buckets_no_work(
    actions: Seq<BlobAction>,
    blobs_dir: Seq<char>,
    cache_dir: Seq<char>,
    digests: Seq<Seq<char>>,
)
    requires
        actions.len() == digests.len(),
        forall|i: int|
            0 <= i < actions.len() ==> action_for(
                #[trigger] actions[i],
                blobs_dir,
                cache_dir,
                digests[i],
                true,
            ),
    ensures
        forall|i: int| 0 <= i < actions.len() ==> #[trigger] actions[i] is CacheHit,
{
    assert forall|i: int| 0 <= i < actions.len() implies #[trigger] actions[i] is CacheHit by {
        assert(action_for(actions[i], blobs_dir, cache_dir, digests[i], true));
    }
}

} // verus!
