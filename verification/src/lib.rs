//! A content-addressed extraction cache for container-image layer blobs.
//!
//! Layer blobs are referenced by content hash (`algorithm:hex`). The library
//! deduplicates a list of layer references by hex payload, decides for each
//! unique blob whether its cache bucket already exists or whether its archive
//! must be scanned, scans gzip-compressed tar archives for paths of interest,
//! and locates extracted artifacts by a bounded-depth lookup over directory
//! listings.

pub mod archive;
pub mod dedup;
pub mod digest;
pub mod extract;
pub mod lookup;
pub mod matching;

pub use digest::CacheError;
pub use digest::LayerReference;
