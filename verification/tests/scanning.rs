use flate2::write::GzEncoder;
use flate2::Compression;
use layer_cache::archive::{decide_extraction, ScanDecision};
use layer_cache::extract::{decide_blob, plan_batch, BlobAction};
use layer_cache::digest::CacheError;
use layer_cache::matching::{find_included_entry, is_included_path, str_contains};

fn gz_tar(entries: &[&str]) -> Vec<u8> {
    let encoder = GzEncoder::new(Vec::new(), Compression::default());
    let mut builder = tar::Builder::new(encoder);
    for name in entries {
        let data: &[u8] = b"payload";
        let mut header = tar::Header::new_gnu();
        header.set_size(data.len() as u64);
        header.set_mode(0o644);
        header.set_cksum();
        builder.append_data(&mut header, name, data).unwrap();
    }
    let encoder = builder.into_inner().unwrap();
    encoder.finish().unwrap()
}

#[test]
fn substring_search_finds_needle() {
    assert!(str_contains("abc/configs/def", "configs/"));
    assert!(str_contains("x", ""));
    assert!(!str_contains("abc", "abcd"));
    assert!(!str_contains("conf/igs", "configs/"));
}

#[test]
fn inclusion_predicate_on_paths() {
    assert!(is_included_path("layer/configs/app.yaml"));
    assert!(is_included_path("release-manifests/image-references"));
    assert!(!is_included_path("unrelated/file.txt"));
    assert!(!is_included_path("configs"));
}

#[test]
fn first_included_entry_in_stream_order() {
    let paths = vec![
        String::from("unrelated/a"),
        String::from("also/unrelated"),
        String::from("deep/release-manifests/x"),
        String::from("configs/y"),
    ];
    assert_eq!(find_included_entry(&paths), Some(2));
    let none = vec![String::from("unrelated/a")];
    assert_eq!(find_included_entry(&none), None);
}

#[test]
fn archive_with_matching_entry_is_extracted() {
    let bytes = gz_tar(&["unrelated/a.txt", "etc/configs/app.yaml", "other/b.txt"]);
    assert_eq!(decide_extraction(&bytes), Some(ScanDecision::Extract));
}

#[test]
fn archive_with_release_manifests_is_extracted() {
    let bytes = gz_tar(&["release-manifests/image-references"]);
    assert_eq!(decide_extraction(&bytes), Some(ScanDecision::Extract));
}

#[test]
fn archive_without_matching_entry_is_skipped() {
    let bytes = gz_tar(&["unrelated/a.txt", "unrelated/b.txt"]);
    assert_eq!(decide_extraction(&bytes), Some(ScanDecision::Skip));
}

#[test]
fn malformed_archive_bytes_are_reported() {
    let garbage = vec![1u8, 2, 3, 4, 5];
    assert_eq!(decide_extraction(&garbage), None);
}

#[test]
fn existing_bucket_short_circuits_to_cache_hit() {
    let action = decide_blob("blobs", "cache", "sha256:ac202bdeadbeef", true).unwrap();
    match action {
        BlobAction::CacheHit { bucket } => assert_eq!(bucket, "cache/ac202b"),
        BlobAction::Scan { .. } => panic!("a present bucket must be a cache hit"),
    }
}

#[test]
fn missing_bucket_leads_to_scan() {
    let action = decide_blob("blobs", "cache", "sha256:ac202bdeadbeef", false).unwrap();
    match action {
        BlobAction::Scan { bucket, archive } => {
            assert_eq!(bucket, "cache/ac202b");
            assert_eq!(archive, "blobs/ac/ac202bdeadbeef");
        },
        BlobAction::CacheHit { .. } => panic!("a missing bucket must be scanned"),
    }
}

#[test]
fn batch_plan_gives_one_action_per_digest() {
    let digests = vec![String::from("sha256:ac202bdeadbeef"), String::from("sha256:bb11cc22dd")];
    let existence = vec![true, false];
    let actions = plan_batch("blobs", "cache", &digests, &existence).unwrap();
    assert_eq!(actions.len(), 2);
    assert!(matches!(&actions[0], BlobAction::CacheHit { bucket } if bucket == "cache/ac202b"));
    assert!(matches!(
        &actions[1],
        BlobAction::Scan { bucket, archive }
            if bucket == "cache/bb11cc" && archive == "blobs/bb/bb11cc22dd"
    ));
}

#[test]
fn batch_plan_with_existing_buckets_does_no_work() {
    let digests = vec![String::from("sha256:ac202bdeadbeef"), String::from("sha256:bb11cc22dd")];
    let existence = vec![true, true];
    let actions = plan_batch("blobs", "cache", &digests, &existence).unwrap();
    assert!(actions.iter().all(|a| matches!(a, BlobAction::CacheHit { .. })));
}

#[test]
fn malformed_digest_fails_blob_decision() {
    let err = decide_blob("blobs", "cache", "ac202bdeadbeef", false).unwrap_err();
    assert_eq!(err, CacheError::MalformedDigest);
}
