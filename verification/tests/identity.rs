use layer_cache::dedup::deduplicate;
use layer_cache::digest::{blob_path, bucket_path, payload, CacheError, LayerReference};

fn layer(digest: &str) -> LayerReference {
    LayerReference { digest: String::from(digest), original_ref: None, size: None }
}

#[test]
fn dedup_keeps_first_occurrence_order() {
    let layers = vec![layer("sha256:aa11"), layer("sha256:bb22"), layer("sha256:aa11")];
    let out = deduplicate(&layers).unwrap();
    assert_eq!(out, vec![String::from("sha256:aa11"), String::from("sha256:bb22")]);
}

#[test]
fn dedup_empty_input() {
    let layers: Vec<LayerReference> = vec![];
    let out = deduplicate(&layers).unwrap();
    assert_eq!(out, Vec::<String>::new());
}

#[test]
fn dedup_keys_on_payload_not_algorithm() {
    let layers = vec![layer("sha256:aa11"), layer("sha512:aa11"), layer("sha256:bb22")];
    let out = deduplicate(&layers).unwrap();
    assert_eq!(out, vec![String::from("sha256:aa11"), String::from("sha256:bb22")]);
}

#[test]
fn dedup_rejects_digest_without_colon() {
    let layers = vec![layer("sha256:aa11"), layer("nocolonhere")];
    let err = deduplicate(&layers).unwrap_err();
    assert_eq!(err, CacheError::MalformedDigest);
}

#[test]
fn dedup_carries_metadata_free_identity() {
    let a = LayerReference {
        digest: String::from("sha256:cc33"),
        original_ref: Some(String::from("registry.example/repo")),
        size: Some(112),
    };
    let b = LayerReference { digest: String::from("sha256:cc33"), original_ref: None, size: None };
    let out = deduplicate(&vec![a, b]).unwrap();
    assert_eq!(out, vec![String::from("sha256:cc33")]);
}

#[test]
fn payload_takes_everything_after_first_colon() {
    assert_eq!(payload("sha256:ac202b").unwrap(), "ac202b");
    assert_eq!(payload("alg:ab:cd").unwrap(), "ab:cd");
    assert_eq!(payload("nocolon"), None);
}

#[test]
fn bucket_is_first_six_hex_chars() {
    let hex = payload("sha256:ac202bdeadbeef").unwrap();
    let bucket = bucket_path("cache_root", &hex);
    assert_eq!(bucket, "cache_root/ac202b");
}

#[test]
fn blob_location_uses_two_char_shard() {
    let hex = payload("sha256:ac202bdeadbeef").unwrap();
    let path = blob_path("blobs", &hex);
    assert_eq!(path, "blobs/ac/ac202bdeadbeef");
}
