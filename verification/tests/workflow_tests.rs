use bitcache::index::Metadata;
use bitcache::workflow::{
    classify_binary_presence, load_index_for_get, load_index_for_publish, plan_get,
    plan_publish_at,
};
use bitcache::BitcacheError;

const HELLO_MD5: &str = "5d41402abc4b2a76b9719d911017c592";

#[test]
fn publish_then_get_retrieves_the_artifact() {
    // Publish source a.bin (content "hello") with bitstream out.bit into
    // artifacts/, then get by the digest.
    let mut m = Metadata::new();
    let source: Vec<u8> = b"hello".to_vec();
    let plan = plan_publish_at(
        &mut m,
        &source,
        "work/a.bin",
        "build/out.bit",
        "artifacts/",
        "2024-01-02T03:04:05+00:00".to_string(),
    )
    .expect("publish must succeed");
    assert_eq!(plan.digest, HELLO_MD5);
    assert_eq!(plan.dest_rel_path, "artifacts/out.bit");
    assert_eq!(plan.source_file, "a.bin");
    assert_eq!(plan.commit_message, format!("Add bitstream for source MD5: {}", HELLO_MD5));

    // The document travels through the repository; a get loads it back.
    let loaded = load_index_for_get(Some(&plan.serialized)).expect("document must parse");
    let got = plan_get(&loaded, HELLO_MD5).expect("digest must be found");
    assert_eq!(got.binary_rel_path, "artifacts/out.bit");
    assert_eq!(got.output_file_name, "out.bit");
    assert_eq!(got.source_file, "a.bin");
    assert_eq!(got.md5, HELLO_MD5);
    assert_eq!(got.timestamp, "2024-01-02T03:04:05+00:00");
}

#[test]
fn get_with_unknown_digest_is_not_found() {
    let mut m = Metadata::new();
    let source: Vec<u8> = b"hello".to_vec();
    plan_publish_at(
        &mut m,
        &source,
        "a.bin",
        "out.bit",
        "artifacts",
        "2024-01-02T03:04:05+00:00".to_string(),
    )
    .expect("publish must succeed");
    let r = plan_get(&m, "00000000000000000000000000000000");
    match r {
        Err(BitcacheError::NotFoundError(msg)) => {
            assert_eq!(msg, "No binary found for MD5: 00000000000000000000000000000000");
        }
        _ => panic!("expected NotFoundError"),
    }
}

#[test]
fn get_without_metadata_file_is_not_found() {
    let r = load_index_for_get(None);
    match r {
        Err(BitcacheError::NotFoundError(msg)) => {
            assert_eq!(msg, "Metadata file not found in repository");
        }
        _ => panic!("expected NotFoundError"),
    }
}

#[test]
fn republish_under_different_path_overwrites() {
    let mut m = Metadata::new();
    let source: Vec<u8> = b"hello".to_vec();
    plan_publish_at(
        &mut m,
        &source,
        "a.bin",
        "out.bit",
        "artifacts",
        "2024-01-02T03:04:05+00:00".to_string(),
    )
    .expect("first publish must succeed");
    plan_publish_at(
        &mut m,
        &source,
        "a.bin",
        "out.bit",
        "rework",
        "2024-05-06T07:08:09+00:00".to_string(),
    )
    .expect("second publish must succeed");
    assert_eq!(m.len(), 1);
    let got = plan_get(&m, HELLO_MD5).expect("digest must be found");
    assert_eq!(got.binary_rel_path, "rework/out.bit");
    assert_eq!(got.timestamp, "2024-05-06T07:08:09+00:00");
}

#[test]
fn publish_without_bitstream_filename_is_invalid_input() {
    // No filename component: empty, a bare separator, or a path whose
    // final component is `.` or `..`.
    for bad in ["", "/", ".", "..", "build/..", "build/./"] {
        let mut m = Metadata::new();
        let source: Vec<u8> = b"hello".to_vec();
        let r = plan_publish_at(
            &mut m,
            &source,
            "a.bin",
            bad,
            "artifacts",
            "2024-01-02T03:04:05+00:00".to_string(),
        );
        match r {
            Err(BitcacheError::InvalidInputError(msg)) => {
                assert_eq!(msg, "Invalid bitstream path");
            }
            _ => panic!("expected InvalidInputError for {:?}", bad),
        }
        assert_eq!(m.len(), 0);
    }
}

#[test]
fn publish_with_unusable_source_path_records_unknown() {
    let mut m = Metadata::new();
    let source: Vec<u8> = b"hello".to_vec();
    let plan = plan_publish_at(
        &mut m,
        &source,
        "..",
        "out.bit",
        "artifacts",
        "2024-01-02T03:04:05+00:00".to_string(),
    )
    .expect("publish must succeed");
    assert_eq!(plan.source_file, "unknown");
}

#[test]
fn publish_ignores_trailing_separators_in_paths() {
    // As with std's Path::file_name, a trailing '/' does not hide the
    // filename component.
    let mut m = Metadata::new();
    let source: Vec<u8> = b"hello".to_vec();
    let plan = plan_publish_at(
        &mut m,
        &source,
        "work/a.bin/",
        "build/out.bit//",
        "artifacts",
        "2024-01-02T03:04:05+00:00".to_string(),
    )
    .expect("publish must succeed");
    assert_eq!(plan.source_file, "a.bin");
    assert_eq!(plan.dest_rel_path, "artifacts/out.bit");
}

#[test]
fn missing_binary_on_disk_is_not_found() {
    assert!(classify_binary_presence(true, "artifacts/out.bit").is_ok());
    match classify_binary_presence(false, "artifacts/out.bit") {
        Err(BitcacheError::NotFoundError(msg)) => {
            assert_eq!(msg, "Binary file not found: artifacts/out.bit");
        }
        _ => panic!("expected NotFoundError"),
    }
}

#[test]
fn load_for_publish_starts_empty_without_a_file() {
    let m = load_index_for_publish(None).expect("absent file means empty index");
    assert_eq!(m.len(), 0);
}

#[test]
fn load_for_publish_rejects_malformed_content() {
    let r = load_index_for_publish(Some("not a document"));
    assert!(matches!(r, Err(BitcacheError::ParseError(_))));
}
