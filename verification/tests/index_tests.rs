use bitcache::index::{Metadata, MetadataEntry};

fn entry(md5: &str, path: &str) -> MetadataEntry {
    MetadataEntry {
        md5: md5.to_string(),
        binary_path: path.to_string(),
        source_file: "src.bin".to_string(),
        timestamp: "2024-01-01T00:00:00+00:00".to_string(),
    }
}

#[test]
fn new_index_is_empty() {
    let m = Metadata::new();
    assert_eq!(m.len(), 0);
    assert!(m.get("5d41402abc4b2a76b9719d911017c592").is_none());
}

#[test]
fn insert_then_get() {
    let mut m = Metadata::new();
    m.insert(entry("5d41402abc4b2a76b9719d911017c592", "a/x.bit"));
    assert_eq!(m.len(), 1);
    let e = m.get("5d41402abc4b2a76b9719d911017c592").expect("digest present");
    assert_eq!(e.binary_path, "a/x.bit");
    assert!(m.get("d41d8cd98f00b204e9800998ecf8427e").is_none());
}

#[test]
fn insert_same_digest_overwrites() {
    let mut m = Metadata::new();
    m.insert(entry("5d41402abc4b2a76b9719d911017c592", "a/x.bit"));
    m.insert(entry("5d41402abc4b2a76b9719d911017c592", "b/y.bit"));
    assert_eq!(m.len(), 1);
    let e = m.get("5d41402abc4b2a76b9719d911017c592").expect("digest present");
    assert_eq!(e.binary_path, "b/y.bit");
}

#[test]
fn insert_distinct_digests_keeps_both() {
    let mut m = Metadata::new();
    m.insert(entry("5d41402abc4b2a76b9719d911017c592", "a/x.bit"));
    m.insert(entry("d41d8cd98f00b204e9800998ecf8427e", "b/y.bit"));
    assert_eq!(m.len(), 2);
    assert_eq!(m.get("5d41402abc4b2a76b9719d911017c592").unwrap().binary_path, "a/x.bit");
    assert_eq!(m.get("d41d8cd98f00b204e9800998ecf8427e").unwrap().binary_path, "b/y.bit");
}
