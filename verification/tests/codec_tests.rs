use bitcache::codec::{parse_metadata, serialize_metadata};
use bitcache::index::{Metadata, MetadataEntry};
use bitcache::BitcacheError;

fn entry(md5: &str, path: &str, src: &str, ts: &str) -> MetadataEntry {
    MetadataEntry {
        md5: md5.to_string(),
        binary_path: path.to_string(),
        source_file: src.to_string(),
        timestamp: ts.to_string(),
    }
}

#[test]
fn round_trip_preserves_entries() {
    let mut m = Metadata::new();
    m.insert(entry("5d41402abc4b2a76b9719d911017c592", "artifacts/out.bit", "a.bin", "2024-01-02T03:04:05+00:00"));
    m.insert(entry("d41d8cd98f00b204e9800998ecf8427e", "other/b.bit", "b.src", "2024-06-07T08:09:10+00:00"));
    let doc = serialize_metadata(&m);
    let back = parse_metadata(&doc).expect("canonical document must parse");
    assert_eq!(back.len(), 2);
    let e1 = back.get("5d41402abc4b2a76b9719d911017c592").expect("first digest present");
    assert_eq!(e1.md5, "5d41402abc4b2a76b9719d911017c592");
    assert_eq!(e1.binary_path, "artifacts/out.bit");
    assert_eq!(e1.source_file, "a.bin");
    assert_eq!(e1.timestamp, "2024-01-02T03:04:05+00:00");
    let e2 = back.get("d41d8cd98f00b204e9800998ecf8427e").expect("second digest present");
    assert_eq!(e2.binary_path, "other/b.bit");
    assert_eq!(e2.source_file, "b.src");
    assert_eq!(e2.timestamp, "2024-06-07T08:09:10+00:00");
}

#[test]
fn round_trip_empty_index() {
    let m = Metadata::new();
    let doc = serialize_metadata(&m);
    assert_eq!(doc, "{}");
    let back = parse_metadata(&doc).expect("empty document must parse");
    assert_eq!(back.len(), 0);
}

#[test]
fn round_trip_with_escaped_characters() {
    let mut m = Metadata::new();
    m.insert(entry("00112233445566778899aabbccddeeff", "dir/quo\"te\\file.bit", "we\"ird\\.src", "2024-01-01T00:00:00+00:00"));
    let doc = serialize_metadata(&m);
    let back = parse_metadata(&doc).expect("escaped document must parse");
    let e = back.get("00112233445566778899aabbccddeeff").expect("digest present");
    assert_eq!(e.binary_path, "dir/quo\"te\\file.bit");
    assert_eq!(e.source_file, "we\"ird\\.src");
}

#[test]
fn serialized_document_is_valid_json() {
    let mut m = Metadata::new();
    m.insert(entry("5d41402abc4b2a76b9719d911017c592", "artifacts/out.bit", "a.bin", "2024-01-02T03:04:05+00:00"));
    let doc = serialize_metadata(&m);
    let v: serde_json::Value = serde_json::from_str(&doc).expect("output must be JSON");
    let obj = v.as_object().expect("top level is an object");
    assert_eq!(obj.len(), 1);
    let e = &v["5d41402abc4b2a76b9719d911017c592"];
    assert_eq!(e["md5"].as_str(), Some("5d41402abc4b2a76b9719d911017c592"));
    assert_eq!(e["binary_path"].as_str(), Some("artifacts/out.bit"));
    assert_eq!(e["source_file"].as_str(), Some("a.bin"));
    assert_eq!(e["timestamp"].as_str(), Some("2024-01-02T03:04:05+00:00"));
}

#[test]
fn parse_rejects_malformed_documents() {
    for bad in [
        "",
        "{",
        "}",
        "[]",
        "nonsense",
        "{\"a\":}",
        "{\"00112233445566778899aabbccddeeff\":{\"md5\":\"00112233445566778899aabbccddeeff\"}}",
    ] {
        match parse_metadata(bad) {
            Err(BitcacheError::ParseError(_)) => {}
            other => panic!("expected ParseError for {:?}, got {:?}", bad, other.is_ok()),
        }
    }
}

#[test]
fn parse_rejects_key_field_mismatch() {
    let doc = "{\"aaaaaaaaaaaaaaaaaaaaaaaaaaaaaaaa\":{\"md5\":\"bbbbbbbbbbbbbbbbbbbbbbbbbbbbbbbb\",\"binary_path\":\"p\",\"source_file\":\"s\",\"timestamp\":\"t\"}}";
    match parse_metadata(doc) {
        Err(BitcacheError::ParseError(_)) => {}
        _ => panic!("expected ParseError for key/field mismatch"),
    }
}

#[test]
fn parse_rejects_duplicate_digests() {
    let one = "\"aaaaaaaaaaaaaaaaaaaaaaaaaaaaaaaa\":{\"md5\":\"aaaaaaaaaaaaaaaaaaaaaaaaaaaaaaaa\",\"binary_path\":\"p\",\"source_file\":\"s\",\"timestamp\":\"t\"}";
    let doc = format!("{{{},{}}}", one, one);
    match parse_metadata(&doc) {
        Err(BitcacheError::ParseError(_)) => {}
        _ => panic!("expected ParseError for duplicate digest"),
    }
}

#[test]
fn parse_accepts_whitespace_between_tokens() {
    let doc = "{\n  \"aaaaaaaaaaaaaaaaaaaaaaaaaaaaaaaa\" : {\n    \"md5\": \"aaaaaaaaaaaaaaaaaaaaaaaaaaaaaaaa\",\n    \"binary_path\": \"p/q.bit\",\n    \"source_file\": \"s\",\n    \"timestamp\": \"t\"\n  }\n}\n";
    let m = parse_metadata(doc).expect("whitespace between tokens must parse");
    let e = m.get("aaaaaaaaaaaaaaaaaaaaaaaaaaaaaaaa").expect("digest present");
    assert_eq!(e.binary_path, "p/q.bit");
}

#[test]
fn parse_accepts_pretty_printed_documents() {
    // An indented document with two members and a trailing newline, as a
    // pretty printer would write it, loads to the same index.
    let doc = "{\n  \"5d41402abc4b2a76b9719d911017c592\": {\n    \"md5\": \"5d41402abc4b2a76b9719d911017c592\",\n    \"binary_path\": \"artifacts/out.bit\",\n    \"source_file\": \"a.bin\",\n    \"timestamp\": \"2024-01-02T03:04:05+00:00\"\n  },\n  \"d41d8cd98f00b204e9800998ecf8427e\": {\n    \"md5\": \"d41d8cd98f00b204e9800998ecf8427e\",\n    \"binary_path\": \"other/b.bit\",\n    \"source_file\": \"b.src\",\n    \"timestamp\": \"2024-06-07T08:09:10+00:00\"\n  }\n}\n";
    let back = parse_metadata(doc).expect("pretty document must parse");
    assert_eq!(back.len(), 2);
    let e = back.get("5d41402abc4b2a76b9719d911017c592").expect("digest present");
    assert_eq!(e.binary_path, "artifacts/out.bit");
    assert_eq!(e.source_file, "a.bin");
    let e2 = back.get("d41d8cd98f00b204e9800998ecf8427e").expect("digest present");
    assert_eq!(e2.binary_path, "other/b.bit");
}

#[test]
fn parse_accepts_fields_in_any_order() {
    let doc = "{\"aaaaaaaaaaaaaaaaaaaaaaaaaaaaaaaa\":{\"timestamp\":\"t\",\"source_file\":\"s\",\"binary_path\":\"p\",\"md5\":\"aaaaaaaaaaaaaaaaaaaaaaaaaaaaaaaa\"}}";
    let m = parse_metadata(doc).expect("reordered fields must parse");
    let e = m.get("aaaaaaaaaaaaaaaaaaaaaaaaaaaaaaaa").expect("digest present");
    assert_eq!(e.binary_path, "p");
    assert_eq!(e.source_file, "s");
    assert_eq!(e.timestamp, "t");
}

#[test]
fn parse_rejects_repeated_fields() {
    let doc = "{\"aaaaaaaaaaaaaaaaaaaaaaaaaaaaaaaa\":{\"md5\":\"aaaaaaaaaaaaaaaaaaaaaaaaaaaaaaaa\",\"md5\":\"aaaaaaaaaaaaaaaaaaaaaaaaaaaaaaaa\",\"source_file\":\"s\",\"timestamp\":\"t\"}}";
    match parse_metadata(doc) {
        Err(BitcacheError::ParseError(_)) => {}
        _ => panic!("expected ParseError for a repeated field"),
    }
}

#[test]
fn parse_accepts_other_json_writers() {
    // A pretty printer that also sorts the object keys — as serde_json
    // does — must still load to the same index.
    let mut m = Metadata::new();
    m.insert(entry("5d41402abc4b2a76b9719d911017c592", "artifacts/out.bit", "a.bin", "2024-01-02T03:04:05+00:00"));
    let doc = serialize_metadata(&m);
    let v: serde_json::Value = serde_json::from_str(&doc).expect("output must be JSON");
    let pretty = serde_json::to_string_pretty(&v).expect("pretty rendering");
    assert_ne!(doc, pretty);
    let back = parse_metadata(&pretty).expect("pretty, key-sorted document must parse");
    let e = back.get("5d41402abc4b2a76b9719d911017c592").expect("digest present");
    assert_eq!(e.binary_path, "artifacts/out.bit");
    assert_eq!(e.source_file, "a.bin");
    assert_eq!(e.timestamp, "2024-01-02T03:04:05+00:00");
}

#[test]
fn parse_accepts_standard_escapes() {
    let doc = "{\"aaaaaaaaaaaaaaaaaaaaaaaaaaaaaaaa\":{\"md5\":\"aaaaaaaaaaaaaaaaaaaaaaaaaaaaaaaa\",\"binary_path\":\"a\\/b\\n\",\"source_file\":\"s\\t\",\"timestamp\":\"t\\r\"}}";
    let m = parse_metadata(doc).expect("escapes must parse");
    let e = m.get("aaaaaaaaaaaaaaaaaaaaaaaaaaaaaaaa").expect("digest present");
    assert_eq!(e.binary_path, "a/b\n");
    assert_eq!(e.source_file, "s\t");
    assert_eq!(e.timestamp, "t\r");
}
