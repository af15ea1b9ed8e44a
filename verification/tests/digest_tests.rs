use bitcache::digest::compute_md5;

#[test]
fn digest_is_deterministic() {
    let data: Vec<u8> = b"some bitstream source".to_vec();
    let first = compute_md5(&data);
    let second = compute_md5(&data);
    assert_eq!(first, second);
    let copy: Vec<u8> = b"some bitstream source".to_vec();
    let third = compute_md5(&copy);
    assert_eq!(first, third);
}

#[test]
fn digest_of_hello() {
    let data: Vec<u8> = b"hello".to_vec();
    let d = compute_md5(&data);
    assert_eq!(d, "5d41402abc4b2a76b9719d911017c592");
    assert_eq!(d.len(), 32);
}

#[test]
fn digest_of_empty_input() {
    let data: Vec<u8> = Vec::new();
    let d = compute_md5(&data);
    assert_eq!(d, "d41d8cd98f00b204e9800998ecf8427e");
}

#[test]
fn different_bytes_give_different_digests() {
    let a = compute_md5(&b"hello".to_vec());
    let b = compute_md5(&b"hello!".to_vec());
    assert_ne!(a, b);
}
