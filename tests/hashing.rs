use exp::hashing::content_hash;
use exp::layout::is_completed_dir_name;

#[test]
fn hash_of_empty_input_is_the_blake3_digest() {
    assert_eq!(
        content_hash(&Vec::new()),
        "af1349b9f5f9a1a6a0404dea36dcc9499bcb25c9adc112b7cc9a93cae41f3262"
    );
}

#[test]
fn equal_bytes_hash_equally_and_differing_bytes_do_not() {
    let a = br#"{"threads":4}"#.to_vec();
    let b = br#"{"threads":4}"#.to_vec();
    let c = br#"{"threads":8}"#.to_vec();
    assert_eq!(content_hash(&a), content_hash(&b));
    assert_ne!(content_hash(&a), content_hash(&c));
}

#[test]
fn hash_is_64_lowercase_hex_digits() {
    let h = content_hash(&b"abc".to_vec());
    assert_eq!(h.len(), 64);
    assert!(is_completed_dir_name(&h));
    assert_ne!(h, "abc");
}
