use aegis_disk::utils::hash::{content_hash, ContentHasher};

#[test]
fn empty_input_has_the_blake3_digest() {
    assert_eq!(content_hash(b""), "af1349b9f5f9a1a6a0404dea36dcc9499bcb25c9adc112b7cc9a93cae41f3262");
}

#[test]
fn pieces_hash_like_the_whole() {
    let mut h = ContentHasher::new();
    h.update(b"sa");
    h.update(b"me");
    let pieces = h.finish();
    assert_eq!(pieces, content_hash(b"same"));
    assert_eq!(pieces.len(), 64);
    assert_ne!(pieces, content_hash(b"different"));
    assert!(pieces.chars().all(|c| c.is_ascii_hexdigit() && !c.is_ascii_uppercase()));
}
