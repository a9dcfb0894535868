use ai_pow_vi::determinism::hash_canonical;
#[test]
fn hash_canonical_is_deterministic_and_distinct() {
    let a = hash_canonical(b"hello");
    let b = hash_canonical(b"hello");
    let c = hash_canonical(b"world");
    assert_eq!(a, b);
    assert_ne!(a, c);
}

#[test]
fn hash_canonical_uses_dedicated_context() {
    // The same bytes hashed by a vanilla blake3 call should not match
    // the canonical digest — domain separation is what protects against
    // off-spec ops accidentally matching unrelated hashes.
    let canonical = hash_canonical(b"hello");
    let plain = *blake3::hash(b"hello").as_bytes();
    assert_ne!(canonical, plain);
}
