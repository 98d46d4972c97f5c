use mtf::hash::mtf_hash_name;

#[test]
fn test_hash_determinism() {
    let name = "blk.0.attn_q.weight";
    let h1 = mtf_hash_name(name);
    let h2 = mtf_hash_name(name);
    assert_eq!(h1, h2, "FNV-1a hash must be highly deterministic");
}

#[test]
fn fnv1a_reference_vectors() {
    assert_eq!(mtf_hash_name(""), 0xcbf29ce484222325);
    assert_eq!(mtf_hash_name("a"), 0xaf63dc4c8601ec8c);
    assert_eq!(mtf_hash_name("foobar"), 0x85944171f73967e8);
}

#[test]
fn fnv1a_hashes_utf8_bytes() {
    // "é" is two UTF-8 bytes: 0xC3 0xA9
    let mut h: u64 = 0xcbf29ce484222325;
    for b in [0xC3u8, 0xA9u8] {
        h ^= b as u64;
        h = h.wrapping_mul(0x100000001b3);
    }
    assert_eq!(mtf_hash_name("é"), h);
    assert_ne!(mtf_hash_name("ab"), mtf_hash_name("ba"));
}
