use cuckatoo::exact_siphash::ExactSipHash;
use cuckatoo::types::Header;

#[test]
fn test_exact_siphash_basic() {
    let keys = [0x1234567890abcdef, 0xfedcba0987654321, 0x1111222233334444, 0x5555666677778888];
    let siphash = ExactSipHash::new(keys, 10);

    let node = siphash.hash_nonce(0);
    assert!(node.value() < (1u64 << 10));
}

#[test]
fn test_exact_siphash_consistency() {
    let keys = [0x1234567890abcdef, 0xfedcba0987654321, 0x1111222233334444, 0x5555666677778888];
    let siphash = ExactSipHash::new(keys, 10);

    let node1 = siphash.hash_nonce(42);
    let node2 = siphash.hash_nonce(42);

    assert_eq!(node1, node2);
}

#[test]
fn test_exact_siphash_different_nonces() {
    let keys = [0x1234567890abcdef, 0xfedcba0987654321, 0x1111222233334444, 0x5555666677778888];
    let siphash = ExactSipHash::new(keys, 10);

    let node1 = siphash.hash_nonce(0);
    let node2 = siphash.hash_nonce(1);

    assert_ne!(node1, node2);
}

#[test]
fn exact_siphash_known_values() {
    let keys = [0x1234567890abcdef, 0xfedcba0987654321, 0x1111222233334444, 0x5555666677778888];
    let siphash = ExactSipHash::new(keys, 10);
    assert_eq!(siphash.hash_nonce(0).value(), 17);
    assert_eq!(siphash.hash_nonce(1).value(), 65);
    assert_eq!(siphash.hash_nonce(42).value(), 297);
}

#[test]
fn siphash_known_answer_classic_vector() {
    // The published SipHash-2-4 test vector for the empty message: the
    // four-word state is the classic two-word key expanded with the
    // standard constants, and hashing nonce 0 plays the padding block.
    let c = [
        0x736f6d6570736575u64,
        0x646f72616e646f6du64,
        0x6c7967656e657261u64,
        0x7465646279746573u64,
    ];
    let k0 = 0x0706050403020100u64;
    let k1 = 0x0f0e0d0c0b0a0908u64;
    let keys = [c[0] ^ k0, c[1] ^ k1, c[2] ^ k0, c[3] ^ k1];
    assert_eq!(cuckatoo::sip::siphash24(&keys, 0), 0x726fdb47dd0e0e31);
    // The node derived at 32 edge bits keeps the low 32 bits of that hash.
    let siphash = ExactSipHash::new(keys, 32);
    assert_eq!(siphash.hash_nonce(0).value(), 0xdd0e0e31);
}

#[test]
fn siphash_test_siphash_basic() {
    let siphash = cuckatoo::siphash::SipHash::default();
    let nonce = 12345u64;
    let node = siphash.siphash24_single(nonce, 16);

    assert!(node < (1u64 << 16));
    assert_eq!(node, 1318);
}

#[test]
fn test_edge_generation() {
    let siphash = cuckatoo::siphash::SipHash::default();
    let header = b"test header";
    let nonces = vec![0u64, 1u64, 2u64];
    let edges = siphash.generate_edges(header, &nonces, 12);

    assert_eq!(edges.len(), 3);
    assert_eq!(edges[0].index, 0);
    assert_eq!(edges[1].index, 1);
    assert_eq!(edges[2].index, 2);
}

#[test]
fn hashing_test_siphash_basic() {
    let header = Header::new(b"test header");
    let siphash = cuckatoo::hashing::SipHash::new_from_header(&header, 12345);

    let edges = siphash.hash_header(&header, 10).unwrap();
    assert_eq!(edges.len(), 1024);

    for edge in &edges {
        assert!(edge.u.value() < 1024);
        assert!(edge.v.value() < 1024);
    }
}

#[test]
fn test_siphash_consistency() {
    let header = Header::new(b"test header");
    let siphash1 = cuckatoo::hashing::SipHash::new_from_header(&header, 12345);
    let siphash2 = cuckatoo::hashing::SipHash::new_from_header(&header, 12345);

    assert_eq!(siphash1.get_key(), siphash2.get_key());

    let edges1 = siphash1.hash_header(&header, 10).unwrap();
    let edges2 = siphash2.hash_header(&header, 10).unwrap();
    assert_eq!(edges1, edges2);
}

#[test]
fn test_siphash_different_nonces() {
    let header = Header::new(b"test header");
    let siphash1 = cuckatoo::hashing::SipHash::new_from_header(&header, 12345);
    let siphash2 = cuckatoo::hashing::SipHash::new_from_header(&header, 12346);

    assert_ne!(siphash1.get_key(), siphash2.get_key());

    let edges1 = siphash1.hash_header(&header, 10).unwrap();
    let edges2 = siphash2.hash_header(&header, 10).unwrap();
    assert_ne!(edges1, edges2);
}

#[test]
fn hash_header_rejects_out_of_range_edge_bits() {
    let header = Header::new(b"test header");
    let siphash = cuckatoo::hashing::SipHash::new_from_header(&header, 1);
    assert!(siphash.hash_header(&header, 9).is_err());
    assert!(siphash.hash_header(&header, 33).is_err());
    assert!(siphash.hash_header(&header, 10).is_ok());
}
