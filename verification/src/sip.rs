//! The SipHash-2-4 primitive used as the edge oracle: two compression
//! rounds, four finalization rounds, rotation constants 13, 16, 32, 17,
//! 21, 32. The nonce is folded into state 3 before the compression rounds
//! and into state 0 before the finalization rounds.

use vstd::prelude::*;

verus! {

/// Left rotation of a 64-bit word.
pub open spec fn spec_rotl(x: u64, k: u64) -> u64
    recommends
        0 < k < 64,
{
    (x << k) | (x >> ((64 - k) as u64))
}

/// One SipRound applied to the four-word state.
pub open spec fn spec_sip_round(s: (u64, u64, u64, u64)) -> (u64, u64, u64, u64) {
    let (s0, s1, s2, s3) = s;
    let s0 = s0.wrapping_add(s1);
    let s2 = s2.wrapping_add(s3);
    let s1 = spec_rotl(s1, 13);
    let s3 = spec_rotl(s3, 16);
    let s1 = s1 ^ s0;
    let s3 = s3 ^ s2;
    let s0 = spec_rotl(s0, 32);
    let s2 = s2.wrapping_add(s1);
    let s0 = s0.wrapping_add(s3);
    let s1 = spec_rotl(s1, 17);
    let s3 = spec_rotl(s3, 21);
    let s1 = s1 ^ s2;
    let s3 = s3 ^ s0;
    let s2 = spec_rotl(s2, 32);
    (s0, s1, s2, s3)
}

/// SipHash-2-4 of a single nonce under a four-word key, with no message
/// body: the nonce plays both the pre-round and pre-finalization role.
pub open spec fn spec_siphash24(k: (u64, u64, u64, u64), nonce: u64) -> u64 {
    let (s0, s1, s2, s3) = k;
    let s3 = s3 ^ nonce;
    let s = spec_sip_round(spec_sip_round((s0, s1, s2, s3)));
    let (s0, s1, s2, s3) = s;
    let s0 = s0 ^ nonce;
    let s2 = s2 ^ 255;
    let s = spec_sip_round(spec_sip_round(spec_sip_round(spec_sip_round((s0, s1, s2, s3)))));
    let (s0, s1, s2, s3) = s;
    s0 ^ s1 ^ s2 ^ s3
}

/// The low-bits node mask for a graph of the given size.
pub open spec fn spec_mask(edge_bits: u32) -> u64
    recommends
        edge_bits < 64,
{
    ((1u64 << edge_bits) - 1) as u64
}

/// The node reached for a given hash nonce: the SipHash output masked to
/// `edge_bits` bits.
pub open spec fn spec_node(k: (u64, u64, u64, u64), edge_bits: u32, nonce: u64) -> u64
    recommends
        edge_bits < 64,
{
    spec_siphash24(k, nonce) & spec_mask(edge_bits)
}

/// The key tuple held by a four-word key array.
pub open spec fn key_tuple(keys: Seq<u64>) -> (u64, u64, u64, u64)
    recommends
        keys.len() == 4,
{
    (keys[0], keys[1], keys[2], keys[3])
}

/// Left rotation, executable form.
pub fn rotl(x: u64, k: u64) -> (r: u64)
    requires
        0 < k < 64,
    ensures
        r == spec_rotl(x, k),
{
    (x << k) | (x >> (64 - k))
}

/// One SipRound, executable form.
pub fn sip_round(s: (u64, u64, u64, u64)) -> (r: (u64, u64, u64, u64))
    ensures
        r == spec_sip_round(s),
{
    let (s0, s1, s2, s3) = s;
    let s0 = s0.wrapping_add(s1);
    let s2 = s2.wrapping_add(s3);
    let s1 = rotl(s1, 13);
    let s3 = rotl(s3, 16);
    let s1 = s1 ^ s0;
    let s3 = s3 ^ s2;
    let s0 = rotl(s0, 32);
    let s2 = s2.wrapping_add(s1);
    let s0 = s0.wrapping_add(s3);
    let s1 = rotl(s1, 17);
    let s3 = rotl(s3, 21);
    let s1 = s1 ^ s2;
    let s3 = s3 ^ s0;
    let s2 = rotl(s2, 32);
    (s0, s1, s2, s3)
}

/// SipHash-2-4 of a single nonce, executable form.
pub fn siphash24(keys: &[u64; 4], nonce: u64) -> (r: u64)
    ensures
        r == spec_siphash24(key_tuple(keys@), nonce),
{
    let s0 = keys[0];
    let s1 = keys[1];
    let s2 = keys[2];
    let s3 = keys[3] ^ nonce;
    let s = sip_round(sip_round((s0, s1, s2, s3)));
    let (s0, s1, s2, s3) = s;
    let s0 = s0 ^ nonce;
    let s2 = s2 ^ 255;
    let s = sip_round(sip_round(sip_round(sip_round((s0, s1, s2, s3)))));
    let (s0, s1, s2, s3) = s;
    s0 ^ s1 ^ s2 ^ s3
}

/// The node reached for a given hash nonce, executable form.
pub fn node_for_nonce(keys: &[u64; 4], edge_bits: u32, nonce: u64) -> (r: u64)
    requires
        edge_bits < 64,
    ensures
        r == spec_node(key_tuple(keys@), edge_bits, nonce),
{
    let h = siphash24(keys, nonce);
    assert(1u64 << edge_bits >= 1) by (bit_vector)
        requires
            edge_bits < 64,
    ;
    let mask: u64 = (1u64 << edge_bits) - 1;
    assert(mask == spec_mask(edge_bits));
    h & mask
}

/// A node value is always below the masked bound.
pub proof fn lemma_node_bound(k: (u64, u64, u64, u64), edge_bits: u32, nonce: u64)
    requires
        edge_bits < 64,
    ensures
        spec_node(k, edge_bits, nonce) < (1u64 << edge_bits),
{
    let h = spec_siphash24(k, nonce);
    assert(h & (((1u64 << edge_bits) - 1) as u64) < (1u64 << edge_bits)) by (bit_vector)
        requires
            edge_bits < 64,
    ;
}

} // verus!
