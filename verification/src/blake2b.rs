//! Blake2b-256 key derivation: the header bytes followed by the
//! little-endian nonce are hashed, and the 32-byte digest is read as four
//! little-endian 64-bit SipHash keys.

use vstd::prelude::*;
use crate::sip::key_tuple;

verus! {

pub const BLAKE2B_IV0: u64 = 0x6a09e667f3bcc908;

pub const BLAKE2B_IV1: u64 = 0xbb67ae8584caa73b;

pub const BLAKE2B_IV2: u64 = 0x3c6ef372fe94f82b;

pub const BLAKE2B_IV3: u64 = 0xa54ff53a5f1d36f1;

pub const BLAKE2B_IV4: u64 = 0x510e527fade682d1;

pub const BLAKE2B_IV5: u64 = 0x9b05688c2b3e6c1f;

pub const BLAKE2B_IV6: u64 = 0x1f83d9abfb41bd6b;

pub const BLAKE2B_IV7: u64 = 0x5be0cd19137e2179;

/// Parameter word for an unkeyed hash of 32 output bytes: digest length
/// 32, fanout 1, depth 1.
pub const BLAKE2B_PARAM: u64 = 0x01010020;

/// Right rotation of a 64-bit word.
pub open spec fn spec_rotr(x: u64, k: u64) -> u64
    recommends
        0 < k < 64,
{
    (x >> k) | (x << ((64 - k) as u64))
}

/// The Blake2b initialization vector.
pub open spec fn spec_iv() -> Seq<u64> {
    seq![
        BLAKE2B_IV0,
        BLAKE2B_IV1,
        BLAKE2B_IV2,
        BLAKE2B_IV3,
        BLAKE2B_IV4,
        BLAKE2B_IV5,
        BLAKE2B_IV6,
        BLAKE2B_IV7,
    ]
}

/// The chaining state before any block is absorbed.
pub open spec fn spec_init_h() -> Seq<u64> {
    spec_iv().update(0, BLAKE2B_IV0 ^ BLAKE2B_PARAM)
}

/// The Blake2b mixing function G on working-state indices `a, b, c, d`
/// with message words `x, y`.
pub open spec fn spec_g(v: Seq<u64>, a: int, b: int, c: int, d: int, x: u64, y: u64) -> Seq<u64>
    recommends
        v.len() == 16,
        0 <= a < 16,
        0 <= b < 16,
        0 <= c < 16,
        0 <= d < 16,
{
    let va = v[a].wrapping_add(v[b]).wrapping_add(x);
    let vd = spec_rotr(v[d] ^ va, 32);
    let vc = v[c].wrapping_add(vd);
    let vb = spec_rotr(v[b] ^ vc, 24);
    let va2 = va.wrapping_add(vb).wrapping_add(y);
    let vd2 = spec_rotr(vd ^ va2, 16);
    let vc2 = vc.wrapping_add(vd2);
    let vb2 = spec_rotr(vb ^ vc2, 63);
    v.update(a, va2).update(b, vb2).update(c, vc2).update(d, vd2)
}

/// One Blake2b round under a message-word schedule `s` (a permutation of
/// `0..16`): four column mixes followed by four diagonal mixes.
pub open spec fn spec_round_sched(v: Seq<u64>, m: Seq<u64>, s: Seq<int>) -> Seq<u64>
    recommends
        v.len() == 16,
        m.len() == 16,
        s.len() == 16,
        forall|i: int| 0 <= i < 16 ==> 0 <= #[trigger] s[i] < 16,
{
    let v = spec_g(v, 0, 4, 8, 12, m[s[0]], m[s[1]]);
    let v = spec_g(v, 1, 5, 9, 13, m[s[2]], m[s[3]]);
    let v = spec_g(v, 2, 6, 10, 14, m[s[4]], m[s[5]]);
    let v = spec_g(v, 3, 7, 11, 15, m[s[6]], m[s[7]]);
    let v = spec_g(v, 0, 5, 10, 15, m[s[8]], m[s[9]]);
    let v = spec_g(v, 1, 6, 11, 12, m[s[10]], m[s[11]]);
    let v = spec_g(v, 2, 7, 8, 13, m[s[12]], m[s[13]]);
    let v = spec_g(v, 3, 4, 9, 14, m[s[14]], m[s[15]]);
    v
}

/// The Blake2b message schedule, by round number modulo 10.
pub open spec fn spec_sigma_row(rm: int) -> Seq<int>
    recommends
        0 <= rm < 10,
{
    if rm == 0 {
        seq![0, 1, 2, 3, 4, 5, 6, 7, 8, 9, 10, 11, 12, 13, 14, 15]
    } else if rm == 1 {
        seq![14, 10, 4, 8, 9, 15, 13, 6, 1, 12, 0, 2, 11, 7, 5, 3]
    } else if rm == 2 {
        seq![11, 8, 12, 0, 5, 2, 15, 13, 10, 14, 3, 6, 7, 1, 9, 4]
    } else if rm == 3 {
        seq![7, 9, 3, 1, 13, 12, 11, 14, 2, 6, 5, 10, 4, 0, 15, 8]
    } else if rm == 4 {
        seq![9, 0, 5, 7, 2, 4, 10, 15, 14, 1, 11, 12, 6, 8, 3, 13]
    } else if rm == 5 {
        seq![2, 12, 6, 10, 0, 11, 8, 3, 4, 13, 7, 5, 15, 14, 1, 9]
    } else if rm == 6 {
        seq![12, 5, 1, 15, 14, 13, 4, 10, 0, 7, 6, 3, 9, 2, 8, 11]
    } else if rm == 7 {
        seq![13, 11, 7, 14, 12, 1, 3, 9, 5, 0, 15, 4, 8, 6, 2, 10]
    } else if rm == 8 {
        seq![6, 15, 14, 9, 11, 3, 0, 8, 12, 2, 13, 7, 1, 4, 10, 5]
    } else {
        seq![10, 2, 8, 4, 7, 6, 1, 5, 15, 11, 9, 14, 3, 12, 13, 0]
    }
}

/// Round `r` of the compression function.
pub open spec fn spec_round(v: Seq<u64>, m: Seq<u64>, r: int) -> Seq<u64>
    recommends
        v.len() == 16,
        m.len() == 16,
        0 <= r < 12,
{
    spec_round_sched(v, m, spec_sigma_row(r % 10))
}

/// The first `n` rounds of the compression function, applied in order.
pub open spec fn spec_rounds(v: Seq<u64>, m: Seq<u64>, n: nat) -> Seq<u64>
    recommends
        v.len() == 16,
        m.len() == 16,
        n <= 12,
    decreases n,
{
    if n == 0 {
        v
    } else {
        spec_round(spec_rounds(v, m, (n - 1) as nat), m, n - 1)
    }
}

/// The Blake2b compression function: absorb one 16-word message block
/// into the 8-word chaining state, with byte counter `t`; `last` marks
/// the final block.
pub open spec fn spec_compress(h: Seq<u64>, m: Seq<u64>, t: u64, last: bool) -> Seq<u64>
    recommends
        h.len() == 8,
        m.len() == 16,
{
    let v = h + spec_iv();
    let v = v.update(12, v[12] ^ t);
    let v = if last {
        v.update(14, v[14] ^ 0xffffffffffffffffu64)
    } else {
        v
    };
    let v = spec_rounds(v, m, 12);
    Seq::new(8, |i: int| h[i] ^ v[i] ^ v[i + 8])
}

/// A little-endian 64-bit word read from eight bytes of a block.
pub open spec fn spec_le_word(b: Seq<u8>, off: int) -> u64
    recommends
        0 <= off,
        off + 8 <= b.len(),
{
    (b[off] as u64) | ((b[off + 1] as u64) << 8) | ((b[off + 2] as u64) << 16) | ((b[off + 3]
        as u64) << 24) | ((b[off + 4] as u64) << 32) | ((b[off + 5] as u64) << 40) | ((b[off + 6]
        as u64) << 48) | ((b[off + 7] as u64) << 56)
}

/// The sixteen message words of a 128-byte block.
pub open spec fn spec_words(block: Seq<u8>) -> Seq<u64>
    recommends
        block.len() == 128,
{
    Seq::new(16, |i: int| spec_le_word(block, 8 * i))
}

/// The 128-byte block starting at `off` in the message, zero-padded past
/// the end of the message.
pub open spec fn spec_pad_block(msg: Seq<u8>, off: int) -> Seq<u8>
    recommends
        0 <= off <= msg.len(),
{
    Seq::new(128, |i: int| if off + i < msg.len() { msg[off + i] } else { 0u8 })
}

/// Absorb the message from offset `off` onward into the chaining state.
/// Every block but the last carries 128 bytes; the final block is padded
/// and closes the hash with the total byte count.
pub open spec fn spec_absorb(h: Seq<u64>, msg: Seq<u8>, off: nat) -> Seq<u64>
    recommends
        off <= msg.len(),
        msg.len() < 0x10000000000000000,
    decreases msg.len() - off,
{
    if msg.len() - off > 128 {
        spec_absorb(
            spec_compress(h, spec_words(spec_pad_block(msg, off as int)), (off + 128) as u64, false),
            msg,
            (off + 128) as nat,
        )
    } else {
        spec_compress(h, spec_words(spec_pad_block(msg, off as int)), msg.len() as u64, true)
    }
}

/// The eight state words of the Blake2b-256 digest of a message.
pub open spec fn spec_blake2b_words(msg: Seq<u8>) -> Seq<u64> {
    spec_absorb(spec_init_h(), msg, 0)
}

/// The four SipHash keys derived from a message: the 32-byte digest read
/// as four little-endian words.
pub open spec fn spec_blake2b_keys(msg: Seq<u8>) -> (u64, u64, u64, u64) {
    let w = spec_blake2b_words(msg);
    (w[0], w[1], w[2], w[3])
}

/// The little-endian bytes of the nonce.
pub open spec fn spec_nonce_bytes(nonce: u64) -> Seq<u8> {
    seq![
        nonce as u8,
        (nonce >> 8) as u8,
        (nonce >> 16) as u8,
        (nonce >> 24) as u8,
        (nonce >> 32) as u8,
        (nonce >> 40) as u8,
        (nonce >> 48) as u8,
        (nonce >> 56) as u8,
    ]
}

/// Right rotation, executable form.
fn rotr(x: u64, k: u64) -> (r: u64)
    requires
        0 < k < 64,
    ensures
        r == spec_rotr(x, k),
{
    (x >> k) | (x << (64 - k))
}

/// The mixing function G, executable form.
fn g(v: &mut Vec<u64>, a: usize, b: usize, c: usize, d: usize, x: u64, y: u64)
    requires
        old(v).len() == 16,
        a < 16,
        b < 16,
        c < 16,
        d < 16,
    ensures
        final(v)@ == spec_g(old(v)@, a as int, b as int, c as int, d as int, x, y),
{
    let va = v[a].wrapping_add(v[b]).wrapping_add(x);
    let vd = rotr(v[d] ^ va, 32);
    let vc = v[c].wrapping_add(vd);
    let vb = rotr(v[b] ^ vc, 24);
    let va2 = va.wrapping_add(vb).wrapping_add(y);
    let vd2 = rotr(vd ^ va2, 16);
    let vc2 = vc.wrapping_add(vd2);
    let vb2 = rotr(vb ^ vc2, 63);
    v.set(a, va2);
    v.set(b, vb2);
    v.set(c, vc2);
    v.set(d, vd2);
    assert(v@ =~= spec_g(old(v)@, a as int, b as int, c as int, d as int, x, y));
}

/// One round of the compression function, executable form.
#[verifier::rlimit(100)]
fn mix_round(v: &mut Vec<u64>, m: &Vec<u64>, r: usize)
    requires
        old(v).len() == 16,
        m.len() == 16,
        r < 12,
    ensures
        final(v)@ == spec_round(old(v)@, m@, r as int),
{
    let rm = r % 10;
    if rm == 0 {
        g(v, 0, 4, 8, 12, m[0], m[1]);
        g(v, 1, 5, 9, 13, m[2], m[3]);
        g(v, 2, 6, 10, 14, m[4], m[5]);
        g(v, 3, 7, 11, 15, m[6], m[7]);
        g(v, 0, 5, 10, 15, m[8], m[9]);
        g(v, 1, 6, 11, 12, m[10], m[11]);
        g(v, 2, 7, 8, 13, m[12], m[13]);
        g(v, 3, 4, 9, 14, m[14], m[15]);
    } else if rm == 1 {
        g(v, 0, 4, 8, 12, m[14], m[10]);
        g(v, 1, 5, 9, 13, m[4], m[8]);
        g(v, 2, 6, 10, 14, m[9], m[15]);
        g(v, 3, 7, 11, 15, m[13], m[6]);
        g(v, 0, 5, 10, 15, m[1], m[12]);
        g(v, 1, 6, 11, 12, m[0], m[2]);
        g(v, 2, 7, 8, 13, m[11], m[7]);
        g(v, 3, 4, 9, 14, m[5], m[3]);
    } else if rm == 2 {
        g(v, 0, 4, 8, 12, m[11], m[8]);
        g(v, 1, 5, 9, 13, m[12], m[0]);
        g(v, 2, 6, 10, 14, m[5], m[2]);
        g(v, 3, 7, 11, 15, m[15], m[13]);
        g(v, 0, 5, 10, 15, m[10], m[14]);
        g(v, 1, 6, 11, 12, m[3], m[6]);
        g(v, 2, 7, 8, 13, m[7], m[1]);
        g(v, 3, 4, 9, 14, m[9], m[4]);
    } else if rm == 3 {
        g(v, 0, 4, 8, 12, m[7], m[9]);
        g(v, 1, 5, 9, 13, m[3], m[1]);
        g(v, 2, 6, 10, 14, m[13], m[12]);
        g(v, 3, 7, 11, 15, m[11], m[14]);
        g(v, 0, 5, 10, 15, m[2], m[6]);
        g(v, 1, 6, 11, 12, m[5], m[10]);
        g(v, 2, 7, 8, 13, m[4], m[0]);
        g(v, 3, 4, 9, 14, m[15], m[8]);
    } else if rm == 4 {
        g(v, 0, 4, 8, 12, m[9], m[0]);
        g(v, 1, 5, 9, 13, m[5], m[7]);
        g(v, 2, 6, 10, 14, m[2], m[4]);
        g(v, 3, 7, 11, 15, m[10], m[15]);
        g(v, 0, 5, 10, 15, m[14], m[1]);
        g(v, 1, 6, 11, 12, m[11], m[12]);
        g(v, 2, 7, 8, 13, m[6], m[8]);
        g(v, 3, 4, 9, 14, m[3], m[13]);
    } else if rm == 5 {
        g(v, 0, 4, 8, 12, m[2], m[12]);
        g(v, 1, 5, 9, 13, m[6], m[10]);
        g(v, 2, 6, 10, 14, m[0], m[11]);
        g(v, 3, 7, 11, 15, m[8], m[3]);
        g(v, 0, 5, 10, 15, m[4], m[13]);
        g(v, 1, 6, 11, 12, m[7], m[5]);
        g(v, 2, 7, 8, 13, m[15], m[14]);
        g(v, 3, 4, 9, 14, m[1], m[9]);
    } else if rm == 6 {
        g(v, 0, 4, 8, 12, m[12], m[5]);
        g(v, 1, 5, 9, 13, m[1], m[15]);
        g(v, 2, 6, 10, 14, m[14], m[13]);
        g(v, 3, 7, 11, 15, m[4], m[10]);
        g(v, 0, 5, 10, 15, m[0], m[7]);
        g(v, 1, 6, 11, 12, m[6], m[3]);
        g(v, 2, 7, 8, 13, m[9], m[2]);
        g(v, 3, 4, 9, 14, m[8], m[11]);
    } else if rm == 7 {
        g(v, 0, 4, 8, 12, m[13], m[11]);
        g(v, 1, 5, 9, 13, m[7], m[14]);
        g(v, 2, 6, 10, 14, m[12], m[1]);
        g(v, 3, 7, 11, 15, m[3], m[9]);
        g(v, 0, 5, 10, 15, m[5], m[0]);
        g(v, 1, 6, 11, 12, m[15], m[4]);
        g(v, 2, 7, 8, 13, m[8], m[6]);
        g(v, 3, 4, 9, 14, m[2], m[10]);
    } else if rm == 8 {
        g(v, 0, 4, 8, 12, m[6], m[15]);
        g(v, 1, 5, 9, 13, m[14], m[9]);
        g(v, 2, 6, 10, 14, m[11], m[3]);
        g(v, 3, 7, 11, 15, m[0], m[8]);
        g(v, 0, 5, 10, 15, m[12], m[2]);
        g(v, 1, 6, 11, 12, m[13], m[7]);
        g(v, 2, 7, 8, 13, m[1], m[4]);
        g(v, 3, 4, 9, 14, m[10], m[5]);
    } else {
        g(v, 0, 4, 8, 12, m[10], m[2]);
        g(v, 1, 5, 9, 13, m[8], m[4]);
        g(v, 2, 6, 10, 14, m[7], m[6]);
        g(v, 3, 7, 11, 15, m[1], m[5]);
        g(v, 0, 5, 10, 15, m[15], m[11]);
        g(v, 1, 6, 11, 12, m[9], m[14]);
        g(v, 2, 7, 8, 13, m[3], m[12]);
        g(v, 3, 4, 9, 14, m[13], m[0]);
    }
}

/// The compression function, executable form.
fn compress(h: &mut Vec<u64>, m: &Vec<u64>, t: u64, last: bool)
    requires
        old(h).len() == 8,
        m.len() == 16,
    ensures
        final(h)@ == spec_compress(old(h)@, m@, t, last),
{
    let mut v: Vec<u64> = Vec::new();
    let mut i: usize = 0;
    while i < 8
        invariant
            i <= 8,
            h.len() == 8,
            v.len() == i,
            v@ =~= h@.take(i as int),
        decreases 8 - i,
    {
        v.push(h[i]);
        i += 1;
    }
    v.push(BLAKE2B_IV0);
    v.push(BLAKE2B_IV1);
    v.push(BLAKE2B_IV2);
    v.push(BLAKE2B_IV3);
    v.push(BLAKE2B_IV4);
    v.push(BLAKE2B_IV5);
    v.push(BLAKE2B_IV6);
    v.push(BLAKE2B_IV7);
    assert(v@ =~= h@ + spec_iv());
    let t12 = v[12] ^ t;
    v.set(12, t12);
    if last {
        let t14 = v[14] ^ 0xffffffffffffffffu64;
        v.set(14, t14);
    }
    let ghost v_init = v@;
    assert(v_init =~= {
        let w = old(h)@ + spec_iv();
        let w = w.update(12, w[12] ^ t);
        if last {
            w.update(14, w[14] ^ 0xffffffffffffffffu64)
        } else {
            w
        }
    });
    let mut r: usize = 0;
    while r < 12
        invariant
            r <= 12,
            m.len() == 16,
            v.len() == 16,
            v@ == spec_rounds(v_init, m@, r as nat),
        decreases 12 - r,
    {
        mix_round(&mut v, m, r);
        r += 1;
    }
    let mut out: Vec<u64> = Vec::new();
    let mut i: usize = 0;
    while i < 8
        invariant
            i <= 8,
            h.len() == 8,
            h@ == old(h)@,
            v.len() == 16,
            v@ == spec_rounds(v_init, m@, 12),
            out.len() == i,
            forall|j: int| 0 <= j < i ==> out[j] == h@[j] ^ v@[j] ^ v@[j + 8],
        decreases 8 - i,
    {
        out.push(h[i] ^ v[i] ^ v[i + 8]);
        i += 1;
    }
    *h = out;
    assert(h@ =~= spec_compress(old(h)@, m@, t, last));
}

/// A little-endian word read from a block, executable form.
fn le_word(block: &Vec<u8>, off: usize) -> (r: u64)
    requires
        off + 8 <= block.len(),
    ensures
        r == spec_le_word(block@, off as int),
{
    (block[off] as u64) | ((block[off + 1] as u64) << 8u64) | ((block[off + 2] as u64) << 16u64)
        | ((block[off + 3] as u64) << 24u64) | ((block[off + 4] as u64) << 32u64) | ((block[off + 5]
        as u64) << 40u64) | ((block[off + 6] as u64) << 48u64) | ((block[off + 7] as u64)
        << 56u64)
}

/// The sixteen message words of a block, executable form.
fn words16(block: &Vec<u8>) -> (r: Vec<u64>)
    requires
        block.len() == 128,
    ensures
        r@ == spec_words(block@),
{
    let mut words: Vec<u64> = Vec::new();
    let mut i: usize = 0;
    while i < 16
        invariant
            i <= 16,
            block.len() == 128,
            words.len() == i,
            forall|j: int| 0 <= j < i ==> words[j] == spec_le_word(block@, 8 * j),
        decreases 16 - i,
    {
        words.push(le_word(block, 8 * i));
        i += 1;
    }
    assert(words@ =~= spec_words(block@));
    words
}

/// The padded 128-byte block at an offset of the message, executable
/// form.
fn take_block(msg: &[u8], off: usize) -> (r: Vec<u8>)
    requires
        off <= msg.len(),
    ensures
        r@ == spec_pad_block(msg@, off as int),
{
    let mut block: Vec<u8> = Vec::new();
    let len = msg.len();
    let mut i: usize = 0;
    while i < 128
        invariant
            i <= 128,
            off <= len,
            len == msg.len(),
            block.len() == i,
            forall|j: int|
                0 <= j < i ==> block[j] == (if off + j < msg@.len() {
                    msg@[off + j]
                } else {
                    0u8
                }),
        decreases 128 - i,
    {
        if off < len && i < len - off {
            block.push(*vstd::slice::slice_index_get(msg, off + i));
        } else {
            block.push(0u8);
        }
        i += 1;
    }
    assert(block@ =~= spec_pad_block(msg@, off as int));
    block
}

/// Blake2b-256 of a message, returned as the four little-endian words of
/// the digest.
pub fn blake2b_256(message: &[u8]) -> (r: [u64; 4])
    ensures
        key_tuple(r@) == spec_blake2b_keys(message@),
{
    let mut h: Vec<u64> = Vec::new();
    h.push(BLAKE2B_IV0 ^ BLAKE2B_PARAM);
    h.push(BLAKE2B_IV1);
    h.push(BLAKE2B_IV2);
    h.push(BLAKE2B_IV3);
    h.push(BLAKE2B_IV4);
    h.push(BLAKE2B_IV5);
    h.push(BLAKE2B_IV6);
    h.push(BLAKE2B_IV7);
    assert(h@ =~= spec_init_h());
    let len = message.len();
    let mut off: usize = 0;
    while len - off > 128
        invariant
            off <= len,
            len == message.len(),
            h.len() == 8,
            spec_absorb(h@, message@, off as nat) == spec_blake2b_words(message@),
        decreases len - off,
    {
        let block = take_block(message, off);
        let m = words16(&block);
        compress(&mut h, &m, (off + 128) as u64, false);
        off = off + 128;
    }
    let block = take_block(message, off);
    let m = words16(&block);
    compress(&mut h, &m, len as u64, true);
    assert(h@ == spec_blake2b_words(message@));
    [h[0], h[1], h[2], h[3]]
}

/// Derive the four SipHash keys from a header and nonce: Blake2b-256 of
/// the header bytes followed by the little-endian nonce.
pub fn blake2b(header: &[u8], nonce: u64) -> (r: [u64; 4])
    ensures
        key_tuple(r@) == spec_blake2b_keys(header@ + spec_nonce_bytes(nonce)),
{
    let mut msg: Vec<u8> = vstd::slice::slice_to_vec(header);
    msg.push(#[verifier::truncate] (nonce as u8));
    msg.push(#[verifier::truncate] ((nonce >> 8) as u8));
    msg.push(#[verifier::truncate] ((nonce >> 16) as u8));
    msg.push(#[verifier::truncate] ((nonce >> 24) as u8));
    msg.push(#[verifier::truncate] ((nonce >> 32) as u8));
    msg.push(#[verifier::truncate] ((nonce >> 40) as u8));
    msg.push(#[verifier::truncate] ((nonce >> 48) as u8));
    msg.push(#[verifier::truncate] ((nonce >> 56) as u8));
    assert(msg@ =~= header@ + spec_nonce_bytes(nonce));
    blake2b_256(msg.as_slice())
}

} // verus!
