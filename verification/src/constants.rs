//! Global parameters of the Cuckatoo construction and small derived
//! quantities used when sizing bitmaps.

use vstd::prelude::*;

verus! {

/// Cycle length of a solution. The protocol fixes this at 42; it does not
/// vary at runtime.
pub const DEFAULT_CYCLE_LENGTH: usize = 42;

/// Minimum accepted edge bits.
pub const MIN_EDGE_BITS: u32 = 10;

/// Maximum accepted edge bits.
pub const MAX_EDGE_BITS: u32 = 32;

/// Bitmap unit width in bits.
pub const BITMAP_UNIT_WIDTH: usize = 64;

/// Number of bits in a byte.
pub const BITS_IN_A_BYTE: usize = 8;

/// Solution size: the fixed cycle length.
pub fn solution_size() -> (r: usize)
    ensures
        r == 42,
{
    DEFAULT_CYCLE_LENGTH
}

/// Calculate the number of edges based on edge bits.
pub fn number_of_edges(edge_bits: u32) -> (r: u64)
    requires
        edge_bits < 64,
    ensures
        r == (1u64 << edge_bits),
{
    1u64 << edge_bits
}

/// Calculate the node mask based on edge bits.
pub fn node_mask(edge_bits: u32) -> (r: u32)
    requires
        edge_bits < 32,
    ensures
        r == (1u32 << edge_bits) - 1,
{
    assert(1u32 << edge_bits >= 1) by (bit_vector)
        requires
            edge_bits < 32,
    ;
    (1u32 << edge_bits) - 1
}

/// Calculate the edges bitmap size (in 64-bit words) based on edge bits.
pub fn edges_bitmap_size(edge_bits: u32) -> (r: usize)
    requires
        edge_bits < 64,
    ensures
        r == (((1u64 << edge_bits) + 63) / 64) as usize,
{
    let edges_count: u64 = number_of_edges(edge_bits);
    assert(1u64 << edge_bits <= 0x8000000000000000u64) by (bit_vector)
        requires
            edge_bits < 64,
    ;
    ((edges_count + (BITMAP_UNIT_WIDTH as u64 - 1)) / (BITMAP_UNIT_WIDTH as u64)) as usize
}

/// Validate the edge bits range accepted by the core.
pub fn validate_edge_bits(edge_bits: u32) -> (r: Result<(), String>)
    ensures
        r is Ok <==> (MIN_EDGE_BITS <= edge_bits <= MAX_EDGE_BITS),
{
    if edge_bits < MIN_EDGE_BITS || edge_bits > MAX_EDGE_BITS {
        Err("edge bits out of the accepted range".to_owned())
    } else {
        Ok(())
    }
}

} // verus!
