//! Core data types for the Cuckatoo graph: nodes, edges, headers and the
//! solver configuration.

use vstd::prelude::*;

verus! {

/// Number of edges in a solution cycle.
pub const SOLUTION_SIZE: usize = 42;

/// Components of a packed edge triple: `[edge_index, node_u, node_v]`.
pub const EDGE_NUMBER_OF_COMPONENTS: usize = 3;

/// Node in the Cuckatoo graph: an integer below `2^edge_bits`, interpreted
/// on partition U or V depending on which endpoint of an edge it is.
#[derive(Debug, Clone, Copy, PartialEq, Eq, PartialOrd, Ord, Hash, Structural)]
pub struct Node(pub u64);

impl Node {
    /// Create a new node.
    pub fn new(value: u64) -> (r: Self)
        ensures
            r.0 == value,
    {
        Self(value)
    }

    /// Get the node value.
    pub fn value(&self) -> (r: u64)
        ensures
            r == self.0,
    {
        self.0
    }
}

/// Edge in the Cuckatoo graph: an unordered pair with `u` interpreted on
/// partition U and `v` on partition V.
#[derive(Debug, Clone, Copy, PartialEq, Eq, PartialOrd, Ord, Hash, Structural)]
pub struct Edge {
    /// First node of the edge (partition U).
    pub u: Node,
    /// Second node of the edge (partition V).
    pub v: Node,
}

impl Edge {
    /// Create a new edge.
    pub fn new(u: Node, v: Node) -> (r: Self)
        ensures
            r.u == u,
            r.v == v,
    {
        Self { u, v }
    }

    /// Get the other node given one node.
    pub fn other(&self, node: Node) -> (r: Option<Node>)
        ensures
            self.u == node ==> r == Some(self.v),
            self.u != node && self.v == node ==> r == Some(self.u),
            self.u != node && self.v != node ==> r is None,
    {
        if self.u == node {
            Some(self.v)
        } else if self.v == node {
            Some(self.u)
        } else {
            None
        }
    }

    /// Check if this edge contains the given node.
    pub fn contains(&self, node: Node) -> (r: bool)
        ensures
            r == (self.u == node || self.v == node),
    {
        self.u == node || self.v == node
    }
}

/// Header for mining: the opaque byte sequence hashed, together with the
/// nonce, into the four SipHash keys.
#[derive(Debug, Clone)]
pub struct Header {
    /// Header bytes.
    pub bytes: Vec<u8>,
    /// Nonce for mining.
    pub nonce: u64,
}

impl Header {
    /// Create a new header from bytes, with nonce zero.
    pub fn new(bytes: &[u8]) -> (r: Self)
        ensures
            r.bytes@ == bytes@,
            r.nonce == 0,
    {
        Self { bytes: vstd::slice::slice_to_vec(bytes), nonce: 0 }
    }

    /// Create a new header with bytes and nonce.
    pub fn new_with_nonce(bytes: &[u8], nonce: u64) -> (r: Self)
        ensures
            r.bytes@ == bytes@,
            r.nonce == nonce,
    {
        Self { bytes: vstd::slice::slice_to_vec(bytes), nonce }
    }

    /// Get header bytes.
    pub fn bytes(&self) -> (r: &[u8])
        ensures
            r@ == self.bytes@,
    {
        self.bytes.as_slice()
    }

    /// Get header bytes as slice (alias for `bytes`).
    pub fn as_bytes(&self) -> (r: &[u8])
        ensures
            r@ == self.bytes@,
    {
        self.bytes.as_slice()
    }

    /// Get nonce.
    pub fn nonce(&self) -> (r: u64)
        ensures
            r == self.nonce,
    {
        self.nonce
    }
}

/// Trimming mode for edge trimming. Only lean trimming is implemented by
/// the core; the other modes exist for configuration compatibility.
#[derive(Debug, Clone, Copy, PartialEq, Eq, Structural)]
pub enum TrimmingMode {
    /// Lean trimming (most memory efficient).
    Lean,
    /// Mean trimming (fastest).
    Mean,
    /// Slean trimming (balanced).
    Slean,
}

/// Configuration for Cuckatoo mining.
#[derive(Debug, Clone)]
pub struct Config {
    /// Number of edge bits (determines graph size).
    pub edge_bits: u32,
    /// Number of trimming rounds.
    pub trimming_rounds: u32,
    /// Trimming mode.
    pub mode: TrimmingMode,
    /// Whether to run in tuning mode (offline).
    pub tuning: bool,
}

impl Config {
    /// Create a new configuration with the default round count.
    pub fn new(edge_bits: u32) -> (r: Self)
        ensures
            r.edge_bits == edge_bits,
            r.trimming_rounds == 90,
            r.mode == TrimmingMode::Lean,
            !r.tuning,
    {
        Self { edge_bits, trimming_rounds: 90, mode: TrimmingMode::Lean, tuning: false }
    }

    /// Create a new configuration for a 2^31-edge graph.
    pub fn new_cuckatoo31() -> (r: Self)
        ensures
            r.edge_bits == 31,
            r.trimming_rounds == 90,
            r.mode == TrimmingMode::Lean,
            !r.tuning,
    {
        Self { edge_bits: 31, trimming_rounds: 90, mode: TrimmingMode::Lean, tuning: false }
    }

    /// Validate the configuration: edge bits must lie in `[10, 32]`.
    pub fn validate(&self) -> (r: Result<(), crate::CuckatooError>)
        ensures
            r is Ok <==> (10 <= self.edge_bits <= 32),
            r is Err ==> (r matches Err(crate::CuckatooError::InvalidEdgeBits(b)) && b
                == self.edge_bits),
    {
        if self.edge_bits < 10 || self.edge_bits > 32 {
            return Err(crate::CuckatooError::InvalidEdgeBits(self.edge_bits));
        }
        Ok(())
    }

    /// Calculate the number of edges based on edge bits.
    pub fn edge_count(&self) -> (r: u64)
        requires
            self.edge_bits < 64,
        ensures
            r == (1u64 << self.edge_bits),
    {
        1u64 << self.edge_bits
    }

    /// Calculate the number of node pairs based on edge bits.
    pub fn node_count(&self) -> (r: u64)
        requires
            1 <= self.edge_bits < 64,
        ensures
            r == (1u64 << (self.edge_bits - 1)),
    {
        1u64 << (self.edge_bits - 1)
    }
}

} // verus!
