//! The edge oracle bound to a fixed key and graph size: hashes a single
//! nonce to a node of the bipartite graph.

use vstd::prelude::*;
use crate::sip::{key_tuple, node_for_nonce, spec_node};
use crate::types::Node;

verus! {

/// SipHash-2-4 oracle with a fixed four-word key and node mask.
pub struct ExactSipHash {
    /// SipHash keys (4 u64 values).
    keys: [u64; 4],
    /// Edge bits for the node mask calculation.
    edge_bits: u32,
}

impl ExactSipHash {
    /// The key tuple this oracle hashes under.
    pub closed spec fn spec_keys(&self) -> (u64, u64, u64, u64) {
        key_tuple(self.keys@)
    }

    /// The graph size exponent this oracle masks to.
    pub closed spec fn spec_edge_bits(&self) -> u32 {
        self.edge_bits
    }

    /// Create a new oracle from keys and a graph size.
    pub fn new(keys: [u64; 4], edge_bits: u32) -> (r: Self)
        ensures
            r.spec_keys() == key_tuple(keys@),
            r.spec_edge_bits() == edge_bits,
    {
        Self { keys, edge_bits }
    }

    /// Get the SipHash keys.
    pub fn get_keys(&self) -> (r: [u64; 4])
        ensures
            key_tuple(r@) == self.spec_keys(),
    {
        self.keys
    }

    /// Hash a single nonce to get a node.
    pub fn hash_nonce(&self, nonce: u64) -> (r: Node)
        requires
            self.spec_edge_bits() < 64,
        ensures
            r.0 == spec_node(self.spec_keys(), self.spec_edge_bits(), nonce),
    {
        Node(node_for_nonce(&self.keys, self.edge_bits, nonce))
    }
}

} // verus!
