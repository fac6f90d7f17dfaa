//! Batch form of the edge oracle: hashes lists of nonces and produces
//! packed edges with explicit indices.

use vstd::prelude::*;
use crate::sip::{key_tuple, node_for_nonce, spec_node};

verus! {

/// A generated edge in packed form: the edge index with its two endpoint
/// nodes, all narrowed to 32 bits.
#[derive(Debug, Clone, Copy, PartialEq, Eq, Structural)]
pub struct IndexedEdge {
    /// Edge index within the generated batch.
    pub index: u32,
    /// Endpoint on partition U.
    pub u_node: u32,
    /// Endpoint on partition V.
    pub v_node: u32,
}

/// SipHash-2-4 batch oracle under a four-word key.
pub struct SipHash {
    keys: [u64; 4],
}

impl SipHash {
    /// The key tuple this oracle hashes under.
    pub closed spec fn spec_keys(&self) -> (u64, u64, u64, u64) {
        key_tuple(self.keys@)
    }

    /// Create a new oracle with the given keys.
    pub fn new(keys: [u64; 4]) -> (r: Self)
        ensures
            r.spec_keys() == key_tuple(keys@),
    {
        Self { keys }
    }

    /// Generate a single node from a nonce.
    pub fn siphash24_single(&self, nonce: u64, edge_bits: u32) -> (r: u64)
        requires
            edge_bits < 64,
        ensures
            r == spec_node(self.spec_keys(), edge_bits, nonce),
    {
        node_for_nonce(&self.keys, edge_bits, nonce)
    }

    /// Generate nodes from a list of nonces.
    pub fn hash_nodes(&self, nonces: &[u64], edge_bits: u32) -> (r: Vec<u64>)
        requires
            edge_bits < 64,
        ensures
            r.len() == nonces.len(),
            forall|i: int|
                0 <= i < nonces@.len() ==> r[i] == spec_node(
                    self.spec_keys(),
                    edge_bits,
                    nonces[i],
                ),
    {
        let mut nodes: Vec<u64> = Vec::new();
        let n = nonces.len();
        for i in 0..n
            invariant
                n == nonces@.len(),
                edge_bits < 64,
                nodes.len() == i,
                forall|j: int|
                    0 <= j < i ==> nodes[j] == spec_node(self.spec_keys(), edge_bits, nonces[j]),
        {
            let node = self.siphash24_single(*vstd::slice::slice_index_get(nonces, i), edge_bits);
            nodes.push(node);
        }
        nodes
    }

    /// Generate packed edges for a list of nonces: edge `i` takes its
    /// endpoints from hashing `nonces[i]` and `nonces[i] + 1`. The header
    /// plays no role here; the keys were already derived from it.
    pub fn generate_edges(&self, _header: &[u8], nonces: &[u64], edge_bits: u32) -> (r: Vec<
        IndexedEdge,
    >)
        requires
            edge_bits < 64,
        ensures
            r.len() == nonces.len(),
            forall|i: int|
                0 <= i < nonces@.len() ==> #[trigger] r[i] == (IndexedEdge {
                    index: i as u32,
                    u_node: spec_node(self.spec_keys(), edge_bits, nonces[i]) as u32,
                    v_node: spec_node(
                        self.spec_keys(),
                        edge_bits,
                        nonces[i].wrapping_add(1),
                    ) as u32,
                }),
    {
        let mut edges: Vec<IndexedEdge> = Vec::new();
        let n = nonces.len();
        for i in 0..n
            invariant
                n == nonces@.len(),
                edge_bits < 64,
                edges.len() == i,
                forall|j: int|
                    0 <= j < i ==> #[trigger] edges[j] == (IndexedEdge {
                        index: j as u32,
                        u_node: spec_node(self.spec_keys(), edge_bits, nonces[j]) as u32,
                        v_node: spec_node(
                            self.spec_keys(),
                            edge_bits,
                            nonces[j].wrapping_add(1),
                        ) as u32,
                    }),
        {
            let nonce = *vstd::slice::slice_index_get(nonces, i);
            let u_node = self.siphash24_single(nonce, edge_bits);
            let v_node = self.siphash24_single(nonce.wrapping_add(1), edge_bits);
            let edge = IndexedEdge {
                index: #[verifier::truncate] (i as u32),
                u_node: #[verifier::truncate] (u_node as u32),
                v_node: #[verifier::truncate] (v_node as u32),
            };
            edges.push(edge);
        }
        edges
    }
}

impl Default for SipHash {
    /// Default keys for testing.
    fn default() -> (r: Self)
        ensures
            r.spec_keys() == (
                0x0706050403020100u64,
                0x0f0e0d0c0b0a0908u64,
                0x1716151413121110u64,
                0x1f1e1d1c1b1a1918u64,
            ),
    {
        SipHash::new(
            [0x0706050403020100u64, 0x0f0e0d0c0b0a0908u64, 0x1716151413121110u64, 0x1f1e1d1c1b1a1918u64],
        )
    }
}

} // verus!
