//! Header-keyed edge oracle: derives the SipHash keys from a header and
//! nonce via Blake2b-256, then generates the edges of the whole graph.

use vstd::prelude::*;
use crate::blake2b::{blake2b, spec_blake2b_keys, spec_nonce_bytes};
use crate::sip::{key_tuple, lemma_node_bound, node_for_nonce, spec_node};
use crate::types::{Edge, Header, Node};
use crate::CuckatooError;

verus! {

/// SipHash-2-4 oracle whose key is derived from a mining header.
pub struct SipHash {
    /// SipHash key (256-bit), generated from Blake2b.
    key: [u64; 4],
}

impl SipHash {
    /// The key tuple this oracle hashes under.
    pub closed spec fn spec_key(&self) -> (u64, u64, u64, u64) {
        key_tuple(self.key@)
    }

    /// Create a new oracle with keys derived from the header bytes and
    /// the given nonce.
    pub fn new_from_header(header: &Header, nonce: u64) -> (r: Self)
        ensures
            r.spec_key() == spec_blake2b_keys(header.bytes@ + spec_nonce_bytes(nonce)),
    {
        let key = blake2b(header.as_bytes(), nonce);
        Self { key }
    }

    /// Create a new oracle with a custom key (for testing).
    pub fn with_key(key: [u64; 4]) -> (r: Self)
        ensures
            r.spec_key() == key_tuple(key@),
    {
        Self { key }
    }

    /// Get the SipHash key.
    pub fn get_key(&self) -> (r: [u64; 4])
        ensures
            key_tuple(r@) == self.spec_key(),
    {
        self.key
    }

    /// Hash one nonce to a node of the graph.
    pub fn siphash24(&self, nonce: u64, edge_bits: u32) -> (r: Node)
        requires
            edge_bits < 64,
        ensures
            r.0 == spec_node(self.spec_key(), edge_bits, nonce),
    {
        Node(node_for_nonce(&self.key, edge_bits, nonce))
    }

    /// Generate every edge of the graph: edge `e` has endpoints reached
    /// by hashing nonces `2e` and `2e + 1`. Rejects edge bits outside
    /// `[10, 32]`.
    pub fn hash_header(&self, _header: &Header, edge_bits: u32) -> (r: Result<
        Vec<Edge>,
        CuckatooError,
    >)
        ensures
            r is Ok <==> (10 <= edge_bits <= 32),
            r matches Ok(edges) ==> {
                &&& edges.len() == (1u64 << edge_bits)
                &&& forall|e: int|
                    0 <= e < edges@.len() ==> #[trigger] edges[e] == (Edge {
                        u: Node(spec_node(self.spec_key(), edge_bits, (2 * e) as u64)),
                        v: Node(spec_node(self.spec_key(), edge_bits, (2 * e + 1) as u64)),
                    })
                &&& forall|e: int|
                    0 <= e < edges@.len() ==> (#[trigger] edges[e]).u.0 < (1u64 << edge_bits)
                        && edges[e].v.0 < (1u64 << edge_bits)
            },
            r is Err ==> (r matches Err(CuckatooError::InvalidEdgeBits(b)) && b == edge_bits),
    {
        if edge_bits < 10 || edge_bits > 32 {
            return Err(CuckatooError::InvalidEdgeBits(edge_bits));
        }
        let edge_count: u64 = 1u64 << edge_bits;
        assert(1u64 << edge_bits <= 0x100000000u64) by (bit_vector)
            requires
                edge_bits <= 32,
        ;
        let mut edges: Vec<Edge> = Vec::new();
        let mut e: u64 = 0;
        while e < edge_count
            invariant
                e <= edge_count,
                edge_count == (1u64 << edge_bits),
                edge_count <= 0x100000000u64,
                10 <= edge_bits <= 32,
                edges.len() == e,
                forall|j: int|
                    0 <= j < e ==> #[trigger] edges[j] == (Edge {
                        u: Node(spec_node(self.spec_key(), edge_bits, (2 * j) as u64)),
                        v: Node(spec_node(self.spec_key(), edge_bits, (2 * j + 1) as u64)),
                    }),
            decreases edge_count - e,
        {
            let u = self.siphash24(2 * e, edge_bits);
            let v = self.siphash24(2 * e + 1, edge_bits);
            edges.push(Edge { u, v });
            e += 1;
        }
        proof {
            assert forall|w: int|
                0 <= w < edges@.len() implies (#[trigger] edges@[w]).u.0 < (1u64 << edge_bits)
                && edges@[w].v.0 < (1u64 << edge_bits) by {
                lemma_node_bound(self.spec_key(), edge_bits, (2 * w) as u64);
                lemma_node_bound(self.spec_key(), edge_bits, (2 * w + 1) as u64);
            }
        }
        Ok(edges)
    }
}

impl Default for SipHash {
    /// Default key for testing; not meant for production use.
    fn default() -> (r: Self)
        ensures
            r.spec_key() == (
                0x736f6d6570736575u64,
                0x646f72616e646f6du64,
                0x6c7967656e657261u64,
                0x7465646279746573u64,
            ),
    {
        Self {
            key: [0x736f6d6570736575u64, 0x646f72616e646f6du64, 0x6c7967656e657261u64, 0x7465646279746573u64],
        }
    }
}

} // verus!
