//! Lean bitmap trimming against the fixed-key oracle, for graphs of at
//! most 31 edge bits with 32-bit edge counts.

use vstd::prelude::*;
use crate::bitmap::{lemma_count_eq_subset, Bitmap};
use crate::bitmap_trimming::{
    lemma_trim_fixed_point, lemma_trim_monotonic, spec_all_alive, spec_marked, spec_marked_upto,
    spec_edge_node, spec_round, spec_survivors, spec_sweep, spec_trim,
};
use crate::exact_siphash::ExactSipHash;
use crate::types::Edge;
use crate::CuckatooError;

verus! {

broadcast use crate::bitmap::lemma_bits_len;

/// A graph of at most 31 edge bits has at most `2^31` edges.
proof fn lemma_edge_count_bound_u32(edge_bits: u32)
    requires
        edge_bits < 32,
    ensures
        1u32 << edge_bits >= 1,
        1u32 << edge_bits <= 0x80000000u32,
        (1u32 << edge_bits) as u64 == (1u64 << edge_bits),
{
    assert(1u32 << edge_bits >= 1 && 1u32 << edge_bits <= 0x80000000u32 && (1u32 << edge_bits)
        as u64 == (1u64 << edge_bits)) by (bit_vector)
        requires
            edge_bits < 32,
    ;
}

/// Bitmap-based lean trimmer with 32-bit edge indices.
pub struct ExactTrimmer {
    edge_bits: u32,
    number_of_edges: u32,
    node_mask: u32,
    edges_bitmap: Bitmap,
    nodes_bitmap: Bitmap,
}

impl ExactTrimmer {
    /// The graph size exponent.
    pub closed spec fn spec_edge_bits(&self) -> u32 {
        self.edge_bits
    }

    /// The alive set held in the edges bitmap.
    pub closed spec fn spec_alive(&self) -> Seq<bool> {
        self.edges_bitmap.bits()
    }

    /// The node marks held in the nodes bitmap.
    pub closed spec fn spec_nodes(&self) -> Seq<bool> {
        self.nodes_bitmap.bits()
    }

    /// Both bitmaps sized to the graph, padding bits clear.
    pub closed spec fn well_formed(&self) -> bool {
        &&& self.edge_bits < 32
        &&& self.number_of_edges == (1u32 << self.edge_bits)
        &&& self.edges_bitmap.well_formed()
        &&& self.nodes_bitmap.well_formed()
        &&& self.edges_bitmap.spec_size() == self.number_of_edges as u64
        &&& self.nodes_bitmap.spec_size() == self.number_of_edges as u64
    }

    /// Create a new trimmer for a graph of `2^edge_bits` edges, with no
    /// edges alive yet.
    pub fn new(edge_bits: u32) -> (r: Self)
        requires
            edge_bits < 32,
        ensures
            r.well_formed(),
            r.spec_edge_bits() == edge_bits,
    {
        proof {
            lemma_edge_count_bound_u32(edge_bits);
        }
        let number_of_edges: u32 = 1u32 << edge_bits;
        let node_mask: u32 = number_of_edges - 1;
        Self {
            edge_bits,
            number_of_edges,
            node_mask,
            edges_bitmap: Bitmap::new(number_of_edges as u64),
            nodes_bitmap: Bitmap::new(number_of_edges as u64),
        }
    }

    /// Fill the edges bitmap: every possible edge starts alive, padding
    /// bits clear.
    fn initialize_edges_bitmap(&mut self)
        requires
            old(self).well_formed(),
        ensures
            final(self).well_formed(),
            final(self).spec_edge_bits() == old(self).spec_edge_bits(),
            final(self).spec_alive() =~= spec_all_alive(old(self).spec_edge_bits()),
    {
        proof {
            lemma_edge_count_bound_u32(self.edge_bits);
        }
        self.edges_bitmap.set_all_bits();
    }

    /// Clear the nodes bitmap.
    fn clear_nodes_bitmap(&mut self)
        requires
            old(self).well_formed(),
        ensures
            final(self).well_formed(),
            final(self).spec_edge_bits() == old(self).spec_edge_bits(),
            final(self).spec_alive() == old(self).spec_alive(),
            forall|n: int| 0 <= n < final(self).spec_nodes().len() ==> !final(self).spec_nodes()[n],
    {
        self.nodes_bitmap.clear_all_bits();
    }

    /// Mark phase over one partition.
    fn mark_nodes(&mut self, siphash: &ExactSipHash, side: u64)
        requires
            old(self).well_formed(),
            side <= 1,
            siphash.spec_edge_bits() == old(self).spec_edge_bits(),
        ensures
            final(self).well_formed(),
            final(self).spec_edge_bits() == old(self).spec_edge_bits(),
            final(self).spec_alive() == old(self).spec_alive(),
            forall|n: int|
                0 <= n < final(self).spec_nodes().len() ==> final(self).spec_nodes()[n]
                    == spec_marked(
                    siphash.spec_keys(),
                    old(self).spec_edge_bits(),
                    old(self).spec_alive(),
                    side as int,
                    n as u64,
                ),
    {
        proof {
            lemma_edge_count_bound_u32(self.edge_bits);
        }
        self.nodes_bitmap.clear_all_bits();
        let n_edges: u64 = self.number_of_edges as u64;
        let ghost k = siphash.spec_keys();
        let ghost eb = self.edge_bits;
        let ghost alive = self.spec_alive();
        let mut e: u64 = 0;
        while e < n_edges
            invariant
                self.well_formed(),
                self.edge_bits == eb,
                self.number_of_edges as u64 == n_edges,
                n_edges <= 0x80000000u64,
                side <= 1,
                e <= n_edges,
                k == siphash.spec_keys(),
                siphash.spec_edge_bits() == eb,
                self.spec_alive() == alive,
                alive.len() == n_edges,
                forall|n: int|
                    0 <= n < self.spec_nodes().len() ==> self.spec_nodes()[n] == spec_marked_upto(
                        k,
                        eb,
                        alive,
                        side as int,
                        n as u64,
                        e as int,
                    ),
            decreases n_edges - e,
        {
            let ghost nodes_pre = self.spec_nodes();
            if self.edges_bitmap.is_bit_set(e) {
                let node = siphash.hash_nonce(2 * e + side);
                self.nodes_bitmap.set_bit(node.0);
                proof {
                    assert forall|n: int|
                        0 <= n < self.spec_nodes().len() implies self.spec_nodes()[n]
                        == spec_marked_upto(k, eb, alive, side as int, n as u64, e + 1) by {
                        if n == node.0 as int {
                            assert(alive[e as int] && spec_edge_node(k, eb, e as int, side as int)
                                == n as u64);
                            assert(spec_marked_upto(k, eb, alive, side as int, n as u64, e + 1));
                        } else {
                            assert(self.spec_nodes()[n] == nodes_pre[n]);
                            if spec_marked_upto(k, eb, alive, side as int, n as u64, e + 1) {
                                let w = choose|w: int|
                                    0 <= w < e + 1 && #[trigger] alive[w] && spec_edge_node(
                                        k,
                                        eb,
                                        w,
                                        side as int,
                                    ) == n as u64;
                                assert(w < e);
                                assert(spec_marked_upto(
                                    k,
                                    eb,
                                    alive,
                                    side as int,
                                    n as u64,
                                    e as int,
                                ));
                            }
                        }
                    }
                }
            } else {
                proof {
                    assert forall|n: int|
                        0 <= n < self.spec_nodes().len() implies self.spec_nodes()[n]
                        == spec_marked_upto(k, eb, alive, side as int, n as u64, e + 1) by {
                        if spec_marked_upto(k, eb, alive, side as int, n as u64, e + 1) {
                            let w = choose|w: int|
                                0 <= w < e + 1 && #[trigger] alive[w] && spec_edge_node(
                                    k,
                                    eb,
                                    w,
                                    side as int,
                                ) == n as u64;
                            assert(w < e);
                            assert(spec_marked_upto(k, eb, alive, side as int, n as u64, e as int));
                        }
                    }
                }
            }
            e += 1;
        }
    }

    /// Sweep phase over one partition.
    fn sweep_edges(&mut self, siphash: &ExactSipHash, side: u64)
        requires
            old(self).well_formed(),
            side <= 1,
            siphash.spec_edge_bits() == old(self).spec_edge_bits(),
            forall|n: int|
                0 <= n < old(self).spec_nodes().len() ==> old(self).spec_nodes()[n] == spec_marked(
                    siphash.spec_keys(),
                    old(self).spec_edge_bits(),
                    old(self).spec_alive(),
                    side as int,
                    n as u64,
                ),
        ensures
            final(self).well_formed(),
            final(self).spec_edge_bits() == old(self).spec_edge_bits(),
            final(self).spec_alive() =~= spec_sweep(
                siphash.spec_keys(),
                old(self).spec_edge_bits(),
                old(self).spec_alive(),
                side as int,
            ),
    {
        proof {
            lemma_edge_count_bound_u32(self.edge_bits);
        }
        let n_edges: u64 = self.number_of_edges as u64;
        let ghost k = siphash.spec_keys();
        let ghost eb = self.edge_bits;
        let ghost alive0 = self.spec_alive();
        let mut e: u64 = 0;
        while e < n_edges
            invariant
                self.well_formed(),
                self.edge_bits == eb,
                self.number_of_edges as u64 == n_edges,
                n_edges <= 0x80000000u64,
                side <= 1,
                e <= n_edges,
                k == siphash.spec_keys(),
                siphash.spec_edge_bits() == eb,
                alive0.len() == n_edges,
                self.spec_alive().len() == n_edges,
                self.spec_nodes() == old(self).spec_nodes(),
                forall|n: int|
                    0 <= n < self.spec_nodes().len() ==> self.spec_nodes()[n] == spec_marked(
                        k,
                        eb,
                        alive0,
                        side as int,
                        n as u64,
                    ),
                forall|j: int|
                    0 <= j < e ==> self.spec_alive()[j] == spec_sweep(k, eb, alive0, side as int)[j],
                forall|j: int| e <= j < n_edges ==> self.spec_alive()[j] == alive0[j],
            decreases n_edges - e,
        {
            if self.edges_bitmap.is_bit_set(e) {
                let node = siphash.hash_nonce(2 * e + side);
                let pair = node.0 ^ 1;
                if !self.nodes_bitmap.is_bit_set(pair) {
                    self.edges_bitmap.clear_bit(e);
                }
            }
            e += 1;
        }
    }

    /// Step 1: mark partition U's endpoints of the alive edges.
    fn trim_edges_step_one(&mut self, siphash: &ExactSipHash)
        requires
            old(self).well_formed(),
            siphash.spec_edge_bits() == old(self).spec_edge_bits(),
        ensures
            final(self).well_formed(),
            final(self).spec_edge_bits() == old(self).spec_edge_bits(),
            final(self).spec_alive() == old(self).spec_alive(),
            forall|n: int|
                0 <= n < final(self).spec_nodes().len() ==> final(self).spec_nodes()[n]
                    == spec_marked(
                    siphash.spec_keys(),
                    old(self).spec_edge_bits(),
                    old(self).spec_alive(),
                    0,
                    n as u64,
                ),
    {
        self.mark_nodes(siphash, 0);
    }

    /// Step 2: sweep partition U.
    fn trim_edges_step_two(&mut self, siphash: &ExactSipHash)
        requires
            old(self).well_formed(),
            siphash.spec_edge_bits() == old(self).spec_edge_bits(),
            forall|n: int|
                0 <= n < old(self).spec_nodes().len() ==> old(self).spec_nodes()[n] == spec_marked(
                    siphash.spec_keys(),
                    old(self).spec_edge_bits(),
                    old(self).spec_alive(),
                    0,
                    n as u64,
                ),
        ensures
            final(self).well_formed(),
            final(self).spec_edge_bits() == old(self).spec_edge_bits(),
            final(self).spec_alive() =~= spec_sweep(
                siphash.spec_keys(),
                old(self).spec_edge_bits(),
                old(self).spec_alive(),
                0,
            ),
    {
        self.sweep_edges(siphash, 0);
    }

    /// Step 3: mark partition V's endpoints of the alive edges.
    fn trim_edges_step_three(&mut self, siphash: &ExactSipHash)
        requires
            old(self).well_formed(),
            siphash.spec_edge_bits() == old(self).spec_edge_bits(),
        ensures
            final(self).well_formed(),
            final(self).spec_edge_bits() == old(self).spec_edge_bits(),
            final(self).spec_alive() == old(self).spec_alive(),
            forall|n: int|
                0 <= n < final(self).spec_nodes().len() ==> final(self).spec_nodes()[n]
                    == spec_marked(
                    siphash.spec_keys(),
                    old(self).spec_edge_bits(),
                    old(self).spec_alive(),
                    1,
                    n as u64,
                ),
    {
        self.mark_nodes(siphash, 1);
    }

    /// Step 4: sweep partition V.
    fn trim_edges_step_four(&mut self, siphash: &ExactSipHash)
        requires
            old(self).well_formed(),
            siphash.spec_edge_bits() == old(self).spec_edge_bits(),
            forall|n: int|
                0 <= n < old(self).spec_nodes().len() ==> old(self).spec_nodes()[n] == spec_marked(
                    siphash.spec_keys(),
                    old(self).spec_edge_bits(),
                    old(self).spec_alive(),
                    1,
                    n as u64,
                ),
        ensures
            final(self).well_formed(),
            final(self).spec_edge_bits() == old(self).spec_edge_bits(),
            final(self).spec_alive() =~= spec_sweep(
                siphash.spec_keys(),
                old(self).spec_edge_bits(),
                old(self).spec_alive(),
                1,
            ),
    {
        self.sweep_edges(siphash, 1);
    }

    /// Run lean trimming for the given number of rounds, or until a
    /// round removes no edge, and materialize the surviving edges in
    /// ascending index order.
    pub fn trim_edges(&mut self, siphash: &ExactSipHash, trimming_rounds: u32) -> (r: Result<
        Vec<Edge>,
        CuckatooError,
    >)
        requires
            old(self).well_formed(),
            siphash.spec_edge_bits() == old(self).spec_edge_bits(),
        ensures
            final(self).well_formed(),
            final(self).spec_edge_bits() == old(self).spec_edge_bits(),
            final(self).spec_alive() == spec_trim(
                siphash.spec_keys(),
                old(self).spec_edge_bits(),
                trimming_rounds as nat,
            ),
            r matches Ok(edges) && edges@ == spec_survivors(
                siphash.spec_keys(),
                old(self).spec_edge_bits(),
                final(self).spec_alive(),
                final(self).spec_alive().len() as int,
            ),
    {
        let ghost k = siphash.spec_keys();
        let ghost eb = self.edge_bits;
        proof {
            lemma_edge_count_bound_u32(eb);
        }
        self.initialize_edges_bitmap();
        proof {
            assert(self.spec_alive() =~= spec_trim(k, eb, 0));
        }
        let mut round: u32 = 0;
        let mut fixed = false;
        while round < trimming_rounds && !fixed
            invariant
                self.well_formed(),
                self.edge_bits == eb,
                round <= trimming_rounds,
                k == siphash.spec_keys(),
                siphash.spec_edge_bits() == eb,
                self.spec_alive() == spec_trim(k, eb, round as nat),
                fixed ==> spec_trim(k, eb, trimming_rounds as nat) == self.spec_alive(),
            decreases trimming_rounds - round,
        {
            let before = self.edges_bitmap.count_set_bits();
            let ghost alive_pre = self.spec_alive();
            self.clear_nodes_bitmap();
            self.trim_edges_step_one(siphash);
            self.trim_edges_step_two(siphash);
            self.trim_edges_step_three(siphash);
            self.trim_edges_step_four(siphash);
            let after = self.edges_bitmap.count_set_bits();
            proof {
                assert(self.spec_alive() =~= spec_round(k, eb, alive_pre));
                assert(self.spec_alive() == spec_trim(k, eb, (round + 1) as nat));
            }
            if after == before {
                proof {
                    let a1 = self.spec_alive();
                    lemma_trim_monotonic(k, eb, round as nat);
                    lemma_count_eq_subset(a1, alive_pre);
                    assert(spec_trim(k, eb, (round + 1) as nat) == spec_trim(k, eb, round as nat));
                    lemma_trim_fixed_point(k, eb, round as nat, trimming_rounds as nat);
                }
                fixed = true;
            }
            round += 1;
        }
        Ok(self.generate_final_edges(siphash))
    }

    /// Materialize the surviving edges, ascending by edge index.
    fn generate_final_edges(&self, siphash: &ExactSipHash) -> (r: Vec<Edge>)
        requires
            self.well_formed(),
            siphash.spec_edge_bits() == self.spec_edge_bits(),
        ensures
            r@ == spec_survivors(
                siphash.spec_keys(),
                self.spec_edge_bits(),
                self.spec_alive(),
                self.spec_alive().len() as int,
            ),
    {
        proof {
            lemma_edge_count_bound_u32(self.edge_bits);
        }
        let n_edges: u64 = self.number_of_edges as u64;
        let ghost k = siphash.spec_keys();
        let ghost eb = self.edge_bits;
        let mut edges: Vec<Edge> = Vec::new();
        let mut e: u64 = 0;
        while e < n_edges
            invariant
                self.well_formed(),
                self.edge_bits == eb,
                self.number_of_edges as u64 == n_edges,
                n_edges <= 0x80000000u64,
                e <= n_edges,
                k == siphash.spec_keys(),
                siphash.spec_edge_bits() == eb,
                edges@ == spec_survivors(k, eb, self.spec_alive(), e as int),
            decreases n_edges - e,
        {
            if self.edges_bitmap.is_bit_set(e) {
                let u = siphash.hash_nonce(2 * e);
                let v = siphash.hash_nonce(2 * e + 1);
                edges.push(Edge { u, v });
            }
            e += 1;
        }
        edges
    }

    /// Set a bit in the nodes bitmap; indices past the graph are
    /// ignored.
    pub fn set_bit_in_nodes_bitmap(&mut self, index: u32)
        requires
            old(self).well_formed(),
        ensures
            final(self).well_formed(),
            final(self).spec_edge_bits() == old(self).spec_edge_bits(),
            final(self).spec_alive() == old(self).spec_alive(),
            (index as u64) < old(self).spec_nodes().len() ==> final(self).spec_nodes() =~= old(
                self,
            ).spec_nodes().update(index as int, true),
            (index as u64) >= old(self).spec_nodes().len() ==> final(self).spec_nodes() =~= old(
                self,
            ).spec_nodes(),
    {
        self.nodes_bitmap.set_bit(index as u64);
    }

    /// Check a bit in the nodes bitmap; indices past the graph read as
    /// clear.
    pub fn is_bit_set_in_nodes_bitmap(&self, index: u32) -> (r: bool)
        requires
            self.well_formed(),
        ensures
            r == ((index as u64) < self.spec_nodes().len() && self.spec_nodes()[index as int]),
    {
        self.nodes_bitmap.is_bit_set(index as u64)
    }
}

} // verus!
