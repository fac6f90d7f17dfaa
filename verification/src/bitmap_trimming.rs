//! Lean bitmap trimming: an edges bitmap with one bit per possible edge
//! is pruned, round after round, by clearing every edge whose endpoint
//! has no mate on the partition under inspection. Each round inspects
//! partition U and then partition V.

use vstd::prelude::*;
use crate::bitmap::{lemma_count_eq_subset, lemma_count_le_mono, spec_count, word_bit, Bitmap};
use crate::hashing::SipHash;
use crate::sip::spec_node;
use crate::types::{Edge, Node};
use crate::CuckatooError;

verus! {

broadcast use crate::bitmap::lemma_bits_len;

/// A graph of at most 32 edge bits has at most `2^32` edges.
proof fn lemma_edge_count_bound(edge_bits: u32)
    requires
        edge_bits <= 32,
    ensures
        1u64 << edge_bits >= 1,
        1u64 << edge_bits <= 0x100000000u64,
{
    assert(1u64 << edge_bits >= 1 && 1u64 << edge_bits <= 0x100000000u64) by (bit_vector)
        requires
            edge_bits <= 32,
    ;
}

/// The endpoint of edge `e` on side 0 (partition U) or side 1
/// (partition V): the oracle hashes nonce `2e + side`.
pub open spec fn spec_edge_node(k: (u64, u64, u64, u64), edge_bits: u32, e: int, side: int) -> u64
    recommends
        edge_bits < 64,
        0 <= side <= 1,
{
    spec_node(k, edge_bits, (2 * e + side) as u64)
}

/// Whether some edge alive among the first `upto` edges touches node `n`
/// on the given side.
pub open spec fn spec_marked_upto(
    k: (u64, u64, u64, u64),
    edge_bits: u32,
    alive: Seq<bool>,
    side: int,
    n: u64,
    upto: int,
) -> bool {
    exists|e: int|
        0 <= e < upto && #[trigger] alive[e] && spec_edge_node(k, edge_bits, e, side) == n
}

/// Whether some alive edge touches node `n` on the given side.
pub open spec fn spec_marked(
    k: (u64, u64, u64, u64),
    edge_bits: u32,
    alive: Seq<bool>,
    side: int,
    n: u64,
) -> bool {
    spec_marked_upto(k, edge_bits, alive, side, n, alive.len() as int)
}

/// One sweep over one partition: an edge stays alive exactly when it was
/// alive and the pair mate of its endpoint is touched by some alive
/// edge on that partition.
pub open spec fn spec_sweep(
    k: (u64, u64, u64, u64),
    edge_bits: u32,
    alive: Seq<bool>,
    side: int,
) -> Seq<bool> {
    Seq::new(
        alive.len(),
        |e: int|
            alive[e] && (spec_edge_node(k, edge_bits, e, side) ^ 1) < alive.len() && spec_marked(
                k,
                edge_bits,
                alive,
                side,
                spec_edge_node(k, edge_bits, e, side) ^ 1,
            ),
    )
}

/// One full trimming round: a U sweep followed by a V sweep.
pub open spec fn spec_round(k: (u64, u64, u64, u64), edge_bits: u32, alive: Seq<bool>) -> Seq<
    bool,
> {
    spec_sweep(k, edge_bits, spec_sweep(k, edge_bits, alive, 0), 1)
}

/// The all-alive state: every possible edge present.
pub open spec fn spec_all_alive(edge_bits: u32) -> Seq<bool>
    recommends
        edge_bits < 64,
{
    Seq::new((1u64 << edge_bits) as nat, |e: int| true)
}

/// The alive set after the given number of trimming rounds.
pub open spec fn spec_trim(k: (u64, u64, u64, u64), edge_bits: u32, rounds: nat) -> Seq<bool>
    recommends
        edge_bits < 64,
    decreases rounds,
{
    if rounds == 0 {
        spec_all_alive(edge_bits)
    } else {
        spec_round(k, edge_bits, spec_trim(k, edge_bits, (rounds - 1) as nat))
    }
}

/// A sweep never revives an edge.
pub proof fn lemma_sweep_subset(k: (u64, u64, u64, u64), edge_bits: u32, alive: Seq<bool>, side: int)
    ensures
        spec_sweep(k, edge_bits, alive, side).len() == alive.len(),
        forall|e: int|
            0 <= e < alive.len() && #[trigger] spec_sweep(k, edge_bits, alive, side)[e]
                ==> alive[e],
{
}

/// Trim monotonicity: the alive set only shrinks from one round to the
/// next; once an edge is cleared it never returns.
pub proof fn lemma_trim_monotonic(k: (u64, u64, u64, u64), edge_bits: u32, rounds: nat)
    ensures
        spec_trim(k, edge_bits, rounds + 1).len() == spec_trim(k, edge_bits, rounds).len(),
        forall|e: int|
            0 <= e < spec_trim(k, edge_bits, rounds).len() && #[trigger] spec_trim(
                k,
                edge_bits,
                rounds + 1,
            )[e] ==> spec_trim(k, edge_bits, rounds)[e],
{
    let a = spec_trim(k, edge_bits, rounds);
    lemma_sweep_subset(k, edge_bits, a, 0);
    lemma_sweep_subset(k, edge_bits, spec_sweep(k, edge_bits, a, 0), 1);
}

/// Once an edge has been cleared it never returns: an edge alive after
/// more rounds was alive after fewer.
pub proof fn lemma_trim_monotonic_general(
    k: (u64, u64, u64, u64),
    edge_bits: u32,
    fewer: nat,
    more: nat,
)
    requires
        fewer <= more,
    ensures
        spec_trim(k, edge_bits, more).len() == spec_trim(k, edge_bits, fewer).len(),
        forall|e: int|
            0 <= e < spec_trim(k, edge_bits, fewer).len() && #[trigger] spec_trim(
                k,
                edge_bits,
                more,
            )[e] ==> spec_trim(k, edge_bits, fewer)[e],
    decreases more,
{
    if more > fewer {
        lemma_trim_monotonic_general(k, edge_bits, fewer, (more - 1) as nat);
        lemma_trim_monotonic(k, edge_bits, (more - 1) as nat);
    }
}

/// The population of the alive set is non-increasing across rounds.
pub proof fn lemma_trim_population_monotonic(k: (u64, u64, u64, u64), edge_bits: u32, rounds: nat)
    ensures
        spec_count(spec_trim(k, edge_bits, rounds + 1)) <= spec_count(
            spec_trim(k, edge_bits, rounds),
        ),
{
    lemma_trim_monotonic(k, edge_bits, rounds);
    lemma_count_le_mono(spec_trim(k, edge_bits, rounds + 1), spec_trim(k, edge_bits, rounds));
}

/// Trim fixed point: a round that removes nothing is followed only by
/// rounds that remove nothing.
pub proof fn lemma_trim_fixed_point(
    k: (u64, u64, u64, u64),
    edge_bits: u32,
    rounds: nat,
    later: nat,
)
    requires
        spec_trim(k, edge_bits, rounds + 1) == spec_trim(k, edge_bits, rounds),
        later >= rounds,
    ensures
        spec_trim(k, edge_bits, later) == spec_trim(k, edge_bits, rounds),
    decreases later,
{
    if later > rounds {
        lemma_trim_fixed_point(k, edge_bits, rounds, (later - 1) as nat);
        if later - 1 == rounds {
        } else {
            assert(spec_trim(k, edge_bits, later) == spec_round(
                k,
                edge_bits,
                spec_trim(k, edge_bits, (later - 1) as nat),
            ));
        }
    }
}

/// The edges that survive among the first `upto` edge indices, in
/// ascending order, with their oracle endpoints.
pub open spec fn spec_survivors(
    k: (u64, u64, u64, u64),
    edge_bits: u32,
    alive: Seq<bool>,
    upto: int,
) -> Seq<Edge>
    decreases upto,
{
    if upto <= 0 {
        Seq::empty()
    } else {
        let pre = spec_survivors(k, edge_bits, alive, upto - 1);
        if alive[upto - 1] {
            pre.push(
                Edge {
                    u: Node(spec_edge_node(k, edge_bits, upto - 1, 0)),
                    v: Node(spec_edge_node(k, edge_bits, upto - 1, 1)),
                },
            )
        } else {
            pre
        }
    }
}

/// The packed survivor triples `[edge_index, u, v]` among the first
/// `upto` edge indices, ascending, each component narrowed to 32 bits.
pub open spec fn spec_survivor_triples(
    k: (u64, u64, u64, u64),
    edge_bits: u32,
    alive: Seq<bool>,
    upto: int,
) -> Seq<u32>
    decreases upto,
{
    if upto <= 0 {
        Seq::empty()
    } else {
        let pre = spec_survivor_triples(k, edge_bits, alive, upto - 1);
        if alive[upto - 1] {
            pre.push((upto - 1) as u32).push(spec_edge_node(k, edge_bits, upto - 1, 0) as u32).push(
                spec_edge_node(k, edge_bits, upto - 1, 1) as u32,
            )
        } else {
            pre
        }
    }
}

/// The packed survivor triples always come in threes.
pub proof fn lemma_survivor_triples_len(
    k: (u64, u64, u64, u64),
    edge_bits: u32,
    alive: Seq<bool>,
    upto: int,
)
    ensures
        spec_survivor_triples(k, edge_bits, alive, upto).len() % 3 == 0,
    decreases upto,
{
    if upto > 0 {
        lemma_survivor_triples_len(k, edge_bits, alive, upto - 1);
    }
}

/// Bitmap-based lean trimmer.
pub struct BitmapTrimmer {
    edge_bits: u32,
    number_of_edges: u64,
    node_mask: u64,
    edges_bitmap: Bitmap,
    nodes_bitmap: Bitmap,
}

impl BitmapTrimmer {
    /// The graph size exponent.
    pub closed spec fn spec_edge_bits(&self) -> u32 {
        self.edge_bits
    }

    /// The alive set held in the edges bitmap.
    pub closed spec fn spec_alive(&self) -> Seq<bool> {
        self.edges_bitmap.bits()
    }

    /// The node marks held in the nodes bitmap.
    pub closed spec fn spec_nodes(&self) -> Seq<bool> {
        self.nodes_bitmap.bits()
    }

    /// Both bitmaps sized to the graph, padding bits clear.
    pub closed spec fn well_formed(&self) -> bool {
        &&& self.edge_bits <= 32
        &&& self.number_of_edges == (1u64 << self.edge_bits)
        &&& self.edges_bitmap.well_formed()
        &&& self.nodes_bitmap.well_formed()
        &&& self.edges_bitmap.spec_size() == self.number_of_edges
        &&& self.nodes_bitmap.spec_size() == self.number_of_edges
    }

    /// Create a new bitmap trimmer for a graph of `2^edge_bits` edges,
    /// with no edges alive yet.
    pub fn new(edge_bits: u32) -> (r: Self)
        requires
            edge_bits <= 32,
        ensures
            r.well_formed(),
            r.spec_edge_bits() == edge_bits,
    {
        assert(1u64 << edge_bits >= 1 && 1u64 << edge_bits <= 0x100000000u64) by (bit_vector)
            requires
                edge_bits <= 32,
        ;
        let number_of_edges: u64 = 1u64 << edge_bits;
        let node_mask: u64 = number_of_edges - 1;
        Self {
            edge_bits,
            number_of_edges,
            node_mask,
            edges_bitmap: Bitmap::new(number_of_edges),
            nodes_bitmap: Bitmap::new(number_of_edges),
        }
    }

    /// The oracle endpoint of an edge-derived nonce, masked to this
    /// trimmer's graph.
    fn siphash24(&self, siphash: &SipHash, nonce: u64) -> (r: Node)
        requires
            self.well_formed(),
        ensures
            r.0 == spec_node(siphash.spec_key(), self.spec_edge_bits(), nonce),
    {
        siphash.siphash24(nonce, self.edge_bits)
    }

    /// Fill the edges bitmap: every possible edge starts alive, padding
    /// bits clear.
    fn generate_edges_bitmap(&mut self)
        requires
            old(self).well_formed(),
        ensures
            final(self).well_formed(),
            final(self).spec_edge_bits() == old(self).spec_edge_bits(),
            final(self).spec_alive() =~= spec_all_alive(old(self).spec_edge_bits()),
    {
        self.edges_bitmap.set_all_bits();
    }

    /// Mark phase: set the node bit for the chosen endpoint of every
    /// alive edge.
    fn mark_nodes(&mut self, siphash: &SipHash, side: u64)
        requires
            old(self).well_formed(),
            side <= 1,
        ensures
            final(self).well_formed(),
            final(self).spec_edge_bits() == old(self).spec_edge_bits(),
            final(self).spec_alive() == old(self).spec_alive(),
            forall|n: int|
                0 <= n < final(self).spec_nodes().len() ==> final(self).spec_nodes()[n]
                    == spec_marked(
                    siphash.spec_key(),
                    old(self).spec_edge_bits(),
                    old(self).spec_alive(),
                    side as int,
                    n as u64,
                ),
    {
        proof {
            lemma_edge_count_bound(self.edge_bits);
        }
        self.nodes_bitmap.clear_all_bits();
        let n_edges = self.number_of_edges;
        let ghost k = siphash.spec_key();
        let ghost eb = self.edge_bits;
        let ghost alive = self.spec_alive();
        let mut e: u64 = 0;
        while e < n_edges
            invariant
                self.well_formed(),
                self.edge_bits == eb,
                self.number_of_edges == n_edges,
                n_edges <= 0x100000000u64,
                side <= 1,
                e <= n_edges,
                k == siphash.spec_key(),
                self.spec_alive() == alive,
                alive.len() == n_edges,
                forall|n: int|
                    0 <= n < self.spec_nodes().len() ==> self.spec_nodes()[n] == spec_marked_upto(
                        k,
                        eb,
                        alive,
                        side as int,
                        n as u64,
                        e as int,
                    ),
            decreases n_edges - e,
        {
            let ghost nodes_pre = self.spec_nodes();
            if self.edges_bitmap.is_bit_set(e) {
                let node = self.siphash24(siphash, 2 * e + side);
                self.nodes_bitmap.set_bit(node.0);
                proof {
                    assert forall|n: int|
                        0 <= n < self.spec_nodes().len() implies self.spec_nodes()[n]
                        == spec_marked_upto(k, eb, alive, side as int, n as u64, e + 1) by {
                        if n == node.0 as int {
                            assert(alive[e as int] && spec_edge_node(k, eb, e as int, side as int)
                                == n as u64);
                            assert(spec_marked_upto(k, eb, alive, side as int, n as u64, e + 1));
                        } else {
                            assert(self.spec_nodes()[n] == nodes_pre[n]);
                            if spec_marked_upto(k, eb, alive, side as int, n as u64, e + 1) {
                                let w = choose|w: int|
                                    0 <= w < e + 1 && #[trigger] alive[w] && spec_edge_node(
                                        k,
                                        eb,
                                        w,
                                        side as int,
                                    ) == n as u64;
                                assert(w < e);
                                assert(spec_marked_upto(k, eb, alive, side as int, n as u64, e as int));
                            }
                        }
                    }
                }
            } else {
                proof {
                    assert forall|n: int|
                        0 <= n < self.spec_nodes().len() implies self.spec_nodes()[n]
                        == spec_marked_upto(k, eb, alive, side as int, n as u64, e + 1) by {
                        if spec_marked_upto(k, eb, alive, side as int, n as u64, e + 1) {
                            let w = choose|w: int|
                                0 <= w < e + 1 && #[trigger] alive[w] && spec_edge_node(
                                    k,
                                    eb,
                                    w,
                                    side as int,
                                ) == n as u64;
                            assert(w < e);
                            assert(spec_marked_upto(k, eb, alive, side as int, n as u64, e as int));
                        }
                    }
                }
            }
            e += 1;
        }
    }

    /// Sweep phase: clear every alive edge whose endpoint's pair mate is
    /// not marked.
    fn sweep_edges(&mut self, siphash: &SipHash, side: u64)
        requires
            old(self).well_formed(),
            side <= 1,
            forall|n: int|
                0 <= n < old(self).spec_nodes().len() ==> old(self).spec_nodes()[n] == spec_marked(
                    siphash.spec_key(),
                    old(self).spec_edge_bits(),
                    old(self).spec_alive(),
                    side as int,
                    n as u64,
                ),
        ensures
            final(self).well_formed(),
            final(self).spec_edge_bits() == old(self).spec_edge_bits(),
            final(self).spec_alive() =~= spec_sweep(
                siphash.spec_key(),
                old(self).spec_edge_bits(),
                old(self).spec_alive(),
                side as int,
            ),
    {
        proof {
            lemma_edge_count_bound(self.edge_bits);
        }
        let n_edges = self.number_of_edges;
        let ghost k = siphash.spec_key();
        let ghost eb = self.edge_bits;
        let ghost alive0 = self.spec_alive();
        let mut e: u64 = 0;
        while e < n_edges
            invariant
                self.well_formed(),
                self.edge_bits == eb,
                self.number_of_edges == n_edges,
                n_edges <= 0x100000000u64,
                side <= 1,
                e <= n_edges,
                k == siphash.spec_key(),
                alive0.len() == n_edges,
                self.spec_alive().len() == n_edges,
                self.spec_nodes() == old(self).spec_nodes(),
                forall|n: int|
                    0 <= n < self.spec_nodes().len() ==> self.spec_nodes()[n] == spec_marked(
                        k,
                        eb,
                        alive0,
                        side as int,
                        n as u64,
                    ),
                forall|j: int|
                    0 <= j < e ==> self.spec_alive()[j] == spec_sweep(k, eb, alive0, side as int)[j],
                forall|j: int| e <= j < n_edges ==> self.spec_alive()[j] == alive0[j],
            decreases n_edges - e,
        {
            if self.edges_bitmap.is_bit_set(e) {
                let node = self.siphash24(siphash, 2 * e + side);
                let pair = node.0 ^ 1;
                if !self.nodes_bitmap.is_bit_set(pair) {
                    self.edges_bitmap.clear_bit(e);
                }
            }
            e += 1;
        }
    }

    /// Step 1: mark partition U's endpoints of the alive edges.
    fn trim_edges_step_one(&mut self, siphash: &SipHash)
        requires
            old(self).well_formed(),
        ensures
            final(self).well_formed(),
            final(self).spec_edge_bits() == old(self).spec_edge_bits(),
            final(self).spec_alive() == old(self).spec_alive(),
            forall|n: int|
                0 <= n < final(self).spec_nodes().len() ==> final(self).spec_nodes()[n]
                    == spec_marked(
                    siphash.spec_key(),
                    old(self).spec_edge_bits(),
                    old(self).spec_alive(),
                    0,
                    n as u64,
                ),
    {
        self.mark_nodes(siphash, 0);
    }

    /// Step 2: sweep partition U.
    fn trim_edges_step_two(&mut self, siphash: &SipHash)
        requires
            old(self).well_formed(),
            forall|n: int|
                0 <= n < old(self).spec_nodes().len() ==> old(self).spec_nodes()[n] == spec_marked(
                    siphash.spec_key(),
                    old(self).spec_edge_bits(),
                    old(self).spec_alive(),
                    0,
                    n as u64,
                ),
        ensures
            final(self).well_formed(),
            final(self).spec_edge_bits() == old(self).spec_edge_bits(),
            final(self).spec_alive() =~= spec_sweep(
                siphash.spec_key(),
                old(self).spec_edge_bits(),
                old(self).spec_alive(),
                0,
            ),
    {
        self.sweep_edges(siphash, 0);
    }

    /// Step 3: mark partition V's endpoints of the alive edges.
    fn trim_edges_step_three(&mut self, siphash: &SipHash)
        requires
            old(self).well_formed(),
        ensures
            final(self).well_formed(),
            final(self).spec_edge_bits() == old(self).spec_edge_bits(),
            final(self).spec_alive() == old(self).spec_alive(),
            forall|n: int|
                0 <= n < final(self).spec_nodes().len() ==> final(self).spec_nodes()[n]
                    == spec_marked(
                    siphash.spec_key(),
                    old(self).spec_edge_bits(),
                    old(self).spec_alive(),
                    1,
                    n as u64,
                ),
    {
        self.mark_nodes(siphash, 1);
    }

    /// Step 4: sweep partition V.
    fn trim_edges_step_four(&mut self, siphash: &SipHash)
        requires
            old(self).well_formed(),
            forall|n: int|
                0 <= n < old(self).spec_nodes().len() ==> old(self).spec_nodes()[n] == spec_marked(
                    siphash.spec_key(),
                    old(self).spec_edge_bits(),
                    old(self).spec_alive(),
                    1,
                    n as u64,
                ),
        ensures
            final(self).well_formed(),
            final(self).spec_edge_bits() == old(self).spec_edge_bits(),
            final(self).spec_alive() =~= spec_sweep(
                siphash.spec_key(),
                old(self).spec_edge_bits(),
                old(self).spec_alive(),
                1,
            ),
    {
        self.sweep_edges(siphash, 1);
    }

    /// Run lean trimming for the given number of rounds, or until a
    /// round removes no edge, and materialize the surviving edges in
    /// ascending index order.
    pub fn trim_edges(&mut self, siphash: &SipHash, trimming_rounds: u32) -> (r: Result<
        Vec<Edge>,
        CuckatooError,
    >)
        requires
            old(self).well_formed(),
        ensures
            final(self).well_formed(),
            final(self).spec_edge_bits() == old(self).spec_edge_bits(),
            final(self).spec_alive() == spec_trim(
                siphash.spec_key(),
                old(self).spec_edge_bits(),
                trimming_rounds as nat,
            ),
            r matches Ok(edges) && edges@ == spec_survivors(
                siphash.spec_key(),
                old(self).spec_edge_bits(),
                final(self).spec_alive(),
                final(self).spec_alive().len() as int,
            ),
    {
        let ghost k = siphash.spec_key();
        let ghost eb = self.edge_bits;
        self.generate_edges_bitmap();
        proof {
            assert(self.spec_alive() =~= spec_trim(k, eb, 0));
        }
        let mut round: u32 = 0;
        let mut fixed = false;
        while round < trimming_rounds && !fixed
            invariant
                self.well_formed(),
                self.edge_bits == eb,
                round <= trimming_rounds,
                k == siphash.spec_key(),
                self.spec_alive() == spec_trim(k, eb, round as nat),
                fixed ==> spec_trim(k, eb, trimming_rounds as nat) == self.spec_alive(),
            decreases trimming_rounds - round,
        {
            let before = self.edges_bitmap.count_set_bits();
            let ghost alive_pre = self.spec_alive();
            self.trim_edges_step_one(siphash);
            self.trim_edges_step_two(siphash);
            self.trim_edges_step_three(siphash);
            self.trim_edges_step_four(siphash);
            let after = self.edges_bitmap.count_set_bits();
            proof {
                assert(self.spec_alive() =~= spec_round(k, eb, alive_pre));
                assert(self.spec_alive() == spec_trim(k, eb, (round + 1) as nat));
            }
            if after == before {
                proof {
                    let a1 = self.spec_alive();
                    lemma_trim_monotonic(k, eb, round as nat);
                    lemma_count_eq_subset(a1, alive_pre);
                    assert(spec_trim(k, eb, (round + 1) as nat) == spec_trim(k, eb, round as nat));
                    lemma_trim_fixed_point(k, eb, round as nat, trimming_rounds as nat);
                }
                fixed = true;
            }
            round += 1;
        }
        proof {
            if !fixed {
                assert(round == trimming_rounds);
            }
        }
        Ok(self.generate_final_edges(siphash))
    }

    /// Materialize the surviving edges, ascending by edge index.
    fn generate_final_edges(&self, siphash: &SipHash) -> (r: Vec<Edge>)
        requires
            self.well_formed(),
        ensures
            r@ == spec_survivors(
                siphash.spec_key(),
                self.spec_edge_bits(),
                self.spec_alive(),
                self.spec_alive().len() as int,
            ),
    {
        proof {
            lemma_edge_count_bound(self.edge_bits);
        }
        let n_edges = self.number_of_edges;
        let ghost k = siphash.spec_key();
        let ghost eb = self.edge_bits;
        let mut edges: Vec<Edge> = Vec::new();
        let mut e: u64 = 0;
        while e < n_edges
            invariant
                self.well_formed(),
                self.edge_bits == eb,
                self.number_of_edges == n_edges,
                n_edges <= 0x100000000u64,
                e <= n_edges,
                k == siphash.spec_key(),
                edges@ == spec_survivors(k, eb, self.spec_alive(), e as int),
            decreases n_edges - e,
        {
            if self.edges_bitmap.is_bit_set(e) {
                let u = self.siphash24(siphash, 2 * e);
                let v = self.siphash24(siphash, 2 * e + 1);
                edges.push(Edge { u, v });
            }
            e += 1;
        }
        edges
    }

    /// Materialize the packed survivor triples `[edge_index, u, v]`,
    /// ascending by edge index.
    pub fn materialize(&self, siphash: &SipHash) -> (r: Vec<u32>)
        requires
            self.well_formed(),
        ensures
            r@ == spec_survivor_triples(
                siphash.spec_key(),
                self.spec_edge_bits(),
                self.spec_alive(),
                self.spec_alive().len() as int,
            ),
    {
        proof {
            lemma_edge_count_bound(self.edge_bits);
        }
        let n_edges = self.number_of_edges;
        let ghost k = siphash.spec_key();
        let ghost eb = self.edge_bits;
        let mut triples: Vec<u32> = Vec::new();
        let mut e: u64 = 0;
        while e < n_edges
            invariant
                self.well_formed(),
                self.edge_bits == eb,
                self.number_of_edges == n_edges,
                n_edges <= 0x100000000u64,
                e <= n_edges,
                k == siphash.spec_key(),
                triples@ == spec_survivor_triples(k, eb, self.spec_alive(), e as int),
            decreases n_edges - e,
        {
            if self.edges_bitmap.is_bit_set(e) {
                let u = self.siphash24(siphash, 2 * e);
                let v = self.siphash24(siphash, 2 * e + 1);
                triples.push(#[verifier::truncate] (e as u32));
                triples.push(#[verifier::truncate] (u.0 as u32));
                triples.push(#[verifier::truncate] (v.0 as u32));
            }
            e += 1;
        }
        triples
    }

    /// The number of edges still alive.
    pub fn surviving_count(&self) -> (r: u64)
        requires
            self.well_formed(),
        ensures
            r == spec_count(self.spec_alive()),
    {
        self.edges_bitmap.count_set_bits()
    }

    /// Set a bit in a raw word bitmap; indices beyond the buffer are
    /// ignored.
    pub fn set_bit_in_bitmap(bitmap: &mut Vec<u64>, index: u64)
        ensures
            final(bitmap)@.len() == old(bitmap)@.len(),
            forall|i: int|
                0 <= i < 64 * old(bitmap)@.len() ==> word_bit(
                    #[trigger] final(bitmap)@[i / 64],
                    (i % 64) as u64,
                ) == (i == index as int || word_bit(old(bitmap)@[i / 64], (i % 64) as u64)),
    {
        let word_index_u: u64 = index / 64;
        let blen = bitmap.len();
        if word_index_u < blen as u64 {
            let word_index = word_index_u as usize;
            let bit_index: u64 = index % 64;
            let w = bitmap[word_index];
            bitmap.set(word_index, w | (1u64 << bit_index));
            proof {
                assert(64 * (index as int / 64) + (index as int % 64) == index as int);
                assert forall|i: int|
                    0 <= i < 64 * old(bitmap)@.len() implies word_bit(
                    #[trigger] bitmap@[i / 64],
                    (i % 64) as u64,
                ) == (i == index as int || word_bit(old(bitmap)@[i / 64], (i % 64) as u64)) by {
                    if i / 64 == index as int / 64 {
                        crate::bitmap::lemma_word_bit_or(
                            old(bitmap)@[i / 64],
                            (index % 64) as u64,
                            (i % 64) as u64,
                        );
                    }
                }
            }
        } else {
            proof {
                let ghost blen_g = bitmap@.len();
                assert(index as int == 64 * (index as int / 64) + (index as int % 64));
                assert(index as int >= 64 * blen_g) by (nonlinear_arith)
                    requires
                        index as int / 64 >= blen_g,
                        index as int == 64 * (index as int / 64) + (index as int % 64),
                        index as int % 64 >= 0,
                ;
            }
        }
    }

    /// Check a bit in a raw word bitmap; indices beyond the buffer read
    /// as clear.
    pub fn is_bit_set_in_bitmap(bitmap: &Vec<u64>, index: u64) -> (r: bool)
        ensures
            r == ((index as int / 64) < bitmap@.len() && word_bit(
                bitmap@[index as int / 64],
                (index % 64) as u64,
            )),
    {
        let word_index_u: u64 = index / 64;
        let blen = bitmap.len();
        if word_index_u < blen as u64 {
            let word_index = word_index_u as usize;
            let bit_index: u64 = index % 64;
            ((bitmap[word_index] >> bit_index) & 1) == 1
        } else {
            false
        }
    }
}

} // verus!
