//! The 42-cycle search. Every survivor inserts a link at the chain head
//! of each of its endpoints; when an insertion closes the pair condition
//! on both partitions, a depth-first walk alternating between the
//! partitions looks for a cycle of exactly 42 edges.
//!
//! Chains live in an arena: the U and V links of one survivor sit in
//! adjacent slots, so a link's slot also locates the opposite endpoint
//! of its edge. Each link's `previous_link` points at a strictly earlier
//! slot of the same partition, which bounds every chain walk.

use vstd::prelude::*;
use vstd::seq_lib::group_to_multiset_ensures;
use crate::types::{Edge, Node, SOLUTION_SIZE};
use crate::verification::{
    check_triple_solution, lemma_ascending_floor, lemma_triple_absent, spec_is_triple_cycle,
};
use crate::CuckatooError;

verus! {

broadcast use group_to_multiset_ensures;

/// One link of a newest-connection chain: the endpoint it stands for,
/// the edge's index, and the arena slot of the previous link for the
/// same node, if any.
#[derive(Debug, Clone, Copy)]
pub struct NodeConnectionLink {
    /// Arena slot of the previous link for the same node.
    pub previous_link: Option<usize>,
    /// The endpoint this link stands for.
    pub node: Node,
    /// The index of the edge that inserted this link.
    pub edge_index: u32,
}

/// A sequence is sorted in non-decreasing order.
pub open spec fn spec_sorted(s: Seq<u32>) -> bool {
    forall|x: int, y: int| 0 <= x < y < s.len() ==> s[x] <= s[y]
}

/// The two sides of a node pair share the pair index.
pub proof fn lemma_pair_shift(x: u64)
    ensures
        (x ^ 1) >> 1 == x >> 1,
{
    assert((x ^ 1) >> 1 == x >> 1) by (bit_vector);
}

/// A sequence is a prefix of itself extended by one element.
pub proof fn lemma_prefix_push<A>(s: Seq<A>, x: A)
    ensures
        s.is_prefix_of(s.push(x)),
{
    assert(s =~= s.push(x).subrange(0, s.len() as int));
}

/// Being a prefix carries across a longer prefix.
pub proof fn lemma_prefix_trans<A>(a: Seq<A>, b: Seq<A>, c: Seq<A>)
    requires
        a.is_prefix_of(b),
        b.is_prefix_of(c),
    ensures
        a.is_prefix_of(c),
{
    assert(a =~= c.subrange(0, a.len() as int));
}

/// A sequence is a prefix of itself.
pub proof fn lemma_prefix_refl<A>(s: Seq<A>)
    ensures
        s.is_prefix_of(s),
{
    assert(s =~= s.subrange(0, s.len() as int));
}

/// A pair-indexed visited map holds a key.
pub open spec fn pmap_has(s: Seq<(u64, u32)>, key: u64) -> bool {
    exists|i: int| 0 <= i < s.len() && (#[trigger] s[i]).0 == key
}

/// A chain-head map holds a key.
pub open spec fn imap_has(s: Seq<(u64, usize)>, key: u64) -> bool {
    exists|i: int| 0 <= i < s.len() && (#[trigger] s[i]).0 == key
}

/// Every link's predecessor sits at an earlier slot of the same parity,
/// and slots come in U/V pairs.
pub open spec fn wf_arena(a: Seq<NodeConnectionLink>) -> bool {
    &&& a.len() % 2 == 0
    &&& forall|j: int|
        0 <= j < a.len() ==> ((#[trigger] a[j]).previous_link matches Some(p) ==> 0 <= p < j && p
            % 2 == j % 2)
}

/// Every stored chain head is a slot of the given parity inside the
/// arena.
pub open spec fn wf_heads(m: Seq<(u64, usize)>, a_len: int, parity: int) -> bool {
    forall|j: int|
        0 <= j < m.len() ==> (0 <= (#[trigger] m[j]).1 < a_len && m[j].1 % 2 == parity)
}

/// Look up a chain head.
fn imap_get(m: &Vec<(u64, usize)>, key: u64) -> (r: Option<usize>)
    ensures
        r matches Some(i) ==> (exists|j: int|
            0 <= j < m@.len() && (#[trigger] m@[j]).0 == key && m@[j].1 == i),
        r is None ==> !imap_has(m@, key),
{
    let n = m.len();
    let mut t: usize = 0;
    while t < n
        invariant
            t <= n,
            n == m@.len(),
            forall|j: int| 0 <= j < t ==> (#[trigger] m@[j]).0 != key,
        decreases n - t,
    {
        if m[t].0 == key {
            return Some(m[t].1);
        }
        t += 1;
    }
    None
}

/// Whether a chain head exists for the key.
fn imap_contains(m: &Vec<(u64, usize)>, key: u64) -> (r: bool)
    ensures
        r == imap_has(m@, key),
{
    let n = m.len();
    let mut t: usize = 0;
    while t < n
        invariant
            t <= n,
            n == m@.len(),
            forall|j: int| 0 <= j < t ==> (#[trigger] m@[j]).0 != key,
        decreases n - t,
    {
        if m[t].0 == key {
            return true;
        }
        t += 1;
    }
    false
}

/// Replace or insert a chain head.
fn imap_put(m: &mut Vec<(u64, usize)>, key: u64, val: usize)
    ensures
        forall|j: int|
            0 <= j < old(m)@.len() ==> ((#[trigger] final(m)@[j]) == old(m)@[j] || final(m)@[j]
                == (key, val)),
        final(m)@.len() == old(m)@.len() || (final(m)@.len() == old(m)@.len() + 1
            && final(m)@.last() == (key, val)),
        imap_has(final(m)@, key),
        !imap_has(old(m)@, key) ==> final(m)@ == old(m)@.push((key, val)),
        imap_has(old(m)@, key) ==> (exists|j: int|
            0 <= j < old(m)@.len() && (#[trigger] old(m)@[j]).0 == key && final(m)@ == old(
                m,
            )@.update(j, (key, val))),
{
    let n = m.len();
    let mut t: usize = 0;
    while t < n
        invariant
            t <= n,
            n == m@.len(),
            m@ == old(m)@,
            forall|j: int| 0 <= j < t ==> (#[trigger] m@[j]).0 != key,
        decreases n - t,
    {
        if m[t].0 == key {
            m.set(t, (key, val));
            proof {
                assert(m@[t as int].0 == key);
                assert((#[trigger] old(m)@[t as int]).0 == key);
            }
            return ;
        }
        t += 1;
    }
    m.push((key, val));
    proof {
        assert(m@[m@.len() - 1].0 == key);
    }
}

/// Whether a pair was already visited.
fn pmap_contains(m: &Vec<(u64, u32)>, key: u64) -> (r: bool)
    ensures
        r == pmap_has(m@, key),
{
    let n = m.len();
    let mut t: usize = 0;
    while t < n
        invariant
            t <= n,
            n == m@.len(),
            forall|j: int| 0 <= j < t ==> (#[trigger] m@[j]).0 != key,
        decreases n - t,
    {
        if m[t].0 == key {
            return true;
        }
        t += 1;
    }
    false
}

/// Record a pair as visited; the pair must be fresh.
fn pmap_insert(m: &mut Vec<(u64, u32)>, key: u64, val: u32)
    requires
        !pmap_has(old(m)@, key),
    ensures
        final(m)@ == old(m)@.push((key, val)),
{
    m.push((key, val));
}

/// Take back the most recent visit, which must be for this key.
fn pmap_unmark(m: &mut Vec<(u64, u32)>, key: u64)
    requires
        old(m)@.len() > 0,
        old(m)@.last().0 == key,
    ensures
        final(m)@ == old(m)@.drop_last(),
{
    let _ = m.pop();
}

/// Sort a vector of edge indices in non-decreasing order; the result
/// holds the same indices.
pub(crate) fn sort_u32(v: &mut Vec<u32>)
    ensures
        final(v)@.len() == old(v)@.len(),
        spec_sorted(final(v)@),
        final(v)@.to_multiset() == old(v)@.to_multiset(),
{
    let mut rest: Vec<u32> = Vec::new();
    core::mem::swap(v, &mut rest);
    let ghost orig = rest@;
    assert(v@.to_multiset().add(rest@.to_multiset()) =~= orig.to_multiset());
    while rest.len() > 0
        invariant
            spec_sorted(v@),
            forall|x: int, y: int|
                0 <= x < v@.len() && 0 <= y < rest@.len() ==> v@[x] <= rest@[y],
            v@.to_multiset().add(rest@.to_multiset()) == orig.to_multiset(),
            v@.len() + rest@.len() == orig.len(),
        decreases rest@.len(),
    {
        let n = rest.len();
        let mut mi: usize = 0;
        let mut t: usize = 1;
        while t < n
            invariant
                mi < t <= n,
                n == rest@.len(),
                forall|j: int| 0 <= j < t ==> rest@[mi as int] <= rest@[j],
            decreases n - t,
        {
            if rest[t] < rest[mi] {
                mi = t;
            }
            t += 1;
        }
        let ghost rest_pre = rest@;
        let ghost v_pre = v@;
        let x = rest.remove(mi);
        v.push(x);
        proof {
            assert(rest@.to_multiset() =~= rest_pre.to_multiset().remove(x));
            assert(v@.to_multiset() =~= v_pre.to_multiset().insert(x));
            assert(rest_pre.to_multiset().contains(x));
            assert(v@.to_multiset().add(rest@.to_multiset()) =~= orig.to_multiset());
            assert forall|y: int| 0 <= y < rest@.len() implies v@.last() <= rest@[y] by {
                if y < mi {
                    assert(rest@[y] == rest_pre[y]);
                } else {
                    assert(rest@[y] == rest_pre[y + 1]);
                }
            }
        }
    }
    proof {
        assert(v@.to_multiset().add(rest@.to_multiset()) =~= v@.to_multiset());
    }
}

/// A fresh all-zero solution buffer.
pub(crate) fn blank_solution() -> (r: Vec<u32>)
    ensures
        r@.len() == SOLUTION_SIZE,
{
    let mut buffer: Vec<u32> = Vec::new();
    let mut s: usize = 0;
    while s < SOLUTION_SIZE
        invariant
            s <= SOLUTION_SIZE,
            buffer@.len() == s,
        decreases SOLUTION_SIZE - s,
    {
        buffer.push(0u32);
        s += 1;
    }
    buffer
}

/// Hash-chain 42-cycle finder.
pub struct HashCycleFinder {
    u_newest_connections: Vec<(u64, usize)>,
    v_newest_connections: Vec<(u64, usize)>,
    u_visited_pairs: Vec<(u64, u32)>,
    v_visited_pairs: Vec<(u64, u32)>,
    root_node: Node,
}

impl HashCycleFinder {
    /// The U chain heads.
    pub closed spec fn spec_u_heads(&self) -> Seq<(u64, usize)> {
        self.u_newest_connections@
    }

    /// The V chain heads.
    pub closed spec fn spec_v_heads(&self) -> Seq<(u64, usize)> {
        self.v_newest_connections@
    }

    /// The U visited pairs.
    pub closed spec fn spec_u_visited(&self) -> Seq<(u64, u32)> {
        self.u_visited_pairs@
    }

    /// The V visited pairs.
    pub closed spec fn spec_v_visited(&self) -> Seq<(u64, u32)> {
        self.v_visited_pairs@
    }

    /// The chain heads fit the given arena.
    pub closed spec fn heads_fit(&self, a: Seq<NodeConnectionLink>) -> bool {
        &&& wf_heads(self.spec_u_heads(), a.len() as int, 0)
        &&& wf_heads(self.spec_v_heads(), a.len() as int, 1)
    }

    /// Create an empty finder.
    pub fn new() -> (r: Self)
        ensures
            r.spec_u_heads().len() == 0,
            r.spec_v_heads().len() == 0,
            r.spec_u_visited().len() == 0,
            r.spec_v_visited().len() == 0,
    {
        Self {
            u_newest_connections: Vec::new(),
            v_newest_connections: Vec::new(),
            u_visited_pairs: Vec::new(),
            v_visited_pairs: Vec::new(),
            root_node: Node(0),
        }
    }

    /// Reset all search state.
    pub fn initialize_thread_local_global_variables(&mut self) -> (r: bool)
        ensures
            r,
            final(self).spec_u_heads().len() == 0,
            final(self).spec_v_heads().len() == 0,
            final(self).spec_u_visited().len() == 0,
            final(self).spec_v_visited().len() == 0,
    {
        self.u_newest_connections = Vec::new();
        self.v_newest_connections = Vec::new();
        self.u_visited_pairs = Vec::new();
        self.v_visited_pairs = Vec::new();
        self.root_node = Node(0);
        true
    }

    /// Depth-first search continuing on partition U at `node`; on
    /// failure the visited maps are restored exactly.
    fn search_node_connections_first_partition(
        &mut self,
        cycle_size: u8,
        node: u64,
        index: u32,
        arena: &Vec<NodeConnectionLink>,
    ) -> (r: bool)
        requires
            1 <= cycle_size <= 41,
            wf_arena(arena@),
            old(self).heads_fit(arena@),
            !pmap_has(old(self).spec_u_visited(), node >> 1),
        ensures
            final(self).spec_u_heads() == old(self).spec_u_heads(),
            final(self).spec_v_heads() == old(self).spec_v_heads(),
            final(self).root_node == old(self).root_node,
            final(self).heads_fit(arena@),
            !r ==> final(self).spec_u_visited() == old(self).spec_u_visited(),
            !r ==> final(self).spec_v_visited() == old(self).spec_v_visited(),
            r ==> old(self).spec_u_visited().push(((node >> 1), index)).is_prefix_of(
                final(self).spec_u_visited(),
            ),
            r ==> old(self).spec_v_visited().is_prefix_of(final(self).spec_v_visited()),
        decreases 42 - cycle_size, 1nat,
    {
        pmap_insert(&mut self.u_visited_pairs, node >> 1, index);
        let head = imap_get(&self.u_newest_connections, node);
        match head {
            Some(h) => {
                proof {
                    let j = choose|j: int|
                        0 <= j < self.spec_u_heads().len() && (#[trigger] self.spec_u_heads()[j]).0
                            == node && self.spec_u_heads()[j].1 == h;
                    assert(h < arena@.len() && h % 2 == 0);
                }
                let mut cur: usize = h;
                loop
                    invariant
                        cur < arena@.len(),
                        cur % 2 == 0,
                        wf_arena(arena@),
                        self.heads_fit(arena@),
                        self.spec_u_heads() == old(self).spec_u_heads(),
                        self.spec_v_heads() == old(self).spec_v_heads(),
                        self.spec_u_visited() == old(self).spec_u_visited().push(
                            ((node >> 1), index),
                        ),
                        self.spec_v_visited() == old(self).spec_v_visited(),
                        1 <= cycle_size <= 41,
                        self.root_node == old(self).root_node,
                    decreases cur,
                {
                    let m_other = arena[cur + 1].node.0;
                    let m_edge = arena[cur].edge_index;
                    if !pmap_contains(&self.v_visited_pairs, m_other >> 1) {
                        if (m_other ^ 1) == self.root_node.0 {
                            if cycle_size == 41 {
                                pmap_insert(&mut self.v_visited_pairs, m_other >> 1, m_edge);
                                proof {
                                    lemma_prefix_refl(self.spec_u_visited());
                                    lemma_prefix_push(
                                        old(self).spec_v_visited(),
                                        ((m_other >> 1), m_edge),
                                    );
                                }
                                return true;
                            }
                        } else if cycle_size != 41 {
                            if imap_contains(&self.v_newest_connections, m_other ^ 1) {
                                proof {
                                    lemma_pair_shift(m_other);
                                }
                                let ghost v_pre = self.spec_v_visited();
                                if self.search_node_connections_second_partition(
                                    cycle_size + 1,
                                    m_other ^ 1,
                                    m_edge,
                                    arena,
                                ) {
                                    proof {
                                        lemma_prefix_push(
                                            v_pre,
                                            (((m_other ^ 1) >> 1), m_edge),
                                        );
                                        lemma_prefix_trans(
                                            v_pre,
                                            v_pre.push((((m_other ^ 1) >> 1), m_edge)),
                                            self.spec_v_visited(),
                                        );
                                    }
                                    return true;
                                }
                            }
                        }
                    }
                    match arena[cur].previous_link {
                        Some(p) => {
                            cur = p;
                        },
                        None => {
                            break ;
                        },
                    }
                }
            },
            None => {},
        }
        pmap_unmark(&mut self.u_visited_pairs, node >> 1);
        false
    }

    /// Depth-first search continuing on partition V at `node`; on
    /// failure the visited maps are restored exactly.
    fn search_node_connections_second_partition(
        &mut self,
        cycle_size: u8,
        node: u64,
        index: u32,
        arena: &Vec<NodeConnectionLink>,
    ) -> (r: bool)
        requires
            1 <= cycle_size <= 41,
            wf_arena(arena@),
            old(self).heads_fit(arena@),
            !pmap_has(old(self).spec_v_visited(), node >> 1),
        ensures
            final(self).spec_u_heads() == old(self).spec_u_heads(),
            final(self).spec_v_heads() == old(self).spec_v_heads(),
            final(self).root_node == old(self).root_node,
            final(self).heads_fit(arena@),
            !r ==> final(self).spec_u_visited() == old(self).spec_u_visited(),
            !r ==> final(self).spec_v_visited() == old(self).spec_v_visited(),
            r ==> old(self).spec_v_visited().push(((node >> 1), index)).is_prefix_of(
                final(self).spec_v_visited(),
            ),
            r ==> old(self).spec_u_visited().is_prefix_of(final(self).spec_u_visited()),
        decreases 42 - cycle_size, 0nat,
    {
        pmap_insert(&mut self.v_visited_pairs, node >> 1, index);
        let head = imap_get(&self.v_newest_connections, node);
        match head {
            Some(h) => {
                proof {
                    let j = choose|j: int|
                        0 <= j < self.spec_v_heads().len() && (#[trigger] self.spec_v_heads()[j]).0
                            == node && self.spec_v_heads()[j].1 == h;
                    assert(h < arena@.len() && h % 2 == 1);
                }
                let mut cur: usize = h;
                loop
                    invariant
                        cur < arena@.len(),
                        cur % 2 == 1,
                        wf_arena(arena@),
                        self.heads_fit(arena@),
                        self.spec_u_heads() == old(self).spec_u_heads(),
                        self.spec_v_heads() == old(self).spec_v_heads(),
                        self.spec_v_visited() == old(self).spec_v_visited().push(
                            ((node >> 1), index),
                        ),
                        self.spec_u_visited() == old(self).spec_u_visited(),
                        1 <= cycle_size <= 41,
                        self.root_node == old(self).root_node,
                    decreases cur,
                {
                    let m_other = arena[cur - 1].node.0;
                    let m_edge = arena[cur].edge_index;
                    if imap_contains(&self.u_newest_connections, m_other ^ 1) {
                        if !pmap_contains(&self.u_visited_pairs, m_other >> 1) {
                            if cycle_size != 41 {
                                proof {
                                    lemma_pair_shift(m_other);
                                }
                                let ghost u_pre = self.spec_u_visited();
                                if self.search_node_connections_first_partition(
                                    cycle_size + 1,
                                    m_other ^ 1,
                                    m_edge,
                                    arena,
                                ) {
                                    proof {
                                        lemma_prefix_push(
                                            u_pre,
                                            (((m_other ^ 1) >> 1), m_edge),
                                        );
                                        lemma_prefix_trans(
                                            u_pre,
                                            u_pre.push((((m_other ^ 1) >> 1), m_edge)),
                                            self.spec_u_visited(),
                                        );
                                    }
                                    return true;
                                }
                            }
                        }
                    }
                    match arena[cur].previous_link {
                        Some(p) => {
                            cur = p;
                        },
                        None => {
                            break ;
                        },
                    }
                }
            },
            None => {},
        }
        pmap_unmark(&mut self.v_visited_pairs, node >> 1);
        false
    }

    /// Copy the visited edge indices into the solution array: the U
    /// visits, then the V visits. A direct closure leaves one slot for
    /// the closing edge; a recursive success already recorded its
    /// terminal visit, so the V visits fill the rest.
    fn get_solution_from_visited_nodes(
        &self,
        solution: &mut Vec<u32>,
        last_edge_index: u32,
        use_last: bool,
    )
        requires
            old(solution).len() == SOLUTION_SIZE,
        ensures
            final(solution).len() == SOLUTION_SIZE,
    {
        let v_limit: usize = if use_last {
            SOLUTION_SIZE - 1
        } else {
            SOLUTION_SIZE
        };
        let mut i: usize = 0;
        let ulen = self.u_visited_pairs.len();
        let mut t: usize = 0;
        while t < ulen && i < SOLUTION_SIZE / 2
            invariant
                solution.len() == SOLUTION_SIZE,
                t <= ulen,
                ulen == self.u_visited_pairs@.len(),
                i <= SOLUTION_SIZE / 2,
            decreases ulen - t,
        {
            solution.set(i, self.u_visited_pairs[t].1);
            i += 1;
            t += 1;
        }
        let vlen = self.v_visited_pairs.len();
        let mut t: usize = 0;
        while t < vlen && i < v_limit
            invariant
                solution.len() == SOLUTION_SIZE,
                t <= vlen,
                vlen == self.v_visited_pairs@.len(),
                v_limit <= SOLUTION_SIZE,
                i <= v_limit,
            decreases vlen - t,
        {
            solution.set(i, self.v_visited_pairs[t].1);
            i += 1;
            t += 1;
        }
        if use_last && i < SOLUTION_SIZE {
            solution.set(i, last_edge_index);
        }
    }

    /// Walk the survivor stream, one packed `[edge_index, u, v]` triple
    /// per edge, and search for a 42-cycle whenever an insertion closes
    /// the pair condition on both partitions. On success the solution
    /// vector holds the 42 edge indices in non-decreasing order.
    pub fn get_cuckatoo_solution(
        &mut self,
        solution: &mut Vec<u32>,
        node_connections: &mut Vec<NodeConnectionLink>,
        edges: &[u32],
        number_of_edges: u64,
    ) -> (r: bool)
        requires
            old(solution).len() == SOLUTION_SIZE,
            3 * number_of_edges <= edges@.len(),
        ensures
            final(solution).len() == SOLUTION_SIZE,
            r ==> spec_is_triple_cycle(edges@, number_of_edges as int, final(solution)@),
            !r ==> final(solution)@ == old(solution)@,
    {
        let _ = self.initialize_thread_local_global_variables();
        let mut arena: Vec<NodeConnectionLink> = Vec::new();
        let elen = edges.len();
        proof {
            assert(number_of_edges <= usize::MAX as u64);
        }
        let num = number_of_edges as usize;
        let mut i: usize = 0;
        while i < num
            invariant
                elen == edges@.len(),
                num == number_of_edges,
                3 * num <= elen,
                i <= num,
                solution@ == old(solution)@,
                wf_arena(arena@),
                self.heads_fit(arena@),
            decreases num - i,
        {
            let base = 3 * i;
            let index = *vstd::slice::slice_index_get(edges, base);
            let u = *vstd::slice::slice_index_get(edges, base + 1) as u64;
            let v = *vstd::slice::slice_index_get(edges, base + 2) as u64;
            self.root_node = Node(v);
            let prev_u = imap_get(&self.u_newest_connections, u);
            let ju = arena.len();
            proof {
                match prev_u {
                    Some(p) => {
                        let j = choose|j: int|
                            0 <= j < self.spec_u_heads().len() && (
                            #[trigger] self.spec_u_heads()[j]).0 == u && self.spec_u_heads()[j].1
                                == p;
                        assert(p < arena@.len() && p % 2 == 0);
                    },
                    None => {},
                }
            }
            arena.push(NodeConnectionLink { previous_link: prev_u, node: Node(u), edge_index: index });
            let prev_v = imap_get(&self.v_newest_connections, v);
            proof {
                match prev_v {
                    Some(p) => {
                        let j = choose|j: int|
                            0 <= j < self.spec_v_heads().len() && (
                            #[trigger] self.spec_v_heads()[j]).0 == v && self.spec_v_heads()[j].1
                                == p;
                        assert(p < arena@.len() && p % 2 == 1);
                    },
                    None => {},
                }
            }
            arena.push(NodeConnectionLink { previous_link: prev_v, node: Node(v), edge_index: index });
            let ghost u_heads_pre = self.spec_u_heads();
            imap_put(&mut self.u_newest_connections, u, ju);
            proof {
                assert forall|j: int|
                    0 <= j < self.spec_u_heads().len() implies (0 <= (
                #[trigger] self.spec_u_heads()[j]).1 < arena@.len() && self.spec_u_heads()[j].1 % 2
                    == 0) by {
                    if j < u_heads_pre.len() {
                        if self.spec_u_heads()[j] == u_heads_pre[j] {
                            assert(0 <= u_heads_pre[j].1 < arena@.len() - 2);
                        }
                    } else {
                        assert(self.spec_u_heads()[j] == (u, ju));
                    }
                }
            }
            let ghost v_heads_pre = self.spec_v_heads();
            imap_put(&mut self.v_newest_connections, v, ju + 1);
            proof {
                assert forall|j: int|
                    0 <= j < self.spec_v_heads().len() implies (0 <= (
                #[trigger] self.spec_v_heads()[j]).1 < arena@.len() && self.spec_v_heads()[j].1 % 2
                    == 1) by {
                    if j < v_heads_pre.len() {
                        if self.spec_v_heads()[j] == v_heads_pre[j] {
                            assert(0 <= v_heads_pre[j].1 < arena@.len() - 2);
                        }
                    } else {
                        assert(self.spec_v_heads()[j] == (v, (ju + 1) as usize));
                    }
                }
            }
            if imap_contains(&self.u_newest_connections, u ^ 1) && imap_contains(
                &self.v_newest_connections,
                v ^ 1,
            ) {
                self.u_visited_pairs = Vec::new();
                self.v_visited_pairs = Vec::new();
                let mut cycle_size: u8 = 1;
                let mut current_node: u64 = u;
                let mut current_index: u32 = index;
                loop
                    invariant_except_break
                        1 <= cycle_size <= 41,
                        cycle_size % 2 == 1,
                        !pmap_has(self.spec_u_visited(), current_node >> 1),
                    invariant
                        solution@ == old(solution)@,
                        num == number_of_edges,
                        3 * num <= elen,
                        elen == edges@.len(),
                        wf_arena(arena@),
                        self.heads_fit(arena@),
                    decreases 42 - cycle_size,
                {
                    pmap_insert(&mut self.u_visited_pairs, current_node >> 1, current_index);
                    let head = imap_get(&self.u_newest_connections, current_node ^ 1);
                    match head {
                        None => {
                            break ;
                        },
                        Some(h) => {
                            proof {
                                let j = choose|j: int|
                                    0 <= j < self.spec_u_heads().len() && (
                                    #[trigger] self.spec_u_heads()[j]).0 == (current_node ^ 1)
                                        && self.spec_u_heads()[j].1 == h;
                                assert(h < arena@.len() && h % 2 == 0);
                            }
                            if arena[h].previous_link.is_some() {
                                let mut cur: usize = h;
                                loop
                                    invariant
                                        cur < arena@.len(),
                                        cur % 2 == 0,
                                        solution@ == old(solution)@,
                                        num == number_of_edges,
                                        3 * num <= elen,
                                        elen == edges@.len(),
                                        wf_arena(arena@),
                                        self.heads_fit(arena@),
                                        1 <= cycle_size <= 41,
                                    decreases cur,
                                {
                                    let m_other = arena[cur + 1].node.0;
                                    let m_edge = arena[cur].edge_index;
                                    if !pmap_contains(&self.v_visited_pairs, m_other >> 1) {
                                        if (m_other ^ 1) == self.root_node.0 {
                                            if cycle_size == 41 {
                                                let mut candidate = blank_solution();
                                                self.get_solution_from_visited_nodes(
                                                    &mut candidate,
                                                    m_edge,
                                                    true,
                                                );
                                                sort_u32(&mut candidate);
                                                if check_triple_solution(
                                                    &candidate,
                                                    edges,
                                                    number_of_edges,
                                                ) {
                                                    *solution = candidate;
                                                    *node_connections = arena;
                                                    return true;
                                                }
                                                break ;
                                            }
                                        } else if cycle_size != 41 {
                                            if imap_contains(
                                                &self.v_newest_connections,
                                                m_other ^ 1,
                                            ) {
                                                proof {
                                                    lemma_pair_shift(m_other);
                                                }
                                                if self.search_node_connections_second_partition(
                                                    cycle_size + 1,
                                                    m_other ^ 1,
                                                    m_edge,
                                                    &arena,
                                                ) {
                                                    let mut candidate = blank_solution();
                                                    self.get_solution_from_visited_nodes(
                                                        &mut candidate,
                                                        0,
                                                        false,
                                                    );
                                                    sort_u32(&mut candidate);
                                                    if check_triple_solution(
                                                        &candidate,
                                                        edges,
                                                        number_of_edges,
                                                    ) {
                                                        *solution = candidate;
                                                        *node_connections = arena;
                                                        return true;
                                                    }
                                                    break ;
                                                }
                                            }
                                        }
                                    }
                                    match arena[cur].previous_link {
                                        Some(p) => {
                                            cur = p;
                                        },
                                        None => {
                                            break ;
                                        },
                                    }
                                }
                                break ;
                            } else {
                                current_index = arena[h].edge_index;
                                current_node = arena[h + 1].node.0;
                                if pmap_contains(&self.v_visited_pairs, current_node >> 1) {
                                    break ;
                                }
                                if (current_node ^ 1) == self.root_node.0 {
                                    if cycle_size == 41 {
                                        let mut candidate = blank_solution();
                                        self.get_solution_from_visited_nodes(
                                            &mut candidate,
                                            current_index,
                                            true,
                                        );
                                        sort_u32(&mut candidate);
                                        if check_triple_solution(
                                            &candidate,
                                            edges,
                                            number_of_edges,
                                        ) {
                                            *solution = candidate;
                                            *node_connections = arena;
                                            return true;
                                        }
                                    }
                                    break ;
                                }
                                if cycle_size == 41 {
                                    break ;
                                }
                                if !imap_contains(&self.v_newest_connections, current_node ^ 1) {
                                    break ;
                                }
                                pmap_insert(
                                    &mut self.v_visited_pairs,
                                    current_node >> 1,
                                    current_index,
                                );
                                let head2 = imap_get(&self.v_newest_connections, current_node ^ 1);
                                match head2 {
                                    None => {
                                        break ;
                                    },
                                    Some(h2) => {
                                        proof {
                                            let j = choose|j: int|
                                                0 <= j < self.spec_v_heads().len() && (
                                                #[trigger] self.spec_v_heads()[j]).0 == (
                                                current_node ^ 1) && self.spec_v_heads()[j].1
                                                    == h2;
                                            assert(h2 < arena@.len() && h2 % 2 == 1);
                                        }
                                        if arena[h2].previous_link.is_some() {
                                            let mut cur: usize = h2;
                                            loop
                                                invariant
                                                    cur < arena@.len(),
                                                    cur % 2 == 1,
                                                    solution@ == old(solution)@,
                                                    num == number_of_edges,
                                                    3 * num <= elen,
                                                    elen == edges@.len(),
                                                    wf_arena(arena@),
                                                    self.heads_fit(arena@),
                                                    1 <= cycle_size <= 39,
                                                decreases cur,
                                            {
                                                let m_other = arena[cur - 1].node.0;
                                                let m_edge = arena[cur].edge_index;
                                                if imap_contains(
                                                    &self.u_newest_connections,
                                                    m_other ^ 1,
                                                ) {
                                                    if !pmap_contains(
                                                        &self.u_visited_pairs,
                                                        m_other >> 1,
                                                    ) {
                                                        proof {
                                                            lemma_pair_shift(m_other);
                                                        }
                                                        if self.search_node_connections_first_partition(
                                                            cycle_size + 2,
                                                            m_other ^ 1,
                                                            m_edge,
                                                            &arena,
                                                        ) {
                                                            let mut candidate = blank_solution();
                                                            self.get_solution_from_visited_nodes(
                                                                &mut candidate,
                                                                0,
                                                                false,
                                                            );
                                                            sort_u32(&mut candidate);
                                                            if check_triple_solution(
                                                                &candidate,
                                                                edges,
                                                                number_of_edges,
                                                            ) {
                                                                *solution = candidate;
                                                                *node_connections = arena;
                                                                return true;
                                                            }
                                                            break ;
                                                        }
                                                    }
                                                }
                                                match arena[cur].previous_link {
                                                    Some(p) => {
                                                        cur = p;
                                                    },
                                                    None => {
                                                        break ;
                                                    },
                                                }
                                            }
                                            break ;
                                        } else {
                                            current_index = arena[h2].edge_index;
                                            current_node = arena[h2 - 1].node.0;
                                            if pmap_contains(
                                                &self.u_visited_pairs,
                                                current_node >> 1,
                                            ) {
                                                break ;
                                            }
                                            if !imap_contains(
                                                &self.u_newest_connections,
                                                current_node ^ 1,
                                            ) {
                                                break ;
                                            }
                                            cycle_size += 2;
                                        }
                                    },
                                }
                            }
                        },
                    }
                }
            }
            i += 1;
        }
        *node_connections = arena;
        false
    }

    /// Find a 42-cycle among the given survivor edges, returning the
    /// positions of the cycle's edges within the slice: 42 strictly
    /// ascending in-range positions when a checked cycle is closed.
    pub fn find_cycle(&mut self, edges: &[Edge]) -> (r: Result<Option<Vec<usize>>, CuckatooError>)
        requires
            edges@.len() < 0x40000000,
        ensures
            r is Ok,
            r matches Ok(Some(s)) ==> (s@.len() == SOLUTION_SIZE && (forall|a: int, b: int|
                0 <= a < b < s@.len() ==> s@[a] < s@[b]) && (forall|k: int|
                0 <= k < s@.len() ==> (#[trigger] s@[k]) < edges@.len())),
            edges@.len() < SOLUTION_SIZE ==> (r matches Ok(o) && o is None),
    {
        let _ = self.initialize_thread_local_global_variables();
        let n = edges.len();
        let mut cpp_edges: Vec<u32> = Vec::new();
        let mut i: usize = 0;
        while i < n
            invariant
                i <= n,
                n == edges@.len(),
                n < 0x40000000,
                cpp_edges@.len() == 3 * i,
                forall|j: int| 0 <= j < i ==> (#[trigger] cpp_edges@[3 * j]) == j as u32,
            decreases n - i,
        {
            let e = *vstd::slice::slice_index_get(edges, i);
            cpp_edges.push(#[verifier::truncate] (i as u32));
            cpp_edges.push(#[verifier::truncate] (e.u.0 as u32));
            cpp_edges.push(#[verifier::truncate] (e.v.0 as u32));
            i += 1;
        }
        let mut node_connections: Vec<NodeConnectionLink> = Vec::new();
        let mut solution: Vec<u32> = blank_solution();
        if self.get_cuckatoo_solution(
            &mut solution,
            &mut node_connections,
            cpp_edges.as_slice(),
            n as u64,
        ) {
            proof {
                assert forall|k: int|
                    0 <= k < solution@.len() implies (#[trigger] solution@[k]) < n by {
                    if forall|w: int|
                        0 <= w < n as int ==> (#[trigger] cpp_edges@[3 * w]) != solution@[k] {
                        lemma_triple_absent(cpp_edges@, solution@[k], n as int);
                    } else {
                        let w = choose|w: int|
                            0 <= w < n as int && (#[trigger] cpp_edges@[3 * w]) == solution@[k];
                        assert(cpp_edges@[3 * w] == w as u32);
                    }
                }
                if edges@.len() < SOLUTION_SIZE {
                    lemma_ascending_floor(solution@, 41);
                    assert(false);
                }
            }
            let mut out: Vec<usize> = Vec::new();
            let mut t: usize = 0;
            while t < solution.len()
                invariant
                    t <= solution@.len(),
                    solution@.len() == SOLUTION_SIZE,
                    out@.len() == t,
                    forall|a: int| 0 <= a < t ==> (#[trigger] out@[a]) == solution@[a] as usize,
                decreases solution@.len() - t,
            {
                out.push(solution[t] as usize);
                t += 1;
            }
            Ok(Some(out))
        } else {
            Ok(None)
        }
    }
}

} // verus!
