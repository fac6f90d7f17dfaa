//! The 42-cycle search over packed edge triples, with the chain heads
//! kept in small hash tables keyed by 32-bit node values. The links of
//! one edge occupy adjacent arena slots, so a link's slot locates the
//! opposite endpoint of its edge.

use vstd::prelude::*;
use crate::hash_cycle_finder::{
    blank_solution, lemma_pair_shift, lemma_prefix_push, lemma_prefix_refl, lemma_prefix_trans,
    sort_u32,
};
use crate::types::SOLUTION_SIZE;
use crate::verification::{check_triple_solution, spec_is_triple_cycle};

verus! {

/// One link of a newest-connection chain: the endpoint it stands for,
/// the edge's index, and the arena slot of the previous link for the
/// same node, if any.
#[derive(Debug, Clone, Copy)]
pub struct CuckatooNodeConnectionsLink {
    /// Arena slot of the previous link for the same node.
    pub previous_node_connection_link: Option<usize>,
    /// The endpoint this link stands for.
    pub node: u32,
    /// The index of the edge that inserted this link.
    pub edge_index: u32,
}

/// Every link's predecessor sits at an earlier slot of the same parity,
/// and slots come in U/V pairs.
pub open spec fn wf_arena(a: Seq<CuckatooNodeConnectionsLink>) -> bool {
    &&& a.len() % 2 == 0
    &&& forall|j: int|
        0 <= j < a.len() ==> ((#[trigger] a[j]).previous_node_connection_link matches Some(p) ==> 0
            <= p < j && p % 2 == j % 2)
}

/// A head table holds a key.
pub open spec fn table_has(s: Seq<(u32, usize)>, key: u32) -> bool {
    exists|i: int| 0 <= i < s.len() && (#[trigger] s[i]).0 == key
}

/// Every stored chain head is a slot of the given parity inside the
/// arena.
pub open spec fn wf_table(m: Seq<(u32, usize)>, a_len: int, parity: int) -> bool {
    forall|j: int| 0 <= j < m.len() ==> (0 <= (#[trigger] m[j]).1 < a_len && m[j].1 % 2 == parity)
}

/// A visited-pair table holds a key.
pub open spec fn pairs_has(s: Seq<(u64, u32)>, key: u64) -> bool {
    exists|i: int| 0 <= i < s.len() && (#[trigger] s[i]).0 == key
}

/// Hash table from node values to newest-connection arena slots.
pub struct HashTable {
    data: Vec<(u32, usize)>,
}

impl HashTable {
    /// The stored entries, oldest first.
    pub closed spec fn view(&self) -> Seq<(u32, usize)> {
        self.data@
    }

    /// Create an empty table.
    pub fn new() -> (r: Self)
        ensures
            r.view().len() == 0,
    {
        Self { data: Vec::new() }
    }

    /// Remove every entry.
    pub fn clear(&mut self)
        ensures
            final(self).view().len() == 0,
    {
        self.data = Vec::new();
    }

    /// Whether a newest connection is recorded for the key.
    pub fn contains(&self, key: u32) -> (r: bool)
        ensures
            r == table_has(self.view(), key),
    {
        let n = self.data.len();
        let mut t: usize = 0;
        while t < n
            invariant
                t <= n,
                n == self.data@.len(),
                forall|j: int| 0 <= j < t ==> (#[trigger] self.data@[j]).0 != key,
            decreases n - t,
        {
            if self.data[t].0 == key {
                proof {
                    assert((#[trigger] self.view()[t as int]).0 == key);
                }
                return true;
            }
            t += 1;
        }
        proof {
            assert forall|j: int| 0 <= j < self.view().len() implies (
            #[trigger] self.view()[j]).0 != key by {
                assert(self.data@[j].0 != key);
            }
        }
        false
    }

    /// The newest connection slot recorded for the key.
    pub fn get(&self, key: u32) -> (r: Option<usize>)
        ensures
            r matches Some(i) ==> (exists|j: int|
                0 <= j < self.view().len() && (#[trigger] self.view()[j]).0 == key
                    && self.view()[j].1 == i),
            r is None ==> !table_has(self.view(), key),
    {
        let n = self.data.len();
        let mut t: usize = 0;
        while t < n
            invariant
                t <= n,
                n == self.data@.len(),
                forall|j: int| 0 <= j < t ==> (#[trigger] self.data@[j]).0 != key,
            decreases n - t,
        {
            if self.data[t].0 == key {
                proof {
                    assert((#[trigger] self.view()[t as int]).0 == key);
                }
                return Some(self.data[t].1);
            }
            t += 1;
        }
        None
    }

    /// Replace the newest connection slot for the key, or insert it;
    /// the previous slot comes back when the key was present.
    pub fn replace(&mut self, key: u32, slot: usize) -> (r: Option<usize>)
        ensures
            forall|j: int|
                0 <= j < old(self).view().len() ==> ((#[trigger] final(self).view()[j]) == old(
                    self,
                ).view()[j] || final(self).view()[j] == (key, slot)),
            final(self).view().len() == old(self).view().len() || (final(self).view().len() == old(
                self,
            ).view().len() + 1 && final(self).view().last() == (key, slot)),
            table_has(final(self).view(), key),
            !table_has(old(self).view(), key) ==> (final(self).view() == old(self).view().push(
                (key, slot),
            ) && r is None),
            table_has(old(self).view(), key) ==> (exists|j: int|
                0 <= j < old(self).view().len() && (#[trigger] old(self).view()[j]).0 == key
                    && final(self).view() == old(self).view().update(j, (key, slot)) && r == Some(
                    old(self).view()[j].1,
                )),
    {
        let n = self.data.len();
        let mut t: usize = 0;
        while t < n
            invariant
                t <= n,
                n == self.data@.len(),
                self.data@ == old(self).data@,
                forall|j: int| 0 <= j < t ==> (#[trigger] self.data@[j]).0 != key,
            decreases n - t,
        {
            if self.data[t].0 == key {
                let prev = self.data[t].1;
                self.data.set(t, (key, slot));
                proof {
                    assert((#[trigger] self.view()[t as int]).0 == key);
                    assert((#[trigger] old(self).view()[t as int]).0 == key);
                    assert(self.view() == old(self).view().update(t as int, (key, slot)));
                }
                return Some(prev);
            }
            t += 1;
        }
        self.data.push((key, slot));
        proof {
            assert((#[trigger] self.view()[self.view().len() - 1]).0 == key);
            assert forall|j: int|
                0 <= j < old(self).view().len() implies (#[trigger] old(self).view()[j]).0
                != key by {
                assert(old(self).data@[j].0 != key);
            }
        }
        None
    }
}

/// Visited node pairs, keyed by pair index, carrying the edge index that
/// visited them, in insertion order.
pub struct VisitedNodePairs {
    data: Vec<(u64, u32)>,
}

impl VisitedNodePairs {
    /// The stored entries, oldest first.
    pub closed spec fn view(&self) -> Seq<(u64, u32)> {
        self.data@
    }

    /// Create an empty table.
    pub fn new() -> (r: Self)
        ensures
            r.view().len() == 0,
    {
        Self { data: Vec::new() }
    }

    /// Remove every entry.
    pub fn clear(&mut self)
        ensures
            final(self).view().len() == 0,
    {
        self.data = Vec::new();
    }

    /// Whether the pair was visited.
    pub fn contains(&self, key: u64) -> (r: bool)
        ensures
            r == pairs_has(self.view(), key),
    {
        let n = self.data.len();
        let mut t: usize = 0;
        while t < n
            invariant
                t <= n,
                n == self.data@.len(),
                forall|j: int| 0 <= j < t ==> (#[trigger] self.data@[j]).0 != key,
            decreases n - t,
        {
            if self.data[t].0 == key {
                proof {
                    assert((#[trigger] self.view()[t as int]).0 == key);
                }
                return true;
            }
            t += 1;
        }
        proof {
            assert forall|j: int| 0 <= j < self.view().len() implies (
            #[trigger] self.view()[j]).0 != key by {
                assert(self.data@[j].0 != key);
            }
        }
        false
    }

    /// Record a visit, overwriting any earlier entry for the pair.
    pub fn set_unique(&mut self, key: u64, value: u32)
        ensures
            !pairs_has(old(self).view(), key) ==> final(self).view() == old(self).view().push(
                (key, value),
            ),
            pairs_has(old(self).view(), key) ==> (exists|j: int|
                0 <= j < old(self).view().len() && (#[trigger] old(self).view()[j]).0 == key
                    && final(self).view() == old(self).view().update(j, (key, value))),
    {
        let n = self.data.len();
        let mut t: usize = 0;
        while t < n
            invariant
                t <= n,
                n == self.data@.len(),
                self.data@ == old(self).data@,
                forall|j: int| 0 <= j < t ==> (#[trigger] self.data@[j]).0 != key,
            decreases n - t,
        {
            if self.data[t].0 == key {
                self.data.set(t, (key, value));
                proof {
                    assert((#[trigger] old(self).view()[t as int]).0 == key);
                }
                return ;
            }
            t += 1;
        }
        self.data.push((key, value));
        proof {
            assert forall|j: int|
                0 <= j < old(self).view().len() implies (#[trigger] old(self).view()[j]).0
                != key by {
                assert(old(self).data@[j].0 != key);
            }
        }
    }

    /// Take back the most recent visit, which must be for this key.
    fn unmark(&mut self, key: u64)
        requires
            old(self).view().len() > 0,
            old(self).view().last().0 == key,
        ensures
            final(self).view() == old(self).view().drop_last(),
    {
        let _ = self.data.pop();
    }

    /// The visited edge indices, oldest first.
    pub fn get_values(&self) -> (r: Vec<u32>)
        ensures
            r@.len() == self.view().len(),
            forall|j: int| 0 <= j < r@.len() ==> r@[j] == self.view()[j].1,
    {
        let n = self.data.len();
        let mut out: Vec<u32> = Vec::new();
        let mut t: usize = 0;
        while t < n
            invariant
                t <= n,
                n == self.data@.len(),
                out@.len() == t,
                forall|j: int| 0 <= j < t ==> out@[j] == self.data@[j].1,
            decreases n - t,
        {
            out.push(self.data[t].1);
            t += 1;
        }
        out
    }
}

/// 42-cycle finder over packed edge triples.
pub struct CppCycleFinder {
    cuckatoo_u_newest_node_connections: HashTable,
    cuckatoo_v_newest_node_connections: HashTable,
    cuckatoo_u_visited_node_pairs: VisitedNodePairs,
    cuckatoo_v_visited_node_pairs: VisitedNodePairs,
    cuckatoo_root_node: u32,
}

impl CppCycleFinder {
    /// The U chain heads.
    pub closed spec fn spec_u_heads(&self) -> Seq<(u32, usize)> {
        self.cuckatoo_u_newest_node_connections.view()
    }

    /// The V chain heads.
    pub closed spec fn spec_v_heads(&self) -> Seq<(u32, usize)> {
        self.cuckatoo_v_newest_node_connections.view()
    }

    /// The U visited pairs.
    pub closed spec fn spec_u_visited(&self) -> Seq<(u64, u32)> {
        self.cuckatoo_u_visited_node_pairs.view()
    }

    /// The V visited pairs.
    pub closed spec fn spec_v_visited(&self) -> Seq<(u64, u32)> {
        self.cuckatoo_v_visited_node_pairs.view()
    }

    /// The chain heads fit the given arena.
    pub closed spec fn heads_fit(&self, a: Seq<CuckatooNodeConnectionsLink>) -> bool {
        &&& wf_table(self.cuckatoo_u_newest_node_connections.view(), a.len() as int, 0)
        &&& wf_table(self.cuckatoo_v_newest_node_connections.view(), a.len() as int, 1)
    }

    /// Create an empty finder.
    pub fn new() -> (r: Self) {
        Self {
            cuckatoo_u_newest_node_connections: HashTable::new(),
            cuckatoo_v_newest_node_connections: HashTable::new(),
            cuckatoo_u_visited_node_pairs: VisitedNodePairs::new(),
            cuckatoo_v_visited_node_pairs: VisitedNodePairs::new(),
            cuckatoo_root_node: 0,
        }
    }

    /// Reset all search state.
    pub fn initialize_cuckatoo_thread_local_global_variables(&mut self) -> (r: bool)
        ensures
            r,
            final(self).spec_u_heads().len() == 0,
            final(self).spec_v_heads().len() == 0,
            final(self).spec_u_visited().len() == 0,
            final(self).spec_v_visited().len() == 0,
    {
        self.cuckatoo_u_newest_node_connections.clear();
        self.cuckatoo_v_newest_node_connections.clear();
        self.cuckatoo_u_visited_node_pairs.clear();
        self.cuckatoo_v_visited_node_pairs.clear();
        self.cuckatoo_root_node = 0;
        true
    }

    /// Depth-first search continuing on partition U at `node`; on
    /// failure the visited tables are restored exactly.
    fn search_node_connections_for_cuckatoo_solution_first_partition(
        &mut self,
        cycle_size: u8,
        node: u32,
        index: u32,
        arena: &Vec<CuckatooNodeConnectionsLink>,
    ) -> (r: bool)
        requires
            1 <= cycle_size <= 41,
            wf_arena(arena@),
            old(self).heads_fit(arena@),
            !pairs_has(old(self).cuckatoo_u_visited_node_pairs.view(), (node >> 1) as u64),
        ensures
            final(self).cuckatoo_u_newest_node_connections == old(
                self,
            ).cuckatoo_u_newest_node_connections,
            final(self).cuckatoo_v_newest_node_connections == old(
                self,
            ).cuckatoo_v_newest_node_connections,
            final(self).cuckatoo_root_node == old(self).cuckatoo_root_node,
            final(self).heads_fit(arena@),
            !r ==> final(self).cuckatoo_u_visited_node_pairs.view() == old(
                self,
            ).cuckatoo_u_visited_node_pairs.view(),
            !r ==> final(self).cuckatoo_v_visited_node_pairs.view() == old(
                self,
            ).cuckatoo_v_visited_node_pairs.view(),
            r ==> old(self).cuckatoo_u_visited_node_pairs.view().push(
                (((node >> 1) as u64), index),
            ).is_prefix_of(final(self).cuckatoo_u_visited_node_pairs.view()),
            r ==> old(self).cuckatoo_v_visited_node_pairs.view().is_prefix_of(
                final(self).cuckatoo_v_visited_node_pairs.view(),
            ),
        decreases 42 - cycle_size, 1nat,
    {
        self.cuckatoo_u_visited_node_pairs.set_unique((node >> 1) as u64, index);
        let head = self.cuckatoo_u_newest_node_connections.get(node);
        match head {
            Some(h) => {
                proof {
                    let j = choose|j: int|
                        0 <= j < self.cuckatoo_u_newest_node_connections.view().len() && (
                        #[trigger] self.cuckatoo_u_newest_node_connections.view()[j]).0 == node
                            && self.cuckatoo_u_newest_node_connections.view()[j].1 == h;
                    assert(h < arena@.len() && h % 2 == 0);
                }
                let mut cur: usize = h;
                loop
                    invariant
                        cur < arena@.len(),
                        cur % 2 == 0,
                        wf_arena(arena@),
                        self.heads_fit(arena@),
                        self.cuckatoo_u_newest_node_connections == old(
                            self,
                        ).cuckatoo_u_newest_node_connections,
                        self.cuckatoo_v_newest_node_connections == old(
                            self,
                        ).cuckatoo_v_newest_node_connections,
                        self.cuckatoo_u_visited_node_pairs.view() == old(
                            self,
                        ).cuckatoo_u_visited_node_pairs.view().push(
                            (((node >> 1) as u64), index),
                        ),
                        self.cuckatoo_v_visited_node_pairs.view() == old(
                            self,
                        ).cuckatoo_v_visited_node_pairs.view(),
                        1 <= cycle_size <= 41,
                        self.cuckatoo_root_node == old(self).cuckatoo_root_node,
                    decreases cur,
                {
                    let m_other = arena[cur + 1].node;
                    let m_edge = arena[cur].edge_index;
                    if !self.cuckatoo_v_visited_node_pairs.contains((m_other >> 1) as u64) {
                        if (m_other ^ 1) == self.cuckatoo_root_node {
                            if cycle_size == 41 {
                                self.cuckatoo_v_visited_node_pairs.set_unique(
                                    (m_other >> 1) as u64,
                                    m_edge,
                                );
                                proof {
                                    lemma_prefix_refl(self.cuckatoo_u_visited_node_pairs.view());
                                    lemma_prefix_push(
                                        old(self).cuckatoo_v_visited_node_pairs.view(),
                                        (((m_other >> 1) as u64), m_edge),
                                    );
                                }
                                return true;
                            }
                        } else if cycle_size != 41 {
                            if self.cuckatoo_v_newest_node_connections.contains(m_other ^ 1) {
                                proof {
                                    lemma_pair_shift(m_other as u64);
                                    assert(((m_other ^ 1) >> 1) as u64 == ((m_other >> 1) as u64))
                                        by (bit_vector);
                                }
                                let ghost v_pre = self.cuckatoo_v_visited_node_pairs.view();
                                if self.search_node_connections_for_cuckatoo_solution_second_partition(
                                    cycle_size + 1,
                                    m_other ^ 1,
                                    m_edge,
                                    arena,
                                ) {
                                    proof {
                                        lemma_prefix_push(
                                            v_pre,
                                            ((((m_other ^ 1) >> 1) as u64), m_edge),
                                        );
                                        lemma_prefix_trans(
                                            v_pre,
                                            v_pre.push(((((m_other ^ 1) >> 1) as u64), m_edge)),
                                            self.cuckatoo_v_visited_node_pairs.view(),
                                        );
                                    }
                                    return true;
                                }
                            }
                        }
                    }
                    match arena[cur].previous_node_connection_link {
                        Some(p) => {
                            cur = p;
                        },
                        None => {
                            break ;
                        },
                    }
                }
            },
            None => {},
        }
        self.cuckatoo_u_visited_node_pairs.unmark((node >> 1) as u64);
        false
    }

    /// Depth-first search continuing on partition V at `node`; on
    /// failure the visited tables are restored exactly.
    fn search_node_connections_for_cuckatoo_solution_second_partition(
        &mut self,
        cycle_size: u8,
        node: u32,
        index: u32,
        arena: &Vec<CuckatooNodeConnectionsLink>,
    ) -> (r: bool)
        requires
            1 <= cycle_size <= 41,
            wf_arena(arena@),
            old(self).heads_fit(arena@),
            !pairs_has(old(self).cuckatoo_v_visited_node_pairs.view(), (node >> 1) as u64),
        ensures
            final(self).cuckatoo_u_newest_node_connections == old(
                self,
            ).cuckatoo_u_newest_node_connections,
            final(self).cuckatoo_v_newest_node_connections == old(
                self,
            ).cuckatoo_v_newest_node_connections,
            final(self).cuckatoo_root_node == old(self).cuckatoo_root_node,
            final(self).heads_fit(arena@),
            !r ==> final(self).cuckatoo_u_visited_node_pairs.view() == old(
                self,
            ).cuckatoo_u_visited_node_pairs.view(),
            !r ==> final(self).cuckatoo_v_visited_node_pairs.view() == old(
                self,
            ).cuckatoo_v_visited_node_pairs.view(),
            r ==> old(self).cuckatoo_v_visited_node_pairs.view().push(
                (((node >> 1) as u64), index),
            ).is_prefix_of(final(self).cuckatoo_v_visited_node_pairs.view()),
            r ==> old(self).cuckatoo_u_visited_node_pairs.view().is_prefix_of(
                final(self).cuckatoo_u_visited_node_pairs.view(),
            ),
        decreases 42 - cycle_size, 0nat,
    {
        self.cuckatoo_v_visited_node_pairs.set_unique((node >> 1) as u64, index);
        let head = self.cuckatoo_v_newest_node_connections.get(node);
        match head {
            Some(h) => {
                proof {
                    let j = choose|j: int|
                        0 <= j < self.cuckatoo_v_newest_node_connections.view().len() && (
                        #[trigger] self.cuckatoo_v_newest_node_connections.view()[j]).0 == node
                            && self.cuckatoo_v_newest_node_connections.view()[j].1 == h;
                    assert(h < arena@.len() && h % 2 == 1);
                }
                let mut cur: usize = h;
                loop
                    invariant
                        cur < arena@.len(),
                        cur % 2 == 1,
                        wf_arena(arena@),
                        self.heads_fit(arena@),
                        self.cuckatoo_u_newest_node_connections == old(
                            self,
                        ).cuckatoo_u_newest_node_connections,
                        self.cuckatoo_v_newest_node_connections == old(
                            self,
                        ).cuckatoo_v_newest_node_connections,
                        self.cuckatoo_v_visited_node_pairs.view() == old(
                            self,
                        ).cuckatoo_v_visited_node_pairs.view().push(
                            (((node >> 1) as u64), index),
                        ),
                        self.cuckatoo_u_visited_node_pairs.view() == old(
                            self,
                        ).cuckatoo_u_visited_node_pairs.view(),
                        1 <= cycle_size <= 41,
                        self.cuckatoo_root_node == old(self).cuckatoo_root_node,
                    decreases cur,
                {
                    let m_other = arena[cur - 1].node;
                    let m_edge = arena[cur].edge_index;
                    if self.cuckatoo_u_newest_node_connections.contains(m_other ^ 1) {
                        if !self.cuckatoo_u_visited_node_pairs.contains((m_other >> 1) as u64) {
                            if cycle_size != 41 {
                                proof {
                                    assert(((m_other ^ 1) >> 1) as u64 == ((m_other >> 1) as u64))
                                        by (bit_vector);
                                }
                                let ghost u_pre = self.cuckatoo_u_visited_node_pairs.view();
                                if self.search_node_connections_for_cuckatoo_solution_first_partition(
                                    cycle_size + 1,
                                    m_other ^ 1,
                                    m_edge,
                                    arena,
                                ) {
                                    proof {
                                        lemma_prefix_push(
                                            u_pre,
                                            ((((m_other ^ 1) >> 1) as u64), m_edge),
                                        );
                                        lemma_prefix_trans(
                                            u_pre,
                                            u_pre.push(((((m_other ^ 1) >> 1) as u64), m_edge)),
                                            self.cuckatoo_u_visited_node_pairs.view(),
                                        );
                                    }
                                    return true;
                                }
                            }
                        }
                    }
                    match arena[cur].previous_node_connection_link {
                        Some(p) => {
                            cur = p;
                        },
                        None => {
                            break ;
                        },
                    }
                }
            },
            None => {},
        }
        self.cuckatoo_v_visited_node_pairs.unmark((node >> 1) as u64);
        false
    }

    /// Copy the visited edge indices into the solution array: the U
    /// visits, then the V visits. A direct closure leaves one slot for
    /// the closing edge; a recursive success already recorded its
    /// terminal visit, so the V visits fill the rest.
    fn fill_solution(&self, solution: &mut Vec<u32>, last_edge_index: u32, use_last: bool)
        requires
            old(solution).len() == SOLUTION_SIZE,
        ensures
            final(solution).len() == SOLUTION_SIZE,
    {
        let u_values = self.cuckatoo_u_visited_node_pairs.get_values();
        let v_values = self.cuckatoo_v_visited_node_pairs.get_values();
        let v_limit: usize = if use_last {
            SOLUTION_SIZE - 1
        } else {
            SOLUTION_SIZE
        };
        let mut i: usize = 0;
        let mut t: usize = 0;
        while t < u_values.len() && i < SOLUTION_SIZE / 2
            invariant
                solution.len() == SOLUTION_SIZE,
                t <= u_values@.len(),
                i <= SOLUTION_SIZE / 2,
            decreases u_values@.len() - t,
        {
            solution.set(i, u_values[t]);
            i += 1;
            t += 1;
        }
        let mut t: usize = 0;
        while t < v_values.len() && i < v_limit
            invariant
                solution.len() == SOLUTION_SIZE,
                t <= v_values@.len(),
                v_limit <= SOLUTION_SIZE,
                i <= v_limit,
            decreases v_values@.len() - t,
        {
            solution.set(i, v_values[t]);
            i += 1;
            t += 1;
        }
        if use_last && i < SOLUTION_SIZE {
            solution.set(i, last_edge_index);
        }
    }

    /// Walk the survivor stream, one packed `[edge_index, u, v]` triple
    /// per edge, and search for a 42-cycle whenever an insertion closes
    /// the pair condition on both partitions. On success the solution
    /// vector holds the 42 edge indices in non-decreasing order.
    pub fn get_cuckatoo_solution(
        &mut self,
        solution: &mut Vec<u32>,
        node_connections: &mut Vec<CuckatooNodeConnectionsLink>,
        edges: &[u32],
        number_of_edges: u64,
    ) -> (r: bool)
        requires
            old(solution).len() == SOLUTION_SIZE,
            3 * number_of_edges <= edges@.len(),
        ensures
            final(solution).len() == SOLUTION_SIZE,
            r ==> spec_is_triple_cycle(edges@, number_of_edges as int, final(solution)@),
            !r ==> final(solution)@ == old(solution)@,
    {
        let _ = self.initialize_cuckatoo_thread_local_global_variables();
        let mut arena: Vec<CuckatooNodeConnectionsLink> = Vec::new();
        let elen = edges.len();
        proof {
            assert(number_of_edges <= usize::MAX as u64);
        }
        let num = number_of_edges as usize;
        let mut i: usize = 0;
        while i < num
            invariant
                elen == edges@.len(),
                num == number_of_edges,
                3 * num <= elen,
                i <= num,
                solution@ == old(solution)@,
                wf_arena(arena@),
                self.heads_fit(arena@),
            decreases num - i,
        {
            let base = 3 * i;
            let index = *vstd::slice::slice_index_get(edges, base);
            let u = *vstd::slice::slice_index_get(edges, base + 1);
            let v = *vstd::slice::slice_index_get(edges, base + 2);
            self.cuckatoo_root_node = v;
            let prev_u = self.cuckatoo_u_newest_node_connections.get(u);
            let ju = arena.len();
            proof {
                match prev_u {
                    Some(p) => {
                        let j = choose|j: int|
                            0 <= j < self.cuckatoo_u_newest_node_connections.view().len() && (
                            #[trigger] self.cuckatoo_u_newest_node_connections.view()[j]).0 == u
                                && self.cuckatoo_u_newest_node_connections.view()[j].1 == p;
                        assert(p < arena@.len() && p % 2 == 0);
                    },
                    None => {},
                }
            }
            arena.push(
                CuckatooNodeConnectionsLink {
                    previous_node_connection_link: prev_u,
                    node: u,
                    edge_index: index,
                },
            );
            let prev_v = self.cuckatoo_v_newest_node_connections.get(v);
            proof {
                match prev_v {
                    Some(p) => {
                        let j = choose|j: int|
                            0 <= j < self.cuckatoo_v_newest_node_connections.view().len() && (
                            #[trigger] self.cuckatoo_v_newest_node_connections.view()[j]).0 == v
                                && self.cuckatoo_v_newest_node_connections.view()[j].1 == p;
                        assert(p < arena@.len() && p % 2 == 1);
                    },
                    None => {},
                }
            }
            arena.push(
                CuckatooNodeConnectionsLink {
                    previous_node_connection_link: prev_v,
                    node: v,
                    edge_index: index,
                },
            );
            let ghost u_heads_pre = self.cuckatoo_u_newest_node_connections.view();
            let _ = self.cuckatoo_u_newest_node_connections.replace(u, ju);
            proof {
                assert forall|j: int|
                    0 <= j < self.cuckatoo_u_newest_node_connections.view().len() implies (0 <= (
                #[trigger] self.cuckatoo_u_newest_node_connections.view()[j]).1 < arena@.len()
                    && self.cuckatoo_u_newest_node_connections.view()[j].1 % 2 == 0) by {
                    if j < u_heads_pre.len() {
                        if self.cuckatoo_u_newest_node_connections.view()[j] == u_heads_pre[j] {
                            assert(0 <= u_heads_pre[j].1 < arena@.len() - 2);
                        }
                    } else {
                        assert(self.cuckatoo_u_newest_node_connections.view()[j] == (u, ju));
                    }
                }
            }
            let ghost v_heads_pre = self.cuckatoo_v_newest_node_connections.view();
            let _ = self.cuckatoo_v_newest_node_connections.replace(v, ju + 1);
            proof {
                assert forall|j: int|
                    0 <= j < self.cuckatoo_v_newest_node_connections.view().len() implies (0 <= (
                #[trigger] self.cuckatoo_v_newest_node_connections.view()[j]).1 < arena@.len()
                    && self.cuckatoo_v_newest_node_connections.view()[j].1 % 2 == 1) by {
                    if j < v_heads_pre.len() {
                        if self.cuckatoo_v_newest_node_connections.view()[j] == v_heads_pre[j] {
                            assert(0 <= v_heads_pre[j].1 < arena@.len() - 2);
                        }
                    } else {
                        assert(self.cuckatoo_v_newest_node_connections.view()[j] == (
                            v,
                            (ju + 1) as usize,
                        ));
                    }
                }
            }
            if self.cuckatoo_u_newest_node_connections.contains(u ^ 1)
                && self.cuckatoo_v_newest_node_connections.contains(v ^ 1) {
                self.cuckatoo_u_visited_node_pairs.clear();
                self.cuckatoo_v_visited_node_pairs.clear();
                let mut cycle_size: u8 = 1;
                let mut current_node: u32 = u;
                let mut current_index: u32 = index;
                loop
                    invariant_except_break
                        1 <= cycle_size <= 41,
                        cycle_size % 2 == 1,
                        !pairs_has(
                            self.cuckatoo_u_visited_node_pairs.view(),
                            (current_node >> 1) as u64,
                        ),
                    invariant
                        solution@ == old(solution)@,
                        num == number_of_edges,
                        3 * num <= elen,
                        elen == edges@.len(),
                        wf_arena(arena@),
                        self.heads_fit(arena@),
                    decreases 42 - cycle_size,
                {
                    self.cuckatoo_u_visited_node_pairs.set_unique(
                        (current_node >> 1) as u64,
                        current_index,
                    );
                    let head = self.cuckatoo_u_newest_node_connections.get(current_node ^ 1);
                    match head {
                        None => {
                            break ;
                        },
                        Some(h) => {
                            proof {
                                let j = choose|j: int|
                                    0 <= j < self.cuckatoo_u_newest_node_connections.view().len()
                                        && (
                                    #[trigger] self.cuckatoo_u_newest_node_connections.view()[j]).0
                                        == (current_node ^ 1)
                                        && self.cuckatoo_u_newest_node_connections.view()[j].1
                                        == h;
                                assert(h < arena@.len() && h % 2 == 0);
                            }
                            if arena[h].previous_node_connection_link.is_some() {
                                let mut cur: usize = h;
                                loop
                                    invariant
                                        cur < arena@.len(),
                                        cur % 2 == 0,
                                        solution@ == old(solution)@,
                                        num == number_of_edges,
                                        3 * num <= elen,
                                        elen == edges@.len(),
                                        wf_arena(arena@),
                                        self.heads_fit(arena@),
                                        1 <= cycle_size <= 41,
                                    decreases cur,
                                {
                                    let m_other = arena[cur + 1].node;
                                    let m_edge = arena[cur].edge_index;
                                    if !self.cuckatoo_v_visited_node_pairs.contains(
                                        (m_other >> 1) as u64,
                                    ) {
                                        if (m_other ^ 1) == self.cuckatoo_root_node {
                                            if cycle_size == 41 {
                                                let mut candidate = blank_solution();
                                                self.fill_solution(&mut candidate, m_edge, true);
                                                sort_u32(&mut candidate);
                                                if check_triple_solution(
                                                    &candidate,
                                                    edges,
                                                    number_of_edges,
                                                ) {
                                                    *solution = candidate;
                                                    *node_connections = arena;
                                                    return true;
                                                }
                                                break ;
                                            }
                                        } else if cycle_size != 41 {
                                            if self.cuckatoo_v_newest_node_connections.contains(
                                                m_other ^ 1,
                                            ) {
                                                proof {
                                                    assert(((m_other ^ 1) >> 1) as u64 == ((m_other
                                                        >> 1) as u64)) by (bit_vector);
                                                }
                                                if self.search_node_connections_for_cuckatoo_solution_second_partition(
                                                    cycle_size + 1,
                                                    m_other ^ 1,
                                                    m_edge,
                                                    &arena,
                                                ) {
                                                    let mut candidate = blank_solution();
                                                    self.fill_solution(&mut candidate, 0, false);
                                                    sort_u32(&mut candidate);
                                                    if check_triple_solution(
                                                        &candidate,
                                                        edges,
                                                        number_of_edges,
                                                    ) {
                                                        *solution = candidate;
                                                        *node_connections = arena;
                                                        return true;
                                                    }
                                                    break ;
                                                }
                                            }
                                        }
                                    }
                                    match arena[cur].previous_node_connection_link {
                                        Some(p) => {
                                            cur = p;
                                        },
                                        None => {
                                            break ;
                                        },
                                    }
                                }
                                break ;
                            } else {
                                current_index = arena[h].edge_index;
                                current_node = arena[h + 1].node;
                                if self.cuckatoo_v_visited_node_pairs.contains(
                                    (current_node >> 1) as u64,
                                ) {
                                    break ;
                                }
                                if (current_node ^ 1) == self.cuckatoo_root_node {
                                    if cycle_size == 41 {
                                        let mut candidate = blank_solution();
                                        self.fill_solution(&mut candidate, current_index, true);
                                        sort_u32(&mut candidate);
                                        if check_triple_solution(
                                            &candidate,
                                            edges,
                                            number_of_edges,
                                        ) {
                                            *solution = candidate;
                                            *node_connections = arena;
                                            return true;
                                        }
                                    }
                                    break ;
                                }
                                if cycle_size == 41 {
                                    break ;
                                }
                                if !self.cuckatoo_v_newest_node_connections.contains(
                                    current_node ^ 1,
                                ) {
                                    break ;
                                }
                                self.cuckatoo_v_visited_node_pairs.set_unique(
                                    (current_node >> 1) as u64,
                                    current_index,
                                );
                                let head2 = self.cuckatoo_v_newest_node_connections.get(
                                    current_node ^ 1,
                                );
                                match head2 {
                                    None => {
                                        break ;
                                    },
                                    Some(h2) => {
                                        proof {
                                            let j = choose|j: int|
                                                0 <= j
                                                    < self.cuckatoo_v_newest_node_connections.view().len()
                                                    && (
                                                #[trigger] self.cuckatoo_v_newest_node_connections.view()[j]).0
                                                    == (current_node ^ 1)
                                                    && self.cuckatoo_v_newest_node_connections.view()[j].1
                                                    == h2;
                                            assert(h2 < arena@.len() && h2 % 2 == 1);
                                        }
                                        if arena[h2].previous_node_connection_link.is_some() {
                                            let mut cur: usize = h2;
                                            loop
                                                invariant
                                                    cur < arena@.len(),
                                                    cur % 2 == 1,
                                                    solution@ == old(solution)@,
                                                    num == number_of_edges,
                                                    3 * num <= elen,
                                                    elen == edges@.len(),
                                                    wf_arena(arena@),
                                                    self.heads_fit(arena@),
                                                    1 <= cycle_size <= 39,
                                                decreases cur,
                                            {
                                                let m_other = arena[cur - 1].node;
                                                let m_edge = arena[cur].edge_index;
                                                if self.cuckatoo_u_newest_node_connections.contains(
                                                    m_other ^ 1,
                                                ) {
                                                    if !self.cuckatoo_u_visited_node_pairs.contains(
                                                        (m_other >> 1) as u64,
                                                    ) {
                                                        proof {
                                                            assert(((m_other ^ 1) >> 1) as u64 == ((
                                                            m_other >> 1) as u64)) by (bit_vector);
                                                        }
                                                        if self.search_node_connections_for_cuckatoo_solution_first_partition(
                                                            cycle_size + 2,
                                                            m_other ^ 1,
                                                            m_edge,
                                                            &arena,
                                                        ) {
                                                            let mut candidate = blank_solution();
                                                            self.fill_solution(
                                                                &mut candidate,
                                                                0,
                                                                false,
                                                            );
                                                            sort_u32(&mut candidate);
                                                            if check_triple_solution(
                                                                &candidate,
                                                                edges,
                                                                number_of_edges,
                                                            ) {
                                                                *solution = candidate;
                                                                *node_connections = arena;
                                                                return true;
                                                            }
                                                            break ;
                                                        }
                                                    }
                                                }
                                                match arena[cur].previous_node_connection_link {
                                                    Some(p) => {
                                                        cur = p;
                                                    },
                                                    None => {
                                                        break ;
                                                    },
                                                }
                                            }
                                            break ;
                                        } else {
                                            current_index = arena[h2].edge_index;
                                            current_node = arena[h2 - 1].node;
                                            if self.cuckatoo_u_visited_node_pairs.contains(
                                                (current_node >> 1) as u64,
                                            ) {
                                                break ;
                                            }
                                            if !self.cuckatoo_u_newest_node_connections.contains(
                                                current_node ^ 1,
                                            ) {
                                                break ;
                                            }
                                            cycle_size += 2;
                                        }
                                    },
                                }
                            }
                        },
                    }
                }
            }
            i += 1;
        }
        *node_connections = arena;
        false
    }
}

} // verus!
