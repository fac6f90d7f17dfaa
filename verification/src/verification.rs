//! Cycle verification: an exact check that 42 edge indices form a
//! single simple 42-cycle in the keyed bipartite graph, a verifier
//! driving the cycle finder, and synthetic graphs for exercising the
//! search.

use vstd::prelude::*;
use crate::hash_cycle_finder::HashCycleFinder;
use crate::trimming::edge_set_has;
use crate::sip::{key_tuple, node_for_nonce, spec_node};
use crate::types::{Edge, Node, SOLUTION_SIZE};
use crate::CuckatooError;

verus! {

/// How many endpoints of the given side, other than `cur`, fall in the
/// same node pair as `p`, among the first `upto` edges.
pub open spec fn spec_pair_match_count(nodes: Seq<u64>, cur: int, p: u64, upto: int) -> int
    decreases upto,
{
    if upto <= 0 {
        0
    } else {
        spec_pair_match_count(nodes, cur, p, upto - 1) + (if upto - 1 != cur && (nodes[upto - 1]
            >> 1) == (p >> 1) {
            1int
        } else {
            0int
        })
    }
}

/// The match count only grows with the range.
proof fn lemma_match_count_mono(nodes: Seq<u64>, cur: int, p: u64, a: int, b: int)
    requires
        0 <= a <= b,
    ensures
        spec_pair_match_count(nodes, cur, p, a) <= spec_pair_match_count(nodes, cur, p, b),
    decreases b,
{
    if b > a {
        lemma_match_count_mono(nodes, cur, p, a, b - 1);
    }
}

/// A matching index contributes to the count past it.
proof fn lemma_match_count_at(nodes: Seq<u64>, cur: int, p: u64, j: int, upto: int)
    requires
        0 <= j < upto,
        j != cur,
        (nodes[j] >> 1) == (p >> 1),
    ensures
        spec_pair_match_count(nodes, cur, p, upto) >= 1 + spec_pair_match_count(nodes, cur, p, j),
    decreases upto,
{
    if upto - 1 > j {
        lemma_match_count_at(nodes, cur, p, j, upto - 1);
    }
}

/// Two distinct matching indices force a count of at least two.
proof fn lemma_two_matches(nodes: Seq<u64>, cur: int, p: u64, j1: int, j2: int)
    requires
        0 <= j1 < j2 < nodes.len(),
        j1 != cur,
        j2 != cur,
        (nodes[j1] >> 1) == (p >> 1),
        (nodes[j2] >> 1) == (p >> 1),
    ensures
        spec_pair_match_count(nodes, cur, p, nodes.len() as int) >= 2,
{
    lemma_match_count_mono(nodes, cur, p, 0, j1);
    lemma_match_count_at(nodes, cur, p, j1, j2);
    lemma_match_count_at(nodes, cur, p, j2, nodes.len() as int);
}

/// The unique index, other than `cur`, whose endpoint shares `p`'s node
/// pair; meaningful when the match count is exactly one.
pub open spec fn spec_the_match(nodes: Seq<u64>, cur: int, p: u64) -> int {
    choose|j: int| 0 <= j < nodes.len() && j != cur && ((nodes[j] >> 1) == (p >> 1))
}

/// The cycle walk: from edge `cur`, match its endpoint's pair on the
/// current side (0 for U, 1 for V) against the other edges. The walk
/// succeeds when it returns to edge 0 having used all 42 edges, closing
/// on the V side.
pub open spec fn spec_walk(
    us: Seq<u64>,
    vs: Seq<u64>,
    cur: int,
    side: int,
    count: int,
    visited: Seq<bool>,
) -> bool
    decreases 42 - count,
{
    let nodes = if side == 1 {
        vs
    } else {
        us
    };
    let p = nodes[cur];
    if count < 0 || count >= 42 {
        false
    } else if spec_pair_match_count(nodes, cur, p, nodes.len() as int) != 1 {
        false
    } else {
        let j = spec_the_match(nodes, cur, p);
        if j == 0 {
            count + 1 == 42 && side == 1
        } else if visited[j] {
            false
        } else if count + 1 >= 42 {
            false
        } else {
            spec_walk(us, vs, j, 1 - side, count + 1, visited.update(j, true))
        }
    }
}

/// A sequence of edge indices in strictly ascending order.
pub open spec fn spec_strictly_ascending(s: Seq<u32>) -> bool {
    forall|a: int, b: int| 0 <= a < b < s.len() ==> s[a] < s[b]
}

/// A strictly ascending sequence grows at least as fast as its
/// positions.
pub proof fn lemma_ascending_floor(s: Seq<u32>, k: int)
    requires
        spec_strictly_ascending(s),
        0 <= k < s.len(),
    ensures
        s[k] >= k,
    decreases k,
{
    if k > 0 {
        lemma_ascending_floor(s, k - 1);
    }
}

/// A well-formed solution: 42 edge indices, strictly ascending, all
/// within the graph.
pub open spec fn spec_solution_well_formed(edge_bits: u32, s: Seq<u32>) -> bool {
    &&& s.len() == 42
    &&& spec_strictly_ascending(s)
    &&& forall|i: int| 0 <= i < s.len() ==> (#[trigger] s[i]) < (1u64 << edge_bits)
}

/// The U endpoints of the solution's edges under the oracle.
pub open spec fn spec_solution_us(k: (u64, u64, u64, u64), edge_bits: u32, s: Seq<u32>) -> Seq<
    u64,
> {
    Seq::new(s.len(), |i: int| spec_node(k, edge_bits, (2 * s[i]) as u64))
}

/// The V endpoints of the solution's edges under the oracle.
pub open spec fn spec_solution_vs(k: (u64, u64, u64, u64), edge_bits: u32, s: Seq<u32>) -> Seq<
    u64,
> {
    Seq::new(s.len(), |i: int| spec_node(k, edge_bits, (2 * s[i] + 1) as u64))
}

/// A valid solution: well formed, and its 42 oracle edges form a single
/// simple 42-cycle under the pair-matching relation.
pub open spec fn spec_is_cycle(k: (u64, u64, u64, u64), edge_bits: u32, s: Seq<u32>) -> bool {
    &&& spec_solution_well_formed(edge_bits, s)
    &&& spec_walk(
        spec_solution_us(k, edge_bits, s),
        spec_solution_vs(k, edge_bits, s),
        0,
        0,
        0,
        Seq::new(s.len(), |i: int| false),
    )
}

/// How many of the first `upto` packed triples `[index, u, v]` carry
/// the given edge index.
pub open spec fn spec_triple_match_count(t: Seq<u32>, idx: u32, upto: int) -> int
    decreases upto,
{
    if upto <= 0 {
        0
    } else {
        spec_triple_match_count(t, idx, upto - 1) + (if t[3 * (upto - 1)] == idx {
            1int
        } else {
            0int
        })
    }
}

/// The triple match count only grows with the range.
proof fn lemma_triple_count_mono(t: Seq<u32>, idx: u32, a: int, b: int)
    requires
        0 <= a <= b,
    ensures
        spec_triple_match_count(t, idx, a) <= spec_triple_match_count(t, idx, b),
    decreases b,
{
    if b > a {
        lemma_triple_count_mono(t, idx, a, b - 1);
    }
}

/// A matching triple contributes to the count past it.
proof fn lemma_triple_count_at(t: Seq<u32>, idx: u32, j: int, upto: int)
    requires
        0 <= j < upto,
        t[3 * j] == idx,
    ensures
        spec_triple_match_count(t, idx, upto) >= 1 + spec_triple_match_count(t, idx, j),
    decreases upto,
{
    if upto - 1 > j {
        lemma_triple_count_at(t, idx, j, upto - 1);
    }
}

/// Two distinct matching triples force a count of at least two.
proof fn lemma_triple_two(t: Seq<u32>, idx: u32, j1: int, j2: int, n: int)
    requires
        0 <= j1 < j2 < n,
        t[3 * j1] == idx,
        t[3 * j2] == idx,
    ensures
        spec_triple_match_count(t, idx, n) >= 2,
{
    lemma_triple_count_mono(t, idx, 0, j1);
    lemma_triple_count_at(t, idx, j1, j2);
    lemma_triple_count_at(t, idx, j2, n);
}

/// An edge index carried by no triple has a zero match count.
pub proof fn lemma_triple_absent(t: Seq<u32>, idx: u32, upto: int)
    requires
        forall|i: int| 0 <= i < upto ==> (#[trigger] t[3 * i]) != idx,
    ensures
        spec_triple_match_count(t, idx, upto) == 0,
    decreases upto,
{
    if upto > 0 {
        lemma_triple_absent(t, idx, upto - 1);
    }
}

/// The unique triple carrying an edge index; meaningful when the match
/// count is exactly one.
pub open spec fn spec_the_triple(t: Seq<u32>, n: int, idx: u32) -> int {
    choose|i: int| 0 <= i < n && (#[trigger] t[3 * i]) == idx
}

/// The U endpoints the packed triples give to the solution's edges.
pub open spec fn spec_triple_us(t: Seq<u32>, n: int, s: Seq<u32>) -> Seq<u64> {
    Seq::new(s.len(), |k: int| t[3 * spec_the_triple(t, n, s[k]) + 1] as u64)
}

/// The V endpoints the packed triples give to the solution's edges.
pub open spec fn spec_triple_vs(t: Seq<u32>, n: int, s: Seq<u32>) -> Seq<u64> {
    Seq::new(s.len(), |k: int| t[3 * spec_the_triple(t, n, s[k]) + 2] as u64)
}

/// A valid solution against a packed survivor stream: 42 strictly
/// ascending edge indices, each carried by exactly one of the first `n`
/// triples, whose endpoints admit the pair-matching 42-cycle walk.
pub open spec fn spec_is_triple_cycle(t: Seq<u32>, n: int, s: Seq<u32>) -> bool {
    &&& s.len() == 42
    &&& spec_strictly_ascending(s)
    &&& forall|k: int|
        0 <= k < s.len() ==> spec_triple_match_count(t, #[trigger] s[k], n) == 1
    &&& spec_walk(
        spec_triple_us(t, n, s),
        spec_triple_vs(t, n, s),
        0,
        0,
        0,
        Seq::new(s.len(), |i: int| false),
    )
}

/// Find the unique triple carrying the given edge index, if there is
/// exactly one among the first `number_of_edges` triples.
fn find_unique_triple(edges: &[u32], number_of_edges: u64, idx: u32) -> (r: Option<usize>)
    requires
        3 * number_of_edges <= edges@.len(),
    ensures
        r is Some <==> spec_triple_match_count(edges@, idx, number_of_edges as int) == 1,
        r matches Some(i) ==> (i < number_of_edges && edges@[3 * i] == idx && i
            == spec_the_triple(edges@, number_of_edges as int, idx)),
{
    let elen = edges.len();
    proof {
        assert(number_of_edges <= usize::MAX as u64);
    }
    let num = number_of_edges as usize;
    let mut cnt: usize = 0;
    let mut first: usize = 0;
    let mut t: usize = 0;
    while t < num
        invariant
            t <= num,
            num == number_of_edges,
            elen == edges@.len(),
            3 * num <= elen,
            cnt == spec_triple_match_count(edges@, idx, t as int),
            cnt <= t,
            cnt > 0 ==> (first < t && edges@[3 * first] == idx),
        decreases num - t,
    {
        proof {
            assert(3 * (t as int) + 2 < edges@.len());
        }
        if *vstd::slice::slice_index_get(edges, 3 * t) == idx {
            if cnt == 0 {
                first = t;
            }
            cnt += 1;
        }
        t += 1;
    }
    if cnt == 1 {
        proof {
            let m = spec_the_triple(edges@, number_of_edges as int, idx);
            assert(0 <= m < number_of_edges && edges@[3 * m] == idx);
            if m != first as int {
                if m < first as int {
                    lemma_triple_two(edges@, idx, m, first as int, number_of_edges as int);
                } else {
                    lemma_triple_two(edges@, idx, first as int, m, number_of_edges as int);
                }
            }
        }
        Some(first)
    } else {
        None
    }
}

/// Run the pair-matching walk over the endpoint sequences of a 42-edge
/// candidate.
fn run_walk(us: &Vec<u64>, vs: &Vec<u64>) -> (r: bool)
    requires
        us@.len() == SOLUTION_SIZE,
        vs@.len() == SOLUTION_SIZE,
    ensures
        r == spec_walk(us@, vs@, 0, 0, 0, Seq::new(SOLUTION_SIZE as nat, |i: int| false)),
{
    let mut visited: Vec<bool> = Vec::new();
    let mut i: usize = 0;
    while i < SOLUTION_SIZE
        invariant
            i <= SOLUTION_SIZE,
            visited@.len() == i,
            forall|a: int| 0 <= a < i ==> !visited@[a],
        decreases SOLUTION_SIZE - i,
    {
        visited.push(false);
        i += 1;
    }
    proof {
        assert(visited@ =~= Seq::new(SOLUTION_SIZE as nat, |i: int| false));
    }
    let ghost goal = spec_walk(us@, vs@, 0, 0, 0, visited@);
    let mut cur: usize = 0;
    let mut side: u8 = 0;
    let mut count: u8 = 0;
    loop
        invariant
            us@.len() == SOLUTION_SIZE,
            vs@.len() == SOLUTION_SIZE,
            visited@.len() == SOLUTION_SIZE,
            cur < SOLUTION_SIZE,
            side <= 1,
            count < 42,
            goal == spec_walk(us@, vs@, cur as int, side as int, count as int, visited@),
            goal == spec_walk(us@, vs@, 0, 0, 0, Seq::new(SOLUTION_SIZE as nat, |i: int| false)),
        decreases 42 - count,
    {
        let nodes: &Vec<u64> = if side == 1 {
            vs
        } else {
            us
        };
        let p = nodes[cur];
        match find_unique_match(nodes, cur, p) {
            None => {
                assert(!goal);
                return false;
            },
            Some(j) => {
                if j == 0 {
                    let ok = count + 1 == 42 && side == 1;
                    assert(goal == ok);
                    return ok;
                }
                if visited[j] {
                    assert(!goal);
                    return false;
                }
                if count + 1 >= 42 {
                    assert(!goal);
                    return false;
                }
                visited.set(j, true);
                cur = j;
                side = 1 - side;
                count = count + 1;
            },
        }
    }
}

/// Check that a proposed solution is a valid 42-cycle of a packed
/// survivor stream: the endpoints are taken from the triples themselves.
pub fn check_triple_solution(solution: &Vec<u32>, edges: &[u32], number_of_edges: u64) -> (r: bool)
    requires
        3 * number_of_edges <= edges@.len(),
    ensures
        r == spec_is_triple_cycle(edges@, number_of_edges as int, solution@),
{
    let ghost n = number_of_edges as int;
    let elen = edges.len();
    if solution.len() != SOLUTION_SIZE {
        return false;
    }
    let mut i: usize = 0;
    while i < SOLUTION_SIZE - 1
        invariant
            solution@.len() == SOLUTION_SIZE,
            i <= SOLUTION_SIZE - 1,
            forall|a: int, b: int| 0 <= a < b <= i ==> solution@[a] < solution@[b],
        decreases SOLUTION_SIZE - i,
    {
        if solution[i] >= solution[i + 1] {
            return false;
        }
        i += 1;
    }
    assert(spec_strictly_ascending(solution@));
    let mut us: Vec<u64> = Vec::new();
    let mut vs: Vec<u64> = Vec::new();
    let mut i: usize = 0;
    while i < SOLUTION_SIZE
        invariant
            solution@.len() == SOLUTION_SIZE,
            i <= SOLUTION_SIZE,
            3 * number_of_edges <= edges@.len(),
            elen == edges@.len(),
            n == number_of_edges as int,
            us@.len() == i,
            vs@.len() == i,
            forall|a: int|
                0 <= a < i ==> spec_triple_match_count(edges@, #[trigger] solution@[a], n) == 1,
            forall|a: int| 0 <= a < i ==> us@[a] == spec_triple_us(edges@, n, solution@)[a],
            forall|a: int| 0 <= a < i ==> vs@[a] == spec_triple_vs(edges@, n, solution@)[a],
        decreases SOLUTION_SIZE - i,
    {
        match find_unique_triple(edges, number_of_edges, solution[i]) {
            None => {
                proof {
                    assert(spec_triple_match_count(edges@, solution@[i as int], n) != 1);
                }
                return false;
            },
            Some(tr) => {
                proof {
                    assert(3 * (tr as int) + 2 < edges@.len());
                }
                us.push(*vstd::slice::slice_index_get(edges, 3 * tr + 1) as u64);
                vs.push(*vstd::slice::slice_index_get(edges, 3 * tr + 2) as u64);
            },
        }
        i += 1;
    }
    proof {
        assert(us@ =~= spec_triple_us(edges@, n, solution@));
        assert(vs@ =~= spec_triple_vs(edges@, n, solution@));
    }
    let ok = run_walk(&us, &vs);
    proof {
        assert(Seq::new(SOLUTION_SIZE as nat, |i: int| false) =~= Seq::new(
            solution@.len(),
            |i: int| false,
        ));
    }
    ok
}

/// Find the unique pair match for edge `cur`'s endpoint among the given
/// side's endpoints, if there is exactly one.
fn find_unique_match(nodes: &Vec<u64>, cur: usize, p: u64) -> (r: Option<usize>)
    requires
        cur < nodes@.len(),
    ensures
        r is Some <==> spec_pair_match_count(nodes@, cur as int, p, nodes@.len() as int) == 1,
        r matches Some(j) ==> (j < nodes@.len() && j != cur && ((nodes@[j as int] >> 1) == (p
            >> 1)) && j == spec_the_match(nodes@, cur as int, p)),
{
    let n = nodes.len();
    let mut cnt: usize = 0;
    let mut first: usize = 0;
    let mut t: usize = 0;
    while t < n
        invariant
            t <= n,
            n == nodes@.len(),
            cur < n,
            cnt == spec_pair_match_count(nodes@, cur as int, p, t as int),
            cnt <= t,
            cnt > 0 ==> (first < t && first != cur && ((nodes@[first as int] >> 1) == (p >> 1))),
        decreases n - t,
    {
        if t != cur && (nodes[t] >> 1) == (p >> 1) {
            if cnt == 0 {
                first = t;
            }
            cnt += 1;
        }
        t += 1;
    }
    if cnt == 1 {
        proof {
            let m = spec_the_match(nodes@, cur as int, p);
            assert(0 <= m < nodes@.len() && m != cur && ((nodes@[m] >> 1) == (p >> 1)));
            if m != first as int {
                if m < first as int {
                    lemma_two_matches(nodes@, cur as int, p, m, first as int);
                } else {
                    lemma_two_matches(nodes@, cur as int, p, first as int, m);
                }
            }
        }
        Some(first)
    } else {
        None
    }
}

/// Check that a proposed solution is a valid 42-cycle under the oracle
/// with the given keys.
pub fn check_solution(keys: &[u64; 4], edge_bits: u32, solution: &Vec<u32>) -> (r: bool)
    requires
        10 <= edge_bits <= 32,
    ensures
        r == spec_is_cycle(key_tuple(keys@), edge_bits, solution@),
{
    let ghost k = key_tuple(keys@);
    if solution.len() != SOLUTION_SIZE {
        return false;
    }
    let mut i: usize = 0;
    while i < SOLUTION_SIZE - 1
        invariant
            solution@.len() == SOLUTION_SIZE,
            i <= SOLUTION_SIZE - 1,
            forall|a: int, b: int| 0 <= a < b <= i ==> solution@[a] < solution@[b],
        decreases SOLUTION_SIZE - i,
    {
        if solution[i] >= solution[i + 1] {
            return false;
        }
        i += 1;
    }
    assert(1u64 << edge_bits >= 1) by (bit_vector)
        requires
            edge_bits <= 32,
    ;
    let bound: u64 = 1u64 << edge_bits;
    let mut i: usize = 0;
    while i < SOLUTION_SIZE
        invariant
            solution@.len() == SOLUTION_SIZE,
            i <= SOLUTION_SIZE,
            bound == (1u64 << edge_bits),
            forall|a: int| 0 <= a < i ==> (#[trigger] solution@[a]) < (1u64 << edge_bits),
        decreases SOLUTION_SIZE - i,
    {
        if solution[i] as u64 >= bound {
            return false;
        }
        i += 1;
    }
    assert(spec_solution_well_formed(edge_bits, solution@));
    let mut us: Vec<u64> = Vec::new();
    let mut vs: Vec<u64> = Vec::new();
    let mut i: usize = 0;
    while i < SOLUTION_SIZE
        invariant
            solution@.len() == SOLUTION_SIZE,
            i <= SOLUTION_SIZE,
            10 <= edge_bits <= 32,
            k == key_tuple(keys@),
            us@.len() == i,
            vs@.len() == i,
            forall|a: int| 0 <= a < i ==> us@[a] == spec_solution_us(k, edge_bits, solution@)[a],
            forall|a: int| 0 <= a < i ==> vs@[a] == spec_solution_vs(k, edge_bits, solution@)[a],
        decreases SOLUTION_SIZE - i,
    {
        let e = solution[i] as u64;
        us.push(node_for_nonce(keys, edge_bits, 2 * e));
        vs.push(node_for_nonce(keys, edge_bits, 2 * e + 1));
        i += 1;
    }
    proof {
        assert(us@ =~= spec_solution_us(k, edge_bits, solution@));
        assert(vs@ =~= spec_solution_vs(k, edge_bits, solution@));
    }
    let ok = run_walk(&us, &vs);
    proof {
        assert(Seq::new(SOLUTION_SIZE as nat, |i: int| false) =~= Seq::new(
            solution@.len(),
            |i: int| false,
        ));
    }
    ok
}

/// Shared endpoint count of two edges.
pub open spec fn spec_shared_count(a: Edge, b: Edge) -> int {
    (if a.u == b.u {
        1int
    } else {
        0int
    }) + (if a.u == b.v {
        1int
    } else {
        0int
    }) + (if a.v == b.u {
        1int
    } else {
        0int
    }) + (if a.v == b.v {
        1int
    } else {
        0int
    })
}

/// An edge occurs in a slice of edges.
pub open spec fn spec_edge_in(all: Seq<Edge>, e: Edge) -> bool {
    exists|i: int| 0 <= i < all.len() && all[i] == e
}

/// Cycle verifier driving the hash-chain cycle finder.
pub struct CycleVerifier {}

impl CycleVerifier {
    /// Create a new cycle verifier.
    pub fn new() -> (r: Self) {
        Self {  }
    }

    /// Find a 42-cycle in the given edges.
    pub fn find_42_cycle(&mut self, edges: &[Edge]) -> (r: Result<
        Option<Vec<Edge>>,
        CuckatooError,
    >)
        requires
            edges@.len() < 0x40000000,
        ensures
            r is Ok,
            edges@.len() < SOLUTION_SIZE ==> (r matches Ok(o) && o is None),
            r matches Ok(Some(sol)) ==> (sol@.len() == SOLUTION_SIZE && (forall|k: int|
                0 <= k < sol@.len() ==> edge_set_has(edges@, #[trigger] sol@[k]))),
    {
        self.verify_cycle(edges)
    }

    /// Verify whether the edges contain a 42-cycle, returning the
    /// cycle's edges if the search closes one; every returned edge is
    /// drawn from the input.
    pub fn verify_cycle(&mut self, edges: &[Edge]) -> (r: Result<Option<Vec<Edge>>, CuckatooError>)
        requires
            edges@.len() < 0x40000000,
        ensures
            r is Ok,
            edges@.len() < SOLUTION_SIZE ==> (r matches Ok(o) && o is None),
            r matches Ok(Some(sol)) ==> (sol@.len() == SOLUTION_SIZE && (forall|k: int|
                0 <= k < sol@.len() ==> edge_set_has(edges@, #[trigger] sol@[k]))),
    {
        if edges.len() < SOLUTION_SIZE {
            return Ok(None);
        }
        let mut finder = HashCycleFinder::new();
        match finder.find_cycle(edges)? {
            Some(solution_indices) => {
                let mut solution_edges: Vec<Edge> = Vec::new();
                let n = solution_indices.len();
                let mut t: usize = 0;
                while t < n
                    invariant
                        t <= n,
                        n == solution_indices@.len(),
                        n == SOLUTION_SIZE,
                        forall|k: int|
                            0 <= k < n ==> (#[trigger] solution_indices@[k]) < edges@.len(),
                        solution_edges@.len() == t,
                        forall|a: int|
                            0 <= a < t ==> (#[trigger] solution_edges@[a])
                                == edges@[solution_indices@[a] as int],
                    decreases n - t,
                {
                    let idx = solution_indices[t];
                    solution_edges.push(*vstd::slice::slice_index_get(edges, idx));
                    t += 1;
                }
                proof {
                    assert forall|k: int|
                        0 <= k < solution_edges@.len() implies edge_set_has(
                        edges@,
                        #[trigger] solution_edges@[k],
                    ) by {
                        assert(edges@[solution_indices@[k] as int] == solution_edges@[k]);
                    }
                }
                Ok(Some(solution_edges))
            },
            None => Ok(None),
        }
    }

    /// Whether two edges share exactly one endpoint.
    fn edges_are_properly_connected(&self, edge1: Edge, edge2: Edge) -> (r: bool)
        ensures
            r == (spec_shared_count(edge1, edge2) == 1),
    {
        let shares_u_u: u8 = if edge1.u == edge2.u {
            1
        } else {
            0
        };
        let shares_u_v: u8 = if edge1.u == edge2.v {
            1
        } else {
            0
        };
        let shares_v_u: u8 = if edge1.v == edge2.u {
            1
        } else {
            0
        };
        let shares_v_v: u8 = if edge1.v == edge2.v {
            1
        } else {
            0
        };
        shares_u_u + shares_u_v + shares_v_u + shares_v_v == 1
    }

    /// Verify that the given cycle consists of edges from the edge set,
    /// consecutively connected, wrapping around.
    pub fn verify_specific_cycle(&self, cycle_edges: &[Edge], all_edges: &[Edge]) -> (r: bool)
        ensures
            r == (cycle_edges@.len() >= 3 && (forall|i: int|
                0 <= i < cycle_edges@.len() ==> spec_edge_in(
                    all_edges@,
                    #[trigger] cycle_edges@[i],
                )) && (forall|i: int|
                0 <= i < cycle_edges@.len() ==> spec_shared_count(
                    #[trigger] cycle_edges@[i],
                    cycle_edges@[(i + 1) % (cycle_edges@.len() as int)],
                ) == 1)),
    {
        let n = cycle_edges.len();
        if n < 3 {
            return false;
        }
        let mut i: usize = 0;
        while i < n
            invariant
                i <= n,
                n == cycle_edges@.len(),
                forall|a: int| 0 <= a < i ==> spec_edge_in(all_edges@, #[trigger] cycle_edges@[a]),
            decreases n - i,
        {
            let e = *vstd::slice::slice_index_get(cycle_edges, i);
            let m = all_edges.len();
            let mut found = false;
            let mut t: usize = 0;
            while t < m
                invariant
                    t <= m,
                    m == all_edges@.len(),
                    found == (exists|b: int| 0 <= b < t && all_edges@[b] == e),
                decreases m - t,
            {
                if *vstd::slice::slice_index_get(all_edges, t) == e {
                    found = true;
                }
                t += 1;
            }
            if !found {
                return false;
            }
            i += 1;
        }
        let mut i: usize = 0;
        while i < n
            invariant
                i <= n,
                3 <= n == cycle_edges@.len(),
                forall|a: int| 0 <= a < n ==> spec_edge_in(all_edges@, #[trigger] cycle_edges@[a]),
                forall|a: int|
                    0 <= a < i ==> spec_shared_count(
                        #[trigger] cycle_edges@[a],
                        cycle_edges@[(a + 1) % (n as int)],
                    ) == 1,
            decreases n - i,
        {
            let current_edge = *vstd::slice::slice_index_get(cycle_edges, i);
            let next_edge = *vstd::slice::slice_index_get(cycle_edges, (i + 1) % n);
            if !self.edges_are_properly_connected(current_edge, next_edge) {
                return false;
            }
            i += 1;
        }
        true
    }

    /// Check that all consecutive edges of a cycle share exactly one
    /// endpoint.
    pub fn check_incident_edges(&self, cycle_edges: &[Edge]) -> (r: bool)
        ensures
            r == (cycle_edges@.len() >= 2 && (forall|i: int|
                0 <= i < cycle_edges@.len() ==> spec_shared_count(
                    #[trigger] cycle_edges@[i],
                    cycle_edges@[(i + 1) % (cycle_edges@.len() as int)],
                ) == 1)),
    {
        let n = cycle_edges.len();
        if n < 2 {
            return false;
        }
        let mut all_incident = true;
        let mut i: usize = 0;
        while i < n
            invariant
                i <= n,
                2 <= n == cycle_edges@.len(),
                all_incident == (forall|a: int|
                    0 <= a < i ==> spec_shared_count(
                        #[trigger] cycle_edges@[a],
                        cycle_edges@[(a + 1) % (n as int)],
                    ) == 1),
            decreases n - i,
        {
            let current_edge = *vstd::slice::slice_index_get(cycle_edges, i);
            let next_edge = *vstd::slice::slice_index_get(cycle_edges, (i + 1) % n);
            if !self.edges_are_properly_connected(current_edge, next_edge) {
                all_incident = false;
            }
            i += 1;
        }
        all_incident
    }
}

impl Default for CycleVerifier {
    /// A fresh cycle verifier.
    fn default() -> (r: Self) {
        Self::new()
    }
}

/// A synthetic graph holding a known 42-cycle: edge `i` joins node `i`
/// to node `i + 1` modulo 42.
pub fn create_synthetic_42_cycle_graph() -> (r: Vec<Edge>)
    ensures
        r@.len() == 42,
        forall|i: int|
            0 <= i < 42 ==> #[trigger] r@[i] == (Edge {
                u: Node(i as u64),
                v: Node(((i + 1) % 42) as u64),
            }),
{
    let mut edges: Vec<Edge> = Vec::new();
    let mut i: u64 = 0;
    while i < 42
        invariant
            i <= 42,
            edges@.len() == i,
            forall|a: int|
                0 <= a < i ==> #[trigger] edges@[a] == (Edge {
                    u: Node(a as u64),
                    v: Node(((a + 1) % 42) as u64),
                }),
        decreases 42 - i,
    {
        edges.push(Edge { u: Node(i), v: Node((i + 1) % 42) });
        i += 1;
    }
    edges
}

/// A synthetic graph of ten disjoint 3-cycles: edge `t` leaves node `t`
/// and enters the next node of its group of three.
pub fn create_synthetic_small_cycles_graph() -> (r: Vec<Edge>)
    ensures
        r@.len() == 30,
        forall|t: int|
            0 <= t < 30 ==> #[trigger] r@[t] == (Edge {
                u: Node(t as u64),
                v: Node((3 * (t / 3) + (t % 3 + 1) % 3) as u64),
            }),
{
    let mut edges: Vec<Edge> = Vec::new();
    let mut i: u64 = 0;
    while i < 10
        invariant
            i <= 10,
            edges@.len() == 3 * i,
            forall|t: int|
                0 <= t < 3 * i ==> #[trigger] edges@[t] == (Edge {
                    u: Node(t as u64),
                    v: Node((3 * (t / 3) + (t % 3 + 1) % 3) as u64),
                }),
        decreases 10 - i,
    {
        let base = i * 3;
        edges.push(Edge { u: Node(base), v: Node(base + 1) });
        edges.push(Edge { u: Node(base + 1), v: Node(base + 2) });
        edges.push(Edge { u: Node(base + 2), v: Node(base) });
        proof {
            assert forall|t: int|
                0 <= t < 3 * (i + 1) implies #[trigger] edges@[t] == (Edge {
                u: Node(t as u64),
                v: Node((3 * (t / 3) + (t % 3 + 1) % 3) as u64),
            }) by {
                if t >= 3 * i as int {
                    assert(t / 3 == i as int && t % 3 == t - 3 * (i as int)) by (nonlinear_arith)
                        requires
                            3 * (i as int) <= t < 3 * (i as int) + 3,
                    ;
                }
            }
        }
        i += 1;
    }
    edges
}

/// A synthetic binary-tree graph with no cycles: 39 edges on 40 nodes,
/// edge `j` joining node `j / 2` to its child `j + 1`.
pub fn create_synthetic_tree_graph() -> (r: Vec<Edge>)
    ensures
        r@.len() == 39,
        forall|j: int|
            0 <= j < 39 ==> #[trigger] r@[j] == (Edge {
                u: Node((j / 2) as u64),
                v: Node((j + 1) as u64),
            }),
{
    let mut edges: Vec<Edge> = Vec::new();
    let mut i: u64 = 0;
    while i < 20
        invariant
            i <= 20,
            edges@.len() == (if i <= 19 {
                2 * i
            } else {
                39int
            }),
            forall|j: int|
                0 <= j < edges@.len() ==> #[trigger] edges@[j] == (Edge {
                    u: Node((j / 2) as u64),
                    v: Node((j + 1) as u64),
                }),
        decreases 20 - i,
    {
        let left_child = 2 * i + 1;
        let right_child = 2 * i + 2;
        if left_child < 40 {
            edges.push(Edge { u: Node(i), v: Node(left_child) });
        }
        if right_child < 40 {
            edges.push(Edge { u: Node(i), v: Node(right_child) });
        }
        proof {
            assert forall|j: int|
                0 <= j < edges@.len() implies #[trigger] edges@[j] == (Edge {
                u: Node((j / 2) as u64),
                v: Node((j + 1) as u64),
            }) by {
                if j >= 2 * i as int {
                    assert(j / 2 == i as int) by (nonlinear_arith)
                        requires
                            2 * (i as int) <= j < 2 * (i as int) + 2,
                    ;
                }
            }
        }
        i += 1;
    }
    edges
}

/// A synthetic simple cycle of the given length, or no edges when the
/// length is below 3: edge `i` joins node `i` to node `i + 1` modulo the
/// length.
pub fn create_synthetic_cycle_graph(cycle_length: usize) -> (r: Vec<Edge>)
    requires
        cycle_length < 0x10000000,
    ensures
        cycle_length < 3 ==> r@.len() == 0,
        cycle_length >= 3 ==> r@.len() == cycle_length,
        forall|i: int|
            0 <= i < r@.len() ==> #[trigger] r@[i] == (Edge {
                u: Node(i as u64),
                v: Node((((i + 1) as usize % cycle_length) as u64)),
            }),
{
    let mut edges: Vec<Edge> = Vec::new();
    if cycle_length < 3 {
        return edges;
    }
    let mut i: usize = 0;
    while i < cycle_length
        invariant
            3 <= cycle_length < 0x10000000,
            i <= cycle_length,
            edges@.len() == i,
            forall|a: int|
                0 <= a < i ==> #[trigger] edges@[a] == (Edge {
                    u: Node(a as u64),
                    v: Node((((a + 1) as usize % cycle_length) as u64)),
                }),
        decreases cycle_length - i,
    {
        edges.push(Edge { u: Node(i as u64), v: Node(((i + 1) % cycle_length) as u64) });
        i += 1;
    }
    edges
}

} // verus!
