//! Degree-tracking helpers for edge-list trimming: a set of active
//! edges and a per-node degree table.

use vstd::prelude::*;
use crate::types::{Edge, Node};

verus! {

/// Whether an edge occurs in a sequence of edges.
pub open spec fn edge_set_has(s: Seq<Edge>, e: Edge) -> bool {
    exists|i: int| 0 <= i < s.len() && (#[trigger] s[i]) == e
}

/// Whether a node occurs in a sequence of nodes.
pub open spec fn node_set_has(s: Seq<Node>, n: Node) -> bool {
    exists|i: int| 0 <= i < s.len() && (#[trigger] s[i]) == n
}

/// A sequence of edges has no repeats.
pub open spec fn edges_distinct(s: Seq<Edge>) -> bool {
    forall|i: int, j: int| 0 <= i < j < s.len() ==> (#[trigger] s[i]) != (#[trigger] s[j])
}

/// A sequence of nodes has no repeats.
pub open spec fn nodes_distinct(s: Seq<Node>) -> bool {
    forall|i: int, j: int| 0 <= i < j < s.len() ==> (#[trigger] s[i]) != (#[trigger] s[j])
}

/// Membership after a push: the old members plus the pushed edge.
proof fn lemma_edge_push(s: Seq<Edge>, x: Edge, y: Edge)
    ensures
        edge_set_has(s.push(x), y) == (edge_set_has(s, y) || y == x),
{
    if edge_set_has(s.push(x), y) {
        let w = choose|w: int| 0 <= w < s.push(x).len() && (#[trigger] s.push(x)[w]) == y;
        if w < s.len() {
            assert(s[w] == y);
        }
    }
    if edge_set_has(s, y) {
        let w = choose|w: int| 0 <= w < s.len() && (#[trigger] s[w]) == y;
        assert(s.push(x)[w] == y);
    }
    if y == x {
        assert(s.push(x)[s.len() as int] == y);
    }
}

/// Pushing a fresh edge keeps distinctness.
proof fn lemma_edge_distinct_push(s: Seq<Edge>, x: Edge)
    requires
        edges_distinct(s),
        !edge_set_has(s, x),
    ensures
        edges_distinct(s.push(x)),
{
    assert forall|i: int, j: int|
        0 <= i < j < s.push(x).len() implies (#[trigger] s.push(x)[i]) != (
    #[trigger] s.push(x)[j]) by {
        if j < s.len() {
            assert(s.push(x)[i] == s[i] && s.push(x)[j] == s[j]);
        } else {
            assert(s.push(x)[j] == x && s.push(x)[i] == s[i]);
        }
    }
}

/// Removing the only occurrence of an edge removes it and nothing else.
proof fn lemma_edge_remove(s: Seq<Edge>, i: int, y: Edge)
    requires
        edges_distinct(s),
        0 <= i < s.len(),
    ensures
        edge_set_has(s.remove(i), y) == (edge_set_has(s, y) && y != s[i]),
        edges_distinct(s.remove(i)),
{
    if edge_set_has(s.remove(i), y) {
        let w = choose|w: int| 0 <= w < s.remove(i).len() && (#[trigger] s.remove(i)[w]) == y;
        if w < i {
            assert(s[w] == y);
        } else {
            assert(s[w + 1] == y);
        }
    }
    if edge_set_has(s, y) && y != s[i] {
        let w = choose|w: int| 0 <= w < s.len() && (#[trigger] s[w]) == y;
        if w < i {
            assert(s.remove(i)[w] == y);
        } else {
            assert(w != i);
            assert(s.remove(i)[w - 1] == y);
        }
    }
    assert forall|a: int, b: int|
        0 <= a < b < s.remove(i).len() implies (#[trigger] s.remove(i)[a]) != (
    #[trigger] s.remove(i)[b]) by {
        let pa = if a < i {
            a
        } else {
            a + 1
        };
        let pb = if b < i {
            b
        } else {
            b + 1
        };
        assert(s.remove(i)[a] == s[pa] && s.remove(i)[b] == s[pb]);
    }
}

/// Membership after a push: the old members plus the pushed node.
proof fn lemma_node_push(s: Seq<Node>, x: Node, y: Node)
    ensures
        node_set_has(s.push(x), y) == (node_set_has(s, y) || y == x),
{
    if node_set_has(s.push(x), y) {
        let w = choose|w: int| 0 <= w < s.push(x).len() && (#[trigger] s.push(x)[w]) == y;
        if w < s.len() {
            assert(s[w] == y);
        }
    }
    if node_set_has(s, y) {
        let w = choose|w: int| 0 <= w < s.len() && (#[trigger] s[w]) == y;
        assert(s.push(x)[w] == y);
    }
    if y == x {
        assert(s.push(x)[s.len() as int] == y);
    }
}

/// Pushing a fresh node keeps distinctness.
proof fn lemma_node_distinct_push(s: Seq<Node>, x: Node)
    requires
        nodes_distinct(s),
        !node_set_has(s, x),
    ensures
        nodes_distinct(s.push(x)),
{
    assert forall|i: int, j: int|
        0 <= i < j < s.push(x).len() implies (#[trigger] s.push(x)[i]) != (
    #[trigger] s.push(x)[j]) by {
        if j < s.len() {
            assert(s.push(x)[i] == s[i] && s.push(x)[j] == s[j]);
        } else {
            assert(s.push(x)[j] == x && s.push(x)[i] == s[i]);
        }
    }
}

/// Removing the only occurrence of a node removes it and nothing else.
proof fn lemma_node_remove(s: Seq<Node>, i: int, y: Node)
    requires
        nodes_distinct(s),
        0 <= i < s.len(),
    ensures
        node_set_has(s.remove(i), y) == (node_set_has(s, y) && y != s[i]),
        nodes_distinct(s.remove(i)),
{
    if node_set_has(s.remove(i), y) {
        let w = choose|w: int| 0 <= w < s.remove(i).len() && (#[trigger] s.remove(i)[w]) == y;
        if w < i {
            assert(s[w] == y);
        } else {
            assert(s[w + 1] == y);
        }
    }
    if node_set_has(s, y) && y != s[i] {
        let w = choose|w: int| 0 <= w < s.len() && (#[trigger] s[w]) == y;
        if w < i {
            assert(s.remove(i)[w] == y);
        } else {
            assert(w != i);
            assert(s.remove(i)[w - 1] == y);
        }
    }
    assert forall|a: int, b: int|
        0 <= a < b < s.remove(i).len() implies (#[trigger] s.remove(i)[a]) != (
    #[trigger] s.remove(i)[b]) by {
        let pa = if a < i {
            a
        } else {
            a + 1
        };
        let pb = if b < i {
            b
        } else {
            b + 1
        };
        assert(s.remove(i)[a] == s[pa] && s.remove(i)[b] == s[pb]);
    }
}

/// The degree recorded for a node: the sum of the counts stored under
/// its key.
pub open spec fn deg_of(s: Seq<(Node, u32)>, n: Node) -> int
    decreases s.len(),
{
    if s.len() == 0 {
        0
    } else {
        deg_of(s.drop_last(), n) + (if s.last().0 == n {
            s.last().1 as int
        } else {
            0int
        })
    }
}

/// The number of endpoints among the first `upto` edges that equal the
/// node.
pub open spec fn spec_degree(edges: Seq<Edge>, n: Node, upto: int) -> int
    decreases upto,
{
    if upto <= 0 {
        0
    } else {
        spec_degree(edges, n, upto - 1) + (if edges[upto - 1].u == n {
            1int
        } else {
            0int
        }) + (if edges[upto - 1].v == n {
            1int
        } else {
            0int
        })
    }
}

/// An endpoint count is never negative.
proof fn lemma_spec_degree_nonneg(edges: Seq<Edge>, n: Node, upto: int)
    ensures
        spec_degree(edges, n, upto) >= 0,
    decreases upto,
{
    if upto > 0 {
        lemma_spec_degree_nonneg(edges, n, upto - 1);
    }
}

/// The keys of a degree table are distinct.
pub open spec fn keys_distinct(s: Seq<(Node, u32)>) -> bool {
    forall|i: int, j: int| 0 <= i < j < s.len() ==> (#[trigger] s[i]).0 != (#[trigger] s[j]).0
}

/// Replacing the count under one key moves that key's degree by the
/// difference and no other.
proof fn lemma_deg_set(s: Seq<(Node, u32)>, i: int, d2: u32, m: Node)
    requires
        0 <= i < s.len(),
    ensures
        deg_of(s.update(i, (s[i].0, d2)), m) == deg_of(s, m) + (if s[i].0 == m {
            d2 - s[i].1
        } else {
            0int
        }),
    decreases s.len(),
{
    if s.len() > 0 {
        if i == s.len() - 1 {
            assert(s.update(i, (s[i].0, d2)).drop_last() =~= s.drop_last());
        } else {
            assert(s.update(i, (s[i].0, d2)).drop_last() =~= s.drop_last().update(
                i,
                (s[i].0, d2),
            ));
            lemma_deg_set(s.drop_last(), i, d2, m);
        }
    }
}

/// A key that appears nowhere has degree zero.
proof fn lemma_deg_absent(s: Seq<(Node, u32)>, m: Node)
    requires
        forall|i: int| 0 <= i < s.len() ==> (#[trigger] s[i]).0 != m,
    ensures
        deg_of(s, m) == 0,
    decreases s.len(),
{
    if s.len() > 0 {
        lemma_deg_absent(s.drop_last(), m);
    }
}

/// With distinct keys, the degree of a present key is its stored count.
proof fn lemma_deg_lookup(s: Seq<(Node, u32)>, i: int)
    requires
        keys_distinct(s),
        0 <= i < s.len(),
    ensures
        deg_of(s, s[i].0) == s[i].1,
    decreases s.len(),
{
    if i == s.len() - 1 {
        assert(forall|j: int|
            0 <= j < s.drop_last().len() ==> (#[trigger] s.drop_last()[j]).0 != s[i].0);
        lemma_deg_absent(s.drop_last(), s[i].0);
    } else {
        lemma_deg_lookup(s.drop_last(), i);
    }
}

/// Pushing a fresh key adds its count and keeps keys distinct.
proof fn lemma_deg_push(s: Seq<(Node, u32)>, key: Node, d: u32, m: Node)
    requires
        keys_distinct(s),
        forall|i: int| 0 <= i < s.len() ==> (#[trigger] s[i]).0 != key,
    ensures
        deg_of(s.push((key, d)), m) == deg_of(s, m) + (if m == key {
            d as int
        } else {
            0int
        }),
        keys_distinct(s.push((key, d))),
{
    assert(s.push((key, d)).drop_last() =~= s);
    assert forall|i: int, j: int|
        0 <= i < j < s.push((key, d)).len() implies (#[trigger] s.push((key, d))[i]).0 != (
    #[trigger] s.push((key, d))[j]).0 by {
        if j < s.len() {
            assert(s.push((key, d))[i] == s[i] && s.push((key, d))[j] == s[j]);
        } else {
            assert(s.push((key, d))[j].0 == key && s.push((key, d))[i] == s[i]);
        }
    }
}

/// The position of a node's entry in a degree table, if present.
fn find_key_index(m: &Vec<(Node, u32)>, node: Node) -> (r: Option<usize>)
    ensures
        r matches Some(t) ==> (t < m@.len() && m@[t as int].0 == node),
        r is None ==> forall|b: int| 0 <= b < m@.len() ==> (#[trigger] m@[b]).0 != node,
{
    let dlen = m.len();
    let mut t: usize = 0;
    while t < dlen
        invariant
            t <= dlen,
            dlen == m@.len(),
            forall|b: int| 0 <= b < t ==> (#[trigger] m@[b]).0 != node,
        decreases dlen - t,
    {
        if m[t].0 == node {
            return Some(t);
        }
        t += 1;
    }
    None
}

/// Whether a vector of nodes holds the given node.
fn vec_has_node(v: &Vec<Node>, node: Node) -> (r: bool)
    ensures
        r == node_set_has(v@, node),
{
    let n = v.len();
    let mut t: usize = 0;
    while t < n
        invariant
            t <= n,
            n == v@.len(),
            forall|b: int| 0 <= b < t ==> (#[trigger] v@[b]) != node,
        decreases n - t,
    {
        if v[t] == node {
            return true;
        }
        t += 1;
    }
    false
}

/// Set of active edges with the original edge list kept for node
/// queries.
pub struct EdgeBitmap {
    active_edges: Vec<Edge>,
    original_edges: Vec<Edge>,
}

impl EdgeBitmap {
    /// The distinct edges currently active.
    pub closed spec fn actives(&self) -> Seq<Edge> {
        self.active_edges@
    }

    /// The original edge list.
    pub closed spec fn originals(&self) -> Seq<Edge> {
        self.original_edges@
    }

    /// The active edges are distinct.
    pub closed spec fn well_formed(&self) -> bool {
        edges_distinct(self.active_edges@)
    }

    /// Create a new edge bitmap with every listed edge active.
    pub fn new(edges: &[Edge]) -> (r: Self)
        ensures
            r.well_formed(),
            r.originals() == edges@,
            forall|e: Edge| edge_set_has(r.actives(), e) == edge_set_has(edges@, e),
    {
        let n = edges.len();
        let mut active_edges: Vec<Edge> = Vec::new();
        let mut i: usize = 0;
        while i < n
            invariant
                i <= n,
                n == edges@.len(),
                edges_distinct(active_edges@),
                forall|e: Edge|
                    edge_set_has(active_edges@, e) == edge_set_has(edges@.take(i as int), e),
            decreases n - i,
        {
            let e = *vstd::slice::slice_index_get(edges, i);
            let m = active_edges.len();
            let mut seen = false;
            let mut t: usize = 0;
            while t < m
                invariant
                    t <= m,
                    m == active_edges@.len(),
                    seen == (exists|b: int| 0 <= b < t && (#[trigger] active_edges@[b]) == e),
                decreases m - t,
            {
                if active_edges[t] == e {
                    seen = true;
                }
                t += 1;
            }
            let ghost pre = active_edges@;
            proof {
                if seen {
                    assert(edge_set_has(pre, e));
                }
            }
            if !seen {
                active_edges.push(e);
                proof {
                    lemma_edge_distinct_push(pre, e);
                }
            }
            proof {
                assert(edges@.take(i + 1) =~= edges@.take(i as int).push(edges@[i as int]));
                assert forall|x: Edge| edge_set_has(active_edges@, x) == edge_set_has(
                    edges@.take(i + 1),
                    x,
                ) by {
                    if !seen {
                        lemma_edge_push(pre, e, x);
                    }
                    lemma_edge_push(edges@.take(i as int), edges@[i as int], x);
                }
            }
            i += 1;
        }
        proof {
            assert(edges@.take(n as int) =~= edges@);
        }
        Self { active_edges, original_edges: vstd::slice::slice_to_vec(edges) }
    }

    /// Check whether an edge is active.
    pub fn is_edge_active(&self, edge: Edge) -> (r: bool)
        ensures
            r == edge_set_has(self.actives(), edge),
    {
        let m = self.active_edges.len();
        let mut t: usize = 0;
        while t < m
            invariant
                t <= m,
                m == self.active_edges@.len(),
                forall|b: int| 0 <= b < t ==> (#[trigger] self.active_edges@[b]) != edge,
            decreases m - t,
        {
            if self.active_edges[t] == edge {
                return true;
            }
            t += 1;
        }
        false
    }

    /// Remove an edge from the active set.
    pub fn remove_edge(&mut self, edge: Edge)
        requires
            old(self).well_formed(),
        ensures
            final(self).well_formed(),
            final(self).originals() == old(self).originals(),
            forall|e: Edge|
                edge_set_has(final(self).actives(), e) == (edge_set_has(old(self).actives(), e) && e
                    != edge),
    {
        let m = self.active_edges.len();
        let mut t: usize = 0;
        while t < m
            invariant
                t <= m,
                m == self.active_edges@.len(),
                self.active_edges@ == old(self).active_edges@,
                self.original_edges@ == old(self).original_edges@,
                old(self).well_formed(),
                forall|b: int| 0 <= b < t ==> (#[trigger] self.active_edges@[b]) != edge,
            decreases m - t,
        {
            if self.active_edges[t] == edge {
                let ghost pre = self.active_edges@;
                let _ = self.active_edges.remove(t);
                proof {
                    assert forall|e2: Edge|
                        edge_set_has(self.active_edges@, e2) == (edge_set_has(pre, e2) && e2
                            != edge) by {
                        lemma_edge_remove(pre, t as int, e2);
                    }
                    lemma_edge_remove(pre, t as int, edge);
                }
                return ;
            }
            t += 1;
        }
    }

    /// The active edges that touch the given node, in the order of the
    /// original list.
    pub fn get_edges_for_node(&self, node: Node) -> (r: Vec<Edge>)
        ensures
            forall|i: int|
                0 <= i < r@.len() ==> ((#[trigger] r@[i]).u == node || r@[i].v == node)
                    && edge_set_has(self.actives(), r@[i]),
            forall|i: int|
                0 <= i < self.originals().len() && ((#[trigger] self.originals()[i]).u == node
                    || self.originals()[i].v == node) && edge_set_has(
                    self.actives(),
                    self.originals()[i],
                ) ==> edge_set_has(r@, self.originals()[i]),
    {
        let n = self.original_edges.len();
        let mut out: Vec<Edge> = Vec::new();
        let mut i: usize = 0;
        while i < n
            invariant
                i <= n,
                n == self.original_edges@.len(),
                forall|a: int|
                    0 <= a < out@.len() ==> ((#[trigger] out@[a]).u == node || out@[a].v == node)
                        && edge_set_has(self.actives(), out@[a]),
                forall|a: int|
                    0 <= a < i && ((#[trigger] self.originals()[a]).u == node
                        || self.originals()[a].v == node) && edge_set_has(
                        self.actives(),
                        self.originals()[a],
                    ) ==> edge_set_has(out@, self.originals()[a]),
            decreases n - i,
        {
            let e = self.original_edges[i];
            let ghost out_pre = out@;
            let mut pushed = false;
            if e.u == node || e.v == node {
                if self.is_edge_active(e) {
                    out.push(e);
                    pushed = true;
                }
            }
            proof {
                assert forall|a: int|
                    0 <= a < i + 1 && ((#[trigger] self.originals()[a]).u == node
                        || self.originals()[a].v == node) && edge_set_has(
                        self.actives(),
                        self.originals()[a],
                    ) implies edge_set_has(out@, self.originals()[a]) by {
                    if pushed {
                        lemma_edge_push(out_pre, e, self.originals()[a]);
                    }
                    if a == i as int {
                        assert(pushed);
                        assert(out@[out@.len() - 1] == e);
                    }
                }
            }
            i += 1;
        }
        out
    }

    /// The surviving edges, in first-seen order.
    pub fn get_surviving_edges(&self) -> (r: Vec<Edge>)
        ensures
            r@ == self.actives(),
    {
        let m = self.active_edges.len();
        let mut out: Vec<Edge> = Vec::new();
        let mut t: usize = 0;
        while t < m
            invariant
                t <= m,
                m == self.active_edges@.len(),
                out@ =~= self.active_edges@.take(t as int),
            decreases m - t,
        {
            out.push(self.active_edges[t]);
            t += 1;
        }
        proof {
            assert(self.active_edges@.take(m as int) =~= self.active_edges@);
        }
        out
    }

    /// The number of distinct active edges.
    pub fn active_count(&self) -> (r: usize)
        ensures
            r == self.actives().len(),
    {
        self.active_edges.len()
    }
}

/// Per-node degree table with an active-node set.
pub struct NodeBitmap {
    node_degrees: Vec<(Node, u32)>,
    active_nodes: Vec<Node>,
}

impl NodeBitmap {
    /// The degree table.
    pub closed spec fn degrees(&self) -> Seq<(Node, u32)> {
        self.node_degrees@
    }

    /// The active nodes.
    pub closed spec fn actives(&self) -> Seq<Node> {
        self.active_nodes@
    }

    /// Keys and active nodes are distinct.
    pub closed spec fn well_formed(&self) -> bool {
        &&& keys_distinct(self.node_degrees@)
        &&& nodes_distinct(self.active_nodes@)
    }

    /// Count every endpoint of every edge, and activate the touched
    /// nodes.
    pub fn new(edges: &[Edge]) -> (r: Self)
        requires
            edges@.len() < 0x40000000,
        ensures
            r.well_formed(),
            forall|n: Node| deg_of(r.degrees(), n) == spec_degree(edges@, n, edges@.len() as int),
            forall|n: Node|
                node_set_has(r.actives(), n) == (spec_degree(edges@, n, edges@.len() as int) > 0),
    {
        let n = edges.len();
        let mut table = Self { node_degrees: Vec::new(), active_nodes: Vec::new() };
        let mut i: usize = 0;
        while i < n
            invariant
                i <= n,
                n == edges@.len(),
                n < 0x40000000,
                table.well_formed(),
                forall|m: Node| deg_of(table.degrees(), m) == spec_degree(edges@, m, i as int),
                forall|m: Node| deg_of(table.degrees(), m) <= 2 * i,
                forall|m: Node|
                    node_set_has(table.actives(), m) == (spec_degree(edges@, m, i as int) > 0),
            decreases n - i,
        {
            let e = *vstd::slice::slice_index_get(edges, i);
            table.bump(e.u, 2 * (i as u64));
            table.bump(e.v, 2 * (i as u64) + 1);
            proof {
                assert forall|m: Node| deg_of(table.degrees(), m) == spec_degree(
                    edges@,
                    m,
                    i + 1,
                ) by {}
                assert forall|m: Node| node_set_has(table.actives(), m) == (spec_degree(
                    edges@,
                    m,
                    i + 1,
                ) > 0) by {
                    lemma_spec_degree_nonneg(edges@, m, i as int);
                    assert(spec_degree(edges@, m, i + 1) == spec_degree(edges@, m, i as int) + (if
                        edges@[i as int].u == m {
                        1int
                    } else {
                        0int
                    }) + (if edges@[i as int].v == m {
                        1int
                    } else {
                        0int
                    }));
                }
            }
            i += 1;
        }
        table
    }

    /// Add one to a node's degree and activate it; the degree so far
    /// must leave room below the given bound.
    fn bump(&mut self, node: Node, bound: u64)
        requires
            old(self).well_formed(),
            deg_of(old(self).degrees(), node) <= bound,
            bound < 0xffffffff,
        ensures
            final(self).well_formed(),
            forall|m: Node|
                deg_of(final(self).degrees(), m) == deg_of(old(self).degrees(), m) + (if m == node {
                    1int
                } else {
                    0int
                }),
            forall|m: Node|
                node_set_has(final(self).actives(), m) == (node_set_has(old(self).actives(), m) || m
                    == node),
    {
        let slot = find_key_index(&self.node_degrees, node);
        match slot {
        Some(t) => {
            let d = self.node_degrees[t].1;
            proof {
                lemma_deg_lookup(self.node_degrees@, t as int);
            }
            let ghost dpre = self.node_degrees@;
            self.node_degrees.set(t, (node, d + 1));
            proof {
                assert forall|m: Node|
                    deg_of(self.node_degrees@, m) == deg_of(dpre, m) + (if m == node {
                        1int
                    } else {
                        0int
                    }) by {
                    lemma_deg_set(dpre, t as int, (d + 1) as u32, m);
                }
                assert forall|a: int, b: int|
                    0 <= a < b < self.node_degrees@.len() implies (
                #[trigger] self.node_degrees@[a]).0 != (#[trigger] self.node_degrees@[b]).0 by {
                    assert(dpre[a].0 != dpre[b].0);
                }
            }
        },
        None => {
            let ghost dpre = self.node_degrees@;
            self.node_degrees.push((node, 1));
            proof {
                assert forall|m: Node|
                    deg_of(self.node_degrees@, m) == deg_of(dpre, m) + (if m == node {
                        1int
                    } else {
                        0int
                    }) by {
                    lemma_deg_push(dpre, node, 1u32, m);
                }
                lemma_deg_push(dpre, node, 1u32, node);
            }
        },
        }
        let present = self.node_is_active(node);
        if !present {
            let ghost pre = self.active_nodes@;
            self.active_nodes.push(node);
            proof {
                assert forall|m: Node| node_set_has(self.active_nodes@, m) == (node_set_has(
                    pre,
                    m,
                ) || m == node) by {
                    lemma_node_push(pre, node, m);
                }
                lemma_node_distinct_push(pre, node);
            }
        }
    }

    /// The nodes of degree one that are still active, each listed once.
    pub fn get_leaf_nodes(&self) -> (r: Vec<Node>)
        requires
            self.well_formed(),
        ensures
            nodes_distinct(r@),
            forall|i: int|
                0 <= i < r@.len() ==> deg_of(self.degrees(), #[trigger] r@[i]) == 1 && node_set_has(
                    self.actives(),
                    r@[i],
                ),
            forall|m: Node|
                deg_of(self.degrees(), m) == 1 && node_set_has(self.actives(), m) ==> node_set_has(
                    r@,
                    m,
                ),
    {
        let dlen = self.node_degrees.len();
        let mut out: Vec<Node> = Vec::new();
        let mut t: usize = 0;
        while t < dlen
            invariant
                t <= dlen,
                self.well_formed(),
                dlen == self.node_degrees@.len(),
                nodes_distinct(out@),
                forall|a: int|
                    0 <= a < out@.len() ==> deg_of(self.degrees(), #[trigger] out@[a]) == 1
                        && node_set_has(self.actives(), out@[a]),
                forall|b: int|
                    0 <= b < t && deg_of(self.degrees(), (#[trigger] self.node_degrees@[b]).0) == 1
                        && node_set_has(self.actives(), self.node_degrees@[b].0) ==> node_set_has(
                        out@,
                        self.node_degrees@[b].0,
                    ),
            decreases dlen - t,
        {
            let entry = self.node_degrees[t];
            let ghost out_pre = out@;
            proof {
                lemma_deg_lookup(self.node_degrees@, t as int);
            }
            let eligible = entry.1 == 1 && self.node_is_active(entry.0);
            let already = vec_has_node(&out, entry.0);
            let mut pushed = false;
            if eligible && !already {
                out.push(entry.0);
                pushed = true;
                proof {
                    lemma_node_distinct_push(out_pre, entry.0);
                }
            }
            proof {
                assert forall|b: int|
                    0 <= b < t + 1 && deg_of(self.degrees(), (#[trigger] self.node_degrees@[b]).0)
                        == 1 && node_set_has(self.actives(), self.node_degrees@[b].0) implies
                    node_set_has(out@, self.node_degrees@[b].0) by {
                    if pushed {
                        lemma_node_push(out_pre, entry.0, self.node_degrees@[b].0);
                    }
                    if b == t as int {
                        assert(eligible);
                        if !pushed {
                            assert(node_set_has(out_pre, entry.0));
                        } else {
                            assert(out@[out@.len() - 1] == entry.0);
                        }
                    }
                }
            }
            t += 1;
        }
        proof {
            assert forall|m: Node|
                deg_of(self.degrees(), m) == 1 && node_set_has(self.actives(), m) implies
                node_set_has(out@, m) by {
                if forall|b: int| 0 <= b < dlen ==> (#[trigger] self.node_degrees@[b]).0 != m {
                    lemma_deg_absent(self.node_degrees@, m);
                } else {
                    let b = choose|b: int|
                        0 <= b < dlen && (#[trigger] self.node_degrees@[b]).0 == m;
                }
            }
        }
        out
    }

    /// Whether a node is active.
    fn node_is_active(&self, node: Node) -> (r: bool)
        ensures
            r == node_set_has(self.actives(), node),
    {
        let alen = self.active_nodes.len();
        let mut t: usize = 0;
        while t < alen
            invariant
                t <= alen,
                alen == self.active_nodes@.len(),
                forall|b: int| 0 <= b < t ==> (#[trigger] self.active_nodes@[b]) != node,
            decreases alen - t,
        {
            if self.active_nodes[t] == node {
                return true;
            }
            t += 1;
        }
        false
    }

    /// Lower a node's degree by one, stopping at zero.
    pub fn decrement_degree(&mut self, node: Node)
        requires
            old(self).well_formed(),
        ensures
            final(self).well_formed(),
            final(self).actives() == old(self).actives(),
            forall|m: Node|
                deg_of(final(self).degrees(), m) == deg_of(old(self).degrees(), m) - (if m == node
                    && deg_of(old(self).degrees(), m) > 0 {
                    1int
                } else {
                    0int
                }),
    {
        let dlen = self.node_degrees.len();
        let mut t: usize = 0;
        while t < dlen
            invariant
                t <= dlen,
                dlen == self.node_degrees@.len(),
                self.node_degrees@ == old(self).node_degrees@,
                self.active_nodes@ == old(self).active_nodes@,
                old(self).well_formed(),
                forall|b: int| 0 <= b < t ==> (#[trigger] self.node_degrees@[b]).0 != node,
            decreases dlen - t,
        {
            if self.node_degrees[t].0 == node {
                let d = self.node_degrees[t].1;
                proof {
                    lemma_deg_lookup(self.node_degrees@, t as int);
                }
                if d > 0 {
                    let ghost dpre = self.node_degrees@;
                    self.node_degrees.set(t, (node, d - 1));
                    proof {
                        assert forall|m: Node|
                            deg_of(self.node_degrees@, m) == deg_of(dpre, m) - (if m == node
                                && deg_of(dpre, m) > 0 {
                                1int
                            } else {
                                0int
                            }) by {
                            lemma_deg_set(dpre, t as int, (d - 1) as u32, m);
                        }
                        assert forall|a: int, b: int|
                            0 <= a < b < self.node_degrees@.len() implies (
                        #[trigger] self.node_degrees@[a]).0 != (
                        #[trigger] self.node_degrees@[b]).0 by {
                            assert(dpre[a].0 != dpre[b].0);
                        }
                    }
                }
                return ;
            }
            t += 1;
        }
        proof {
            lemma_deg_absent(self.node_degrees@, node);
        }
    }

    /// Deactivate a node and drop its degree entry.
    pub fn remove_node(&mut self, node: Node)
        requires
            old(self).well_formed(),
        ensures
            final(self).well_formed(),
            forall|m: Node|
                deg_of(final(self).degrees(), m) == (if m == node {
                    0int
                } else {
                    deg_of(old(self).degrees(), m)
                }),
            forall|m: Node|
                node_set_has(final(self).actives(), m) == (node_set_has(old(self).actives(), m) && m
                    != node),
    {
        let dlen = self.node_degrees.len();
        let mut t: usize = 0;
        while t < dlen
            invariant
                t <= dlen,
                dlen == self.node_degrees@.len(),
                self.node_degrees@ == old(self).node_degrees@,
                self.active_nodes@ == old(self).active_nodes@,
                old(self).well_formed(),
                forall|b: int| 0 <= b < t ==> (#[trigger] self.node_degrees@[b]).0 != node,
            decreases dlen - t,
        {
            if self.node_degrees[t].0 == node {
                let ghost dpre = self.node_degrees@;
                proof {
                    lemma_deg_lookup(dpre, t as int);
                }
                self.node_degrees.set(t, (node, 0));
                proof {
                    assert forall|m: Node|
                        deg_of(self.node_degrees@, m) == (if m == node {
                            0int
                        } else {
                            deg_of(dpre, m)
                        }) by {
                        lemma_deg_set(dpre, t as int, 0u32, m);
                    }
                    assert forall|a: int, b: int|
                        0 <= a < b < self.node_degrees@.len() implies (
                    #[trigger] self.node_degrees@[a]).0 != (#[trigger] self.node_degrees@[b]).0 by {
                        assert(dpre[a].0 != dpre[b].0);
                    }
                }
                self.remove_active(node);
                return ;
            }
            t += 1;
        }
        proof {
            lemma_deg_absent(self.node_degrees@, node);
        }
        self.remove_active(node);
    }

    /// Deactivate a node.
    fn remove_active(&mut self, node: Node)
        requires
            nodes_distinct(old(self).active_nodes@),
            keys_distinct(old(self).node_degrees@),
        ensures
            final(self).well_formed(),
            final(self).degrees() == old(self).degrees(),
            forall|m: Node|
                node_set_has(final(self).actives(), m) == (node_set_has(old(self).actives(), m) && m
                    != node),
    {
        let alen = self.active_nodes.len();
        let mut t2: usize = 0;
        while t2 < alen
            invariant
                t2 <= alen,
                alen == self.active_nodes@.len(),
                self.active_nodes@ == old(self).active_nodes@,
                self.node_degrees@ == old(self).node_degrees@,
                nodes_distinct(old(self).active_nodes@),
                keys_distinct(old(self).node_degrees@),
                forall|b: int| 0 <= b < t2 ==> (#[trigger] self.active_nodes@[b]) != node,
            decreases alen - t2,
        {
            if self.active_nodes[t2] == node {
                let ghost pre = self.active_nodes@;
                let _ = self.active_nodes.remove(t2);
                proof {
                    assert forall|m: Node|
                        node_set_has(self.active_nodes@, m) == (node_set_has(pre, m) && m
                            != node) by {
                        lemma_node_remove(pre, t2 as int, m);
                    }
                    lemma_node_remove(pre, t2 as int, node);
                }
                return ;
            }
            t2 += 1;
        }
    }

    /// The degree recorded for a node.
    pub fn get_degree(&self, node: Node) -> (r: u32)
        requires
            self.well_formed(),
        ensures
            r == deg_of(self.degrees(), node),
    {
        let dlen = self.node_degrees.len();
        let mut t: usize = 0;
        while t < dlen
            invariant
                t <= dlen,
                self.well_formed(),
                dlen == self.node_degrees@.len(),
                forall|b: int| 0 <= b < t ==> (#[trigger] self.node_degrees@[b]).0 != node,
            decreases dlen - t,
        {
            if self.node_degrees[t].0 == node {
                proof {
                    lemma_deg_lookup(self.node_degrees@, t as int);
                }
                return self.node_degrees[t].1;
            }
            t += 1;
        }
        proof {
            lemma_deg_absent(self.node_degrees@, node);
        }
        0
    }

    /// The number of active nodes.
    pub fn active_count(&self) -> (r: usize)
        ensures
            r == self.actives().len(),
    {
        self.active_nodes.len()
    }
}

} // verus!
