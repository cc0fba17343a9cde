//! The graph capability: what every shortest-path-capable representation
//! promises, stated over a mathematical model of the adjacency structure.

use vstd::prelude::*;

verus! {

/// The model of a directed graph: each vertex that has an adjacency entry
/// maps to its outgoing edges, and each outgoing edge maps the neighbor to
/// an opaque payload.  A vertex with no entry simply has no outgoing edges.
pub open spec fn graph_edge<E>(g: Map<u64, Map<u64, E>>, u: u64, v: u64) -> bool {
    g.contains_key(u) && g[u].contains_key(v)
}

/// `p` is a walk through `g`: non-empty, and each consecutive pair is
/// connected by a directed edge.  A single vertex is a walk of zero edges,
/// whether or not it has an adjacency entry.
pub open spec fn is_path<E>(g: Map<u64, Map<u64, E>>, p: Seq<u64>) -> bool {
    &&& p.len() >= 1
    &&& forall|i: int| 0 <= i < p.len() - 1 ==> #[trigger] graph_edge(g, p[i], p[i + 1])
}

/// `p` is a walk through `g` that starts at `s` and ends at `t`.
pub open spec fn is_path_between<E>(g: Map<u64, Map<u64, E>>, p: Seq<u64>, s: u64, t: u64) -> bool {
    &&& is_path(g, p)
    &&& p.first() == s
    &&& p.last() == t
}

/// Some walk through `g` leads from `s` to `t`.  Note that every vertex
/// reaches itself through the zero-edge walk, even one the graph has never
/// heard of.
pub open spec fn reachable<E>(g: Map<u64, Map<u64, E>>, s: u64, t: u64) -> bool {
    exists|p: Seq<u64>| is_path_between(g, p, s, t)
}

/// What any graph representation with a shortest-path query must offer,
/// independent of how it stores its edges.
pub trait Graph<E>: Sized {
    /// The adjacency structure the representation currently encodes.
    spec fn model(&self) -> Map<u64, Map<u64, E>>;

    /// The number of distinct vertices present as keys of the outer
    /// adjacency mapping, however many of them are reachable from anywhere.
    fn count_vertices(&self) -> (n: usize)
        ensures
            n as nat == self.model().dom().len(),
    ;

    /// A shortest path from `s` to `t`, both endpoints included.
    ///
    /// A path comes back exactly when `s` has an adjacency entry and `t` is
    /// reachable from `s`; ties among equally short paths may be broken
    /// arbitrarily, but no returned path is longer than any walk between the
    /// same endpoints.  When `s == t` the query answers with the single
    /// vertex `[s]`, provided `s` has an adjacency entry at all.
    fn bfs_shortest_path(&self, s: u64, t: u64) -> (r: Option<Vec<u64>>)
        ensures
            (match r {
                Some(p) => {
                    &&& self.model().contains_key(s)
                    &&& is_path_between(self.model(), p@, s, t)
                    &&& forall|q: Seq<u64>|
                        #[trigger] is_path_between(self.model(), q, s, t) ==> p@.len() <= q.len()
                },
                None => !(self.model().contains_key(s) && reachable(self.model(), s, t)),
            }),
    ;
}

/// Running the same shortest-path query twice against an unchanged graph
/// yields paths of equal length: any two answers meeting the query's
/// contract are both no longer than the other.  The paths themselves may
/// differ when several shortest paths exist.
pub proof fn lemma_shortest_query_length_stable<E>(
    g: Map<u64, Map<u64, E>>,
    s: u64,
    t: u64,
    p1: Seq<u64>,
    p2: Seq<u64>,
)
    requires
        is_path_between(g, p1, s, t),
        forall|q: Seq<u64>| #[trigger] is_path_between(g, q, s, t) ==> p1.len() <= q.len(),
        is_path_between(g, p2, s, t),
        forall|q: Seq<u64>| #[trigger] is_path_between(g, q, s, t) ==> p2.len() <= q.len(),
    ensures
        p1.len() == p2.len(),
{
}

} // verus!
