//! The adjacency-list graph: a two-level hash mapping from vertex to
//! neighbor to edge payload, with a verified breadth-first search.

use crate::graph::Graph;
use crate::graph::graph_edge;
use crate::graph::is_path;
use crate::graph::is_path_between;
use crate::graph::reachable;
use std::collections::HashMap;
use vstd::prelude::*;

verus! {

broadcast use vstd::std_specs::hash::group_hash_axioms;

/// A directed graph stored as a mapping from each vertex to the mapping
/// from its neighbors to the payloads of the connecting edges.  A vertex
/// with no outgoing edges may be absent from the outer mapping entirely.
pub struct AdjGraph<E> {
    adj: HashMap<u64, HashMap<u64, E>>,
}

impl<E> View for AdjGraph<E> {
    type V = Map<u64, Map<u64, E>>;

    closed spec fn view(&self) -> Map<u64, Map<u64, E>> {
        Map::new(|u: u64| self.adj@.contains_key(u), |u: u64| self.adj@[u]@)
    }
}

impl<E> AdjGraph<E> {
    /// An empty graph: no vertices, no edges.
    pub fn new() -> (g: AdjGraph<E>)
        ensures
            g@ == Map::<u64, Map<u64, E>>::empty(),
    {
        let g = AdjGraph { adj: HashMap::new() };
        proof {
            assert(g@ =~= Map::<u64, Map<u64, E>>::empty());
        }
        g
    }

    /// Inserts the directed edge `u -> v` carrying payload `e`, creating
    /// the adjacency entry for `u` if it did not exist and replacing any
    /// previous payload on the same ordered pair.
    pub fn insert_edge(&mut self, u: u64, v: u64, e: E)
        ensures
            final(self)@ == old(self)@.insert(
                u,
                if old(self)@.contains_key(u) {
                    old(self)@[u].insert(v, e)
                } else {
                    Map::<u64, E>::empty().insert(v, e)
                },
            ),
    {
        let mut inner: HashMap<u64, E> = match self.adj.remove(&u) {
            Some(m) => m,
            None => HashMap::new(),
        };
        inner.insert(v, e);
        self.adj.insert(u, inner);
        proof {
            assert(self@ =~= old(self)@.insert(
                u,
                if old(self)@.contains_key(u) {
                    old(self)@[u].insert(v, e)
                } else {
                    Map::<u64, E>::empty().insert(v, e)
                },
            ));
        }
    }
}

/// Collects the keys of a hash mapping into a vector, in the mapping's own
/// iteration order.
fn key_vec<V>(m: &HashMap<u64, V>) -> (ks: Vec<u64>)
    ensures
        forall|k: u64| #[trigger] ks@.contains(k) <==> m@.contains_key(k),
{
    let mut ks: Vec<u64> = Vec::new();
    for k in it: m.keys()
        invariant
            it.seq().unref().to_set() == m@.dom(),
            forall|j: u64| #[trigger] ks@.contains(j) ==> m@.contains_key(j),
            forall|i: int| 0 <= i < it.index() ==> ks@.contains(#[trigger] it.seq().unref()[i]),
    {
        proof {
            assert(*k == it.seq().unref()[it.index()]);
            assert(it.seq().unref().to_set().contains(*k));
            assert(m@.contains_key(*k));
        }
        let ghost ks0 = ks@;
        ks.push(*k);
        proof {
            assert(ks@.last() == *k);
            assert forall|j: u64| ks0.contains(j) implies ks@.contains(j) by {
                let i = choose|i: int| 0 <= i < ks0.len() && ks0[i] == j;
                assert(ks@[i] == j);
            }
            assert forall|j: u64| ks@.contains(j) implies m@.contains_key(j) by {
                let i = choose|i: int| 0 <= i < ks@.len() && ks@[i] == j;
                if i < ks0.len() {
                    assert(ks0[i] == j);
                    assert(ks0.contains(j));
                } else {
                    assert(j == *k);
                }
            }
        }
    }
    ks
}

impl<E> AdjGraph<E> {
    /// The vertices that one hop from `u` reaches, in the inner mapping's
    /// iteration order; empty when `u` has no adjacency entry.
    fn neighbor_keys(&self, u: u64) -> (ns: Vec<u64>)
        ensures
            forall|w: u64| #[trigger] ns@.contains(w) <==> graph_edge(self@, u, w),
    {
        match self.adj.get(&u) {
            Some(inner) => key_vec(inner),
            None => Vec::new(),
        }
    }
}

/// During the search, a vertex counts as discovered when it is the source
/// itself or has been assigned a predecessor.
spec fn discovered(s: u64, pred: Map<u64, u64>, v: u64) -> bool {
    v == s || pred.contains_key(v)
}

/// The search bookkeeping is consistent: every vertex with a predecessor was
/// reached over a real edge, one hop further from the source than the vertex
/// that discovered it, and the recorded distances cover exactly the
/// discovered vertices, with the source at distance zero.
spec fn pred_ok<E>(
    g: Map<u64, Map<u64, E>>,
    s: u64,
    pred: Map<u64, u64>,
    dist: Map<u64, nat>,
) -> bool {
    &&& dist.contains_key(s)
    &&& dist[s] == 0
    &&& !pred.contains_key(s)
    &&& forall|v: u64| #[trigger] pred.contains_key(v) ==> {
        &&& graph_edge(g, pred[v], v)
        &&& discovered(s, pred, pred[v])
        &&& dist.contains_key(v)
        &&& dist.contains_key(pred[v])
        &&& dist[v] == dist[pred[v]] + 1
    }
    &&& forall|v: u64| #[trigger] dist.contains_key(v) ==> discovered(s, pred, v)
}

/// The search has closed over the edge relation: following any edge from a
/// discovered vertex leads to a discovered vertex at most one hop further.
spec fn bfs_done<E>(
    g: Map<u64, Map<u64, E>>,
    s: u64,
    pred: Map<u64, u64>,
    dist: Map<u64, nat>,
) -> bool {
    forall|v: u64, w: u64|
        #![trigger discovered(s, pred, v), graph_edge(g, v, w)]
        discovered(s, pred, v) && graph_edge(g, v, w) ==> discovered(s, pred, w) && dist[w]
            <= dist[v] + 1
}

/// Every vertex some edge of `g` points at.
spec fn edge_targets<E>(g: Map<u64, Map<u64, E>>) -> Set<u64> {
    Set::new(|v: u64| exists|u: u64| #[trigger] graph_edge(g, u, v))
}

/// Every vertex a search from `s` can ever discover: `s` itself and the
/// targets of edges.
spec fn vertex_universe<E>(g: Map<u64, Map<u64, E>>, s: u64) -> Set<u64> {
    edge_targets(g).insert(s)
}

/// The set of edge targets is finite, because the outer mapping is finite
/// and each adjacency entry is.
proof fn lemma_edge_targets_finite<E>(g: Map<u64, Map<u64, E>>)
    requires
        g.dom().finite(),
        forall|u: u64| #[trigger] g.contains_key(u) ==> g[u].dom().finite(),
    ensures
        edge_targets(g).finite(),
    decreases g.dom().len(),
{
    if g.dom().len() == 0 {
        g.dom().lemma_len0_is_empty();
        assert(edge_targets(g) =~= Set::<u64>::empty()) by {
            assert forall|v: u64| !(#[trigger] edge_targets(g).contains(v)) by {
                if edge_targets(g).contains(v) {
                    let u = choose|u: u64| graph_edge(g, u, v);
                    assert(g.dom().contains(u));
                }
            }
        }
    } else {
        let u = g.dom().choose();
        assert(g.dom().contains(u));
        let g2 = g.remove(u);
        assert(g2.dom() =~= g.dom().remove(u));
        lemma_edge_targets_finite(g2);
        let big = edge_targets(g2).union(g[u].dom());
        assert(edge_targets(g).subset_of(big)) by {
            assert forall|v: u64| #[trigger] edge_targets(g).contains(v) implies big.contains(
                v,
            ) by {
                let x = choose|x: u64| graph_edge(g, x, v);
                if x == u {
                    assert(g[u].dom().contains(v));
                } else {
                    assert(graph_edge(g2, x, v));
                }
            }
        }
        vstd::set_lib::lemma_set_union_finite_iff(edge_targets(g2), g[u].dom());
        vstd::set_lib::lemma_set_subset_finite(big, edge_targets(g));
    }
}

/// Once the search has closed over the edge relation, every walk out of the
/// source ends in a discovered vertex whose recorded distance is at most the
/// walk's edge count: the recorded distances are lower bounds on every walk.
proof fn lemma_walk_is_discovered<E>(
    g: Map<u64, Map<u64, E>>,
    s: u64,
    pred: Map<u64, u64>,
    dist: Map<u64, nat>,
    q: Seq<u64>,
)
    requires
        pred_ok(g, s, pred, dist),
        bfs_done(g, s, pred, dist),
        is_path(g, q),
        q.first() == s,
    ensures
        discovered(s, pred, q.last()),
        dist.contains_key(q.last()),
        dist[q.last()] <= q.len() - 1,
    decreases q.len(),
{
    if q.len() > 1 {
        let q2 = q.drop_last();
        assert forall|i: int| 0 <= i < q2.len() - 1 implies #[trigger] graph_edge(
            g,
            q2[i],
            q2[i + 1],
        ) by {
            assert(graph_edge(g, q[i], q[i + 1]));
        }
        lemma_walk_is_discovered(g, s, pred, dist, q2);
        let n = q.len() as int;
        assert(graph_edge(g, q[n - 2], q[(n - 2) + 1]));
        assert(discovered(s, pred, q2.last()));
        assert(q2.last() == q[n - 2]);
        assert(q.last() == q[(n - 2) + 1]);
    }
}

impl<E> Graph<E> for AdjGraph<E> {
    open spec fn model(&self) -> Map<u64, Map<u64, E>> {
        self@
    }

    fn count_vertices(&self) -> (n: usize)
    {
        proof {
            assert(self@.dom() =~= self.adj@.dom());
        }
        self.adj.len()
    }

    #[verifier::loop_isolation(false)]
    fn bfs_shortest_path(&self, s: u64, t: u64) -> (r: Option<Vec<u64>>)
    {
        let ghost g = self@;
        if !self.adj.contains_key(&s) {
            proof {
                assert(!g.contains_key(s));
            }
            return None;
        }
        assert(g.contains_key(s));
        if s == t {
            let mut p: Vec<u64> = Vec::new();
            p.push(s);
            proof {
                assert(p@.first() == s);
                assert(p@.last() == t);
                assert(is_path_between(g, p@, s, t));
            }
            return Some(p);
        }
        let (pred, dist_g) = self.bfs_search(s);
        let ghost dist = dist_g@;
        if !pred.contains_key(&t) {
            proof {
                if reachable(g, s, t) {
                    let q = choose|q: Seq<u64>| is_path_between(g, q, s, t);
                    lemma_walk_is_discovered(g, s, pred@, dist, q);
                    assert(discovered(s, pred@, t));
                }
            }
            return None;
        }
        let path = reconstruct::<E>(&pred, Ghost(g), Ghost(dist), s, t);
        proof {
            assert forall|q: Seq<u64>| #[trigger] is_path_between(g, q, s, t)
                implies path@.len() <= q.len() by {
                lemma_walk_is_discovered(g, s, pred@, dist, q);
            }
        }
        Some(path)
    }
}

impl<E> AdjGraph<E> {
    /// The scanning half of the search: starting from `s`, repeatedly takes
    /// the next frontier vertex and discovers its not-yet-seen neighbors,
    /// recording each one's predecessor, until the frontier is exhausted.
    /// The resulting predecessor mapping is consistent and closed over the
    /// edge relation.
    #[verifier::rlimit(100)]
    fn bfs_search(&self, s: u64) -> (res: (HashMap<u64, u64>, Ghost<Map<u64, nat>>))
        requires
            self@.contains_key(s),
        ensures
            pred_ok(self@, s, res.0@, res.1@),
            bfs_done(self@, s, res.0@, res.1@),
    {
        let ghost g = self@;
        let mut visited: Vec<u64> = Vec::new();
        visited.push(s);
        let mut pred: HashMap<u64, u64> = HashMap::new();
        let ghost mut dist: Map<u64, nat> = Map::<u64, nat>::empty().insert(s, 0);
        proof {
            assert(g.dom() =~= self.adj@.dom());
            assert(self.adj@.dom().finite());
            assert forall|u: u64| #[trigger] g.contains_key(u) implies g[u].dom().finite() by {
                assert(g[u] == self.adj@[u]@);
                assert(self.adj@[u]@.dom().finite());
            }
            lemma_edge_targets_finite(g);
            assert(vertex_universe(g, s).finite());
            assert(vertex_universe(g, s).contains(s));
            assert(dist.dom() =~= Set::<u64>::empty().insert(s));
            vstd::set_lib::lemma_len_subset(dist.dom(), vertex_universe(g, s));
        }
        let mut i: usize = 0;
        while i < visited.len()
            invariant
                g == self@,
                g.contains_key(s),
                vertex_universe(g, s).finite(),
                i <= visited@.len(),
                dist.dom().finite(),
                dist.dom().subset_of(vertex_universe(g, s)),
                dist.dom().len() <= vertex_universe(g, s).len(),
                visited@.len() >= 1,
                visited@[0] == s,
                pred_ok(g, s, pred@, dist),
                forall|k: int| 0 <= k < visited@.len() ==> discovered(s, pred@, #[trigger] visited@[k]),
                forall|v: u64| #[trigger] discovered(s, pred@, v) ==> visited@.contains(v),
                forall|k: int, w: u64|
                    #![trigger graph_edge(g, visited@[k], w)]
                    0 <= k < i && graph_edge(g, visited@[k], w) ==> discovered(s, pred@, w)
                        && dist[w] <= dist[visited@[k]] + 1,
                forall|j2: int, k2: int|
                    #![trigger visited@[j2], visited@[k2]]
                    0 <= j2 <= k2 < visited@.len() ==> dist[visited@[j2]] <= dist[visited@[k2]],
                forall|j2: int, k2: int|
                    #![trigger visited@[j2], visited@[k2]]
                    i <= j2 <= k2 < visited@.len() ==> dist[visited@[k2]] <= dist[visited@[j2]]
                        + 1,
            decreases vertex_universe(g, s).len() - dist.dom().len(), visited@.len() - i,
        {
            let u = visited[i];
            let ns = self.neighbor_keys(u);
            let ghost dist_at = dist;
            let ghost visited_at = visited@;
            let mut j: usize = 0;
            while j < ns.len()
                invariant
                    j <= ns@.len(),
                    i < visited@.len(),
                    vertex_universe(g, s).finite(),
                    forall|w: u64| #[trigger] ns@.contains(w) <==> graph_edge(g, u, w),
                    dist.dom().finite(),
                    dist.dom().subset_of(vertex_universe(g, s)),
                    dist.dom().len() <= vertex_universe(g, s).len(),
                    dist_at.dom().subset_of(dist.dom()),
                    dist_at.dom().len() <= dist.dom().len(),
                    dist == dist_at || dist_at.dom().len() < dist.dom().len(),
                    dist == dist_at ==> visited@ == visited_at,
                    u == visited@[i as int],
                    visited@[0] == s,
                    pred_ok(g, s, pred@, dist),
                    forall|k: int| 0 <= k < visited@.len() ==> discovered(s, pred@, #[trigger] visited@[k]),
                    forall|v: u64| #[trigger] discovered(s, pred@, v) ==> visited@.contains(v),
                    forall|k: int, w: u64|
                        #![trigger graph_edge(g, visited@[k], w)]
                        0 <= k < i && graph_edge(g, visited@[k], w) ==> discovered(s, pred@, w)
                            && dist[w] <= dist[visited@[k]] + 1,
                    forall|j2: int, k2: int|
                        #![trigger visited@[j2], visited@[k2]]
                        0 <= j2 <= k2 < visited@.len() ==> dist[visited@[j2]] <= dist[visited@[k2]],
                    forall|j2: int, k2: int|
                        #![trigger visited@[j2], visited@[k2]]
                        i <= j2 <= k2 < visited@.len() ==> dist[visited@[k2]]
                            <= dist[visited@[j2]] + 1,
                    forall|m: int| 0 <= m < j ==> discovered(s, pred@, #[trigger] ns@[m])
                        && dist[ns@[m]] <= dist[u] + 1,
                decreases ns@.len() - j,
            {
                let w = ns[j];
                proof {
                    assert(ns@.contains(w));
                    assert(graph_edge(g, u, w));
                    assert(discovered(s, pred@, u));
                    assert(dist.contains_key(u));
                }
                if w != s && !pred.contains_key(&w) {
                    proof {
                        assert(!discovered(s, pred@, w));
                        assert(!dist.contains_key(w));
                    }
                    let ghost pred0 = pred@;
                    let ghost dist0 = dist;
                    let ghost visited0 = visited@;
                    pred.insert(w, u);
                    proof {
                        dist = dist.insert(w, (dist0[u] + 1) as nat);
                    }
                    visited.push(w);
                    proof {
                        assert(dist.dom() =~= dist0.dom().insert(w));
                        assert(edge_targets(g).contains(w));
                        assert(vertex_universe(g, s).contains(w));
                        assert(dist.dom().subset_of(vertex_universe(g, s)));
                        vstd::set_lib::lemma_len_subset(dist.dom(), vertex_universe(g, s));
                        assert(dist.dom().len() == dist0.dom().len() + 1);
                        assert(visited@ == visited0.push(w));
                        assert(visited@[visited@.len() - 1] == w);
                        assert forall|v: u64| discovered(s, pred0, v) implies v != w && dist[v]
                            == dist0[v] && discovered(s, pred@, v) by {}
                        assert(pred_ok(g, s, pred@, dist)) by {
                            assert forall|v: u64| #[trigger] pred@.contains_key(v) implies {
                                &&& graph_edge(g, pred@[v], v)
                                &&& discovered(s, pred@, pred@[v])
                                &&& dist.contains_key(v)
                                &&& dist.contains_key(pred@[v])
                                &&& dist[v] == dist[pred@[v]] + 1
                            } by {
                                if v != w {
                                    assert(pred0.contains_key(v));
                                    assert(discovered(s, pred0, pred0[v]));
                                }
                            }
                        }
                        assert forall|v: u64| #[trigger] discovered(s, pred@, v)
                            implies visited@.contains(v) by {
                            if v == w {
                                assert(visited@[visited@.len() - 1] == v);
                            } else {
                                assert(discovered(s, pred0, v));
                                assert(visited0.contains(v));
                                let k = choose|k: int| 0 <= k < visited0.len() && visited0[k]
                                    == v;
                                assert(visited@[k] == v);
                            }
                        }
                        assert forall|j2: int, k2: int|
                            0 <= j2 <= k2 < visited@.len() implies dist[#[trigger] visited@[j2]]
                            <= dist[#[trigger] visited@[k2]] by {
                            if k2 < visited@.len() - 1 {
                                assert(dist0[visited0[j2]] <= dist0[visited0[k2]]);
                            } else if j2 < visited@.len() - 1 {
                                assert(visited@[k2] == w);
                                if j2 <= i {
                                    assert(dist0[visited0[j2]] <= dist0[visited0[i as int]]);
                                } else {
                                    assert(dist0[visited0[k2 - 1]] <= dist0[visited0[j2]] + 1);
                                    assert(dist0[visited0[i as int]] <= dist0[visited0[j2]]);
                                }
                            }
                        }
                        assert forall|j2: int, k2: int|
                            i <= j2 <= k2 < visited@.len() implies dist[#[trigger] visited@[k2]]
                            <= dist[#[trigger] visited@[j2]] + 1 by {
                            if k2 < visited@.len() - 1 {
                                assert(dist0[visited0[k2]] <= dist0[visited0[j2]] + 1);
                            } else if j2 < visited@.len() - 1 {
                                assert(visited@[k2] == w);
                                assert(dist0[visited0[i as int]] <= dist0[visited0[j2]]);
                            }
                        }
                    }
                } else {
                    proof {
                        assert(discovered(s, pred@, w));
                        assert(visited@.contains(w));
                        let k = choose|k: int| 0 <= k < visited@.len() && visited@[k] == w;
                        if k <= i {
                            assert(dist[visited@[k]] <= dist[visited@[i as int]]);
                        } else {
                            assert(dist[visited@[k]] <= dist[visited@[i as int]] + 1);
                        }
                        assert(dist[w] <= dist[u] + 1);
                    }
                }
                j += 1;
            }
            proof {
                assert forall|w: u64| #[trigger] graph_edge(g, u, w) implies discovered(
                    s,
                    pred@,
                    w,
                ) && dist[w] <= dist[u] + 1 by {
                    assert(ns@.contains(w));
                    let m = choose|m: int| 0 <= m < ns@.len() && ns@[m] == w;
                    assert(discovered(s, pred@, ns@[m]));
                }
            }
            i += 1;
        }
        proof {
            assert forall|v: u64, w: u64|
                #![trigger discovered(s, pred@, v), graph_edge(g, v, w)]
                discovered(s, pred@, v) && graph_edge(g, v, w) implies discovered(s, pred@, w)
                && dist[w] <= dist[v] + 1 by {
                assert(visited@.contains(v));
                let k = choose|k: int| 0 <= k < visited@.len() && visited@[k] == v;
                assert(graph_edge(g, visited@[k], w));
            }
            assert(bfs_done(g, s, pred@, dist));
        }
        (pred, Ghost(dist))
    }
}

/// Walks the predecessor mapping backward from `t` until it reaches `s`,
/// then reverses the collected vertices into a path that reads from `s` to
/// `t`.  The path's edge count is exactly the distance the search recorded
/// for `t`.
#[verifier::loop_isolation(false)]
fn reconstruct<E>(
    pred: &HashMap<u64, u64>,
    g: Ghost<Map<u64, Map<u64, E>>>,
    dist: Ghost<Map<u64, nat>>,
    s: u64,
    t: u64,
) -> (path: Vec<u64>)
    requires
        pred_ok(g@, s, pred@, dist@),
        pred@.contains_key(t),
    ensures
        is_path_between(g@, path@, s, t),
        path@.len() == dist@[t] + 1,
{
    let ghost g = g@;
    let ghost dist = dist@;
    let mut rev: Vec<u64> = Vec::new();
    rev.push(t);
    let mut cur: u64 = t;
    while cur != s
        invariant
            discovered(s, pred@, cur),
            dist.contains_key(cur),
            dist[cur] <= dist[t],
            rev@.len() == dist[t] - dist[cur] + 1,
            rev@[0] == t,
            rev@[rev@.len() - 1] == cur,
            forall|m: int| 0 <= m < rev@.len() - 1 ==> graph_edge(
                g,
                #[trigger] rev@[m + 1],
                rev@[m],
            ),
        decreases dist[cur],
    {
        let p = *(pred.get(&cur).unwrap());
        proof {
            assert(pred@[cur] == p);
            assert(graph_edge(g, p, cur));
            assert(dist[cur] == dist[p] + 1);
        }
        rev.push(p);
        cur = p;
    }
    proof {
        assert(rev@.len() == dist[t] + 1);
    }
    let mut path: Vec<u64> = Vec::new();
    let mut k: usize = rev.len();
    while k > 0
        invariant
            k <= rev@.len(),
            path@.len() == rev@.len() - k,
            forall|m: int| 0 <= m < path@.len() ==> #[trigger] path@[m] == rev@[rev@.len() - 1
                - m],
        decreases k,
    {
        k -= 1;
        path.push(rev[k]);
    }
    proof {
        assert(path@.len() == dist[t] + 1);
        assert(path@.first() == s);
        assert(path@.last() == t);
        assert forall|m: int| 0 <= m < path@.len() - 1 implies #[trigger] graph_edge(
            g,
            path@[m],
            path@[m + 1],
        ) by {
            let l = rev@.len();
            assert(path@[m] == rev@[l - 1 - m]);
            assert(path@[m + 1] == rev@[l - 1 - (m + 1)]);
            assert(graph_edge(g, rev@[(l - 2 - m) + 1], rev@[l - 2 - m]));
        }
        assert(is_path_between(g, path@, s, t));
    }
    path
}

} // verus!
