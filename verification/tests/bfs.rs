use adjgraph::AdjGraph;
use adjgraph::Graph;

/// Builds an unweighted graph from a list of adjacency entries.
fn unweighted(entries: &[(u64, &[u64])]) -> AdjGraph<()> {
    let mut g: AdjGraph<()> = AdjGraph::new();
    for &(u, vs) in entries {
        for &v in vs {
            g.insert_edge(u, v, ());
        }
    }
    g
}

#[test]
fn test_empty_graph() {
    let g: AdjGraph<()> = AdjGraph::new();
    assert_eq!(g.bfs_shortest_path(0, 0), None);
}

#[test]
fn test_no_path() {
    let g = unweighted(&[(0, &[3, 2]), (4, &[1])]);
    assert_eq!(g.bfs_shortest_path(0, 1), None);
}

#[test]
fn test_trivial_path1() {
    let g = unweighted(&[(0, &[0])]);
    assert_eq!(g.bfs_shortest_path(0, 0), Some(vec![0]));
}

#[test]
fn test_trivial_path2() {
    let g = unweighted(&[(0, &[1])]);
    assert_eq!(g.bfs_shortest_path(0, 0), Some(vec![0]));
}

#[test]
fn test_trivial_path3() {
    let g = unweighted(&[(0, &[1])]);
    assert_eq!(g.bfs_shortest_path(0, 1), Some(vec![0, 1]));
}

#[test]
fn test_unique_path() {
    let g = unweighted(&[(0, &[3, 2]), (3, &[4]), (4, &[1])]);
    assert_eq!(g.bfs_shortest_path(0, 1), Some(vec![0, 3, 4, 1]));
}

#[test]
fn test_optimal_path() {
    let g = unweighted(&[(0, &[3, 2]), (2, &[1]), (3, &[4]), (4, &[1])]);
    assert_eq!(g.bfs_shortest_path(0, 1), Some(vec![0, 2, 1]));
}

#[test]
fn test_source_without_adjacency_entry() {
    // The target of an edge is not a vertex of the outer mapping, so it
    // cannot start a traversal, not even toward itself.
    let g = unweighted(&[(0, &[1])]);
    assert_eq!(g.bfs_shortest_path(1, 1), None);
    assert_eq!(g.bfs_shortest_path(1, 0), None);
}

#[test]
fn test_count_vertices_counts_outer_keys() {
    let g: AdjGraph<()> = AdjGraph::new();
    assert_eq!(g.count_vertices(), 0);
    // Unreachable and reachable vertices count alike; neighbors that lack
    // their own adjacency entry do not count.
    let g = unweighted(&[(0, &[3, 2]), (4, &[1])]);
    assert_eq!(g.count_vertices(), 2);
    let g = unweighted(&[(0, &[3, 2]), (2, &[1]), (3, &[4]), (4, &[1])]);
    assert_eq!(g.count_vertices(), 4);
}

#[test]
fn test_insert_edge_same_pair_twice() {
    let mut g: AdjGraph<u32> = AdjGraph::new();
    g.insert_edge(0, 1, 10);
    g.insert_edge(0, 1, 20);
    assert_eq!(g.count_vertices(), 1);
    assert_eq!(g.bfs_shortest_path(0, 1), Some(vec![0, 1]));
}

#[test]
fn test_repeated_query_same_length() {
    // Querying an unchanged graph twice yields paths of equal length.
    let g = unweighted(&[(0, &[1, 2]), (1, &[3]), (2, &[3]), (3, &[4])]);
    let first = g.bfs_shortest_path(0, 4).expect("path exists");
    let second = g.bfs_shortest_path(0, 4).expect("path exists");
    assert_eq!(first.len(), second.len());
}

#[test]
fn test_ties_still_shortest() {
    // Two shortest paths exist; whichever is returned has the minimal
    // length and the right endpoints.
    let g = unweighted(&[(0, &[1, 2]), (1, &[3]), (2, &[3])]);
    let p = g.bfs_shortest_path(0, 3).expect("path exists");
    assert_eq!(p.len(), 3);
    assert_eq!(p[0], 0);
    assert_eq!(p[2], 3);
    assert!(p[1] == 1 || p[1] == 2);
}

/// An independent distance computation: the full table of breadth-first
/// distances from `s`, built level by level.
fn distances(entries: &[(u64, &[u64])], s: u64) -> std::collections::HashMap<u64, usize> {
    let mut dist = std::collections::HashMap::new();
    let has_entry = entries.iter().any(|&(u, _)| u == s);
    if !has_entry {
        return dist;
    }
    dist.insert(s, 0);
    let mut frontier = vec![s];
    let mut d: usize = 0;
    while !frontier.is_empty() {
        d += 1;
        let mut next = Vec::new();
        for &u in &frontier {
            for &(x, vs) in entries {
                if x == u {
                    for &v in vs {
                        if !dist.contains_key(&v) {
                            dist.insert(v, d);
                            next.push(v);
                        }
                    }
                }
            }
        }
        frontier = next;
    }
    dist
}

#[test]
fn test_length_matches_independent_distance_table() {
    let entries: &[(u64, &[u64])] =
        &[(0, &[3, 2]), (2, &[1]), (3, &[4, 5]), (4, &[1]), (5, &[6]), (6, &[7])];
    let g = unweighted(entries);
    let table = distances(entries, 0);
    for t in 0u64..9u64 {
        match g.bfs_shortest_path(0, t) {
            Some(p) => {
                assert_eq!(Some(&(p.len() - 1)), table.get(&t));
                assert_eq!(p[0], 0);
                assert_eq!(p[p.len() - 1], t);
            }
            None => assert!(!table.contains_key(&t)),
        }
    }
}
