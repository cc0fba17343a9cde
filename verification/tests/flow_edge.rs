use adjgraph::FlowEdge;
use adjgraph::FlowEdgeI32;
use adjgraph::Graph;

#[test]
fn test_flow_edge_accessors() {
    let e = FlowEdgeI32 { cap: 9, flow: 4 };
    assert_eq!(e.capacity(), 9);
    assert_eq!(e.flow(), 4);
}

#[test]
fn test_flow_edge_as_payload() {
    let mut g: adjgraph::AdjGraph<FlowEdgeI32> = adjgraph::AdjGraph::new();
    g.insert_edge(0, 1, FlowEdgeI32 { cap: 5, flow: 0 });
    g.insert_edge(1, 2, FlowEdgeI32 { cap: 3, flow: 0 });
    assert_eq!(g.bfs_shortest_path(0, 2), Some(vec![0, 1, 2]));
}
