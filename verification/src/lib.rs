//! A directed-graph library built around a verified breadth-first search.
//!
//! The [`graph::Graph`] capability describes what any shortest-path-capable
//! graph representation offers: counting its vertices and answering a
//! shortest-path query.  [`adj::AdjGraph`] is the adjacency-list
//! implementation, whose search is proved to return a path exactly when the
//! target is reachable, and never a path longer than any other path between
//! the same endpoints.

pub mod adj;
pub mod flow;
pub mod graph;

pub use adj::AdjGraph;
pub use flow::FlowEdge;
pub use flow::FlowEdgeI32;
pub use graph::Graph;
