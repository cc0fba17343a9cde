//! A typed capacity/flow abstraction for edges, the seed of a future
//! flow-network extension.  A maximum-flow operation over it would consume
//! the graph capability and its shortest-path query as the augmenting-path
//! subroutine; only the edge abstraction is defined here.

use vstd::prelude::*;

verus! {

/// An edge payload that carries a capacity and a current flow amount.
pub trait FlowEdge<F>: Sized {
    /// The capacity the edge was given.
    spec fn spec_capacity(&self) -> F;

    /// The flow currently assigned to the edge.
    spec fn spec_flow(&self) -> F;

    fn capacity(&self) -> (c: F)
        ensures
            c == self.spec_capacity(),
    ;

    fn flow(&self) -> (f: F)
        ensures
            f == self.spec_flow(),
    ;
}

/// A flow edge whose capacity and flow are plain 32-bit integers.
pub struct FlowEdgeI32 {
    pub cap: i32,
    pub flow: i32,
}

impl FlowEdge<i32> for FlowEdgeI32 {
    open spec fn spec_capacity(&self) -> i32 {
        self.cap
    }

    open spec fn spec_flow(&self) -> i32 {
        self.flow
    }

    fn capacity(&self) -> (c: i32) {
        self.cap
    }

    fn flow(&self) -> (f: i32) {
        self.flow
    }
}

} // verus!
