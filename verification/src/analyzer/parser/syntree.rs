use vstd::prelude::*;

use crate::analyzer::parser::node::Node;

verus! {

/// An ordered collection of parse-tree nodes.
#[derive(Debug)]
pub struct SynTree {
    pub nodes: Vec<Node>,
}

impl SynTree {
    /// Returns a new, empty syntax tree.
    pub fn new() -> (t: SynTree)
        ensures
            t.nodes@.len() == 0,
    {
        SynTree { nodes: Vec::new() }
    }
}

} // verus!
