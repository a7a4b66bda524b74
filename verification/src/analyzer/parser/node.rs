use vstd::prelude::*;

use crate::analyzer::scanner::Token;

verus! {

/// A node of the syntax tree: it records the token the node was built from.
#[derive(Debug)]
pub struct Node {
    pub token: Token,
}

} // verus!
