//! Containers for the output of the (not yet implemented) parsing pass.

pub mod node;
pub mod syntree;

pub use node::Node;
pub use syntree::SynTree;
