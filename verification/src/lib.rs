//! Lexical analysis for the Scrawl language: a position tracker, a token
//! value type, and a scanner that classifies a source buffer into an
//! ordered sequence of tokens.

pub mod analyzer;

pub use analyzer::{Node, SynTree};
pub use analyzer::{Position, Scanner, ScannerError, Token, ETX, LF};
