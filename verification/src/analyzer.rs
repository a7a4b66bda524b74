//! The analysis passes: the scanner (lexical analysis) and the
//! parse-tree containers that a later parsing pass fills in.

pub mod parser;
pub mod scanner;

pub use parser::{Node, SynTree};
pub use scanner::{Position, Scanner, ScannerError, Token, ETX, LF};
