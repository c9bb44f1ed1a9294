//! Abstract syntax tree of IDL files: the lexer, the tree and the parser.

pub mod lexer;
pub mod dom;
pub mod grammar;
pub mod parser;
pub mod keep;
