//! Front end and dual execution core of a small scripting language: a lexer,
//! a recursive-descent parser producing an AST, a tree-walking interpreter,
//! and a compiler that lowers the AST into a textual intermediate
//! representation for an external code generator.

pub mod compiler;
pub mod interpreter;
pub mod parity;
pub mod parser;
pub mod utils;
