//! Front end for a small arithmetic expression language: a tokenizer and a
//! precedence-climbing expression parser that turn source text into an
//! abstract syntax tree, together with a structured-document form of the tree
//! for inspection by outside tooling.

pub mod ast;
pub mod document;
pub mod errors;
pub mod lexer;
pub mod parser;
pub mod token;
