//! Arithmetic expressions: a lazy tokenizer and a precedence-climbing parser
//! that builds an expression tree.
pub mod tokenizer;
pub mod parser;
