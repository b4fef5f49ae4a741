//! A small scripting language: a tokenizer, a recursive-descent parser and a
//! tree-walking interpreter.
pub mod number;
pub mod text;
pub mod tokens;
pub mod tokenizer;
pub mod ast;
pub mod interpreter;
pub mod parser;
pub mod style;
pub mod laws;
