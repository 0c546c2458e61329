//! The front end of a minimal imperative scripting language: a lexer that
//! turns source text into tokens, a recursive-descent parser that builds an
//! abstract syntax tree, and a tree-walking evaluator that executes it.

pub mod ast;
pub mod evaluator;
pub mod parser;
pub mod scanner;
