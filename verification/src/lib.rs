//! Evaluation core of a small expression-oriented language: a syntax tree,
//! a generic lexical environment, and a tree-walking evaluator that reduces
//! expressions to tagged runtime values.

pub mod environment;
pub mod eval;
pub mod syntax;
