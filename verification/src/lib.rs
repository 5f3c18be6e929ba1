//! Core of a small Lisp-family scripting language: a character-stream lexer,
//! a recursive-descent parser producing an abstract syntax tree, and a
//! tree-walking evaluator with lexically scoped environments supporting
//! closures over the scope chain, user-defined functions and host-provided
//! ("native") functions.
//!
//! Every component carries a mathematical model: the lexer and parser are
//! specified as pure functions over character and token sequences, and the
//! evaluator against a big-step semantics over the view of the syntax tree
//! and the scope chain.

pub mod interpretator;
pub mod lexer;
pub mod nodes;
pub mod parser;
