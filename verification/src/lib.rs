//! Language-processing core of a small compiler for a restricted subset of C:
//! one function without parameters, whose body returns an integer constant.
//!
//! The pipeline is strictly linear. Each stage builds a new value from the
//! output of the stage before it, and fails rather than going on with
//! malformed input:
//!
//! 1. [`tokens`] splits source text into tokens;
//! 2. [`ast`] parses the tokens into a syntax tree;
//! 3. [`assembly`] lowers the tree to instructions and prints them as
//!    assembly text.
//!
//! [`pipeline`] runs the stages up to the one selected by [`args`].
//! [`grammar`] states the language that the parser accepts and proves the
//! parser against it. [`pattern`], [`text`] and [`decimal`] serve the
//! tokenizer and the printer.
//!
//! Every function states what it computes over mathematical views of its
//! arguments, and is proved to compute that. What is taken on trust is the
//! regex engine's matching and the standard library's trimming: see
//! [`pattern`] and [`text`].

pub mod args;
pub mod assembly;
pub mod ast;
pub mod decimal;
pub mod grammar;
pub mod pattern;
pub mod pipeline;
pub mod text;
pub mod tokens;
