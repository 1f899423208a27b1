//! The computational core of a small array language: a rank-polymorphic
//! numeric array engine with automatic type promotion, and the finite-state
//! tokenizer that turns a line of input into tokens for it.

pub mod arrays;
pub mod error;
pub mod interpreter;
pub mod lexer;
pub mod primitives;
pub mod registry;
