//! A small Lisp.
//!
//! - `tree`: the generic tree that expressions are made of.
//! - `expr`: expressions (`Tree<String>`) and their mathematical value.
//! - `reader`: text to tokens to expressions.
//! - `render`: expressions back to text, and the proof that reading the text
//!   gives the expression back.
//! - `env`: scopes of bindings from names to expressions.
//! - `eval`: the evaluator, proved against a big-step semantics.
//! - `laws`: properties of the special forms, proved from the semantics.
//! - `literal`: recognisers for boolean, character and number tokens.

pub mod tree;
pub mod expr;
pub mod reader;
pub mod render;
pub mod env;
pub mod eval;
pub mod laws;
pub mod literal;
