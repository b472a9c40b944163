//! A compiler for a line-oriented dialogue markup language.
//!
//! Raw text is first parsed into an ordered list of syntax nodes
//! (statements, directives, continuations, blank lines, blocks), then a
//! single forward pass resolves speaker identities, aliases and inline
//! expressions and accumulates a structured chat transcript document.
use vstd::prelude::*;

pub mod ast;
pub mod compiler;
pub mod packjson;
pub mod inline;
pub mod laws;
pub mod parser;
pub mod strmap;
pub mod text;
pub mod types;

verus! {

} // verus!
