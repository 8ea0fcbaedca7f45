//! Front end of the Eta compiler: source positions, the token grammar and its
//! lexer, escape decoding, the syntax tree and its side tables, and the
//! diagnostics that the phases produce.
use vstd::prelude::*;

pub mod span;
pub mod line_index;
pub mod text;
pub mod lexer;
pub mod ast;
pub mod diag;
pub mod parse;
pub mod sources;
pub mod file_names;
pub mod typecheck;
pub mod driver;
pub mod resolve;
pub mod parse_log;

verus! {

} // verus!
