//! The Eta lexer: the token grammar, longest-match scanning, and the decoding
//! of literals.
pub mod error;
pub mod grammar;
pub mod scan;
pub mod tokens;
pub mod stream;
pub mod text;
pub mod strings;
pub mod report;
pub mod classic;
pub mod log;
pub mod round_trip;
