//! Errors that the lexer reports, and their wording.
use vstd::prelude::*;
use crate::span::Span;

verus! {

/// What went wrong while lexing one token.
#[derive(Clone, Copy, PartialEq, Eq, Debug)]
pub enum LexErrorKind {
    /// No token of the language starts here.
    UnknownToken,
    /// An integer literal above `i64::MAX`.
    IntegerTooLarge,
    /// An integer literal below `i64::MIN`.
    IntegerTooSmall,
    /// `\x` not followed by `{`.
    ExpectedBrace,
    /// `\x{}` with no digits.
    EmptyUnicodeEscape,
    /// More than six hex digits in `\x{..}`.
    TooManyHexDigits,
    /// `\x{..}` above U+10FFFF.
    UnicodeEscapeOutOfRange,
    /// A character other than a hex digit or `}` inside `\x{..}`.
    InvalidHexDigit(char),
    /// `\x{..` running to the end of the literal.
    UnterminatedUnicodeEscape,
    /// A backslash with nothing after it.
    DanglingBackslash,
    /// `\x{..}` naming a UTF-16 surrogate half.
    SurrogateEscape(u32),
    /// A backslash followed by a character that starts no escape.
    UnknownEscape(char),
    /// `''`.
    EmptyCharLiteral,
    /// A char literal that holds nothing decodable.
    InvalidCharLiteral,
    /// A char literal that holds more than one character.
    TooManyCharacters,
}

/// A lexical error: what went wrong and where, in the global source space.
#[derive(Clone, Copy, PartialEq, Eq, Debug)]
pub struct InternalLexerError {
    pub span: Span,
    pub kind: LexErrorKind,
}

pub open spec fn lex_error(lo: int, hi: int, kind: LexErrorKind) -> InternalLexerError {
    InternalLexerError { span: Span { lo: lo as u32, hi: hi as u32 }, kind }
}

pub fn make_error(lo: u32, hi: u32, kind: LexErrorKind) -> (e: InternalLexerError)
    ensures
        e == lex_error(lo as int, hi as int, kind),
{
    InternalLexerError { span: Span { lo, hi }, kind }
}

} // verus!
