//! Tokens and the values carried by literal tokens.
use vstd::prelude::*;
use crate::lexer::error::{lex_error, InternalLexerError, LexErrorKind};
use crate::lexer::grammar::{Fixed, Lexeme, integer_literal, identifier, is_digit};
use crate::lexer::strings::{char_literal, string_literal};
use crate::span::Span;
use crate::text::{ascii_char, push_char};

verus! {

/// A token of Eta.
#[derive(Debug, Clone, PartialEq)]
pub enum RawToken {
    // Keywords
    KeywordUse,
    KeywordLength,
    KeywordWhile,
    KeywordIf,
    KeywordElse,
    KeywordReturn,
    KeywordInt,
    KeywordBool,
    // Punctuation
    SemiColon,
    Discard,
    OfType,
    Assign,
    Comma,
    BoolLiteral(bool),
    /// The codepoint of a char literal.
    CharLiteral(u32),
    StrLiteral(String),
    Identifier(String),
    Integer(i64),
    // Brackets and braces
    LParen,
    RParen,
    LBracket,
    RBracket,
    BlockOpen,
    BlockClose,
    // Arithmetic operators
    OperatorMul,
    OperatorHighMul,
    OperatorDiv,
    OperatorMod,
    OperatorNot,
    Minus,
    OperatorAdd,
    // Relational operators
    RelOpEq,
    RelOpNeq,
    RelOpGr,
    RelOpGe,
    RelOpLt,
    RelOpLe,
    // Logical operators
    Land,
    Lor,
}

/// A token and where it stands in the global source space.
#[derive(Debug, Clone, PartialEq)]
pub struct SourceToken {
    pub tok: RawToken,
    pub span: Span,
}

pub open spec fn token_of_fixed(f: Fixed) -> RawToken {
    match f {
        Fixed::KeywordUse => RawToken::KeywordUse,
        Fixed::KeywordLength => RawToken::KeywordLength,
        Fixed::KeywordWhile => RawToken::KeywordWhile,
        Fixed::KeywordIf => RawToken::KeywordIf,
        Fixed::KeywordElse => RawToken::KeywordElse,
        Fixed::KeywordReturn => RawToken::KeywordReturn,
        Fixed::KeywordInt => RawToken::KeywordInt,
        Fixed::KeywordBool => RawToken::KeywordBool,
        Fixed::True => RawToken::BoolLiteral(true),
        Fixed::False => RawToken::BoolLiteral(false),
        Fixed::SemiColon => RawToken::SemiColon,
        Fixed::Discard => RawToken::Discard,
        Fixed::OfType => RawToken::OfType,
        Fixed::Assign => RawToken::Assign,
        Fixed::Comma => RawToken::Comma,
        Fixed::LParen => RawToken::LParen,
        Fixed::RParen => RawToken::RParen,
        Fixed::LBracket => RawToken::LBracket,
        Fixed::RBracket => RawToken::RBracket,
        Fixed::BlockOpen => RawToken::BlockOpen,
        Fixed::BlockClose => RawToken::BlockClose,
        Fixed::OperatorMul => RawToken::OperatorMul,
        Fixed::OperatorHighMul => RawToken::OperatorHighMul,
        Fixed::OperatorDiv => RawToken::OperatorDiv,
        Fixed::OperatorMod => RawToken::OperatorMod,
        Fixed::OperatorNot => RawToken::OperatorNot,
        Fixed::Minus => RawToken::Minus,
        Fixed::OperatorAdd => RawToken::OperatorAdd,
        Fixed::RelOpEq => RawToken::RelOpEq,
        Fixed::RelOpNeq => RawToken::RelOpNeq,
        Fixed::RelOpGr => RawToken::RelOpGr,
        Fixed::RelOpGe => RawToken::RelOpGe,
        Fixed::RelOpLt => RawToken::RelOpLt,
        Fixed::RelOpLe => RawToken::RelOpLe,
        Fixed::Land => RawToken::Land,
        Fixed::Lor => RawToken::Lor,
    }
}

pub fn fixed_token(f: Fixed) -> (t: RawToken)
    ensures
        t == token_of_fixed(f),
{
    match f {
        Fixed::KeywordUse => RawToken::KeywordUse,
        Fixed::KeywordLength => RawToken::KeywordLength,
        Fixed::KeywordWhile => RawToken::KeywordWhile,
        Fixed::KeywordIf => RawToken::KeywordIf,
        Fixed::KeywordElse => RawToken::KeywordElse,
        Fixed::KeywordReturn => RawToken::KeywordReturn,
        Fixed::KeywordInt => RawToken::KeywordInt,
        Fixed::KeywordBool => RawToken::KeywordBool,
        Fixed::True => RawToken::BoolLiteral(true),
        Fixed::False => RawToken::BoolLiteral(false),
        Fixed::SemiColon => RawToken::SemiColon,
        Fixed::Discard => RawToken::Discard,
        Fixed::OfType => RawToken::OfType,
        Fixed::Assign => RawToken::Assign,
        Fixed::Comma => RawToken::Comma,
        Fixed::LParen => RawToken::LParen,
        Fixed::RParen => RawToken::RParen,
        Fixed::LBracket => RawToken::LBracket,
        Fixed::RBracket => RawToken::RBracket,
        Fixed::BlockOpen => RawToken::BlockOpen,
        Fixed::BlockClose => RawToken::BlockClose,
        Fixed::OperatorMul => RawToken::OperatorMul,
        Fixed::OperatorHighMul => RawToken::OperatorHighMul,
        Fixed::OperatorDiv => RawToken::OperatorDiv,
        Fixed::OperatorMod => RawToken::OperatorMod,
        Fixed::OperatorNot => RawToken::OperatorNot,
        Fixed::Minus => RawToken::Minus,
        Fixed::OperatorAdd => RawToken::OperatorAdd,
        Fixed::RelOpEq => RawToken::RelOpEq,
        Fixed::RelOpNeq => RawToken::RelOpNeq,
        Fixed::RelOpGr => RawToken::RelOpGr,
        Fixed::RelOpGe => RawToken::RelOpGe,
        Fixed::RelOpLt => RawToken::RelOpLt,
        Fixed::RelOpLe => RawToken::RelOpLe,
        Fixed::Land => RawToken::Land,
        Fixed::Lor => RawToken::Lor,
    }
}

/// Value of the decimal digits `w[a..b)`.
pub open spec fn decimal(w: Seq<u8>, a: int, b: int) -> int
    decreases b - a,
{
    if b <= a {
        0
    } else {
        decimal(w, a, b - 1) * 10 + (w[b - 1] - 48)
    }
}

/// The number an integer literal denotes.
pub open spec fn integer_value(w: Seq<u8>) -> int {
    if w[0] == 45 {
        -decimal(w, 1, w.len() as int)
    } else {
        decimal(w, 0, w.len() as int)
    }
}

/// The characters of an ASCII word.
pub open spec fn ascii_text(w: Seq<u8>) -> Seq<char> {
    Seq::new(w.len(), |k: int| (w[k] as u32) as char)
}

/// What a word of class `c` at offset `lo` yields: the token, or the error
/// that decoding its value gives.
pub open spec fn token_for(c: Lexeme, w: Seq<u8>, lo: int, r: Result<RawToken, InternalLexerError>) -> bool {
    match c {
        Lexeme::Fixed(f) => r == Ok::<RawToken, InternalLexerError>(token_of_fixed(f)),
        Lexeme::Ident => r matches Ok(RawToken::Identifier(t)) && t@ == ascii_text(w),
        Lexeme::Int => if i64::MIN <= integer_value(w) <= i64::MAX {
            r == Ok::<RawToken, InternalLexerError>(RawToken::Integer(integer_value(w) as i64))
        } else {
            r == Err::<RawToken, InternalLexerError>(lex_error(
                lo,
                lo + w.len(),
                if integer_value(w) < 0 {
                    LexErrorKind::IntegerTooSmall
                } else {
                    LexErrorKind::IntegerTooLarge
                },
            ))
        },
        Lexeme::CharLit => r == match char_literal(w, lo) {
            Ok(v) => Ok::<RawToken, InternalLexerError>(RawToken::CharLiteral(v)),
            Err(e) => Err(e),
        },
        Lexeme::StrLit => match string_literal(w, lo) {
            Ok(t) => r matches Ok(RawToken::StrLiteral(st)) && st@ == t,
            Err(e) => r == Err::<RawToken, InternalLexerError>(e),
        },
        _ => false,
    }
}

proof fn lemma_decimal_grows(w: Seq<u8>, a: int, b: int)
    requires
        a <= b < w.len(),
        0 <= a,
        forall|k: int| a <= k <= b ==> is_digit(#[trigger] w[k]),
    ensures
        0 <= decimal(w, a, b) <= decimal(w, a, b + 1),
    decreases b - a,
{
    if a < b {
        lemma_decimal_grows(w, a, b - 1);
    }
}

/// The value of the integer literal `w`, or the kind of error when it does not
/// fit in an `i64`.
pub fn parse_int(s: &[u8], i: usize, j: usize) -> (r: Result<i64, LexErrorKind>)
    requires
        i < j <= s@.len(),
        integer_literal(s@.subrange(i as int, j as int)),
    ensures
        match r {
            Ok(v) => v == integer_value(s@.subrange(i as int, j as int)),
            Err(k) => !(i64::MIN <= integer_value(s@.subrange(i as int, j as int)) <= i64::MAX)
                && k == if integer_value(s@.subrange(i as int, j as int)) < 0 {
                LexErrorKind::IntegerTooSmall
            } else {
                LexErrorKind::IntegerTooLarge
            },
        },
        r is Ok <==> i64::MIN <= integer_value(s@.subrange(i as int, j as int)) <= i64::MAX,
{
    let ghost w = s@.subrange(i as int, j as int);
    let neg = s[i] == 45;
    let start = if neg { i + 1 } else { i };
    let ghost a: int = start - i;
    let limit: u128 = if neg { 9223372036854775808 } else { 9223372036854775807 };
    let mut acc: u128 = 0;
    let mut big = false;
    let mut k = start;
    proof {
        assert forall|m: int| a <= m < w.len() implies is_digit(#[trigger] w[m]) by {}
    }
    while k < j
        invariant
            i <= start <= k <= j <= s@.len(),
            a == start - i,
            w == s@.subrange(i as int, j as int),
            forall|m: int| a <= m < w.len() ==> is_digit(#[trigger] w[m]),
            limit == if neg { 9223372036854775808u128 } else { 9223372036854775807u128 },
            !big ==> acc == decimal(w, a, k - i) && acc <= limit,
            big ==> decimal(w, a, k - i) > limit,
        decreases j - k,
    {
        proof {
            assert(w[k - i] == s@[k as int]);
            assert(is_digit(w[k - i]));
            lemma_decimal_grows(w, a, k - i);
        }
        let d = (s[k] - 48) as u128;
        if !big {
            acc = acc * 10 + d;
            if acc > limit {
                big = true;
            }
        }
        k = k + 1;
    }
    proof {
        assert(j - i == w.len());
    }
    if big {
        if neg {
            Err(LexErrorKind::IntegerTooSmall)
        } else {
            Err(LexErrorKind::IntegerTooLarge)
        }
    } else if neg {
        Ok((0 - (acc as i128)) as i64)
    } else {
        Ok(acc as i64)
    }
}

/// The identifier `w` as text.
pub fn ident_text(s: &[u8], i: usize, j: usize) -> (t: String)
    requires
        i < j <= s@.len(),
        identifier(s@.subrange(i as int, j as int)),
    ensures
        t@ == ascii_text(s@.subrange(i as int, j as int)),
{
    let ghost w = s@.subrange(i as int, j as int);
    let mut t = String::new();
    let mut k = i;
    while k < j
        invariant
            i <= k <= j <= s@.len(),
            w == s@.subrange(i as int, j as int),
            identifier(w),
            t@ == ascii_text(w.subrange(0, k - i)),
        decreases j - k,
    {
        let b = s[k];
        proof {
            assert(w[k - i] == b);
        }
        let c = ascii_char(b);
        proof {
            vstd::utf8::char_u32_cast(c, b as u32);
        }
        push_char(&mut t, c);
        k = k + 1;
        proof {
            assert(t@ =~= ascii_text(w.subrange(0, k - i)));
        }
    }
    proof {
        assert(w.subrange(0, j - i) =~= w);
    }
    t
}

} // verus!
