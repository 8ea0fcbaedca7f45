//! The token grammar of Eta, stated over byte strings.
//!
//! A word is a candidate token; [`class_of`] says which kind of token (or
//! skipped text) it is, with the fixed spellings (keywords, punctuation,
//! operators) taking priority over identifiers of the same length. The lexer
//! reads, at each position, the longest prefix that has a class.
use vstd::prelude::*;
use crate::lexer::strings::char_width_at;

verus! {

/// Tokens whose text is fixed.
#[derive(Clone, Copy, PartialEq, Eq, Structural, Debug)]
pub enum Fixed {
    KeywordUse,
    KeywordLength,
    KeywordWhile,
    KeywordIf,
    KeywordElse,
    KeywordReturn,
    KeywordInt,
    KeywordBool,
    True,
    False,
    SemiColon,
    Discard,
    OfType,
    Assign,
    Comma,
    LParen,
    RParen,
    LBracket,
    RBracket,
    BlockOpen,
    BlockClose,
    OperatorMul,
    OperatorHighMul,
    OperatorDiv,
    OperatorMod,
    OperatorNot,
    Minus,
    OperatorAdd,
    RelOpEq,
    RelOpNeq,
    RelOpGr,
    RelOpGe,
    RelOpLt,
    RelOpLe,
    Land,
    Lor,
}

/// The kinds of words the lexer recognizes.
#[derive(Clone, Copy, PartialEq, Eq, Structural, Debug)]
pub enum Lexeme {
    /// Blanks: space, tab, line feed, form feed, carriage return.
    Space,
    /// `//` up to the end of the line.
    Comment,
    Fixed(Fixed),
    CharLit,
    StrLit,
    Ident,
    Int,
}

pub open spec fn is_trivia(c: Lexeme) -> bool {
    c is Space || c is Comment
}

/// The text of each fixed token.
pub open spec fn spelling(f: Fixed) -> Seq<u8> {
    match f {
        Fixed::KeywordUse => seq![117u8, 115u8, 101u8],
        Fixed::KeywordLength => seq![108u8, 101u8, 110u8, 103u8, 116u8, 104u8],
        Fixed::KeywordWhile => seq![119u8, 104u8, 105u8, 108u8, 101u8],
        Fixed::KeywordIf => seq![105u8, 102u8],
        Fixed::KeywordElse => seq![101u8, 108u8, 115u8, 101u8],
        Fixed::KeywordReturn => seq![114u8, 101u8, 116u8, 117u8, 114u8, 110u8],
        Fixed::KeywordInt => seq![105u8, 110u8, 116u8],
        Fixed::KeywordBool => seq![98u8, 111u8, 111u8, 108u8],
        Fixed::True => seq![116u8, 114u8, 117u8, 101u8],
        Fixed::False => seq![102u8, 97u8, 108u8, 115u8, 101u8],
        Fixed::SemiColon => seq![59u8],
        Fixed::Discard => seq![95u8],
        Fixed::OfType => seq![58u8],
        Fixed::Assign => seq![61u8],
        Fixed::Comma => seq![44u8],
        Fixed::LParen => seq![40u8],
        Fixed::RParen => seq![41u8],
        Fixed::LBracket => seq![91u8],
        Fixed::RBracket => seq![93u8],
        Fixed::BlockOpen => seq![123u8],
        Fixed::BlockClose => seq![125u8],
        Fixed::OperatorMul => seq![42u8],
        Fixed::OperatorHighMul => seq![42u8, 62u8, 62u8],
        Fixed::OperatorDiv => seq![47u8],
        Fixed::OperatorMod => seq![37u8],
        Fixed::OperatorNot => seq![33u8],
        Fixed::Minus => seq![45u8],
        Fixed::OperatorAdd => seq![43u8],
        Fixed::RelOpEq => seq![61u8, 61u8],
        Fixed::RelOpNeq => seq![33u8, 61u8],
        Fixed::RelOpGr => seq![62u8],
        Fixed::RelOpGe => seq![62u8, 61u8],
        Fixed::RelOpLt => seq![60u8],
        Fixed::RelOpLe => seq![60u8, 61u8],
        Fixed::Land => seq![38u8],
        Fixed::Lor => seq![124u8],
    }
}

/// The one-byte fixed tokens.
pub open spec fn fixed_byte(b: u8) -> Option<Fixed> {
    if b == 59 {
        Some(Fixed::SemiColon)
    } else if b == 95 {
        Some(Fixed::Discard)
    } else if b == 58 {
        Some(Fixed::OfType)
    } else if b == 61 {
        Some(Fixed::Assign)
    } else if b == 44 {
        Some(Fixed::Comma)
    } else if b == 40 {
        Some(Fixed::LParen)
    } else if b == 41 {
        Some(Fixed::RParen)
    } else if b == 91 {
        Some(Fixed::LBracket)
    } else if b == 93 {
        Some(Fixed::RBracket)
    } else if b == 123 {
        Some(Fixed::BlockOpen)
    } else if b == 125 {
        Some(Fixed::BlockClose)
    } else if b == 42 {
        Some(Fixed::OperatorMul)
    } else if b == 47 {
        Some(Fixed::OperatorDiv)
    } else if b == 37 {
        Some(Fixed::OperatorMod)
    } else if b == 33 {
        Some(Fixed::OperatorNot)
    } else if b == 45 {
        Some(Fixed::Minus)
    } else if b == 43 {
        Some(Fixed::OperatorAdd)
    } else if b == 62 {
        Some(Fixed::RelOpGr)
    } else if b == 60 {
        Some(Fixed::RelOpLt)
    } else if b == 38 {
        Some(Fixed::Land)
    } else if b == 124 {
        Some(Fixed::Lor)
    } else {
        None
    }
}

/// The fixed token spelled by `w`, if any.
pub open spec fn fixed_spelled(w: Seq<u8>) -> Option<Fixed> {
    if w.len() == 1 {
        fixed_byte(w[0])
    } else if w.len() == 2 {
        if w[1] != 61 && !(w[0] == 105 && w[1] == 102) {
            None
        } else if w[0] == 61 {
            Some(Fixed::RelOpEq)
        } else if w[0] == 33 {
            Some(Fixed::RelOpNeq)
        } else if w[0] == 62 {
            Some(Fixed::RelOpGe)
        } else if w[0] == 60 {
            Some(Fixed::RelOpLe)
        } else if w[0] == 105 && w[1] == 102 {
            Some(Fixed::KeywordIf)
        } else {
            None
        }
    } else if w.len() == 3 {
        if w == spelling(Fixed::OperatorHighMul) {
            Some(Fixed::OperatorHighMul)
        } else if w == spelling(Fixed::KeywordUse) {
            Some(Fixed::KeywordUse)
        } else if w == spelling(Fixed::KeywordInt) {
            Some(Fixed::KeywordInt)
        } else {
            None
        }
    } else if w.len() == 4 {
        if w == spelling(Fixed::KeywordElse) {
            Some(Fixed::KeywordElse)
        } else if w == spelling(Fixed::KeywordBool) {
            Some(Fixed::KeywordBool)
        } else if w == spelling(Fixed::True) {
            Some(Fixed::True)
        } else {
            None
        }
    } else if w.len() == 5 {
        if w == spelling(Fixed::KeywordWhile) {
            Some(Fixed::KeywordWhile)
        } else if w == spelling(Fixed::False) {
            Some(Fixed::False)
        } else {
            None
        }
    } else if w.len() == 6 {
        if w == spelling(Fixed::KeywordLength) {
            Some(Fixed::KeywordLength)
        } else if w == spelling(Fixed::KeywordReturn) {
            Some(Fixed::KeywordReturn)
        } else {
            None
        }
    } else {
        None
    }
}

pub open spec fn is_letter(b: u8) -> bool {
    (65 <= b <= 90) || (97 <= b <= 122)
}

pub open spec fn is_digit(b: u8) -> bool {
    48 <= b <= 57
}

pub open spec fn is_ident_char(b: u8) -> bool {
    is_letter(b) || is_digit(b) || b == 95 || b == 39
}

pub open spec fn is_space(b: u8) -> bool {
    b == 32 || b == 9 || b == 10 || b == 12 || b == 13
}

/// `[a-zA-Z][a-zA-Z0-9_']*`
pub open spec fn identifier(w: Seq<u8>) -> bool {
    &&& w.len() >= 1
    &&& is_letter(w[0])
    &&& forall|k: int| 1 <= k < w.len() ==> is_ident_char(#[trigger] w[k])
}

/// `-?[1-9][0-9]*|0`
pub open spec fn integer_literal(w: Seq<u8>) -> bool {
    ||| (w.len() == 1 && w[0] == 48)
    ||| (w.len() >= 1 && 49 <= w[0] <= 57 && forall|k: int| 1 <= k < w.len() ==> is_digit(#[trigger] w[k]))
    ||| (w.len() >= 2 && w[0] == 45 && 49 <= w[1] <= 57 && forall|k: int|
        2 <= k < w.len() ==> is_digit(#[trigger] w[k]))
}

/// `[ \t\n\f\r]+`
pub open spec fn whitespace(w: Seq<u8>) -> bool {
    w.len() >= 1 && forall|k: int| 0 <= k < w.len() ==> is_space(#[trigger] w[k])
}

/// `//[^\n]*`
pub open spec fn comment(w: Seq<u8>) -> bool {
    &&& w.len() >= 2
    &&& w[0] == 47
    &&& w[1] == 47
    &&& forall|k: int| 2 <= k < w.len() ==> #[trigger] w[k] != 10
}

/// The inside of a quoted literal: bytes other than the quote `q` and the
/// backslash, and escapes (a backslash and any byte but a line feed).
pub open spec fn quoted_body(b: Seq<u8>, q: u8) -> bool
    decreases b.len(),
{
    if b.len() == 0 {
        true
    } else if b[0] == q {
        false
    } else if b[0] == 92 {
        b.len() >= 2 && b[1] != 10 && quoted_body(b.subrange(2, b.len() as int), q)
    } else {
        quoted_body(b.subrange(1, b.len() as int), q)
    }
}

/// A literal in quotes `q`: `'...'` for chars, `"..."` for strings.
pub open spec fn quoted(w: Seq<u8>, q: u8) -> bool {
    &&& w.len() >= 2
    &&& w[0] == q
    &&& w[w.len() - 1] == q
    &&& quoted_body(w.subrange(1, w.len() - 1), q)
}

/// The start of a quoted literal that has not been closed: like
/// [`quoted_body`], but it may end in a backslash.
pub open spec fn open_body(b: Seq<u8>, q: u8) -> bool
    decreases b.len(),
{
    if b.len() == 0 {
        true
    } else if b[0] == q {
        false
    } else if b[0] == 92 {
        b.len() == 1 || (b[1] != 10 && open_body(b.subrange(2, b.len() as int), q))
    } else {
        open_body(b.subrange(1, b.len() as int), q)
    }
}

/// An opening quote followed by an unclosed body: a word that can still grow
/// into a quoted literal.
pub open spec fn open_quoted(w: Seq<u8>, q: u8) -> bool {
    w.len() >= 1 && w[0] == q && open_body(w.subrange(1, w.len() as int), q)
}

/// The class of a word; fixed spellings come before identifiers.
pub open spec fn class_of(w: Seq<u8>) -> Option<Lexeme> {
    match fixed_spelled(w) {
        Some(f) => Some(Lexeme::Fixed(f)),
        None => if identifier(w) {
            Some(Lexeme::Ident)
        } else if integer_literal(w) {
            Some(Lexeme::Int)
        } else if quoted(w, 39) {
            Some(Lexeme::CharLit)
        } else if quoted(w, 34) {
            Some(Lexeme::StrLit)
        } else if whitespace(w) {
            Some(Lexeme::Space)
        } else if comment(w) {
            Some(Lexeme::Comment)
        } else {
            None
        },
    }
}

/// `(c, len)` is the longest match at index `i`: the `len` bytes there form a
/// word of class `c`, and no longer word there has a class.
pub open spec fn is_munch(s: Seq<u8>, i: int, len: int, c: Lexeme) -> bool {
    &&& 0 <= i
    &&& 1 <= len <= s.len() - i
    &&& class_of(s.subrange(i, i + len)) == Some(c)
    &&& forall|l: int| len < l <= s.len() - i ==> #[trigger] class_of(s.subrange(i, i + l)) is None
}

/// The longest match at `i`, if some word there has a class.
pub open spec fn munch(s: Seq<u8>, i: int) -> Option<(Lexeme, int)> {
    if exists|len: int, c: Lexeme| is_munch(s, i, len, c) {
        let (len, c) = choose|len: int, c: Lexeme| is_munch(s, i, len, c);
        Some((c, len))
    } else {
        None
    }
}

/// Where the next token (or error) starts: skipped text is taken by longest
/// match until something else, or the end, comes.
pub open spec fn skip_trivia(s: Seq<u8>, i: int) -> int
    decreases s.len() - i,
{
    if 0 <= i < s.len() {
        match munch(s, i) {
            Some((c, len)) => if is_trivia(c) && len >= 1 {
                skip_trivia(s, i + len)
            } else {
                i
            },
            None => i,
        }
    } else {
        i
    }
}

/// Extent of an unclosed quoted literal at `i`: the longest word there that
/// can still grow into a literal.
pub open spec fn is_open_extent(s: Seq<u8>, i: int, len: int) -> bool {
    &&& 1 <= len <= s.len() - i
    &&& open_quoted(s.subrange(i, i + len), s[i])
    &&& forall|l: int| len < l <= s.len() - i ==> !#[trigger] open_quoted(s.subrange(i, i + l), s[i])
}

/// Extent of the error reported when no word at `i` has a class: an unclosed
/// quoted literal as far as it could still grow, or else one character.
pub open spec fn is_error_extent(s: Seq<u8>, i: int, len: int) -> bool {
    if s[i] == 39 || s[i] == 34 {
        is_open_extent(s, i, len)
    } else {
        len == char_width_at(s, i)
    }
}

// ---- facts about the grammar ----

/// Every fixed token is spelled by its text, and by nothing else.
pub proof fn lemma_spelling(f: Fixed)
    ensures
        fixed_spelled(spelling(f)) == Some(f),
        class_of(spelling(f)) == Some(Lexeme::Fixed(f)),
{
}

/// A longest match, when there is one, is unique.
pub proof fn lemma_munch_unique(s: Seq<u8>, i: int, len: int, c: Lexeme)
    requires
        is_munch(s, i, len, c),
    ensures
        munch(s, i) == Some((c, len)),
{
    let (l2, c2) = choose|l: int, d: Lexeme| is_munch(s, i, l, d);
    assert(is_munch(s, i, l2, c2));
    if l2 < len {
        assert(class_of(s.subrange(i, i + len)) is None);
    }
    if len < l2 {
        assert(class_of(s.subrange(i, i + l2)) is None);
    }
}

/// No longest match when no word at `i` has a class.
pub proof fn lemma_no_munch(s: Seq<u8>, i: int)
    requires
        forall|l: int| 1 <= l <= s.len() - i ==> #[trigger] class_of(s.subrange(i, i + l)) is None,
    ensures
        munch(s, i) is None,
{
    if exists|len: int, c: Lexeme| is_munch(s, i, len, c) {
        let (len, c) = choose|len: int, c: Lexeme| is_munch(s, i, len, c);
        assert(class_of(s.subrange(i, i + len)) is None);
    }
}

/// What a word that has a class looks like, by its first byte.
pub proof fn lemma_class_by_first_byte(w: Seq<u8>)
    requires
        w.len() >= 1,
        class_of(w) is Some,
    ensures
        is_letter(w[0]) ==> forall|k: int| 0 <= k < w.len() ==> is_ident_char(#[trigger] w[k]),
        w[0] == 48 ==> w.len() == 1,
        49 <= w[0] <= 57 ==> forall|k: int| 0 <= k < w.len() ==> is_digit(#[trigger] w[k]),
        w[0] == 45 ==> w.len() == 1 || (49 <= w[1] <= 57 && forall|k: int| 1 <= k < w.len() ==> is_digit(#[trigger] w[k])),
        w[0] == 39 ==> quoted(w, 39),
        w[0] == 34 ==> quoted(w, 34),
        is_space(w[0]) ==> whitespace(w),
        w[0] == 47 ==> w.len() == 1 || comment(w),
        w[0] == 42 ==> w.len() == 1 || (w.len() == 3 && w[1] == 62 && w[2] == 62),
        (w[0] == 61 || w[0] == 33 || w[0] == 62 || w[0] == 60) ==> w.len() == 1 || (w.len() == 2 && w[1] == 61),
        fixed_byte(w[0]) is Some && w[0] != 42 && w[0] != 47 && w[0] != 45 && w[0] != 61 && w[0] != 33 && w[0] != 62 && w[0] != 60 ==> w.len() == 1,
        !is_letter(w[0]) && !is_digit(w[0]) && !is_space(w[0]) && w[0] != 39 && w[0] != 34 ==> fixed_byte(w[0]) is Some,
{
    if w.len() == 3 {
        if w == spelling(Fixed::OperatorHighMul) {
            assert(w[0] == 42 && w[1] == 62 && w[2] == 62);
        } else if w == spelling(Fixed::KeywordUse) {
            assert(w[0] == 117 && w[1] == 115 && w[2] == 101);
        } else if w == spelling(Fixed::KeywordInt) {
            assert(w[0] == 105 && w[1] == 110 && w[2] == 116);
        }
    } else if w.len() == 4 {
        if w == spelling(Fixed::KeywordElse) {
            assert(w[0] == 101 && w[1] == 108 && w[2] == 115 && w[3] == 101);
        } else if w == spelling(Fixed::KeywordBool) {
            assert(w[0] == 98 && w[1] == 111 && w[2] == 111 && w[3] == 108);
        } else if w == spelling(Fixed::True) {
            assert(w[0] == 116 && w[1] == 114 && w[2] == 117 && w[3] == 101);
        }
    } else if w.len() == 5 {
        if w == spelling(Fixed::KeywordWhile) {
            assert(w[0] == 119 && w[1] == 104 && w[2] == 105 && w[3] == 108 && w[4] == 101);
        } else if w == spelling(Fixed::False) {
            assert(w[0] == 102 && w[1] == 97 && w[2] == 108 && w[3] == 115 && w[4] == 101);
        }
    } else if w.len() == 6 {
        if w == spelling(Fixed::KeywordLength) {
            assert(w[0] == 108 && w[1] == 101 && w[2] == 110 && w[3] == 103 && w[4] == 116 && w[5] == 104);
        } else if w == spelling(Fixed::KeywordReturn) {
            assert(w[0] == 114 && w[1] == 101 && w[2] == 116 && w[3] == 117 && w[4] == 114 && w[5] == 110);
        }
    }
}

} // verus!
