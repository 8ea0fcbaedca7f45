//! The token stream of one source text.
use vstd::prelude::*;
use vstd::string::StringSliceAdditionalSpecFns;
use vstd::utf8::{valid_utf8, is_continuation_byte};
use crate::lexer::error::{lex_error, make_error, InternalLexerError, LexErrorKind};
use crate::lexer::grammar::{Lexeme, is_trivia, munch, skip_trivia, is_error_extent, lemma_munch_unique, lemma_no_munch, quoted, identifier, integer_literal, class_of};
use crate::lexer::scan::{scan_at, scanned};
use crate::lexer::strings::{parse_char, parse_str};
use crate::lexer::tokens::{RawToken, SourceToken, token_for, fixed_token, parse_int, ident_text, integer_value};
use crate::span::Span;

verus! {

/// Lexes one source text into tokens, skipping blanks and comments. The text
/// occupies the global offsets from `base` on.
pub struct EtaLexer<'src> {
    input: &'src [u8],
    base: u32,
    pos: usize,
}

/// What the next call of the lexer at index `p` of `s` (whose first byte is at
/// offset `base`) gives, `r`, and where it leaves the lexer, `p2`.
pub open spec fn next_item(s: Seq<u8>, base: int, p: int, r: Option<Result<SourceToken, InternalLexerError>>, p2: int) -> bool {
    let t = skip_trivia(s, p);
    if t >= s.len() {
        r is None && p2 == t
    } else {
        match munch(s, t) {
            Some((c, len)) => {
                &&& p2 == t + len
                &&& r is Some
                &&& match r.unwrap() {
                    Ok(st) => st.span == Span { lo: (base + t) as u32, hi: (base + t + len) as u32 }
                        && token_for(c, s.subrange(t, t + len), base + t, Ok(st.tok)),
                    Err(e) => token_for(c, s.subrange(t, t + len), base + t, Err(e)),
                }
            },
            None => {
                &&& is_error_extent(s, t, p2 - t)
                &&& r == Some(Err::<SourceToken, InternalLexerError>(lex_error(base + t, base + p2, LexErrorKind::UnknownToken)))
            },
        }
    }
}

impl<'src> EtaLexer<'src> {
    /// The bytes being lexed.
    pub closed spec fn source(&self) -> Seq<u8> {
        self.input@
    }

    /// Global offset of the first byte.
    pub closed spec fn base(&self) -> int {
        self.base as int
    }

    /// Index of the next unread byte.
    pub closed spec fn position(&self) -> int {
        self.pos as int
    }

    pub closed spec fn wf(&self) -> bool {
        &&& valid_utf8(self.input@)
        &&& self.pos <= self.input@.len()
        &&& (self.pos == self.input@.len() || !is_continuation_byte(self.input@[self.pos as int]))
        &&& self.base + self.input@.len() <= u32::MAX
    }

    /// A well-formed lexer stands within its text.
    pub(crate) proof fn lemma_position_bound(&self)
        requires
            self.wf(),
        ensures
            0 <= self.position() <= self.source().len(),
            0 <= self.base(),
            self.base() + self.source().len() <= u32::MAX,
    {
    }

    pub fn new(base: u32, source: &'src str) -> (l: EtaLexer<'src>)
        requires
            base + source.spec_bytes().len() <= u32::MAX,
        ensures
            l.wf(),
            l.source() == source.spec_bytes(),
            l.base() == base,
            l.position() == 0,
    {
        let input = source.as_bytes();
        proof {
            vstd::utf8::encode_utf8_valid_utf8(source@);
            if input@.len() > 0 {
                vstd::utf8::is_char_boundary_iff_not_is_continuation_byte(input@, 0);
            }
        }
        EtaLexer { input, base, pos: 0 }
    }

    /// The next token or lexical error, or `None` at the end of the text.
    pub fn next(&mut self) -> (r: Option<Result<SourceToken, InternalLexerError>>)
        requires
            old(self).wf(),
        ensures
            final(self).wf(),
            final(self).source() == old(self).source(),
            final(self).base() == old(self).base(),
            next_item(old(self).source(), old(self).base(), old(self).position(), r, final(self).position()),
            r is None ==> final(self).position() == old(self).source().len(),
            r is Some ==> old(self).position() < final(self).position() <= old(self).source().len(),
            r matches Some(Ok(t)) ==> old(self).base() + old(self).position() <= t.span.lo < t.span.hi
                == old(self).base() + final(self).position(),
            r matches Some(Ok(t)) ==> (t.tok matches RawToken::CharLiteral(c) ==> vstd::utf8::is_scalar(c)),
    {
        let ghost s = self.input@;
        let ghost p0 = self.pos as int;
        let n = self.input.len();
        loop
            invariant
                self.wf(),
                self.input@ == s,
                self.base == old(self).base,
                s == old(self).input@,
                p0 == old(self).pos,
                skip_trivia(s, p0) == skip_trivia(s, self.pos as int),
                n == s.len(),
                p0 <= self.pos,
            decreases n - self.pos,
        {
            if self.pos >= n {
                return None;
            }
            let i = self.pos;
            proof {
                vstd::utf8::is_char_boundary_iff_not_is_continuation_byte(s, i as int);
                vstd::utf8::valid_utf8_split(s, i as int);
            }
            let (c, len) = scan_at(self.input, i);
            match c {
                Some(c) => {
                    proof {
                        lemma_munch_unique(s, i as int, len as int, c);
                    }
                    if c == Lexeme::Space || c == Lexeme::Comment {
                        self.pos = i + len;
                        continue;
                    }
                    self.pos = i + len;
                    let lo = self.base + i as u32;
                    let hi = lo + len as u32;
                    let tok = self.token(c, i, i + len, lo);
                    return Some(
                        match tok {
                            Ok(tok) => Ok(SourceToken { tok, span: Span::new(lo, hi) }),
                            Err(e) => Err(e),
                        },
                    );
                },
                None => {
                    proof {
                        lemma_no_munch(s, i as int);
                    }
                    self.pos = i + len;
                    let lo = self.base + i as u32;
                    let hi = lo + len as u32;
                    return Some(Err(make_error(lo, hi, LexErrorKind::UnknownToken)));
                },
            }
        }
    }

    /// The token (or error) that the word `[i, j)` of class `c` yields.
    fn token(&self, c: Lexeme, i: usize, j: usize, lo: u32) -> (r: Result<RawToken, InternalLexerError>)
        requires
            self.wf(),
            i < j <= self.input@.len(),
            lo == self.base + i,
            class_of(self.input@.subrange(i as int, j as int)) == Some(c),
            !is_trivia(c),
            j == self.input@.len() || !is_continuation_byte(self.input@[j as int]),
            valid_utf8(self.input@.subrange(i as int, self.input@.len() as int)),
        ensures
            token_for(c, self.input@.subrange(i as int, j as int), lo as int, r),
            r matches Ok(RawToken::CharLiteral(v)) ==> vstd::utf8::is_scalar(v),
    {
        let ghost s = self.input@;
        let ghost w = s.subrange(i as int, j as int);
        match c {
            Lexeme::Fixed(f) => Ok(fixed_token(f)),
            Lexeme::Ident => Ok(RawToken::Identifier(ident_text(self.input, i, j))),
            Lexeme::Int => match parse_int(self.input, i, j) {
                Ok(v) => Ok(RawToken::Integer(v)),
                Err(k) => Err(make_error(lo, lo + (j - i) as u32, k)),
            },
            Lexeme::CharLit => {
                let raw = &self.input[i..j];
                proof {
                    self.lemma_word_valid(i, j);
                    assert(raw@ == w);
                }
                match parse_char(raw, lo) {
                    Ok(v) => Ok(RawToken::CharLiteral(v)),
                    Err(e) => Err(e),
                }
            },
            Lexeme::StrLit => {
                let raw = &self.input[i..j];
                proof {
                    self.lemma_word_valid(i, j);
                    assert(raw@ == w);
                }
                match parse_str(raw, lo) {
                    Ok(st) => Ok(RawToken::StrLiteral(st)),
                    Err(e) => Err(e),
                }
            },
            _ => {
                proof {
                    assert(false);
                }
                Err(make_error(lo, lo, LexErrorKind::UnknownToken))
            },
        }
    }

    proof fn lemma_word_valid(&self, i: usize, j: usize)
        requires
            self.wf(),
            i < j <= self.input@.len(),
            j == self.input@.len() || !is_continuation_byte(self.input@[j as int]),
            valid_utf8(self.input@.subrange(i as int, self.input@.len() as int)),
        ensures
            valid_utf8(self.input@.subrange(i as int, j as int)),
    {
        let s = self.input@;
        let t = s.subrange(i as int, s.len() as int);
        let m = j - i;
        if j < s.len() {
            vstd::utf8::is_char_boundary_iff_not_is_continuation_byte(t, m);
        } else {
            vstd::utf8::is_char_boundary_start_end_of_seq(t);
        }
        vstd::utf8::valid_utf8_split(t, m);
        assert(t.subrange(0, m) =~= s.subrange(i as int, j as int));
    }
}

} // verus!
