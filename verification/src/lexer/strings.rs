//! Decoding of char and string literal bodies, escapes included.
//!
//! Positions are byte offsets in the global source space; the decoders work on
//! the bytes between the quotes, whose first byte sits at offset `lo + 1`.
use vstd::prelude::*;
use vstd::utf8::*;
use crate::lexer::error::{lex_error, make_error, InternalLexerError, LexErrorKind};
use crate::span::Span;
use crate::text::{char_from_u32, push_char};

verus! {

// ---- the format ----
pub open spec fn is_hex_digit(b: u8) -> bool {
    (48 <= b <= 57) || (97 <= b <= 102) || (65 <= b <= 70)
}

pub open spec fn hex_digit_value(b: u8) -> int {
    if 48 <= b <= 57 {
        b - 48
    } else if 97 <= b <= 102 {
        b - 87
    } else {
        b - 55
    }
}

/// Number of hex digits in the run that starts at index `i` of `s`.
pub open spec fn hex_run(s: Seq<u8>, i: int) -> int
    decreases s.len() - i,
{
    if 0 <= i < s.len() && is_hex_digit(s[i]) {
        1 + hex_run(s, i + 1)
    } else {
        0
    }
}

/// Value of the `k` hex digits at index `i` of `s`.
pub open spec fn hex_value(s: Seq<u8>, i: int, k: int) -> int
    decreases k,
{
    if k <= 0 {
        0
    } else {
        hex_value(s, i, k - 1) * 16 + hex_digit_value(s[i + k - 1])
    }
}

/// Codepoint of the character whose encoding starts at index `i` of `s`.
pub open spec fn char_at(s: Seq<u8>, i: int) -> u32 {
    decode_first_scalar(s.subrange(i, s.len() as int))
}

/// Length in bytes of the character whose encoding starts at index `i` of `s`.
pub open spec fn char_width_at(s: Seq<u8>, i: int) -> int {
    length_of_first_scalar(s.subrange(i, s.len() as int))
}

/// The body of `\x{..}`: `p` is the index just after `\x`, `open` the offset of
/// the backslash, `base` the offset of `s[0]`. Gives the codepoint or the
/// error, and the index where decoding stopped.
pub open spec fn hex_escape(s: Seq<u8>, base: int, p: int, open: int) -> (Result<u32, InternalLexerError>, int) {
    if p >= s.len() || s[p] != 123u8 {
        (Err(lex_error(open, open + 2, LexErrorKind::ExpectedBrace)), if p < s.len() { p + 1 } else { p })
    } else {
        let d = p + 1;
        let k = hex_run(s, d);
        let q = d + k;
        if q >= s.len() {
            (Err(lex_error(open, base + q, LexErrorKind::UnterminatedUnicodeEscape)), q)
        } else if s[q] == 125u8 {
            if k == 0 {
                (Err(lex_error(open, base + q, LexErrorKind::EmptyUnicodeEscape)), q + 1)
            } else if hex_value(s, d, if k <= 6 { k } else { 6 }) > 0x10FFFF {
                (Err(lex_error(base + d, base + q, LexErrorKind::UnicodeEscapeOutOfRange)), q + 1)
            } else if k > 6 {
                (Err(lex_error(base + d, base + q, LexErrorKind::TooManyHexDigits)), q + 1)
            } else {
                (Ok(hex_value(s, d, k) as u32), q + 1)
            }
        } else {
            (
                Err(lex_error(base + q, base + q + char_width_at(s, q), LexErrorKind::InvalidHexDigit(char_at(s, q) as char))),
                q + char_width_at(s, q),
            )
        }
    }
}

/// The escape whose backslash is at index `p - 1`: the codepoint it stands
/// for, or the error, and the index where decoding stopped.
pub open spec fn escape(s: Seq<u8>, base: int, p: int) -> (Result<u32, InternalLexerError>, int) {
    let esc = base + p - 1;
    if p >= s.len() {
        (Err(lex_error(esc, esc, LexErrorKind::DanglingBackslash)), p)
    } else {
        let b = s[p];
        if b == 110u8 {
            (Ok(10u32), p + 1)
        } else if b == 116u8 {
            (Ok(9u32), p + 1)
        } else if b == 114u8 {
            (Ok(13u32), p + 1)
        } else if b == 92u8 {
            (Ok(92u32), p + 1)
        } else if b == 39u8 {
            (Ok(39u32), p + 1)
        } else if b == 34u8 {
            (Ok(34u32), p + 1)
        } else if b == 48u8 {
            (Ok(0u32), p + 1)
        } else if b == 120u8 {
            let (r, q) = hex_escape(s, base, p + 1, esc);
            match r {
                Err(e) => (Err(e), q),
                Ok(cp) => if 0xD800 <= cp <= 0xDFFF {
                    (Err(lex_error(esc, base + q, LexErrorKind::SurrogateEscape(cp))), q)
                } else {
                    (Ok(cp), q)
                },
            }
        } else if b < 128 {
            (Err(lex_error(esc, base + p + 1, LexErrorKind::UnknownEscape((b as u32) as char))), p + 1)
        } else {
            (
                Err(lex_error(esc, base + p + char_width_at(s, p), LexErrorKind::UnknownEscape(char_at(s, p) as char))),
                p + char_width_at(s, p),
            )
        }
    }
}

/// One character of a literal body at index `p`: an escape, or a character
/// that stands for itself; with the index just past it.
pub open spec fn body_char(s: Seq<u8>, base: int, p: int) -> (Result<u32, InternalLexerError>, int) {
    if s[p] == 92u8 {
        escape(s, base, p + 1)
    } else {
        (Ok(char_at(s, p)), p + char_width_at(s, p))
    }
}

/// The char literal `raw`, quotes included, starting at offset `lo`.
pub open spec fn char_literal(raw: Seq<u8>, lo: int) -> Result<u32, InternalLexerError> {
    let tok_lo = lo;
    let tok_hi = lo + raw.len();
    if raw.len() == 2 && raw[0] == 39u8 && raw[1] == 39u8 {
        Err(lex_error(tok_lo, tok_hi, LexErrorKind::EmptyCharLiteral))
    } else {
        let inner = raw.subrange(1, raw.len() - 1);
        if inner.len() == 0 {
            Err(lex_error(tok_lo, tok_hi, LexErrorKind::InvalidCharLiteral))
        } else {
            let (r, q) = body_char(inner, lo + 1, 0);
            match r {
                Err(e) => Err(e),
                Ok(c) => if q < inner.len() {
                    Err(lex_error(tok_lo, tok_hi, LexErrorKind::TooManyCharacters))
                } else {
                    Ok(c)
                },
            }
        }
    }
}

/// The characters of a string literal body from index `p` on, or the first
/// error in it.
pub open spec fn string_body(s: Seq<u8>, base: int, p: int) -> Result<Seq<char>, InternalLexerError>
    decreases s.len() - p,
{
    if p < 0 || p >= s.len() {
        Ok(Seq::empty())
    } else {
        let (r, q) = body_char(s, base, p);
        match r {
            Err(e) => Err(e),
            Ok(c) => if q <= p || q > s.len() {
                Ok(Seq::empty())
            } else {
                match string_body(s, base, q) {
                    Err(e) => Err(e),
                    Ok(rest) => Ok(seq![c as char] + rest),
                }
            },
        }
    }
}

/// The string literal `raw`, quotes included, starting at offset `lo`.
pub open spec fn string_literal(raw: Seq<u8>, lo: int) -> Result<Seq<char>, InternalLexerError> {
    string_body(raw.subrange(1, raw.len() - 1), lo + 1, 0)
}

// ---- facts about UTF-8 that the decoders rest on ----

proof fn lemma_first_scalar_is_scalar(bytes: Seq<u8>)
    requires
        valid_first_scalar(bytes),
    ensures
        is_scalar(decode_first_scalar(bytes)),
        1 <= length_of_first_scalar(bytes) <= 4,
        length_of_first_scalar(bytes) <= bytes.len(),
{
    let b0 = bytes[0];
    if is_leading_byte_width_1(b0) {
        assert((b0 & 0x7F) as u32 <= 0x7F) by (bit_vector);
    } else if is_leading_byte_width_2(b0) {
        let b1 = bytes[1];
        assert((((b0 & 0x1F) as u32) << 6) | ((b1 & 0x3F) as u32) <= 0x7FF) by (bit_vector);
    } else if is_leading_byte_width_3(b0) {
        let b1 = bytes[1];
        let b2 = bytes[2];
        assert((((b0 & 0x0F) as u32) << 12) | (((b1 & 0x3F) as u32) << 6) | ((b2 & 0x3F) as u32)
            <= 0xFFFF) by (bit_vector);
    }
}

/// After a character at the start of a valid sequence, the next byte is not a
/// continuation byte, and the rest is valid again.
pub proof fn lemma_after_first_scalar(bytes: Seq<u8>)
    requires
        valid_utf8(bytes),
        bytes.len() > 0,
    ensures
        valid_first_scalar(bytes),
        is_scalar(decode_first_scalar(bytes)),
        1 <= length_of_first_scalar(bytes) <= bytes.len(),
        valid_utf8(pop_first_scalar(bytes)),
        length_of_first_scalar(bytes) < bytes.len() ==> !is_continuation_byte(
            bytes[length_of_first_scalar(bytes)],
        ),
        forall|j: int|
            1 <= j < length_of_first_scalar(bytes) ==> is_continuation_byte(#[trigger] bytes[j]),
{
    reveal_with_fuel(valid_utf8, 2);
    let rest = pop_first_scalar(bytes);
    lemma_first_scalar_is_scalar(bytes);
    if rest.len() > 0 {
        assert(valid_first_scalar(rest));
        assert(rest[0] == bytes[length_of_first_scalar(bytes)]);
    }
}

pub proof fn lemma_skip_ascii(s: Seq<u8>, i: int)
    requires
        0 <= i < s.len(),
        valid_utf8(s.subrange(i, s.len() as int)),
        s[i] < 128,
    ensures
        valid_utf8(s.subrange(i + 1, s.len() as int)),
{
    let t = s.subrange(i, s.len() as int);
    lemma_after_first_scalar(t);
    assert(pop_first_scalar(t) =~= s.subrange(i + 1, s.len() as int));
}

pub proof fn lemma_skip_char(s: Seq<u8>, i: int)
    requires
        0 <= i < s.len(),
        valid_utf8(s.subrange(i, s.len() as int)),
    ensures
        valid_utf8(s.subrange(i + char_width_at(s, i), s.len() as int)),
        1 <= char_width_at(s, i),
        i + char_width_at(s, i) <= s.len(),
        is_scalar(char_at(s, i)),
{
    let t = s.subrange(i, s.len() as int);
    lemma_after_first_scalar(t);
    assert(pop_first_scalar(t) =~= s.subrange(i + char_width_at(s, i), s.len() as int));
}

proof fn lemma_hex_value_bounds(s: Seq<u8>, i: int, k: int)
    requires
        0 <= k,
        forall|j: int| i <= j < i + k ==> is_hex_digit(#[trigger] s[j]),
    ensures
        0 <= hex_value(s, i, k) < pow16(k),
    decreases k,
{
    if k > 0 {
        lemma_hex_value_bounds(s, i, k - 1);
        let v = hex_value(s, i, k - 1);
        let d = hex_digit_value(s[i + k - 1]);
        let p = pow16(k - 1);
        assert(0 <= d < 16);
        assert(v * 16 + d < p * 16) by (nonlinear_arith)
            requires
                0 <= v < p,
                0 <= d < 16,
        ;
    }
}

proof fn lemma_hex_value_grows(s: Seq<u8>, i: int, k: int)
    requires
        0 <= k,
        forall|j: int| i <= j <= i + k ==> is_hex_digit(#[trigger] s[j]),
    ensures
        0 <= hex_value(s, i, k) <= hex_value(s, i, k + 1),
{
    lemma_hex_value_bounds(s, i, k);
}

spec fn pow16(k: int) -> int
    decreases k,
{
    if k <= 0 {
        1
    } else {
        16 * pow16(k - 1)
    }
}

// ---- the cursor ----

/// Reads the bytes of a literal body one at a time, tracking the global offset
/// of the next unread byte.
struct Cursor<'a> {
    input: &'a [u8],
    /// offset of `input[0]` in the global space
    base: u32,
    /// offset of the next unread byte in the global space
    pos: u32,
}

impl<'a> Cursor<'a> {
    spec fn wf(&self) -> bool {
        &&& self.base <= self.pos
        &&& self.pos - self.base <= self.input@.len()
        &&& self.base + self.input@.len() <= u32::MAX
    }

    spec fn idx(&self) -> int {
        self.pos - self.base
    }

    /// The unread bytes are well-formed UTF-8.
    spec fn rest_valid(&self) -> bool {
        valid_utf8(self.input@.subrange(self.idx(), self.input@.len() as int))
    }

    fn new(s: &'a [u8], base: u32) -> (c: Cursor<'a>)
        requires
            base + s@.len() <= u32::MAX,
        ensures
            c.wf(),
            c.input@ == s@,
            c.base == base,
            c.pos == base,
    {
        Cursor { input: s, base, pos: base }
    }

    fn peek(&self) -> (r: Option<u8>)
        requires
            self.wf(),
        ensures
            r == if self.idx() < self.input@.len() {
                Some(self.input@[self.idx()])
            } else {
                None::<u8>
            },
    {
        let i = (self.pos - self.base) as usize;
        if i < self.input.len() {
            Some(self.input[i])
        } else {
            None
        }
    }

    fn next(&mut self) -> (r: Option<u8>)
        requires
            old(self).wf(),
        ensures
            final(self).wf(),
            final(self).input@ == old(self).input@,
            final(self).base == old(self).base,
            r == if old(self).idx() < old(self).input@.len() {
                Some(old(self).input@[old(self).idx()])
            } else {
                None::<u8>
            },
            final(self).pos == if r is Some { old(self).pos + 1 } else { old(self).pos as int },
    {
        let i = (self.pos - self.base) as usize;
        if i < self.input.len() {
            self.pos = self.pos + 1;
            Some(self.input[i])
        } else {
            None
        }
    }

    /// Current absolute position (the offset of the next unread byte).
    fn loc(&self) -> (l: u32)
        ensures
            l == self.pos,
    {
        self.pos
    }

    fn is_empty(&self) -> (b: bool)
        requires
            self.wf(),
        ensures
            b == (self.idx() >= self.input@.len()),
    {
        self.pos - self.base >= self.input.len() as u32
    }
}

// ---- decoders ----

/// Moves the cursor to the end of the character whose first byte, at offset
/// `start`, was just read; gives the character and the offset after it.
fn finish_char(cursor: &mut Cursor, start: u32) -> (r: (char, u32))
    requires
        old(cursor).wf(),
        old(cursor).base <= start,
        old(cursor).pos == start + 1,
        start - old(cursor).base < old(cursor).input@.len(),
        valid_utf8(old(cursor).input@.subrange(start - old(cursor).base, old(cursor).input@.len() as int)),
    ensures
        final(cursor).wf(),
        final(cursor).input@ == old(cursor).input@,
        final(cursor).base == old(cursor).base,
        final(cursor).rest_valid(),
        final(cursor).idx() == (start - old(cursor).base) + char_width_at(old(cursor).input@, start - old(cursor).base),
        r.1 == final(cursor).pos,
        r.0 as u32 == char_at(old(cursor).input@, start - old(cursor).base),
{
    let ghost s = cursor.input@;
    let ghost i0: int = start - cursor.base;
    let ghost t = s.subrange(i0, s.len() as int);
    proof {
        lemma_after_first_scalar(t);
        lemma_skip_char(s, i0);
    }
    let ghost w = char_width_at(s, i0);
    loop
        invariant
            cursor.wf(),
            cursor.input@ == s,
            cursor.base == old(cursor).base,
            i0 == start - cursor.base,
            0 <= i0 < cursor.idx() <= i0 + w,
            i0 + w <= s.len(),
            w == length_of_first_scalar(t),
            t == s.subrange(i0, s.len() as int),
            forall|j: int| 1 <= j < w ==> is_continuation_byte(#[trigger] t[j]),
            i0 + w < s.len() ==> !is_continuation_byte(s[i0 + w]),
        ensures
            cursor.idx() == i0 + w,
        decreases i0 + w - cursor.idx(),
    {
        let p = cursor.peek();
        match p {
            Some(b) => {
                if b >= 0x80 && b <= 0xBF {
                    proof {
                        if cursor.idx() == i0 + w {
                            assert(s[i0 + w] == b);
                        }
                    }
                    cursor.next();
                } else {
                    proof {
                        if cursor.idx() < i0 + w {
                            let j = cursor.idx() - i0;
                            assert(t[j] == s[i0 + j]);
                            assert(is_continuation_byte(t[j]));
                        }
                    }
                    break;
                }
            },
            None => {
                break;
            },
        }
    }
    let i = (start - cursor.base) as usize;
    let b0 = cursor.input[i];
    let cp: u32 = if b0 <= 0x7f {
        (b0 & 0x7F) as u32
    } else if b0 >= 0xc0 && b0 <= 0xdf {
        let b1 = cursor.input[i + 1];
        (((b0 & 0x1F) as u32) << 6) | ((b1 & 0x3F) as u32)
    } else if b0 >= 0xe0 && b0 <= 0xef {
        let b1 = cursor.input[i + 1];
        let b2 = cursor.input[i + 2];
        (((b0 & 0x0F) as u32) << 12) | (((b1 & 0x3F) as u32) << 6) | ((b2 & 0x3F) as u32)
    } else {
        let b1 = cursor.input[i + 1];
        let b2 = cursor.input[i + 2];
        let b3 = cursor.input[i + 3];
        (((b0 & 0x07) as u32) << 18) | (((b1 & 0x3F) as u32) << 12) | (((b2 & 0x3F) as u32) << 6) | ((b3 & 0x3F) as u32)
    };
    proof {
        assert(t[0] == b0);
        assert(cp == decode_first_scalar(t));
    }
    let c = match char_from_u32(cp) {
        Some(c) => c,
        None => {
            proof {
                assert(false);
            }
            ' '
        },
    };
    (c, cursor.loc())
}


proof fn lemma_hex_run(s: Seq<u8>, d: int, c: int)
    requires
        0 <= d,
        0 <= c,
        forall|j: int| d <= j < d + c ==> is_hex_digit(#[trigger] s[j]),
        d + c >= s.len() || !is_hex_digit(s[d + c]),
        d + c <= s.len(),
    ensures
        hex_run(s, d) == c,
    decreases c,
{
    if c > 0 {
        lemma_hex_run(s, d + 1, c - 1);
    }
}

fn hex_digit(b: u8) -> (v: u32)
    requires
        is_hex_digit(b),
    ensures
        v == hex_digit_value(b),
        v < 16,
{
    if b >= 48 && b <= 57 {
        (b - 48) as u32
    } else if b >= 97 && b <= 102 {
        (b - 87) as u32
    } else {
        (b - 55) as u32
    }
}

/// Decodes the `{..}` of a `\x{..}` escape whose backslash is at offset `open`.
fn parse_hex(cursor: &mut Cursor, open: u32) -> (r: Result<u32, InternalLexerError>)
    requires
        old(cursor).wf(),
        open + 2 <= old(cursor).pos,
        old(cursor).rest_valid(),
    ensures
        final(cursor).wf(),
        final(cursor).input@ == old(cursor).input@,
        final(cursor).base == old(cursor).base,
        (r, final(cursor).idx()) == hex_escape(old(cursor).input@, old(cursor).base as int, old(cursor).idx(), open as int),
        r is Ok ==> final(cursor).rest_valid(),
        r matches Ok(v) ==> v <= 0x10FFFF,
        final(cursor).idx() >= old(cursor).idx(),
{
    let ghost s = cursor.input@;
    let ghost base = cursor.base as int;
    let ghost p = cursor.idx();
    let first = cursor.next();
    match first {
        Some(b) => {
            if b != 123 {
                return Err(make_error(open, open + 2, LexErrorKind::ExpectedBrace));
            }
        },
        None => {
            return Err(make_error(open, open + 2, LexErrorKind::ExpectedBrace));
        },
    }
    proof {
        lemma_skip_ascii(s, p);
        reveal_with_fuel(pow16, 7);
    }
    let ghost d = p + 1;
    let mut value: u32 = 0;
    let mut digit_count: u32 = 0;
    let digits_start = cursor.loc();
    // Set once a problem is seen (too many digits, or a value out of range);
    // scanning goes on to the closing brace so the reported span covers the
    // whole run of digits.
    let mut pending: Option<InternalLexerError> = None;
    loop
        invariant
            cursor.wf(),
            cursor.input@ == s,
            s == old(cursor).input@,
            base == old(cursor).base,
            p == old(cursor).idx(),
            cursor.base == base,
            digits_start == base + d,
            d == p + 1,
            0 <= p,
            cursor.idx() == d + digit_count,
            forall|j: int| d <= j < cursor.idx() ==> is_hex_digit(#[trigger] s[j]),
            value == hex_value(s, d, if digit_count <= 6 { digit_count as int } else { 6 }),
            pending is None <==> (value <= 0x10FFFF && digit_count <= 6),
            pending matches Some(e) ==> e.span.lo == digits_start && e.kind == (if value > 0x10FFFF {
                LexErrorKind::UnicodeEscapeOutOfRange
            } else {
                LexErrorKind::TooManyHexDigits
            }),
            cursor.rest_valid(),
            hex_escape(s, base, p, open as int) == hex_escape(s, base, p, open as int),
            s[p] == 123u8,
            p < s.len(),
            open + 2 <= base + p,
        decreases s.len() - cursor.idx(),
    {
        let next = cursor.peek();
        match next {
            Some(b) => {
                if b == 125 {
                    let close = cursor.loc();
                    proof {
                        lemma_hex_run(s, d, digit_count as int);
                    }
                    cursor.next();
                    proof {
                        lemma_skip_ascii(s, cursor.idx() - 1);
                    }
                    if digit_count == 0 {
                        return Err(make_error(open, close, LexErrorKind::EmptyUnicodeEscape));
                    }
                    match pending {
                        Some(pe) => {
                            let mut e = pe;
                            e.span.hi = close;
                            return Err(e);
                        },
                        None => {
                            return Ok(value);
                        },
                    }
                } else if (b >= 48 && b <= 57) || (b >= 97 && b <= 102) || (b >= 65 && b <= 70) {
                    let ghost before = value;
                    let ghost count_before = digit_count;
                    proof {
                        lemma_skip_ascii(s, cursor.idx());
                    }
                    cursor.next();
                    digit_count = digit_count + 1;
                    if digit_count > 6 {
                        if pending.is_none() {
                            pending = Some(make_error(digits_start, cursor.loc(), LexErrorKind::TooManyHexDigits));
                        }
                        continue;
                    }
                    proof {
                        lemma_hex_value_bounds(s, d, count_before as int);
                        lemma_hex_value_grows(s, d, count_before as int);
                        reveal_with_fuel(pow16, 7);
                        assert(pow16(count_before as int) <= 1048576) by {
                            if count_before == 0 {
                            } else if count_before == 1 {
                            } else if count_before == 2 {
                            } else if count_before == 3 {
                            } else if count_before == 4 {
                            } else {
                                assert(count_before == 5);
                            }
                        }
                    }
                    value = value * 16 + hex_digit(b);
                    if value > 0x10FFFF {
                        if pending.is_none() {
                            pending = Some(make_error(digits_start, cursor.loc(), LexErrorKind::UnicodeEscapeOutOfRange));
                        }
                    }
                } else {
                    // Not a hex digit and not '}'
                    let start = cursor.loc();
                    proof {
                        lemma_hex_run(s, d, digit_count as int);
                    }
                    cursor.next();
                    let (ch, end) = finish_char(cursor, start);
                    proof {
                        vstd::utf8::char_u32_cast(ch, #[verifier::truncate] (ch as u32));
                    }
                    return Err(make_error(start, end, LexErrorKind::InvalidHexDigit(ch)));
                }
            },
            None => {
                // Ran off the end of the literal before finding a closing '}'.
                proof {
                    lemma_hex_run(s, d, digit_count as int);
                }
                let end = cursor.loc();
                return Err(make_error(open, end, LexErrorKind::UnterminatedUnicodeEscape));
            },
        }
    }
}


pub proof fn lemma_ascii_char_at(s: Seq<u8>, i: int)
    requires
        0 <= i < s.len(),
        s[i] < 128,
    ensures
        char_at(s, i) == s[i] as u32,
        char_width_at(s, i) == 1,
{
    let t = s.subrange(i, s.len() as int);
    let b = s[i];
    assert(t[0] == b);
    assert((b & 0x7F) as u32 == b as u32) by (bit_vector)
        requires
            b < 128,
    ;
}

proof fn lemma_drop_last_ascii(t: Seq<u8>)
    requires
        valid_utf8(t),
        t.len() > 0,
        t[t.len() - 1] < 128,
    ensures
        valid_utf8(t.subrange(0, t.len() - 1)),
{
    is_char_boundary_iff_not_is_continuation_byte(t, t.len() - 1);
    valid_utf8_split(t, t.len() - 1);
}

/// The bytes between the quotes of a literal are well-formed UTF-8.
proof fn lemma_inner_valid(raw: Seq<u8>)
    requires
        raw.len() >= 2,
        valid_utf8(raw),
        raw[0] < 128,
        raw[raw.len() - 1] < 128,
    ensures
        valid_utf8(raw.subrange(1, raw.len() - 1)),
{
    assert(raw.subrange(0, raw.len() as int) =~= raw);
    lemma_skip_ascii(raw, 0);
    let t = raw.subrange(1, raw.len() as int);
    lemma_drop_last_ascii(t);
    assert(t.subrange(0, t.len() - 1) =~= raw.subrange(1, raw.len() - 1));
}

proof fn lemma_string_body_step(s: Seq<u8>, base: int, p: int, c: u32, q: int)
    requires
        0 <= p < q <= s.len(),
        body_char(s, base, p) == (Ok::<u32, InternalLexerError>(c), q),
    ensures
        string_body(s, base, p) == match string_body(s, base, q) {
            Ok(rest) => Ok::<Seq<char>, InternalLexerError>(seq![c as char] + rest),
            Err(e) => Err(e),
        },
{
}

proof fn lemma_string_body_err(s: Seq<u8>, base: int, p: int, e: InternalLexerError)
    requires
        0 <= p < s.len(),
        body_char(s, base, p).0 == Err::<u32, InternalLexerError>(e),
    ensures
        string_body(s, base, p) == Err::<Seq<char>, InternalLexerError>(e),
{
}

/// Decodes the escape whose backslash was just read.
fn decode_escape(cursor: &mut Cursor) -> (r: Result<char, InternalLexerError>)
    requires
        old(cursor).wf(),
        old(cursor).idx() >= 1,
        old(cursor).rest_valid(),
    ensures
        final(cursor).wf(),
        final(cursor).input@ == old(cursor).input@,
        final(cursor).base == old(cursor).base,
        final(cursor).idx() == escape(old(cursor).input@, old(cursor).base as int, old(cursor).idx()).1,
        r is Ok ==> final(cursor).idx() > old(cursor).idx(),
        match r {
            Ok(c) => escape(old(cursor).input@, old(cursor).base as int, old(cursor).idx()).0 == Ok::<u32, InternalLexerError>(c as u32),
            Err(e) => escape(old(cursor).input@, old(cursor).base as int, old(cursor).idx()).0 == Err::<u32, InternalLexerError>(e),
        },
        r is Ok ==> final(cursor).rest_valid(),
{
    let ghost s = cursor.input@;
    let ghost p = cursor.idx();
    // the backslash was consumed by the caller, so it sits just before the cursor
    let esc_start = cursor.loc() - 1;
    let b_pos = cursor.loc();
    let b = match cursor.next() {
        Some(b) => b,
        None => {
            return Err(make_error(esc_start, esc_start, LexErrorKind::DanglingBackslash));
        },
    };
    if b == 110 || b == 116 || b == 114 || b == 92 || b == 39 || b == 34 || b == 48 {
        proof {
            lemma_skip_ascii(s, p);
        }
        let v: u8 = if b == 110 {
            10
        } else if b == 116 {
            9
        } else if b == 114 {
            13
        } else if b == 48 {
            0
        } else {
            b
        };
        return Ok(crate::text::ascii_char(v));
    }
    if b == 120 {
        proof {
            lemma_skip_ascii(s, p);
        }
        let cp = match parse_hex(cursor, esc_start) {
            Ok(cp) => cp,
            Err(e) => {
                return Err(e);
            },
        };
        let end = cursor.loc();
        // Surrogate halves (U+D800..U+DFFF) are not Unicode scalar values and
        // cannot be represented as a `char`.
        if cp >= 0xD800 && cp <= 0xDFFF {
            return Err(make_error(esc_start, end, LexErrorKind::SurrogateEscape(cp)));
        }
        return match char_from_u32(cp) {
            Some(c) => Ok(c),
            None => {
                proof {
                    assert(false);
                }
                Err(make_error(esc_start, end, LexErrorKind::SurrogateEscape(cp)))
            },
        };
    }
    if b < 128 {
        let l = cursor.loc();
        let c = crate::text::ascii_char(b);
        proof {
            vstd::utf8::char_u32_cast(c, b as u32);
        }
        return Err(make_error(esc_start, l, LexErrorKind::UnknownEscape(c)));
    }
    // The byte after the backslash starts a multi-byte character: take all of
    // it, so that both the reported character and the span are right.
    let (ch, end) = finish_char(cursor, b_pos);
    proof {
        vstd::utf8::char_u32_cast(ch, #[verifier::truncate] (ch as u32));
    }
    Err(make_error(esc_start, end, LexErrorKind::UnknownEscape(ch)))
}

/// Decodes the char literal `raw` (quotes included) that starts at offset `lo`
/// into the codepoint it denotes.
pub fn parse_char(raw: &[u8], lo: u32) -> (r: Result<u32, InternalLexerError>)
    requires
        raw@.len() >= 2,
        lo + raw@.len() <= u32::MAX,
        valid_utf8(raw@),
        raw@[0] < 128,
        raw@[raw@.len() - 1] < 128,
    ensures
        r == char_literal(raw@, lo as int),
        r matches Ok(v) ==> vstd::utf8::is_scalar(v),
{
    let tok_lo = lo;
    let tok_hi = lo + raw.len() as u32;
    if raw.len() == 2 && raw[0] == 39 && raw[1] == 39 {
        return Err(make_error(tok_lo, tok_hi, LexErrorKind::EmptyCharLiteral));
    }
    proof {
        lemma_inner_valid(raw@);
    }
    // the contents start one byte after the opening quote
    let inner = &raw[1..raw.len() - 1];
    let mut cursor = Cursor::new(inner, lo + 1);
    proof {
        assert(inner@.subrange(0, inner@.len() as int) =~= inner@);
    }
    let value: char = match cursor.peek() {
        Some(b) => {
            if b == 92 {
                cursor.next();
                match decode_escape(&mut cursor) {
                    Ok(c) => c,
                    Err(e) => {
                        return Err(e);
                    },
                }
            } else {
                let start = cursor.loc();
                cursor.next();
                let (c, _end) = finish_char(&mut cursor, start);
                c
            }
        },
        None => {
            return Err(make_error(tok_lo, tok_hi, LexErrorKind::InvalidCharLiteral));
        },
    };
    if !cursor.is_empty() {
        // more than one character: the span covers the whole literal
        return Err(make_error(tok_lo, tok_hi, LexErrorKind::TooManyCharacters));
    }
    proof {
        vstd::utf8::char_is_scalar(value);
    }
    Ok(value as u32)
}

/// Decodes the string literal `raw` (quotes included) that starts at offset
/// `lo` into its characters.
pub fn parse_str(raw: &[u8], lo: u32) -> (r: Result<String, InternalLexerError>)
    requires
        raw@.len() >= 2,
        lo + raw@.len() <= u32::MAX,
        valid_utf8(raw@),
        raw@[0] < 128,
        raw@[raw@.len() - 1] < 128,
    ensures
        match r {
            Ok(out) => string_literal(raw@, lo as int) == Ok::<Seq<char>, InternalLexerError>(out@),
            Err(e) => string_literal(raw@, lo as int) == Err::<Seq<char>, InternalLexerError>(e),
        },
{
    proof {
        lemma_inner_valid(raw@);
    }
    let inner = &raw[1..raw.len() - 1];
    let mut cursor = Cursor::new(inner, lo + 1);
    let ghost s = inner@;
    let ghost base = lo + 1;
    proof {
        assert(s.subrange(0, s.len() as int) =~= s);
    }
    let mut out = String::new();
    assert(string_literal(raw@, lo as int) == string_body(s, base as int, 0));
    loop
        invariant
            string_literal(raw@, lo as int) == string_body(s, base as int, 0),
            cursor.wf(),
            cursor.input@ == s,
            cursor.base == base,
            cursor.rest_valid(),
            string_body(s, base as int, 0) == match string_body(s, base as int, cursor.idx()) {
                Ok(rest) => Ok::<Seq<char>, InternalLexerError>(out@ + rest),
                Err(e) => Err(e),
            },
            s == raw@.subrange(1, raw@.len() - 1),
        ensures
            string_literal(raw@, lo as int) == Ok::<Seq<char>, InternalLexerError>(out@),
        decreases s.len() - cursor.idx(),
    {
        let ghost p = cursor.idx();
        let ghost before = out@;
        match cursor.next() {
            None => {
                proof {
                    assert(out@ + Seq::<char>::empty() =~= out@);
                    assert(string_body(s, base as int, cursor.idx()) == Ok::<Seq<char>, InternalLexerError>(Seq::empty()));
                }
                break;
            },
            Some(b) => {
                if b == 92 {
                    proof {
                        lemma_skip_ascii(s, p);
                    }
                    let esc = match decode_escape(&mut cursor) {
                        Ok(c) => c,
                        Err(e) => {
                            proof {
                                lemma_string_body_err(s, base as int, p, e);
                            }
                            return Err(e);
                        },
                    };
                    push_char(&mut out, esc);
                    proof {
                        vstd::utf8::char_u32_cast(esc, #[verifier::truncate] (esc as u32));
                        let q = cursor.idx();
                        lemma_string_body_step(s, base as int, p, esc as u32, q);
                        match string_body(s, base as int, q) {
                            Ok(rest) => {
                                assert(before + (seq![esc] + rest) =~= out@ + rest);
                            },
                            Err(_) => {},
                        }
                    }
                } else if b < 128 {
                    // ASCII stands for itself
                    let c = crate::text::ascii_char(b);
                    proof {
                        lemma_ascii_char_at(s, p);
                        lemma_skip_ascii(s, p);
                        vstd::utf8::char_u32_cast(c, b as u32);
                    }
                    push_char(&mut out, c);
                    proof {
                        let q = cursor.idx();
                        lemma_string_body_step(s, base as int, p, c as u32, q);
                        match string_body(s, base as int, q) {
                            Ok(rest) => {
                                assert(before + (seq![c] + rest) =~= out@ + rest);
                            },
                            Err(_) => {},
                        }
                    }
                } else {
                    // the first byte of a multi-byte character
                    let start = cursor.loc() - 1;
                    let (c, _end) = finish_char(&mut cursor, start);
                    proof {
                        vstd::utf8::char_u32_cast(c, #[verifier::truncate] (c as u32));
                    }
                    push_char(&mut out, c);
                    proof {
                        let q = cursor.idx();
                        lemma_string_body_step(s, base as int, p, c as u32, q);
                        match string_body(s, base as int, q) {
                            Ok(rest) => {
                                assert(before + (seq![c] + rest) =~= out@ + rest);
                            },
                            Err(_) => {},
                        }
                    }
                }
            },
        }
    }
    Ok(out)
}


/// Length in bytes of the character that starts at index `i`.
pub fn char_width(s: &[u8], i: usize) -> (w: usize)
    requires
        i < s@.len(),
        valid_utf8(s@.subrange(i as int, s@.len() as int)),
    ensures
        w == char_width_at(s@, i as int),
        1 <= w <= s@.len() - i,
        i + w == s@.len() || !is_continuation_byte(s@[i + w]),
{
    proof {
        lemma_skip_char(s@, i as int);
        let t = s@.subrange(i as int, s@.len() as int);
        assert(t[0] == s@[i as int]);
        let k = i + char_width_at(s@, i as int);
        if k < s@.len() {
            lemma_after_first_scalar(s@.subrange(k, s@.len() as int));
            assert(s@.subrange(k, s@.len() as int)[0] == s@[k]);
        }
    }
    let b = s[i];
    if b <= 0x7f {
        1
    } else if b >= 0xc0 && b <= 0xdf {
        2
    } else if b >= 0xe0 && b <= 0xef {
        3
    } else {
        4
    }
}


// ---- where decoding errors lie ----

proof fn lemma_hex_run_bounds(s: Seq<u8>, i: int)
    requires
        0 <= i,
    ensures
        0 <= hex_run(s, i),
        i <= s.len() ==> i + hex_run(s, i) <= s.len(),
    decreases s.len() - i,
{
    if 0 <= i < s.len() && is_hex_digit(s[i]) {
        lemma_hex_run_bounds(s, i + 1);
    }
}

proof fn lemma_hex_escape_within(s: Seq<u8>, base: int, p: int, open: int)
    requires
        0 <= base,
        1 <= p <= s.len(),
        base + s.len() <= u32::MAX,
        base <= open <= base + s.len(),
    ensures
        hex_escape(s, base, p, open).0 matches Err(e) ==> base <= e.span.lo <= base + s.len(),
{
    lemma_hex_run_bounds(s, p + 1);
}

proof fn lemma_escape_within(s: Seq<u8>, base: int, p: int)
    requires
        0 <= base,
        1 <= p <= s.len(),
        base + s.len() <= u32::MAX,
    ensures
        escape(s, base, p).0 matches Err(e) ==> base <= e.span.lo <= base + s.len(),
{
    if p < s.len() && s[p] == 120u8 {
        lemma_hex_escape_within(s, base, p + 1, base + p - 1);
    }
}

/// Every error met decoding a literal body lies within the body.
pub(crate) proof fn lemma_string_body_within(s: Seq<u8>, base: int, p: int)
    requires
        0 <= base,
        0 <= p,
        base + s.len() <= u32::MAX,
    ensures
        string_body(s, base, p) matches Err(e) ==> base <= e.span.lo <= base + s.len(),
    decreases s.len() - p,
{
    if p < s.len() {
        if s[p] == 92u8 {
            lemma_escape_within(s, base, p + 1);
        }
        let (r, q) = body_char(s, base, p);
        if r is Ok && p < q <= s.len() {
            lemma_string_body_within(s, base, q);
        }
    }
}

/// Every error of a char or string literal `raw` at offset `lo` lies within
/// the literal, before its closing quote.
pub(crate) proof fn lemma_literal_errors_within(raw: Seq<u8>, lo: int)
    requires
        0 <= lo,
        raw.len() >= 2,
        lo + raw.len() <= u32::MAX,
    ensures
        char_literal(raw, lo) matches Err(e) ==> lo <= e.span.lo <= lo + raw.len() - 1,
        string_literal(raw, lo) matches Err(e) ==> lo <= e.span.lo <= lo + raw.len() - 1,
{
    let inner = raw.subrange(1, raw.len() - 1);
    lemma_string_body_within(inner, lo + 1, 0);
    if inner.len() > 0 && inner[0] == 92u8 {
        lemma_escape_within(inner, lo + 1, 1);
    }
}

} // verus!
