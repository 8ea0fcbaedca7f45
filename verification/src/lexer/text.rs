//! The text the lexer prints: token descriptions for the `.lexed` dump and
//! the wording of lexical errors.
use vstd::prelude::*;
use crate::lexer::error::{InternalLexerError, LexErrorKind};
use crate::lexer::tokens::{token_of_fixed, RawToken};
use crate::lexer::grammar::{spelling, Fixed};
use crate::text::{ascii_char, push_char, push_str, char_from_u32};
use vstd::string::StringExecFns;
use vstd::string::StrSliceExecFns;

verus! {

// ---- numbers ----

pub open spec fn digit_char(d: int) -> char {
    ((48 + d) as u32) as char
}

/// Decimal digits of a natural number, most significant first.
pub open spec fn nat_decimal(n: nat) -> Seq<char>
    decreases n,
{
    if n < 10 {
        seq![digit_char(n as int)]
    } else {
        nat_decimal(n / 10) + seq![digit_char((n % 10) as int)]
    }
}

/// An integer in decimal, with a leading `-` when negative.
pub open spec fn int_decimal(v: int) -> Seq<char> {
    if v < 0 {
        seq!['-'] + nat_decimal((-v) as nat)
    } else {
        nat_decimal(v as nat)
    }
}

/// Lower-case hex digit of a nibble.
pub open spec fn hex_lower(d: int) -> char {
    if d < 10 {
        ((48 + d) as u32) as char
    } else {
        ((87 + d) as u32) as char
    }
}

/// Upper-case hex digit of a nibble.
pub open spec fn hex_upper(d: int) -> char {
    if d < 10 {
        ((48 + d) as u32) as char
    } else {
        ((55 + d) as u32) as char
    }
}

/// Hex digits of a natural number, no leading zeros, in the given case.
pub open spec fn nat_hex(n: nat, upper: bool) -> Seq<char>
    decreases n,
{
    let d = (n % 16) as int;
    let last = if upper { hex_upper(d) } else { hex_lower(d) };
    if n < 16 {
        seq![last]
    } else {
        nat_hex(n / 16, upper) + seq![last]
    }
}

/// `{:04X}`: upper-case hex, padded with zeros to at least four digits.
pub open spec fn hex_upper_padded4(n: nat) -> Seq<char> {
    let h = nat_hex(n, true);
    if h.len() < 4 {
        Seq::new((4 - h.len()) as nat, |i: int| '0') + h
    } else {
        h
    }
}

fn digit(d: u64, upper: bool, hex: bool) -> (c: char)
    requires
        d < 16,
        !hex ==> d < 10,
    ensures
        !hex ==> c == digit_char(d as int),
        hex && !upper ==> c == hex_lower(d as int),
        hex && upper ==> c == hex_upper(d as int),
{
    let b: u8 = if d < 10 {
        48 + d as u8
    } else if upper {
        55 + d as u8
    } else {
        87 + d as u8
    };
    let c = ascii_char(b);
    proof {
        vstd::utf8::char_u32_cast(c, b as u32);
    }
    c
}

proof fn lemma_nat_decimal_len(n: nat)
    ensures
        nat_decimal(n).len() >= 1,
    decreases n,
{
    if n >= 10 {
        lemma_nat_decimal_len(n / 10);
    }
}

/// Appends the decimal digits of `n`.
pub(crate) fn push_decimal(out: &mut String, n: u64)
    ensures
        final(out)@ == old(out)@ + nat_decimal(n as nat),
    decreases n,
{
    if n >= 10 {
        push_decimal(out, n / 10);
    }
    let c = digit(n % 10, false, false);
    push_char(out, c);
    proof {
        if n >= 10 {
            assert(nat_decimal(n as nat) == nat_decimal((n / 10) as nat) + seq![digit_char((n % 10) as int)]);
        }
    }
}

/// Appends the hex digits of `n` in the given case.
pub(crate) fn push_hex(out: &mut Vec<char>, n: u64, upper: bool)
    ensures
        final(out)@ == old(out)@ + nat_hex(n as nat, upper),
    decreases n,
{
    if n >= 16 {
        push_hex(out, n / 16, upper);
    }
    let c = digit(n % 16, upper, true);
    out.push(c);
}

/// Appends `{:04X}` of `n`.
fn push_hex_upper_padded4(out: &mut Vec<char>, n: u32)
    ensures
        final(out)@ == old(out)@ + hex_upper_padded4(n as nat),
{
    let zeros: usize = if n < 0x10 {
        3
    } else if n < 0x100 {
        2
    } else if n < 0x1000 {
        1
    } else {
        0
    };
    proof {
        lemma_nat_hex_len(n as nat);
    }
    let ghost start = out@;
    let mut k: usize = 0;
    while k < zeros
        invariant
            k <= zeros <= 3,
            out@ == start + Seq::new(k as nat, |i: int| '0'),
        decreases zeros - k,
    {
        out.push('0');
        k += 1;
        proof {
            assert(out@ =~= start + Seq::new(k as nat, |i: int| '0'));
        }
    }
    push_hex(out, n as u64, true);
    proof {
        let h = nat_hex(n as nat, true);
        if h.len() < 4 {
            assert(zeros == 4 - h.len());
        } else {
            assert(zeros == 0);
        }
        assert(out@ =~= start + hex_upper_padded4(n as nat));
    }
}

proof fn lemma_nat_hex_len(n: nat)
    ensures
        n < 0x10 ==> nat_hex(n, true).len() == 1,
        0x10 <= n < 0x100 ==> nat_hex(n, true).len() == 2,
        0x100 <= n < 0x1000 ==> nat_hex(n, true).len() == 3,
        0x1000 <= n < 0x10000 ==> nat_hex(n, true).len() == 4,
        n >= 0x10000 ==> nat_hex(n, true).len() > 4,
    decreases n,
{
    if n >= 16 {
        lemma_nat_hex_len(n / 16);
    }
}

/// Appends the decimal digits of `n`.
pub(crate) fn push_decimal_wide(out: &mut String, n: u128)
    ensures
        final(out)@ == old(out)@ + nat_decimal(n as nat),
    decreases n,
{
    if n >= 10 {
        push_decimal_wide(out, n / 10);
    }
    let c = digit((n % 10) as u64, false, false);
    push_char(out, c);
    proof {
        if n >= 10 {
            assert(nat_decimal(n as nat) == nat_decimal((n / 10) as nat) + seq![digit_char((n % 10) as int)]);
        }
    }
}

/// Appends `v` in decimal.
pub(crate) fn push_int_wide(out: &mut String, v: i128)
    ensures
        final(out)@ == old(out)@ + int_decimal(v as int),
{
    if v < 0 {
        push_char(out, '-');
        let m: u128 = (-(v + 1)) as u128 + 1;
        push_decimal_wide(out, m);
        proof {
            assert(final(out)@ =~= old(out)@ + int_decimal(v as int)) by {
                assert(int_decimal(v as int) == seq!['-'] + nat_decimal(m as nat));
            }
        }
    } else {
        push_decimal_wide(out, v as u128);
    }
}

/// Appends `v` in decimal.
pub fn push_int(out: &mut String, v: i64)
    ensures
        final(out)@ == old(out)@ + int_decimal(v as int),
{
    if v < 0 {
        push_char(out, '-');
        let m: u64 = (0i128 - v as i128) as u64;
        push_decimal(out, m);
        proof {
            assert(final(out)@ =~= old(out)@ + int_decimal(v as int)) by {
                assert(int_decimal(v as int) == seq!['-'] + nat_decimal(m as nat));
            }
        }
    } else {
        push_decimal(out, v as u64);
    }
}

// ---- escaping ----

/// `char::escape_default`: tab, carriage return, line feed, quotes and
/// backslash get a backslash escape, printable ASCII stands for itself, and
/// every other character becomes `\u{..}` with lower-case hex digits.
pub open spec fn escape_default(c: char) -> Seq<char> {
    if c == '\t' {
        seq!['\\', 't']
    } else if c == '\r' {
        seq!['\\', 'r']
    } else if c == '\n' {
        seq!['\\', 'n']
    } else if c == '\'' {
        seq!['\\', '\'']
    } else if c == '"' {
        seq!['\\', '"']
    } else if c == '\\' {
        seq!['\\', '\\']
    } else if 0x20 <= c as u32 <= 0x7e {
        seq![c]
    } else {
        seq!['\\', 'u', '{'] + nat_hex(c as u32 as nat, false) + seq!['}']
    }
}

/// Every character of `s` passed through `escape_default`.
pub open spec fn escape_default_str(s: Seq<char>) -> Seq<char>
    decreases s.len(),
{
    if s.len() == 0 {
        Seq::empty()
    } else {
        escape_default_str(s.drop_last()) + escape_default(s.last())
    }
}

pub open spec fn starts_unicode_escape(s: Seq<char>) -> bool {
    s.len() >= 3 && s[0] == '\\' && s[1] == 'u' && s[2] == '{'
}

/// `s` with every `\u{`, found from left to right, replaced by `\x{`.
pub open spec fn rewrite_unicode_escapes(s: Seq<char>) -> Seq<char>
    decreases s.len(),
{
    if s.len() == 0 {
        Seq::empty()
    } else if starts_unicode_escape(s) {
        seq!['\\', 'x', '{'] + rewrite_unicode_escapes(s.skip(3))
    } else {
        seq![s[0]] + rewrite_unicode_escapes(s.skip(1))
    }
}

/// How the text of a char or string literal is shown: escaped, with code
/// points written in Eta's `\x{..}` form.
pub open spec fn shown(s: Seq<char>) -> Seq<char> {
    rewrite_unicode_escapes(escape_default_str(s))
}

pub(crate) fn push_lit(out: &mut Vec<char>, s: &str)
    ensures
        final(out)@ == old(out)@ + s@,
{
    let n = s.unicode_len();
    let mut i: usize = 0;
    while i < n
        invariant
            n == s@.len(),
            i <= n,
            out@ == old(out)@ + s@.take(i as int),
        decreases n - i,
    {
        let c = s.get_char(i);
        out.push(c);
        i += 1;
        proof {
            assert(out@ =~= old(out)@ + s@.take(i as int));
        }
    }
    proof {
        assert(s@.take(n as int) =~= s@);
    }
}

/// Appends `escape_default(c)`.
fn push_escape_default(out: &mut Vec<char>, c: char)
    ensures
        final(out)@ == old(out)@ + escape_default(c),
{
    let v = c as u32;
    let ghost start = out@;
    if c == '\t' || c == '\r' || c == '\n' || c == '\'' || c == '"' || c == '\\' {
        out.push('\\');
        if c == '\t' {
            out.push('t');
        } else if c == '\r' {
            out.push('r');
        } else if c == '\n' {
            out.push('n');
        } else {
            out.push(c);
        }
    } else if v >= 0x20 && v <= 0x7e {
        out.push(c);
    } else {
        out.push('\\');
        out.push('u');
        out.push('{');
        push_hex(out, v as u64, false);
        out.push('}');
    }
    proof {
        assert(out@ =~= start + escape_default(c));
    }
}

/// Appends `escape_default_str(s@)`.
pub(crate) fn push_escape_default_str(out: &mut Vec<char>, s: &str)
    ensures
        final(out)@ == old(out)@ + escape_default_str(s@),
{
    let n = s.unicode_len();
    let mut i: usize = 0;
    while i < n
        invariant
            n == s@.len(),
            i <= n,
            out@ == old(out)@ + escape_default_str(s@.take(i as int)),
        decreases n - i,
    {
        let c = s.get_char(i);
        push_escape_default(out, c);
        proof {
            let t = s@.take(i + 1);
            assert(t.drop_last() =~= s@.take(i as int));
            assert(t.last() == c);
        }
        i += 1;
        proof {
            assert(out@ =~= old(out)@ + escape_default_str(s@.take(i as int)));
        }
    }
    proof {
        assert(s@.take(n as int) =~= s@);
    }
}

/// Appends `rewrite_unicode_escapes(buf@)`.
fn push_rewritten(out: &mut String, buf: &Vec<char>)
    ensures
        final(out)@ == old(out)@ + rewrite_unicode_escapes(buf@),
{
    let n = buf.len();
    let mut i: usize = 0;
    proof {
        assert(buf@.skip(0) =~= buf@);
    }
    while i < n
        invariant
            n == buf@.len(),
            i <= n,
            out@ + rewrite_unicode_escapes(buf@.skip(i as int)) == old(out)@
                + rewrite_unicode_escapes(buf@),
        decreases n - i,
    {
        let ghost rest = buf@.skip(i as int);
        let ghost before = out@;
        if n - i >= 3 && buf[i] == '\\' && buf[i + 1] == 'u' && buf[i + 2] == '{' {
            proof {
                assert(starts_unicode_escape(rest));
                assert(rest.skip(3) =~= buf@.skip(i + 3));
            }
            push_char(out, '\\');
            push_char(out, 'x');
            push_char(out, '{');
            i += 3;
            proof {
                assert(out@ =~= before + seq!['\\', 'x', '{']);
            }
        } else {
            proof {
                assert(!starts_unicode_escape(rest));
                assert(rest.skip(1) =~= buf@.skip(i + 1));
                assert(rest[0] == buf@[i as int]);
            }
            push_char(out, buf[i]);
            i += 1;
        }
    }
    proof {
        assert(buf@.skip(n as int) =~= Seq::<char>::empty());
    }
}

/// Appends how `s` is shown.
fn push_shown(out: &mut String, s: &str)
    ensures
        final(out)@ == old(out)@ + shown(s@),
{
    let mut buf: Vec<char> = Vec::new();
    push_escape_default_str(&mut buf, s);
    proof {
        assert(buf@ =~= escape_default_str(s@));
    }
    push_rewritten(out, &buf);
}

pub(crate) fn string_of(v: &Vec<char>) -> (s: String)
    ensures
        s@ == v@,
{
    let mut s = String::new();
    let n = v.len();
    let mut i: usize = 0;
    while i < n
        invariant
            n == v@.len(),
            i <= n,
            s@ == v@.take(i as int),
        decreases n - i,
    {
        push_char(&mut s, v[i]);
        i += 1;
        proof {
            assert(s@ =~= v@.take(i as int));
        }
    }
    proof {
        assert(v@.take(n as int) =~= v@);
    }
    s
}

// ---- tokens ----

/// How a token is printed in the `.lexed` dump.
pub open spec fn token_text(t: RawToken) -> Seq<char> {
    match t {
        RawToken::KeywordUse => "use"@,
        RawToken::KeywordLength => "length"@,
        RawToken::KeywordWhile => "while"@,
        RawToken::KeywordIf => "if"@,
        RawToken::KeywordElse => "else"@,
        RawToken::KeywordReturn => "return"@,
        RawToken::KeywordInt => "int"@,
        RawToken::KeywordBool => "bool"@,
        RawToken::SemiColon => ";"@,
        RawToken::Discard => "_"@,
        RawToken::OfType => ":"@,
        RawToken::Assign => "="@,
        RawToken::Comma => ","@,
        RawToken::BoolLiteral(b) => if b { "true"@ } else { "false"@ },
        RawToken::CharLiteral(c) => "character "@ + shown(seq![c as char]),
        RawToken::StrLiteral(s) => "string "@ + shown(s@),
        RawToken::Identifier(s) => "id "@ + s@,
        RawToken::Integer(n) => "integer "@ + int_decimal(n as int),
        RawToken::LParen => "("@,
        RawToken::RParen => ")"@,
        RawToken::LBracket => "["@,
        RawToken::RBracket => "]"@,
        RawToken::BlockOpen => "{"@,
        RawToken::BlockClose => "}"@,
        RawToken::OperatorMul => "*"@,
        RawToken::OperatorHighMul => "*>>"@,
        RawToken::OperatorDiv => "/"@,
        RawToken::OperatorMod => "%"@,
        RawToken::OperatorNot => "!"@,
        RawToken::Minus => "-"@,
        RawToken::OperatorAdd => "+"@,
        RawToken::RelOpEq => "=="@,
        RawToken::RelOpNeq => "!="@,
        RawToken::RelOpGr => ">"@,
        RawToken::RelOpGe => ">="@,
        RawToken::RelOpLt => "<"@,
        RawToken::RelOpLe => "<="@,
        RawToken::Land => "&"@,
        RawToken::Lor => "|"@,
    }
}

proof fn lemma_escape_default_str_single(c: char)
    ensures
        escape_default_str(seq![c]) == escape_default(c),
{
    assert(seq![c].drop_last() =~= Seq::<char>::empty());
    assert(escape_default_str(Seq::<char>::empty()) + escape_default(c) =~= escape_default(c));
}

impl RawToken {
    /// The token as the `.lexed` dump prints it.
    pub fn to_string(&self) -> (s: String)
        requires
            (*self) matches RawToken::CharLiteral(c) ==> vstd::utf8::is_scalar(c),
        ensures
            s@ == token_text(*self),
    {
        match self {
            RawToken::KeywordUse => String::from_str("use"),
            RawToken::KeywordLength => String::from_str("length"),
            RawToken::KeywordWhile => String::from_str("while"),
            RawToken::KeywordIf => String::from_str("if"),
            RawToken::KeywordElse => String::from_str("else"),
            RawToken::KeywordReturn => String::from_str("return"),
            RawToken::KeywordInt => String::from_str("int"),
            RawToken::KeywordBool => String::from_str("bool"),
            RawToken::SemiColon => String::from_str(";"),
            RawToken::Discard => String::from_str("_"),
            RawToken::OfType => String::from_str(":"),
            RawToken::Assign => String::from_str("="),
            RawToken::Comma => String::from_str(","),
            RawToken::BoolLiteral(b) => if *b {
                String::from_str("true")
            } else {
                String::from_str("false")
            },
            RawToken::CharLiteral(c) => {
                let ch = match char_from_u32(*c) {
                    Some(ch) => ch,
                    None => {
                        proof {
                            assert(false);
                        }
                        ' '
                    },
                };
                proof {
                    vstd::utf8::char_u32_cast(ch, *c);
                    lemma_escape_default_str_single(ch);
                }
                let mut out = String::from_str("character ");
                let mut buf: Vec<char> = Vec::new();
                push_escape_default(&mut buf, ch);
                push_rewritten(&mut out, &buf);
                proof {
                    assert(buf@ =~= escape_default_str(seq![(*c) as char]));
                }
                out
            },
            RawToken::StrLiteral(s) => {
                let mut out = String::from_str("string ");
                push_shown(&mut out, s.as_str());
                out
            },
            RawToken::Identifier(s) => {
                let mut out = String::from_str("id ");
                push_str(&mut out, s.as_str());
                out
            },
            RawToken::Integer(n) => {
                let mut out = String::from_str("integer ");
                push_int(&mut out, *n);
                out
            },
            RawToken::LParen => String::from_str("("),
            RawToken::RParen => String::from_str(")"),
            RawToken::LBracket => String::from_str("["),
            RawToken::RBracket => String::from_str("]"),
            RawToken::BlockOpen => String::from_str("{"),
            RawToken::BlockClose => String::from_str("}"),
            RawToken::OperatorMul => String::from_str("*"),
            RawToken::OperatorHighMul => String::from_str("*>>"),
            RawToken::OperatorDiv => String::from_str("/"),
            RawToken::OperatorMod => String::from_str("%"),
            RawToken::OperatorNot => String::from_str("!"),
            RawToken::Minus => String::from_str("-"),
            RawToken::OperatorAdd => String::from_str("+"),
            RawToken::RelOpEq => String::from_str("=="),
            RawToken::RelOpNeq => String::from_str("!="),
            RawToken::RelOpGr => String::from_str(">"),
            RawToken::RelOpGe => String::from_str(">="),
            RawToken::RelOpLt => String::from_str("<"),
            RawToken::RelOpLe => String::from_str("<="),
            RawToken::Land => String::from_str("&"),
            RawToken::Lor => String::from_str("|"),
        }
    }
}

/// The characters of ASCII bytes.
pub open spec fn chars_of(b: Seq<u8>) -> Seq<char> {
    b.map_values(|x: u8| x as char)
}

/// Every fixed token is spelled in ASCII.
pub proof fn lemma_spelling_ascii(f: Fixed)
    ensures
        spelling(f).len() >= 1,
        forall|i: int| 0 <= i < spelling(f).len() ==> #[trigger] spelling(f)[i] < 128,
{
}

/// ASCII bytes read as chars encode back to the same bytes.
pub proof fn lemma_ascii_chars_of(b: Seq<u8>)
    requires
        forall|i: int| 0 <= i < b.len() ==> #[trigger] b[i] < 128,
    ensures
        vstd::utf8::encode_utf8(chars_of(b)) == b,
{
    let cs = chars_of(b);
    assert(vstd::utf8::is_ascii_chars(cs)) by {
        assert forall|i: int| 0 <= i < cs.len() implies '\0' <= #[trigger] cs[i] <= '\u{7f}' by {
            assert(b[i] < 128);
        }
    }
    vstd::utf8::is_ascii_chars_encode_utf8(cs);
    assert(vstd::utf8::encode_utf8(cs) =~= b) by {
        assert forall|i: int| 0 <= i < b.len() implies vstd::utf8::encode_utf8(cs)[i] == b[i] by {
            assert(cs[i] as u8 == vstd::utf8::encode_utf8(cs)[i]);
            assert(cs[i] == b[i] as char);
        }
    }
}

/// A keyword, boolean or operator token prints exactly as it is spelled in
/// the source.
pub proof fn lemma_fixed_token_text(f: Fixed)
    ensures
        token_text(token_of_fixed(f)) == chars_of(spelling(f)),
{
    match f {
        Fixed::KeywordUse => {
            reveal_strlit("use");
            assert(token_text(token_of_fixed(f)) =~= chars_of(spelling(f)));
        },
        Fixed::KeywordLength => {
            reveal_strlit("length");
            assert(token_text(token_of_fixed(f)) =~= chars_of(spelling(f)));
        },
        Fixed::KeywordWhile => {
            reveal_strlit("while");
            assert(token_text(token_of_fixed(f)) =~= chars_of(spelling(f)));
        },
        Fixed::KeywordIf => {
            reveal_strlit("if");
            assert(token_text(token_of_fixed(f)) =~= chars_of(spelling(f)));
        },
        Fixed::KeywordElse => {
            reveal_strlit("else");
            assert(token_text(token_of_fixed(f)) =~= chars_of(spelling(f)));
        },
        Fixed::KeywordReturn => {
            reveal_strlit("return");
            assert(token_text(token_of_fixed(f)) =~= chars_of(spelling(f)));
        },
        Fixed::KeywordInt => {
            reveal_strlit("int");
            assert(token_text(token_of_fixed(f)) =~= chars_of(spelling(f)));
        },
        Fixed::KeywordBool => {
            reveal_strlit("bool");
            assert(token_text(token_of_fixed(f)) =~= chars_of(spelling(f)));
        },
        Fixed::True => {
            reveal_strlit("true");
            assert(token_text(token_of_fixed(f)) =~= chars_of(spelling(f)));
        },
        Fixed::False => {
            reveal_strlit("false");
            assert(token_text(token_of_fixed(f)) =~= chars_of(spelling(f)));
        },
        Fixed::SemiColon => {
            reveal_strlit(";");
            assert(token_text(token_of_fixed(f)) =~= chars_of(spelling(f)));
        },
        Fixed::Discard => {
            reveal_strlit("_");
            assert(token_text(token_of_fixed(f)) =~= chars_of(spelling(f)));
        },
        Fixed::OfType => {
            reveal_strlit(":");
            assert(token_text(token_of_fixed(f)) =~= chars_of(spelling(f)));
        },
        Fixed::Assign => {
            reveal_strlit("=");
            assert(token_text(token_of_fixed(f)) =~= chars_of(spelling(f)));
        },
        Fixed::Comma => {
            reveal_strlit(",");
            assert(token_text(token_of_fixed(f)) =~= chars_of(spelling(f)));
        },
        Fixed::LParen => {
            reveal_strlit("(");
            assert(token_text(token_of_fixed(f)) =~= chars_of(spelling(f)));
        },
        Fixed::RParen => {
            reveal_strlit(")");
            assert(token_text(token_of_fixed(f)) =~= chars_of(spelling(f)));
        },
        Fixed::LBracket => {
            reveal_strlit("[");
            assert(token_text(token_of_fixed(f)) =~= chars_of(spelling(f)));
        },
        Fixed::RBracket => {
            reveal_strlit("]");
            assert(token_text(token_of_fixed(f)) =~= chars_of(spelling(f)));
        },
        Fixed::BlockOpen => {
            reveal_strlit("{");
            assert(token_text(token_of_fixed(f)) =~= chars_of(spelling(f)));
        },
        Fixed::BlockClose => {
            reveal_strlit("}");
            assert(token_text(token_of_fixed(f)) =~= chars_of(spelling(f)));
        },
        Fixed::OperatorMul => {
            reveal_strlit("*");
            assert(token_text(token_of_fixed(f)) =~= chars_of(spelling(f)));
        },
        Fixed::OperatorHighMul => {
            reveal_strlit("*>>");
            assert(token_text(token_of_fixed(f)) =~= chars_of(spelling(f)));
        },
        Fixed::OperatorDiv => {
            reveal_strlit("/");
            assert(token_text(token_of_fixed(f)) =~= chars_of(spelling(f)));
        },
        Fixed::OperatorMod => {
            reveal_strlit("%");
            assert(token_text(token_of_fixed(f)) =~= chars_of(spelling(f)));
        },
        Fixed::OperatorNot => {
            reveal_strlit("!");
            assert(token_text(token_of_fixed(f)) =~= chars_of(spelling(f)));
        },
        Fixed::Minus => {
            reveal_strlit("-");
            assert(token_text(token_of_fixed(f)) =~= chars_of(spelling(f)));
        },
        Fixed::OperatorAdd => {
            reveal_strlit("+");
            assert(token_text(token_of_fixed(f)) =~= chars_of(spelling(f)));
        },
        Fixed::RelOpEq => {
            reveal_strlit("==");
            assert(token_text(token_of_fixed(f)) =~= chars_of(spelling(f)));
        },
        Fixed::RelOpNeq => {
            reveal_strlit("!=");
            assert(token_text(token_of_fixed(f)) =~= chars_of(spelling(f)));
        },
        Fixed::RelOpGr => {
            reveal_strlit(">");
            assert(token_text(token_of_fixed(f)) =~= chars_of(spelling(f)));
        },
        Fixed::RelOpGe => {
            reveal_strlit(">=");
            assert(token_text(token_of_fixed(f)) =~= chars_of(spelling(f)));
        },
        Fixed::RelOpLt => {
            reveal_strlit("<");
            assert(token_text(token_of_fixed(f)) =~= chars_of(spelling(f)));
        },
        Fixed::RelOpLe => {
            reveal_strlit("<=");
            assert(token_text(token_of_fixed(f)) =~= chars_of(spelling(f)));
        },
        Fixed::Land => {
            reveal_strlit("&");
            assert(token_text(token_of_fixed(f)) =~= chars_of(spelling(f)));
        },
        Fixed::Lor => {
            reveal_strlit("|");
            assert(token_text(token_of_fixed(f)) =~= chars_of(spelling(f)));
        },
    }
}

// ---- lexical errors ----

/// The escapes that a literal may hold, as the error notes list them.
pub open spec fn valid_escapes() -> Seq<char> {
    "valid escapes: '\\n', '\\t', '\\r', '\\\\', '\\'', '\\\"', '\\0', '\\x{..}'"@
}

pub open spec fn integer_range_note() -> Seq<char> {
    "eta only supports ints in the range [-2^63, 2^63)"@
}

pub open spec fn surrogate_note(cp: u32) -> Seq<char> {
    "U+"@ + hex_upper_padded4(cp as nat)
        + " is a UTF-16 surrogate half and is not a valid Unicode scalar value; surrogate halves (U+D800–U+DFFF) cannot be used in escape sequences"@
}

/// The headline of a lexical error.
pub open spec fn error_message(k: LexErrorKind) -> Seq<char> {
    match k {
        LexErrorKind::UnknownToken => "unknown token"@,
        LexErrorKind::IntegerTooLarge => "illegal integer literal: number too large to fit in target type"@,
        LexErrorKind::IntegerTooSmall => "illegal integer literal: number too small to fit in target type"@,
        LexErrorKind::ExpectedBrace => "expected '{{' after '\\x'"@,
        LexErrorKind::EmptyUnicodeEscape => "empty unicode escape expected non-empty hex between '{{' and '}}'"@,
        LexErrorKind::TooManyHexDigits => "too many hex digits in unicode escape"@,
        LexErrorKind::UnicodeEscapeOutOfRange => "unicode escape out of range"@,
        LexErrorKind::InvalidHexDigit(ch) => "invalid hex digit '"@ + seq![ch] + "' in unicode escape: '"@,
        LexErrorKind::UnterminatedUnicodeEscape => "unterminated unicode escape"@,
        LexErrorKind::DanglingBackslash => "dangling backslash"@,
        LexErrorKind::SurrogateEscape(_) => "invalid unicode escape"@,
        LexErrorKind::UnknownEscape(ch) => "unknown escape: '\\"@ + seq![ch] + "' is not a recognized escape sequence"@,
        LexErrorKind::EmptyCharLiteral => "empty character literal"@,
        LexErrorKind::InvalidCharLiteral => "invalid char literal"@,
        LexErrorKind::TooManyCharacters => "too many characters in char literal"@,
    }
}

/// The text of the label under the offending source.
pub open spec fn error_label(k: LexErrorKind) -> Seq<char> {
    match k {
        LexErrorKind::UnknownToken => "this token"@,
        LexErrorKind::IntegerTooLarge => "this number is too large"@,
        LexErrorKind::IntegerTooSmall => "this number is too small"@,
        LexErrorKind::ExpectedBrace => "at this escape sequence"@,
        LexErrorKind::EmptyUnicodeEscape => "expected non-empty hex here"@,
        LexErrorKind::TooManyHexDigits => "too many hex digits here"@,
        LexErrorKind::UnicodeEscapeOutOfRange => "this isn't a valid codepoint"@,
        LexErrorKind::InvalidHexDigit(_) => "inside this unicode escape"@,
        LexErrorKind::UnterminatedUnicodeEscape => "unicode escape unclosed here"@,
        LexErrorKind::DanglingBackslash => "closing quote is escaped here"@,
        LexErrorKind::SurrogateEscape(_) => "this escape produces a surrogate half"@,
        LexErrorKind::UnknownEscape(_) => "this isn't a recognized escape sequence"@,
        LexErrorKind::EmptyCharLiteral => "empty here"@,
        LexErrorKind::InvalidCharLiteral => "this is not a valid char literal"@,
        LexErrorKind::TooManyCharacters => "this literal contains more than one character"@,
    }
}

/// The note that follows the error, where it has one.
pub open spec fn error_note(k: LexErrorKind) -> Option<Seq<char>> {
    match k {
        LexErrorKind::UnknownToken => None,
        LexErrorKind::IntegerTooLarge => Some(integer_range_note()),
        LexErrorKind::IntegerTooSmall => Some(integer_range_note()),
        LexErrorKind::ExpectedBrace => None,
        LexErrorKind::EmptyUnicodeEscape => None,
        LexErrorKind::TooManyHexDigits => Some(
            "at most 6 hex digits are allowed between '{' and '}' (codepoints only go up to 10FFFF), e.g. '\\x{10FFFF}'"@,
        ),
        LexErrorKind::UnicodeEscapeOutOfRange => Some(
            "the maximum valid codepoint is U+10FFFF ('\\x{10FFFF}')"@,
        ),
        LexErrorKind::InvalidHexDigit(_) => Some(
            "only the digits 0-9 and letters a-f/A-F are allowed inside '\\x{...}"@,
        ),
        LexErrorKind::UnterminatedUnicodeEscape => Some(
            "expected a closing '}' before the end of the literal"@,
        ),
        LexErrorKind::DanglingBackslash => Some("expected an escape character after '\\'"@),
        LexErrorKind::SurrogateEscape(cp) => Some(surrogate_note(cp)),
        LexErrorKind::UnknownEscape(_) => Some(valid_escapes()),
        LexErrorKind::EmptyCharLiteral => Some("a char literal must contain exactly one character"@),
        LexErrorKind::InvalidCharLiteral => None,
        LexErrorKind::TooManyCharacters => Some(
            " a char literal must contain exactly one character; did you mean to use a string literal (\"...\") instead?"@,
        ),
    }
}

fn valid_escapes_text() -> (s: String)
    ensures
        s@ == valid_escapes(),
{
    String::from_str("valid escapes: '\\n', '\\t', '\\r', '\\\\', '\\'', '\\\"', '\\0', '\\x{..}'")
}

fn integer_range_text() -> (s: String)
    ensures
        s@ == integer_range_note(),
{
    String::from_str("eta only supports ints in the range [-2^63, 2^63)")
}

impl InternalLexerError {
    /// The headline of the error.
    pub fn message(&self) -> (s: String)
        ensures
            s@ == error_message(self.kind),
    {
        match self.kind {
            LexErrorKind::UnknownToken => String::from_str("unknown token"),
            LexErrorKind::IntegerTooLarge => String::from_str(
                "illegal integer literal: number too large to fit in target type",
            ),
            LexErrorKind::IntegerTooSmall => String::from_str(
                "illegal integer literal: number too small to fit in target type",
            ),
            LexErrorKind::ExpectedBrace => String::from_str("expected '{{' after '\\x'"),
            LexErrorKind::EmptyUnicodeEscape => String::from_str(
                "empty unicode escape expected non-empty hex between '{{' and '}}'",
            ),
            LexErrorKind::TooManyHexDigits => String::from_str("too many hex digits in unicode escape"),
            LexErrorKind::UnicodeEscapeOutOfRange => String::from_str("unicode escape out of range"),
            LexErrorKind::InvalidHexDigit(ch) => {
                let mut s = String::from_str("invalid hex digit '");
                push_char(&mut s, ch);
                push_str(&mut s, "' in unicode escape: '");
                s
            },
            LexErrorKind::UnterminatedUnicodeEscape => String::from_str("unterminated unicode escape"),
            LexErrorKind::DanglingBackslash => String::from_str("dangling backslash"),
            LexErrorKind::SurrogateEscape(_) => String::from_str("invalid unicode escape"),
            LexErrorKind::UnknownEscape(ch) => {
                let mut s = String::from_str("unknown escape: '\\");
                push_char(&mut s, ch);
                push_str(&mut s, "' is not a recognized escape sequence");
                s
            },
            LexErrorKind::EmptyCharLiteral => String::from_str("empty character literal"),
            LexErrorKind::InvalidCharLiteral => String::from_str("invalid char literal"),
            LexErrorKind::TooManyCharacters => String::from_str("too many characters in char literal"),
        }
    }

    /// The text of the label under the offending source.
    pub fn label(&self) -> (s: String)
        ensures
            s@ == error_label(self.kind),
    {
        match self.kind {
            LexErrorKind::UnknownToken => String::from_str("this token"),
            LexErrorKind::IntegerTooLarge => String::from_str("this number is too large"),
            LexErrorKind::IntegerTooSmall => String::from_str("this number is too small"),
            LexErrorKind::ExpectedBrace => String::from_str("at this escape sequence"),
            LexErrorKind::EmptyUnicodeEscape => String::from_str("expected non-empty hex here"),
            LexErrorKind::TooManyHexDigits => String::from_str("too many hex digits here"),
            LexErrorKind::UnicodeEscapeOutOfRange => String::from_str("this isn't a valid codepoint"),
            LexErrorKind::InvalidHexDigit(_) => String::from_str("inside this unicode escape"),
            LexErrorKind::UnterminatedUnicodeEscape => String::from_str("unicode escape unclosed here"),
            LexErrorKind::DanglingBackslash => String::from_str("closing quote is escaped here"),
            LexErrorKind::SurrogateEscape(_) => String::from_str("this escape produces a surrogate half"),
            LexErrorKind::UnknownEscape(_) => String::from_str("this isn't a recognized escape sequence"),
            LexErrorKind::EmptyCharLiteral => String::from_str("empty here"),
            LexErrorKind::InvalidCharLiteral => String::from_str("this is not a valid char literal"),
            LexErrorKind::TooManyCharacters => String::from_str(
                "this literal contains more than one character",
            ),
        }
    }

    /// The note that follows the error, where it has one.
    pub fn note(&self) -> (s: Option<String>)
        ensures
            s matches Some(t) ==> error_note(self.kind) == Some(t@),
            s is None <==> error_note(self.kind) is None,
    {
        match self.kind {
            LexErrorKind::UnknownToken => None,
            LexErrorKind::IntegerTooLarge => Some(integer_range_text()),
            LexErrorKind::IntegerTooSmall => Some(integer_range_text()),
            LexErrorKind::ExpectedBrace => None,
            LexErrorKind::EmptyUnicodeEscape => None,
            LexErrorKind::TooManyHexDigits => Some(
                String::from_str(
                    "at most 6 hex digits are allowed between '{' and '}' (codepoints only go up to 10FFFF), e.g. '\\x{10FFFF}'",
                ),
            ),
            LexErrorKind::UnicodeEscapeOutOfRange => Some(
                String::from_str("the maximum valid codepoint is U+10FFFF ('\\x{10FFFF}')"),
            ),
            LexErrorKind::InvalidHexDigit(_) => Some(
                String::from_str("only the digits 0-9 and letters a-f/A-F are allowed inside '\\x{...}"),
            ),
            LexErrorKind::UnterminatedUnicodeEscape => Some(
                String::from_str("expected a closing '}' before the end of the literal"),
            ),
            LexErrorKind::DanglingBackslash => Some(
                String::from_str("expected an escape character after '\\'"),
            ),
            LexErrorKind::SurrogateEscape(cp) => {
                let mut buf: Vec<char> = Vec::new();
                push_lit(&mut buf, "U+");
                push_hex_upper_padded4(&mut buf, cp);
                push_lit(
                    &mut buf,
                    " is a UTF-16 surrogate half and is not a valid Unicode scalar value; surrogate halves (U+D800–U+DFFF) cannot be used in escape sequences",
                );
                Some(string_of(&buf))
            },
            LexErrorKind::UnknownEscape(_) => Some(valid_escapes_text()),
            LexErrorKind::EmptyCharLiteral => Some(
                String::from_str("a char literal must contain exactly one character"),
            ),
            LexErrorKind::InvalidCharLiteral => None,
            LexErrorKind::TooManyCharacters => Some(
                String::from_str(
                    " a char literal must contain exactly one character; did you mean to use a string literal (\"...\") instead?",
                ),
            ),
        }
    }
}

} // verus!
