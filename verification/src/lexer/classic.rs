//! The classic token set of the single-file front end: unsigned integer
//! literals, char literals that hold exactly one character or escape, string
//! literals, and a plainer printed form.
use vstd::prelude::*;
use vstd::string::StringExecFns;
use vstd::string::StrSliceExecFns;
use std::ops::Range;
use crate::diag::no_file::NoFileDiagnostic;
use crate::diag::{LabelColor, Level};
use vstd::utf8::encode_utf8;
use crate::lexer::grammar::{spelling, Fixed};
use crate::lexer::tokens::{token_of_fixed, RawToken};
use crate::lexer::text::{chars_of, int_decimal, lemma_ascii_chars_of, lemma_spelling_ascii, nat_hex, push_decimal, push_hex, push_int, string_of};
use crate::text::{char_from_u32, push_char, push_str};

verus! {

pub open spec fn is_hex_char(c: char) -> bool {
    (48 <= c as u32 <= 57) || (97 <= c as u32 <= 102) || (65 <= c as u32 <= 70)
}

pub open spec fn hex_char_value(c: char) -> int {
    if 48 <= c as u32 <= 57 {
        c as u32 - 48
    } else if 97 <= c as u32 <= 102 {
        c as u32 - 87
    } else {
        c as u32 - 55
    }
}

/// Number of hex digits in the run that starts at index `i` of `s`.
pub open spec fn hex_run_chars(s: Seq<char>, i: int) -> nat
    decreases s.len() - i,
{
    if 0 <= i < s.len() && is_hex_char(s[i]) {
        1 + hex_run_chars(s, i + 1)
    } else {
        0
    }
}

/// Value of the `k` hex digits at index `i` of `s`.
pub open spec fn hex_chars_value(s: Seq<char>, i: int, k: int) -> int
    decreases k,
{
    if k <= 0 {
        0
    } else {
        hex_chars_value(s, i, k - 1) * 16 + hex_char_value(s[i + k - 1])
    }
}

/// The codepoints of the one-character escapes.
pub open spec fn simple_escape(c: char) -> Option<u32> {
    if c == 'n' {
        Some(10)
    } else if c == 't' {
        Some(9)
    } else if c == 'r' {
        Some(13)
    } else if c == '\\' {
        Some(92)
    } else if c == '\'' {
        Some(39)
    } else if c == '"' {
        Some(34)
    } else if c == '0' {
        Some(0)
    } else {
        None
    }
}

/// The Unicode scalar value that the inside of a char literal stands for:
/// one character; or a backslash and a one-character escape, with nothing
/// after it; or `\x{..}` with at least one hex digit, nothing after the `}`,
/// and a value that is a Unicode scalar value (at most 0x10FFFF, no
/// surrogate half).
pub open spec fn char_content(s: Seq<char>) -> Option<u32> {
    if s.len() == 0 {
        None
    } else if s[0] != '\\' {
        if s.len() == 1 {
            Some(s[0] as u32)
        } else {
            None
        }
    } else if s.len() < 2 {
        None
    } else if s[1] == 'x' {
        let k = hex_run_chars(s, 3) as int;
        if s.len() >= 3 && s[2] == '{' && k >= 1 && 3 + k + 1 == s.len() && s[3 + k] == '}'
            && hex_chars_value(s, 3, k) <= u32::MAX && vstd::utf8::is_scalar(hex_chars_value(s, 3, k) as u32) {
            Some(hex_chars_value(s, 3, k) as u32)
        } else {
            None
        }
    } else if s.len() == 2 {
        simple_escape(s[1])
    } else {
        None
    }
}

proof fn lemma_hex_run_chars(s: Seq<char>, i: int, j: int)
    requires
        0 <= i <= j <= s.len(),
        forall|m: int| i <= m < j ==> is_hex_char(#[trigger] s[m]),
    ensures
        j < s.len() && !is_hex_char(s[j]) ==> hex_run_chars(s, i) == j - i,
        j == s.len() ==> hex_run_chars(s, i) == j - i,
        hex_run_chars(s, i) >= j - i,
    decreases j - i,
{
    if i < j {
        lemma_hex_run_chars(s, i + 1, j);
    }
}

proof fn lemma_hex_chars_value_grows(s: Seq<char>, i: int, k: int, m: int)
    requires
        0 <= m <= k,
        forall|p: int| i <= p < i + k ==> is_hex_char(#[trigger] s[p]),
    ensures
        hex_chars_value(s, i, k) >= hex_chars_value(s, i, m) >= 0,
    decreases k,
{
    if k > m {
        lemma_hex_chars_value_grows(s, i, k - 1, m);
    } else if k > 0 {
        lemma_hex_chars_value_grows(s, i, k - 1, k - 1);
    }
}

fn hex_char_digit(c: char) -> (d: u64)
    requires
        is_hex_char(c),
    ensures
        d == hex_char_value(c),
{
    let v = c as u32;
    if v >= 48 && v <= 57 {
        (v - 48) as u64
    } else if v >= 97 && v <= 102 {
        (v - 87) as u64
    } else {
        (v - 55) as u64
    }
}

fn is_hex(c: char) -> (b: bool)
    ensures
        b == is_hex_char(c),
{
    let v = c as u32;
    (v >= 48 && v <= 57) || (v >= 97 && v <= 102) || (v >= 65 && v <= 70)
}

/// Decodes the inside of a char literal (without its quotes).
pub fn decode_char_content(inner: &str) -> (r: Option<u32>)
    ensures
        r == char_content(inner@),
        r matches Some(v) ==> vstd::utf8::is_scalar(v),
{
    let n = inner.unicode_len();
    let ghost s = inner@;
    if n == 0 {
        return None;
    }
    let first = inner.get_char(0);
    if first != '\\' {
        if n == 1 {
            proof {
                vstd::utf8::char_is_scalar(first);
            }
            return Some(first as u32);
        }
        return None;
    }
    if n < 2 {
        return None;
    }
    let esc = inner.get_char(1);
    if esc != 'x' && n != 2 {
        return None;
    }
    if esc == 'n' {
        Some(10)
    } else if esc == 't' {
        Some(9)
    } else if esc == 'r' {
        Some(13)
    } else if esc == '\\' {
        Some(92)
    } else if esc == '\'' {
        Some(39)
    } else if esc == '"' {
        Some(34)
    } else if esc == '0' {
        Some(0)
    } else if esc == 'x' {
        if n < 3 || inner.get_char(2) != '{' {
            return None;
        }
        let mut i: usize = 3;
        let mut value: u64 = 0;
        while i < n && is_hex(inner.get_char(i))
            invariant
                n == s.len(),
                s == inner@,
                3 <= i <= n,
                s[2] == '{',
                s[1] == 'x',
                s[0] == '\\',
                forall|m: int| 3 <= m < i ==> is_hex_char(#[trigger] s[m]),
                value == hex_chars_value(s, 3, i - 3),
                value <= u32::MAX,
            decreases n - i,
        {
            let d = hex_char_digit(inner.get_char(i));
            let next = value * 16 + d;
            if next > 0xFFFF_FFFF {
                proof {
                    lemma_hex_run_chars(s, 3, i + 1);
                    let k = hex_run_chars(s, 3) as int;
                    assert(forall|m: int| 3 <= m < 3 + k ==> is_hex_char(#[trigger] s[m])) by {
                        assert forall|m: int| 3 <= m < 3 + k implies is_hex_char(#[trigger] s[m]) by {
                            lemma_hex_run_prefix(s, 3, m);
                        }
                    }
                    lemma_hex_chars_value_grows(s, 3, k, i + 1 - 3);
                }
                return None;
            }
            value = next;
            i += 1;
        }
        proof {
            lemma_hex_run_chars(s, 3, i as int);
        }
        if i == 3 || i >= n || inner.get_char(i) != '}' || i + 1 != n {
            return None;
        }
        match char_from_u32(value as u32) {
            Some(_) => Some(value as u32),
            None => None,
        }
    } else {
        None
    }
}

/// Every index inside the hex run at `i` holds a hex digit.
proof fn lemma_hex_run_prefix(s: Seq<char>, i: int, m: int)
    requires
        0 <= i <= m < i + hex_run_chars(s, i),
    ensures
        is_hex_char(s[m]),
    decreases m - i,
{
    if m > i {
        lemma_hex_run_prefix(s, i + 1, m);
    }
}


// ---- the token callbacks ----

/// An error at `span` with `message`, one red label at `span` with `label`,
/// and nothing else.
pub open spec fn is_error_at(d: NoFileDiagnostic, span: Range<usize>, message: Seq<char>, label: Seq<char>) -> bool {
    &&& d.level == Level::Error
    &&& d.message@ == message
    &&& d.code is None
    &&& d.note is None
    &&& d.labels_view() == seq![(span.start, span.end, label, LabelColor::Red)]
}

fn error_at(span: &Range<usize>, message: String, label: String) -> (d: NoFileDiagnostic)
    ensures
        is_error_at(d, *span, message@, label@),
{
    let d = NoFileDiagnostic::error(message).with_primary_label(span, label);
    proof {
        assert(d.labels_view() =~= seq![(span.start, span.end, label@, LabelColor::Red)]);
    }
    d
}

pub open spec fn is_digit_char(c: char) -> bool {
    48 <= c as u32 <= 57
}

/// What reading the decimal digits of `d` from index `i` on gives, `acc`
/// being the value of those before: the first non-digit, or the first digit
/// that takes the value past `u64::MAX`, is an error.
pub open spec fn decimal_scan(d: Seq<char>, i: int, acc: int) -> Result<u64, Seq<char>>
    decreases d.len() - i,
{
    if i >= d.len() {
        Ok(acc as u64)
    } else if !is_digit_char(d[i]) {
        Err("invalid digit found in string"@)
    } else if acc * 10 + (d[i] as u32 - 48) > u64::MAX {
        Err("number too large to fit in target type"@)
    } else {
        decimal_scan(d, i + 1, acc * 10 + (d[i] as u32 - 48))
    }
}

/// What `str::parse::<u64>` gives for `s`: the value, or the text of its
/// error. A lone sign is an invalid digit, and a leading `+` is skipped.
pub open spec fn u64_text(s: Seq<char>) -> Result<u64, Seq<char>> {
    if s.len() == 0 {
        Err("cannot parse integer from empty string"@)
    } else if s.len() == 1 && (s[0] == '+' || s[0] == '-') {
        Err("invalid digit found in string"@)
    } else if s[0] == '+' {
        decimal_scan(s, 1, 0)
    } else {
        decimal_scan(s, 0, 0)
    }
}

/// Reads an integer literal, whose text is `slice` and whose place is
/// `span`: its value, or an error naming why it is not one. The label is the
/// same text as the reason.
pub fn parse_int(slice: &str, span: &Range<usize>) -> (r: Result<u64, NoFileDiagnostic>)
    ensures
        match u64_text(slice@) {
            Ok(v) => r == Ok::<u64, NoFileDiagnostic>(v),
            Err(m) => r matches Err(d) && is_error_at(d, *span, "illegal integer literal: "@ + m, m),
        },
{
    let n = slice.unicode_len();
    let ghost s = slice@;
    let mut reason: &str = "";
    let mut value: u64 = 0;
    let mut ok = true;
    if n == 0 {
        reason = "cannot parse integer from empty string";
        ok = false;
    } else {
        let c0 = slice.get_char(0);
        if n == 1 && (c0 == '+' || c0 == '-') {
            reason = "invalid digit found in string";
            ok = false;
        } else {
            let mut i: usize = if c0 == '+' { 1 } else { 0 };
            let ghost start = i as int;
            while ok && i < n
                invariant
                    n == s.len(),
                    s == slice@,
                    i <= n,
                    ok ==> decimal_scan(s, start, 0) == decimal_scan(s, i as int, value as int),
                    !ok ==> decimal_scan(s, start, 0) == Err::<u64, Seq<char>>(reason@),
                decreases n - i + if ok { 1int } else { 0int },
            {
                let c = slice.get_char(i);
                let cv = c as u32;
                if cv < 48 || cv > 57 {
                    reason = "invalid digit found in string";
                    ok = false;
                } else {
                    let d = (cv - 48) as u64;
                    if value > (u64::MAX - d) / 10 {
                        proof {
                            assert(value * 10 + d > u64::MAX) by (nonlinear_arith)
                                requires
                                    value > (u64::MAX - d) / 10,
                                    d <= 9,
                            ;
                        }
                        reason = "number too large to fit in target type";
                        ok = false;
                    } else {
                        proof {
                            assert(value * 10 + d <= u64::MAX) by (nonlinear_arith)
                                requires
                                    value <= (u64::MAX - d) / 10,
                                    d <= 9,
                            ;
                        }
                        value = value * 10 + d;
                        i += 1;
                    }
                }
            }
            proof {
                if ok {
                    assert(decimal_scan(s, i as int, value as int) == Ok::<u64, Seq<char>>(value));
                }
            }
        }
    }
    if ok {
        Ok(value)
    } else {
        let mut m = String::from_str("illegal integer literal: ");
        push_str(&mut m, reason);
        let mut l = String::new();
        push_str(&mut l, reason);
        proof {
            assert(l@ =~= reason@);
        }
        Err(error_at(span, m, l))
    }
}

/// The text of a token between its first and its last character, both of
/// which are ASCII.
pub open spec fn quoted(raw: Seq<char>) -> bool {
    &&& raw.len() >= 2
    &&& (raw[0] as u32) < 128
    &&& (raw.last() as u32) < 128
}

pub open spec fn inside(raw: Seq<char>) -> Seq<char> {
    raw.subrange(1, raw.len() - 1)
}

/// Reads a char literal, quotes included, whose place is `span`.
pub fn parse_char(raw: &str, span: &Range<usize>) -> (r: Result<u32, NoFileDiagnostic>)
    requires
        quoted(raw@),
    ensures
        match char_content(inside(raw@)) {
            Some(v) => r == Ok::<u32, NoFileDiagnostic>(v),
            None => r matches Err(d) && is_error_at(
                d,
                *span,
                "invalid character literal: "@ + raw@,
                "cannot decode "@ + raw@,
            ),
        },
{
    let n = raw.unicode_len();
    let inner = raw.substring_char(1, n - 1);
    match decode_char_content(inner) {
        Some(v) => Ok(v),
        None => {
            let mut m = String::from_str("invalid character literal: ");
            push_str(&mut m, raw);
            let mut l = String::from_str("cannot decode ");
            push_str(&mut l, raw);
            Err(error_at(span, m, l))
        },
    }
}

/// `x` with `out` in front of what it holds.
pub open spec fn after(out: Seq<char>, x: Result<Seq<char>, (Seq<char>, Seq<char>)>) -> Result<
    Seq<char>,
    (Seq<char>, Seq<char>),
> {
    match x {
        Ok(t) => Ok(out + t),
        Err(e) => Err(e),
    }
}

/// The error of `\x{..}` whose hex digits are the `k` at index `i` of `s`,
/// or `None` where they give a Unicode scalar value.
pub open spec fn hex_error(s: Seq<char>, i: int, k: int) -> Option<(Seq<char>, Seq<char>)> {
    let v = hex_chars_value(s, i, k);
    if k == 0 {
        Some(("invalid unicode escape: cannot parse integer from empty string"@,
            "cannot parse integer from empty string"@))
    } else if v > u32::MAX {
        Some(("invalid unicode escape: number too large to fit in target type"@,
            "number too large to fit in target type"@))
    } else if !vstd::utf8::is_scalar(v as u32) {
        Some(("invalid unicode codepoint: U+"@ + nat_hex(v as nat, true), "not a valid unicode scalar"@))
    } else {
        None
    }
}

/// The characters that the body of a string literal stands for from index
/// `i` of `s` on, or the message and label of its first bad escape.
pub open spec fn str_content(s: Seq<char>, i: int) -> Result<Seq<char>, (Seq<char>, Seq<char>)>
    decreases s.len() - i,
{
    if i < 0 || i >= s.len() {
        Ok(Seq::empty())
    } else if s[i] != '\\' {
        after(seq![s[i]], str_content(s, i + 1))
    } else if i + 1 >= s.len() {
        Err(("unterminated escape in string literal"@, "dangling backslash"@))
    } else if simple_escape(s[i + 1]) is Some {
        after(seq![simple_escape(s[i + 1]).unwrap() as char], str_content(s, i + 2))
    } else if s[i + 1] == 'x' {
        if i + 2 >= s.len() || s[i + 2] != '{' {
            Err(("malformed unicode escape"@, "expected `{` after `\\x`"@))
        } else {
            let k = hex_run_chars(s, i + 3) as int;
            let q = i + 3 + k;
            if q >= s.len() || s[q] != '}' {
                Err(("malformed unicode escape"@, "expected hex digits and `}`"@))
            } else {
                match hex_error(s, i + 3, k) {
                    Some(e) => Err(e),
                    None => after(seq![hex_chars_value(s, i + 3, k) as u32 as char], str_content(s, q + 1)),
                }
            }
        }
    } else {
        Err(("unknown escape: \\"@ + seq![s[i + 1]], "unknown escape: \\"@ + seq![s[i + 1]]))
    }
}

proof fn lemma_after_push(out: Seq<char>, c: char, x: Result<Seq<char>, (Seq<char>, Seq<char>)>)
    ensures
        after(out, after(seq![c], x)) == after(out.push(c), x),
{
    match x {
        Ok(t) => {
            assert(out + (seq![c] + t) =~= out.push(c) + t);
        },
        Err(_) => {},
    }
}

fn simple_escape_char(e: char) -> (r: Option<char>)
    ensures
        match simple_escape(e) {
            Some(v) => r == Some(v as char),
            None => r is None,
        },
{
    if e == 'n' {
        Some('\n')
    } else if e == 't' {
        Some('\t')
    } else if e == 'r' {
        Some('\r')
    } else if e == '\\' {
        Some('\\')
    } else if e == '\'' {
        Some('\'')
    } else if e == '"' {
        Some('"')
    } else if e == '0' {
        Some('\0')
    } else {
        None
    }
}

/// Reads a string literal, quotes included, whose place is `span`: its
/// characters, or an error at `span` for its first bad escape.
pub fn parse_str(raw: &str, span: &Range<usize>) -> (r: Result<String, NoFileDiagnostic>)
    requires
        quoted(raw@),
    ensures
        match str_content(inside(raw@), 0) {
            Ok(t) => r matches Ok(o) && o@ == t,
            Err((m, l)) => r matches Err(d) && is_error_at(d, *span, m, l),
        },
{
    let total = raw.unicode_len();
    let inner = raw.substring_char(1, total - 1);
    let ghost s = inner@;
    let n = inner.unicode_len();
    let mut out = String::new();
    let mut i: usize = 0;
    proof {
        assert(after(out@, str_content(s, 0)) == str_content(s, 0)) by {
            match str_content(s, 0) {
                Ok(t) => assert(out@ + t =~= t),
                Err(_) => {},
            }
        }
    }
    while i < n
        invariant
            n == s.len(),
            s == inner@,
            s == inside(raw@),
            i <= n,
            str_content(s, 0) == after(out@, str_content(s, i as int)),
        decreases n - i,
    {
        let c = inner.get_char(i);
        if c != '\\' {
            proof {
                lemma_after_push(out@, c, str_content(s, i + 1));
            }
            push_char(&mut out, c);
            i += 1;
            continue;
        }
        if i + 1 >= n {
            return Err(error_at(span, String::from_str("unterminated escape in string literal"), String::from_str("dangling backslash")));
        }
        let e = inner.get_char(i + 1);
        match simple_escape_char(e) {
            Some(ch) => {
                proof {
                    lemma_after_push(out@, ch, str_content(s, i + 2));
                }
                push_char(&mut out, ch);
                i += 2;
                continue;
            },
            None => {},
        }
        if e != 'x' {
            let mut m = String::from_str("unknown escape: \\");
            push_char(&mut m, e);
            let mut l = String::from_str("unknown escape: \\");
            push_char(&mut l, e);
            proof {
                assert(m@ =~= "unknown escape: \\"@ + seq![e]);
                assert(l@ =~= "unknown escape: \\"@ + seq![e]);
            }
            return Err(error_at(span, m, l));
        }
        if i + 2 >= n || inner.get_char(i + 2) != '{' {
            return Err(error_at(span, String::from_str("malformed unicode escape"), String::from_str("expected `{` after `\\x`")));
        }
        let h = i + 3;
        let mut j: usize = h;
        let mut value: u64 = 0;
        let mut big = false;
        while j < n && is_hex(inner.get_char(j))
            invariant
                n == s.len(),
                s == inner@,
                h <= j <= n,
                h == i + 3,
                forall|m: int| h <= m < j ==> is_hex_char(#[trigger] s[m]),
                big <==> hex_chars_value(s, h as int, j - h) > u32::MAX,
                !big ==> value == hex_chars_value(s, h as int, j - h),
                hex_chars_value(s, h as int, j - h) >= 0,
            decreases n - j,
        {
            let d = hex_char_digit(inner.get_char(j));
            proof {
                assert(hex_chars_value(s, h as int, j + 1 - h) == hex_chars_value(s, h as int, j - h) * 16
                    + hex_char_value(s[j as int]));
            }
            if !big {
                let next = value * 16 + d;
                if next > 0xFFFF_FFFF {
                    big = true;
                } else {
                    value = next;
                }
            }
            j += 1;
        }
        proof {
            lemma_hex_run_chars(s, h as int, j as int);
        }
        if j >= n || inner.get_char(j) != '}' {
            return Err(error_at(span, String::from_str("malformed unicode escape"), String::from_str("expected hex digits and `}`")));
        }
        if j == h {
            return Err(error_at(
                span,
                String::from_str("invalid unicode escape: cannot parse integer from empty string"),
                String::from_str("cannot parse integer from empty string"),
            ));
        }
        if big {
            return Err(error_at(
                span,
                String::from_str("invalid unicode escape: number too large to fit in target type"),
                String::from_str("number too large to fit in target type"),
            ));
        }
        let v = value as u32;
        match char_from_u32(v) {
            None => {
                let mut hv: Vec<char> = Vec::new();
                push_hex(&mut hv, v as u64, true);
                let hs = string_of(&hv);
                let mut m = String::from_str("invalid unicode codepoint: U+");
                push_str(&mut m, hs.as_str());
                proof {
                    assert(hv@ =~= nat_hex(v as nat, true));
                }
                return Err(error_at(span, m, String::from_str("not a valid unicode scalar")));
            },
            Some(ch) => {
                proof {
                    lemma_after_push(out@, ch, str_content(s, j + 1));
                    assert(ch == hex_chars_value(s, h as int, j - h) as u32 as char) by {
                        vstd::utf8::char_u32_cast(ch, v);
                    }
                }
                push_char(&mut out, ch);
                i = j + 1;
            },
        }
    }
    proof {
        assert(str_content(s, i as int) == Ok::<Seq<char>, (Seq<char>, Seq<char>)>(Seq::empty()));
        assert(out@ + Seq::<char>::empty() =~= out@);
    }
    Ok(out)
}

// ---- the classic text of fixed tokens ----

/// The lexer's fixed token of the same name as a classic token, where it
/// has one.
pub open spec fn classic_fixed(t: Token) -> Option<Fixed> {
    match t {
        Token::KeywordUse => Some(Fixed::KeywordUse),
        Token::KeywordLength => Some(Fixed::KeywordLength),
        Token::KeywordWhile => Some(Fixed::KeywordWhile),
        Token::KeywordIf => Some(Fixed::KeywordIf),
        Token::KeywordElse => Some(Fixed::KeywordElse),
        Token::KeywordReturn => Some(Fixed::KeywordReturn),
        Token::KeywordInt => Some(Fixed::KeywordInt),
        Token::KeywordBool => Some(Fixed::KeywordBool),
        Token::SemiColon => Some(Fixed::SemiColon),
        Token::Discard => Some(Fixed::Discard),
        Token::OfType => Some(Fixed::OfType),
        Token::Assign => Some(Fixed::Assign),
        Token::Comma => Some(Fixed::Comma),
        Token::LParen => Some(Fixed::LParen),
        Token::RParen => Some(Fixed::RParen),
        Token::LBracket => Some(Fixed::LBracket),
        Token::RBracket => Some(Fixed::RBracket),
        Token::BlockOpen => Some(Fixed::BlockOpen),
        Token::BlockClose => Some(Fixed::BlockClose),
        Token::OperatorMul => Some(Fixed::OperatorMul),
        Token::OperatorHighMul => Some(Fixed::OperatorHighMul),
        Token::OperatorDiv => Some(Fixed::OperatorDiv),
        Token::OperatorMod => Some(Fixed::OperatorMod),
        Token::OperatorNot => Some(Fixed::OperatorNot),
        Token::Minus => Some(Fixed::Minus),
        Token::OperatorAdd => Some(Fixed::OperatorAdd),
        Token::RelOpEq => Some(Fixed::RelOpEq),
        Token::RelOpNeq => Some(Fixed::RelOpNeq),
        Token::RelOpGr => Some(Fixed::RelOpGr),
        Token::RelOpGe => Some(Fixed::RelOpGe),
        Token::RelOpLt => Some(Fixed::RelOpLt),
        Token::RelOpLe => Some(Fixed::RelOpLe),
        Token::Land => Some(Fixed::Land),
        Token::Lor => Some(Fixed::Lor),
        Token::BoolLiteral(b) => Some(if b { Fixed::True } else { Fixed::False }),
        _ => None,
    }
}

/// The classic token of the same name as a token of the lexer, where that
/// token carries no text of its own.
pub open spec fn classic_of(t: RawToken) -> Option<Token> {
    match t {
        RawToken::KeywordUse => Some(Token::KeywordUse),
        RawToken::KeywordLength => Some(Token::KeywordLength),
        RawToken::KeywordWhile => Some(Token::KeywordWhile),
        RawToken::KeywordIf => Some(Token::KeywordIf),
        RawToken::KeywordElse => Some(Token::KeywordElse),
        RawToken::KeywordReturn => Some(Token::KeywordReturn),
        RawToken::KeywordInt => Some(Token::KeywordInt),
        RawToken::KeywordBool => Some(Token::KeywordBool),
        RawToken::SemiColon => Some(Token::SemiColon),
        RawToken::Discard => Some(Token::Discard),
        RawToken::OfType => Some(Token::OfType),
        RawToken::Assign => Some(Token::Assign),
        RawToken::Comma => Some(Token::Comma),
        RawToken::LParen => Some(Token::LParen),
        RawToken::RParen => Some(Token::RParen),
        RawToken::LBracket => Some(Token::LBracket),
        RawToken::RBracket => Some(Token::RBracket),
        RawToken::BlockOpen => Some(Token::BlockOpen),
        RawToken::BlockClose => Some(Token::BlockClose),
        RawToken::OperatorMul => Some(Token::OperatorMul),
        RawToken::OperatorHighMul => Some(Token::OperatorHighMul),
        RawToken::OperatorDiv => Some(Token::OperatorDiv),
        RawToken::OperatorMod => Some(Token::OperatorMod),
        RawToken::OperatorNot => Some(Token::OperatorNot),
        RawToken::Minus => Some(Token::Minus),
        RawToken::OperatorAdd => Some(Token::OperatorAdd),
        RawToken::RelOpEq => Some(Token::RelOpEq),
        RawToken::RelOpNeq => Some(Token::RelOpNeq),
        RawToken::RelOpGr => Some(Token::RelOpGr),
        RawToken::RelOpGe => Some(Token::RelOpGe),
        RawToken::RelOpLt => Some(Token::RelOpLt),
        RawToken::RelOpLe => Some(Token::RelOpLe),
        RawToken::Land => Some(Token::Land),
        RawToken::Lor => Some(Token::Lor),
        RawToken::BoolLiteral(b) => Some(Token::BoolLiteral(b)),
        _ => None,
    }
}

/// A classic keyword, boolean or operator token prints as it is written in
/// the source: its text, encoded, is the spelling of the lexer's token of the
/// same name; so `true` prints as `true` and `false` as `false`.
pub proof fn lemma_classic_text_is_spelling(t: Token)
    ensures
        classic_fixed(t) matches Some(f) ==> encode_utf8(classic_text(t)) == spelling(f),
{
    match classic_fixed(t) {
        Some(f) => {
            match t {
            Token::KeywordUse => {
                reveal_strlit("use");
            },
            Token::KeywordLength => {
                reveal_strlit("length");
            },
            Token::KeywordWhile => {
                reveal_strlit("while");
            },
            Token::KeywordIf => {
                reveal_strlit("if");
            },
            Token::KeywordElse => {
                reveal_strlit("else");
            },
            Token::KeywordReturn => {
                reveal_strlit("return");
            },
            Token::KeywordInt => {
                reveal_strlit("int");
            },
            Token::KeywordBool => {
                reveal_strlit("bool");
            },
            Token::SemiColon => {
                reveal_strlit(";");
            },
            Token::Discard => {
                reveal_strlit("_");
            },
            Token::OfType => {
                reveal_strlit(":");
            },
            Token::Assign => {
                reveal_strlit("=");
            },
            Token::Comma => {
                reveal_strlit(",");
            },
            Token::LParen => {
                reveal_strlit("(");
            },
            Token::RParen => {
                reveal_strlit(")");
            },
            Token::LBracket => {
                reveal_strlit("[");
            },
            Token::RBracket => {
                reveal_strlit("]");
            },
            Token::BlockOpen => {
                reveal_strlit("{");
            },
            Token::BlockClose => {
                reveal_strlit("}");
            },
            Token::OperatorMul => {
                reveal_strlit("*");
            },
            Token::OperatorHighMul => {
                reveal_strlit("*>>");
            },
            Token::OperatorDiv => {
                reveal_strlit("/");
            },
            Token::OperatorMod => {
                reveal_strlit("%");
            },
            Token::OperatorNot => {
                reveal_strlit("!");
            },
            Token::Minus => {
                reveal_strlit("-");
            },
            Token::OperatorAdd => {
                reveal_strlit("+");
            },
            Token::RelOpEq => {
                reveal_strlit("==");
            },
            Token::RelOpNeq => {
                reveal_strlit("!=");
            },
            Token::RelOpGr => {
                reveal_strlit(">");
            },
            Token::RelOpGe => {
                reveal_strlit(">=");
            },
            Token::RelOpLt => {
                reveal_strlit("<");
            },
            Token::RelOpLe => {
                reveal_strlit("<=");
            },
            Token::Land => {
                reveal_strlit("&");
            },
            Token::Lor => {
                reveal_strlit("|");
            },
                Token::BoolLiteral(b) => {
                    reveal_strlit("true");
                    reveal_strlit("false");
                },
                _ => {},
            }
            assert(classic_text(t) =~= chars_of(spelling(f)));
            lemma_spelling_ascii(f);
            lemma_ascii_chars_of(spelling(f));
        },
        None => {},
    }
}

/// The word of a fixed token lexes to the token of the same name (`&` to
/// `Land`, `|` to `Lor`, `true` to `BoolLiteral(true)`), whose text is that
/// word.
pub proof fn lemma_lexed_token_is_namesake(f: Fixed)
    ensures
        classic_of(token_of_fixed(f)) matches Some(t) && classic_fixed(t) == Some(f) && encode_utf8(
            classic_text(t),
        ) == spelling(f),
{
    lemma_classic_text_is_spelling(classic_of(token_of_fixed(f)).unwrap());
}

/// The classic token set.
#[derive(Debug, Clone, PartialEq)]
pub enum Token {
    KeywordUse,
    KeywordLength,
    KeywordWhile,
    KeywordIf,
    KeywordElse,
    KeywordReturn,
    KeywordInt,
    KeywordBool,
    SemiColon,
    Discard,
    OfType,
    Assign,
    Comma,
    BoolLiteral(bool),
    CharLiteral(u32),
    StrLiteral(String),
    Identifier(String),
    Integer(u64),
    LParen,
    RParen,
    LBracket,
    RBracket,
    BlockOpen,
    BlockClose,
    OperatorMul,
    OperatorHighMul,
    OperatorDiv,
    OperatorMod,
    OperatorNot,
    Minus,
    OperatorAdd,
    RelOpEq,
    RelOpNeq,
    RelOpGr,
    RelOpGe,
    RelOpLt,
    RelOpLe,
    Land,
    Lor,
}

/// How a token of the first set is printed: a char literal by its
/// codepoint in decimal, a string literal between double quotes as it is.
pub open spec fn classic_text(t: Token) -> Seq<char> {
    match t {
        Token::KeywordUse => "use"@,
        Token::KeywordLength => "length"@,
        Token::KeywordWhile => "while"@,
        Token::KeywordIf => "if"@,
        Token::KeywordElse => "else"@,
        Token::KeywordReturn => "return"@,
        Token::KeywordInt => "int"@,
        Token::KeywordBool => "bool"@,
        Token::SemiColon => ";"@,
        Token::Discard => "_"@,
        Token::OfType => ":"@,
        Token::Assign => "="@,
        Token::Comma => ","@,
        Token::BoolLiteral(b) => if b { "true"@ } else { "false"@ },
        Token::CharLiteral(c) => "character "@ + int_decimal(c as int),
        Token::StrLiteral(s) => "string \""@ + s@ + "\""@,
        Token::Identifier(s) => "id "@ + s@,
        Token::Integer(n) => "integer "@ + int_decimal(n as int),
        Token::LParen => "("@,
        Token::RParen => ")"@,
        Token::LBracket => "["@,
        Token::RBracket => "]"@,
        Token::BlockOpen => "{"@,
        Token::BlockClose => "}"@,
        Token::OperatorMul => "*"@,
        Token::OperatorHighMul => "*>>"@,
        Token::OperatorDiv => "/"@,
        Token::OperatorMod => "%"@,
        Token::OperatorNot => "!"@,
        Token::Minus => "-"@,
        Token::OperatorAdd => "+"@,
        Token::RelOpEq => "=="@,
        Token::RelOpNeq => "!="@,
        Token::RelOpGr => ">"@,
        Token::RelOpGe => ">="@,
        Token::RelOpLt => "<"@,
        Token::RelOpLe => "<="@,
        Token::Land => "&"@,
        Token::Lor => "|"@,
    }
}

impl Token {
    /// The text of the token in the classic dump.
    pub fn to_string(&self) -> (s: String)
        ensures
            s@ == classic_text(*self),
    {
        match self {
            Token::KeywordUse => String::from_str("use"),
            Token::KeywordLength => String::from_str("length"),
            Token::KeywordWhile => String::from_str("while"),
            Token::KeywordIf => String::from_str("if"),
            Token::KeywordElse => String::from_str("else"),
            Token::KeywordReturn => String::from_str("return"),
            Token::KeywordInt => String::from_str("int"),
            Token::KeywordBool => String::from_str("bool"),
            Token::SemiColon => String::from_str(";"),
            Token::Discard => String::from_str("_"),
            Token::OfType => String::from_str(":"),
            Token::Assign => String::from_str("="),
            Token::Comma => String::from_str(","),
            Token::BoolLiteral(b) => if *b {
                String::from_str("true")
            } else {
                String::from_str("false")
            },
            Token::CharLiteral(c) => {
                let mut out = String::from_str("character ");
                push_int(&mut out, *c as i64);
                out
            },
            Token::StrLiteral(s) => {
                let mut out = String::from_str("string \"");
                push_str(&mut out, s.as_str());
                push_str(&mut out, "\"");
                out
            },
            Token::Identifier(s) => {
                let mut out = String::from_str("id ");
                push_str(&mut out, s.as_str());
                out
            },
            Token::Integer(n) => {
                let mut out = String::from_str("integer ");
                push_decimal(&mut out, *n);
                out
            },
            Token::LParen => String::from_str("("),
            Token::RParen => String::from_str(")"),
            Token::LBracket => String::from_str("["),
            Token::RBracket => String::from_str("]"),
            Token::BlockOpen => String::from_str("{"),
            Token::BlockClose => String::from_str("}"),
            Token::OperatorMul => String::from_str("*"),
            Token::OperatorHighMul => String::from_str("*>>"),
            Token::OperatorDiv => String::from_str("/"),
            Token::OperatorMod => String::from_str("%"),
            Token::OperatorNot => String::from_str("!"),
            Token::Minus => String::from_str("-"),
            Token::OperatorAdd => String::from_str("+"),
            Token::RelOpEq => String::from_str("=="),
            Token::RelOpNeq => String::from_str("!="),
            Token::RelOpGr => String::from_str(">"),
            Token::RelOpGe => String::from_str(">="),
            Token::RelOpLt => String::from_str("<"),
            Token::RelOpLe => String::from_str("<="),
            Token::Land => String::from_str("&"),
            Token::Lor => String::from_str("|"),
        }
    }
}

} // verus!
