//! What the dump prints of a token reads back: a keyword, boolean or
//! operator lexes again as itself, and the text it shows of a char or
//! string literal, put between quotes, decodes to the same value.
use vstd::prelude::*;
use vstd::utf8::{encode_utf8, is_ascii_chars, is_ascii_chars_encode_utf8};
use crate::lexer::strings::{body_char, char_at, char_literal, char_width_at, escape, hex_digit_value, hex_escape, hex_run, hex_value, is_hex_digit};
use crate::lexer::grammar::{is_munch, lemma_munch_unique, lemma_spelling, munch, skip_trivia, spelling, Fixed, Lexeme};
use crate::lexer::error::InternalLexerError;
use crate::lexer::stream::next_item;
use crate::lexer::tokens::{token_of_fixed, SourceToken};
use crate::span::Span;
use crate::lexer::text::{chars_of, lemma_fixed_token_text, token_text, escape_default, escape_default_str, hex_lower, nat_hex, rewrite_unicode_escapes, shown, starts_unicode_escape};

verus! {

/// `16^m`.
pub open spec fn p16(m: nat) -> nat
    decreases m,
{
    if m == 0 {
        1
    } else {
        16 * p16((m - 1) as nat)
    }
}

pub open spec fn bytes_of(s: Seq<char>) -> Seq<u8> {
    s.map_values(|c: char| c as u8)
}

pub open spec fn is_lower_hex_char(c: char) -> bool {
    (48 <= c as u32 <= 57) || (97 <= c as u32 <= 102)
}

proof fn lemma_hex_value_depends_on_digits(s: Seq<u8>, t: Seq<u8>, i: int, j: int, k: int)
    requires
        0 <= i,
        0 <= j,
        0 <= k,
        i + k <= s.len(),
        j + k <= t.len(),
        s.subrange(i, i + k) == t.subrange(j, j + k),
    ensures
        hex_value(s, i, k) == hex_value(t, j, k),
    decreases k,
{
    if k > 0 {
        assert(s.subrange(i, i + k - 1) =~= s.subrange(i, i + k).subrange(0, k - 1));
        assert(t.subrange(j, j + k - 1) =~= t.subrange(j, j + k).subrange(0, k - 1));
        lemma_hex_value_depends_on_digits(s, t, i, j, k - 1);
        assert(s[i + (k - 1)] == s.subrange(i, i + k)[k - 1]);
        assert(t[j + (k - 1)] == t.subrange(j, j + k)[k - 1]);
    }
}

/// The lower-case hex digits of `n`: there is at least one, they read back
/// as `n`, and there are at most `m` of them when `n < 16^m`.
proof fn lemma_nat_hex(n: nat)
    ensures
        nat_hex(n, false).len() >= 1,
        forall|i: int| 0 <= i < nat_hex(n, false).len() ==> is_lower_hex_char(#[trigger] nat_hex(n, false)[i]),
        hex_value(bytes_of(nat_hex(n, false)), 0, nat_hex(n, false).len() as int) == n,
    decreases n,
{
    let h = nat_hex(n, false);
    let d = (n % 16) as int;
    if n >= 16 {
        lemma_nat_hex(n / 16);
        let g = nat_hex(n / 16, false);
        assert(h == g + seq![hex_lower(d)]);
        let hb = bytes_of(h);
        let gb = bytes_of(g);
        assert(hb.subrange(0, g.len() as int) =~= gb.subrange(0, g.len() as int));
        lemma_hex_value_depends_on_digits(hb, gb, 0, 0, g.len() as int);
        assert(hex_value(hb, 0, h.len() as int) == hex_value(hb, 0, g.len() as int) * 16 + hex_digit_value(
            hb[g.len() as int],
        ));
        assert(hb[g.len() as int] == hex_lower(d) as u8);
        assert(hex_digit_value(hex_lower(d) as u8) == d);
        assert(hex_value(hb, 0, g.len() as int) == n / 16);
        assert(n == (n / 16) * 16 + n % 16) by (nonlinear_arith);
        assert(hex_value(hb, 0, h.len() as int) == (n / 16) * 16 + d);
        assert forall|i: int| 0 <= i < h.len() implies is_lower_hex_char(#[trigger] h[i]) by {
            if i < g.len() {
                assert(h[i] == g[i]);
            }
        }
    } else {
        assert(hex_digit_value(hex_lower(d) as u8) == d);
        assert(bytes_of(h)[0] == hex_lower(d) as u8);
        assert(d == n);
        assert(hex_value(bytes_of(h), 0, 0) == 0);
        assert(hex_value(bytes_of(h), 0, 1) == hex_value(bytes_of(h), 0, 0) * 16 + hex_digit_value(bytes_of(h)[0]));
    }
}

proof fn lemma_nat_hex_short(n: nat, m: nat)
    requires
        m >= 1,
        n < p16(m),
    ensures
        nat_hex(n, false).len() <= m,
    decreases n,
{
    if n >= 16 {
        assert(m >= 2) by {
            if m == 1 {
                assert(p16(1) == 16) by {
                    reveal_with_fuel(p16, 2);
                }
            }
        }
        let m1 = (m - 1) as nat;
        assert(p16(m) == 16 * p16(m1));
        assert(n / 16 < p16(m1)) by (nonlinear_arith)
            requires
                n < 16 * p16(m1),
        ;
        lemma_nat_hex_short(n / 16, m1);
    }
}

/// Text without a backslash is left alone by the rewrite.
proof fn lemma_rewrite_plain(s: Seq<char>)
    requires
        forall|i: int| 0 <= i < s.len() ==> #[trigger] s[i] != '\\',
    ensures
        rewrite_unicode_escapes(s) == s,
    decreases s.len(),
{
    if s.len() > 0 {
        assert(!starts_unicode_escape(s));
        lemma_rewrite_plain(s.skip(1));
        assert(seq![s[0]] + s.skip(1) =~= s);
    }
}

/// A char that `escape_default` writes as `\u{..}`.
pub open spec fn coded(c: char) -> bool {
    !(c == '\t' || c == '\r' || c == '\n' || c == '\'' || c == '"' || c == '\\' || (0x20 <= c as u32 <= 0x7e))
}

/// What the dump shows of a char: `\x{..}` with its lower-case hex digits,
/// or its one-character escape, or the char itself.
proof fn lemma_shown_char(c: char)
    ensures
        coded(c) ==> shown(seq![c]) == seq!['\\', 'x', '{'] + nat_hex(c as u32 as nat, false) + seq!['}'],
        !coded(c) ==> shown(seq![c]) == escape_default(c),
{
    assert(seq![c].drop_last() =~= Seq::<char>::empty());
    assert(escape_default_str(seq![c]) == escape_default_str(Seq::<char>::empty()) + escape_default(c));
    assert(escape_default_str(seq![c]) =~= escape_default(c));
    let e = escape_default(c);
    if coded(c) {
        let h = nat_hex(c as u32 as nat, false);
        lemma_nat_hex(c as u32 as nat);
        let rest = h + seq!['}'];
        assert(e =~= seq!['\\', 'u', '{'] + rest);
        assert(starts_unicode_escape(e));
        assert(e.skip(3) =~= rest);
        assert forall|i: int| 0 <= i < rest.len() implies #[trigger] rest[i] != '\\' by {
            if i < h.len() {
                assert(is_lower_hex_char(h[i]));
            }
        }
        lemma_rewrite_plain(rest);
        assert(rewrite_unicode_escapes(e) == seq!['\\', 'x', '{'] + rewrite_unicode_escapes(e.skip(3)));
        assert(shown(seq![c]) =~= seq!['\\', 'x', '{'] + h + seq!['}']);
    } else {
        reveal_with_fuel(rewrite_unicode_escapes, 3);
        if e.len() == 2 {
            assert(e.skip(1).skip(1) =~= Seq::<char>::empty());
            assert(seq![e[0]] + (seq![e.skip(1)[0]] + Seq::<char>::empty()) =~= e);
        } else {
            assert(e.skip(1) =~= Seq::<char>::empty());
            assert(seq![e[0]] + Seq::<char>::empty() =~= e);
        }
    }
}

proof fn lemma_quoted_bytes(q: char, sh: Seq<char>)
    requires
        is_ascii_chars(sh),
        (q as u32) < 128,
    ensures
        is_ascii_chars(seq![q] + sh + seq![q]),
        encode_utf8(seq![q] + sh + seq![q]).len() == sh.len() + 2,
        encode_utf8(seq![q] + sh + seq![q]).subrange(1, sh.len() + 1int) == bytes_of(sh),
{
    let chars = seq![q] + sh + seq![q];
    vstd::utf8::char_u32_cast(q, q as u32);
    assert(is_ascii_chars(chars)) by {
        assert forall|i: int| 0 <= i < chars.len() implies '\0' <= #[trigger] chars[i] <= '\u{7f}' by {
            if 1 <= i <= sh.len() {
                assert(chars[i] == sh[i - 1]);
            }
        }
    }
    is_ascii_chars_encode_utf8(chars);
    let raw = encode_utf8(chars);
    assert(raw.subrange(1, sh.len() + 1int) =~= bytes_of(sh)) by {
        assert forall|i: int| 0 <= i < sh.len() implies raw.subrange(1, sh.len() + 1int)[i] == bytes_of(sh)[i] by {
            assert(chars[i + 1] == sh[i]);
        }
    }
}

/// What the dump shows of a char is ASCII and not empty, and a coded char
/// has at most six hex digits.
proof fn lemma_shown_char_ascii(c: char)
    ensures
        is_ascii_chars(shown(seq![c])),
        shown(seq![c]).len() >= 1,
        coded(c) ==> nat_hex(c as u32 as nat, false).len() <= 6,
{
    lemma_shown_char(c);
    let sh = shown(seq![c]);
    let v = c as u32;
    vstd::utf8::char_is_scalar(c);
    if coded(c) {
        let h = nat_hex(v as nat, false);
        lemma_nat_hex(v as nat);
        assert(p16(6) == 0x1000000) by {
            reveal_with_fuel(p16, 7);
        }
        lemma_nat_hex_short(v as nat, 6);
        assert forall|i: int| 0 <= i < sh.len() implies '\0' <= #[trigger] sh[i] <= '\u{7f}' by {
            if 3 <= i < 3 + h.len() {
                assert(sh[i] == h[i - 3]);
                assert(is_lower_hex_char(h[i - 3]));
                assert((h[i - 3] as u32) < 128);
                vstd::utf8::char_u32_cast(h[i - 3], h[i - 3] as u32);
                assert(h[i - 3] <= '\u{7f}');
            } else if i == 0 {
                assert(sh[i] == '\\');
            } else if i == 1 {
                assert(sh[i] == 'x');
            } else if i == 2 {
                assert(sh[i] == '{');
            } else {
                assert(sh[i] == '}');
            }
        }
    }
}

/// Where the bytes of what the dump shows of `c` stand at index `p`, one
/// literal character decodes from them to `c`, and decoding stops just past
/// them.
proof fn lemma_decode_chunk(x: Seq<u8>, base: int, p: int, c: char)
    requires
        0 <= p,
        p + shown(seq![c]).len() <= x.len(),
        x.subrange(p, p + shown(seq![c]).len()) == bytes_of(shown(seq![c])),
    ensures
        body_char(x, base, p) == (Ok::<u32, crate::lexer::error::InternalLexerError>(c as u32), p + shown(
            seq![c],
        ).len()),
{
    lemma_shown_char(c);
    lemma_shown_char_ascii(c);
    let sh = shown(seq![c]);
    let m = sh.len() as int;
    let v = c as u32;
    let w = x.subrange(p, p + m);
    assert(w == bytes_of(sh));
    if coded(c) {
        let h = nat_hex(v as nat, false);
        lemma_nat_hex(v as nat);
        let hb = bytes_of(h);
        let k = h.len() as int;
        assert(m == k + 4);
        assert(x[p] == w[0]);
        assert(x[p + 1] == w[1]);
        assert(x[p + 2] == w[2]);
        assert(x[p + 3 + k] == w[3 + k]);
        assert(x[p] == 92u8);
        assert(x[p + 1] == 120u8);
        assert(x[p + 2] == 123u8);
        assert(x[p + 3 + k] == 125u8);
        assert forall|i: int| 0 <= i < k implies x.subrange(p + 3, p + 3 + k)[i] == hb.subrange(0, k)[i] by {
            assert(x.subrange(p + 3, p + 3 + k)[i] == w[3 + i]);
            assert(sh[3 + i] == h[i]);
        }
        assert(x.subrange(p + 3, p + 3 + k) =~= hb.subrange(0, k));
        lemma_hex_value_depends_on_digits(x, hb, p + 3, 0, k);
        assert forall|i: int| p + 3 <= i < p + 3 + k implies #[trigger] is_hex_digit(x[i]) by {
            assert(x[i] == w[i - p]);
            assert(sh[i - p] == h[i - p - 3]);
            assert(is_lower_hex_char(h[i - p - 3]));
        }
        lemma_hex_run_digits(x, p + 3, k);
        vstd::utf8::char_is_scalar(c);
        assert(hex_escape(x, base, p + 2, base + p) == (Ok::<u32, crate::lexer::error::InternalLexerError>(v), p + k
            + 4));
    } else {
        let e = escape_default(c);
        if e.len() == 1 {
            assert(x[p] == w[0]);
            assert(x[p] == c as u8);
            let t = x.subrange(p, x.len() as int);
            assert(t[0] == x[p]);
            let b = x[p];
            assert(b == v);
            assert((b & 0x7F) == b) by (bit_vector)
                requires
                    b < 128,
            ;
        } else {
            assert(x[p] == w[0]);
            assert(x[p + 1] == w[1]);
            assert(x[p] == 92u8);
        }
    }
}

/// A char shown in the dump reads back as itself: the text between the
/// quotes of `character ...`, put between single quotes, decodes as a char
/// literal to the same char.
pub proof fn lemma_char_round_trip(c: char, lo: int)
    ensures
        char_literal(encode_utf8(seq!['\''] + shown(seq![c]) + seq!['\'']), lo) == Ok::<
            u32,
            crate::lexer::error::InternalLexerError,
        >(c as u32),
{
    lemma_shown_char_ascii(c);
    let sh = shown(seq![c]);
    lemma_quoted_bytes('\'', sh);
    let raw = encode_utf8(seq!['\''] + sh + seq!['\'']);
    let inner = raw.subrange(1, raw.len() - 1);
    assert(inner == bytes_of(sh));
    assert(inner.subrange(0, sh.len() as int) =~= inner);
    lemma_decode_chunk(inner, lo + 1, 0, c);
    if raw.len() == 2 {
        assert(false);
    }
}

// ---- strings ----

/// `s` holds no backslash followed by `u{`: the text that the dump's
/// rewrite of `\u{` would catch besides the code points it escapes.
pub open spec fn no_backslash_u_brace(s: Seq<char>) -> bool {
    forall|i: int| 0 <= i && i + 2 < s.len() ==> !(#[trigger] s[i] == '\\' && s[i + 1] == 'u' && s[i + 2] == '{')
}

proof fn lemma_escape_str_front(s: Seq<char>)
    requires
        s.len() >= 1,
    ensures
        escape_default_str(s) == escape_default(s[0]) + escape_default_str(s.skip(1)),
    decreases s.len(),
{
    if s.len() == 1 {
        assert(s.drop_last() =~= Seq::<char>::empty());
        assert(s.skip(1) =~= Seq::<char>::empty());
        assert(escape_default_str(s) =~= escape_default(s[0]) + escape_default_str(s.skip(1)));
    } else {
        let d = s.drop_last();
        lemma_escape_str_front(d);
        assert(s.skip(1).drop_last() =~= d.skip(1));
        assert(s.skip(1).last() == s.last());
        assert(escape_default_str(s) =~= escape_default(s[0]) + escape_default_str(s.skip(1)));
    }
}

proof fn lemma_rewrite_plain_prefix(p: Seq<char>, r: Seq<char>)
    requires
        forall|i: int| 0 <= i < p.len() ==> #[trigger] p[i] != '\\',
    ensures
        rewrite_unicode_escapes(p + r) == p + rewrite_unicode_escapes(r),
    decreases p.len(),
{
    if p.len() > 0 {
        let t = p + r;
        assert(t[0] == p[0]);
        assert(!starts_unicode_escape(t));
        assert(t.skip(1) =~= p.skip(1) + r);
        lemma_rewrite_plain_prefix(p.skip(1), r);
        assert(seq![p[0]] + p.skip(1) =~= p);
        assert(rewrite_unicode_escapes(t) =~= p + rewrite_unicode_escapes(r));
    } else {
        assert(p + r =~= r);
    }
}

/// Rewriting the escape of one char followed by more text rewrites the two
/// apart, unless the char is a backslash and the text starts with `u{`.
proof fn lemma_rewrite_chunk(c: char, r: Seq<char>)
    requires
        !(c == '\\' && r.len() >= 2 && r[0] == 'u' && r[1] == '{'),
    ensures
        rewrite_unicode_escapes(escape_default(c) + r) == shown(seq![c]) + rewrite_unicode_escapes(r),
{
    lemma_shown_char(c);
    let e = escape_default(c);
    let t = e + r;
    if coded(c) {
        let h = nat_hex(c as u32 as nat, false);
        lemma_nat_hex(c as u32 as nat);
        let p = h + seq!['}'];
        assert(e =~= seq!['\\', 'u', '{'] + p);
        assert(starts_unicode_escape(t));
        assert(t.skip(3) =~= p + r);
        assert forall|i: int| 0 <= i < p.len() implies #[trigger] p[i] != '\\' by {
            if i < h.len() {
                assert(is_lower_hex_char(h[i]));
            }
        }
        lemma_rewrite_plain_prefix(p, r);
        assert(rewrite_unicode_escapes(t) =~= shown(seq![c]) + rewrite_unicode_escapes(r));
    } else if e.len() == 1 {
        assert(e[0] == c);
        lemma_rewrite_plain_prefix(e, r);
    } else {
        assert(t[0] == '\\');
        assert(t[1] == e[1]);
        assert(e[1] != 'u');
        assert(!starts_unicode_escape(t));
        let t1 = t.skip(1);
        assert(t1 =~= seq![e[1]] + r);
        if e[1] == '\\' {
            assert(c == '\\');
            assert(!starts_unicode_escape(t1));
            assert(t1.skip(1) =~= r);
            assert(rewrite_unicode_escapes(t1) == seq![e[1]] + rewrite_unicode_escapes(r));
        } else {
            lemma_rewrite_plain_prefix(seq![e[1]], r);
        }
        assert(seq![e[0]] + seq![e[1]] =~= e);
        assert(rewrite_unicode_escapes(t) =~= e + rewrite_unicode_escapes(r));
    }
}

/// What the dump shows of a string is what it shows of its first char
/// followed by what it shows of the rest.
proof fn lemma_shown_split(s: Seq<char>)
    requires
        s.len() >= 1,
        no_backslash_u_brace(s),
    ensures
        shown(s) == shown(seq![s[0]]) + shown(s.skip(1)),
        no_backslash_u_brace(s.skip(1)),
{
    lemma_escape_str_front(s);
    let rest = s.skip(1);
    let r = escape_default_str(rest);
    if s[0] == '\\' && r.len() >= 2 && r[0] == 'u' && r[1] == '{' {
        lemma_escape_str_front(rest);
        let e1 = escape_default(rest[0]);
        assert(e1[0] == 'u');
        assert(rest[0] == 'u');
        assert(e1 == seq!['u']);
        let rest2 = rest.skip(1);
        assert(rest2.len() >= 1);
        lemma_escape_str_front(rest2);
        assert(r[1] == escape_default(rest2[0])[0]);
        assert(rest2[0] == '{');
        assert(s[1] == 'u' && s[2] == '{');
        assert(!(s[0int] == '\\' && s[0int + 1] == 'u' && s[0int + 2] == '{'));
    }
    lemma_rewrite_chunk(s[0], r);
    assert forall|i: int| 0 <= i && i + 2 < rest.len() implies !(#[trigger] rest[i] == '\\' && rest[i + 1] == 'u'
        && rest[i + 2] == '{') by {
        assert(rest[i] == s[i + 1]);
        assert(!(s[i + 1] == '\\' && s[i + 1 + 1] == 'u' && s[i + 1 + 2] == '{'));
    }
}

/// Where the bytes of what the dump shows of `s` run from index `p` to the
/// end, the literal body from `p` decodes to `s`.
proof fn lemma_body_decodes(x: Seq<u8>, base: int, p: int, s: Seq<char>)
    requires
        0 <= p <= x.len(),
        x.subrange(p, x.len() as int) == bytes_of(shown(s)),
        no_backslash_u_brace(s),
    ensures
        crate::lexer::strings::string_body(x, base, p) == Ok::<Seq<char>, crate::lexer::error::InternalLexerError>(
            s,
        ),
    decreases s.len(),
{
    if s.len() == 0 {
        assert(escape_default_str(s) == Seq::<char>::empty());
        assert(shown(s) =~= Seq::<char>::empty());
        assert(bytes_of(shown(s)).len() == 0);
        assert(x.subrange(p, x.len() as int).len() == 0);
        assert(p == x.len());
        assert(s =~= Seq::<char>::empty());
    } else {
        lemma_shown_split(s);
        let c = s[0];
        let sh = shown(seq![c]);
        lemma_shown_char_ascii(c);
        let m = sh.len() as int;
        let all = bytes_of(shown(s));
        assert(all =~= bytes_of(sh) + bytes_of(shown(s.skip(1))));
        assert(x.subrange(p, p + m) =~= bytes_of(sh)) by {
            assert forall|i: int| 0 <= i < m implies x.subrange(p, p + m)[i] == bytes_of(sh)[i] by {
                assert(x.subrange(p, x.len() as int)[i] == all[i]);
            }
        }
        lemma_decode_chunk(x, base, p, c);
        assert(x.subrange(p + m, x.len() as int) =~= bytes_of(shown(s.skip(1)))) by {
            assert forall|i: int| 0 <= i < x.len() - (p + m) implies x.subrange(p + m, x.len() as int)[i] == bytes_of(
                shown(s.skip(1)),
            )[i] by {
                assert(x.subrange(p, x.len() as int)[m + i] == all[m + i]);
            }
        }
        lemma_body_decodes(x, base, p + m, s.skip(1));
        vstd::utf8::char_u32_cast(c, c as u32);
        assert(m >= 1);
        assert(p < x.len());
        let (r, q) = body_char(x, base, p);
        assert(r == Ok::<u32, crate::lexer::error::InternalLexerError>(c as u32));
        assert(q == p + m);
        assert(seq![(c as u32) as char] + s.skip(1) =~= s);
        assert(crate::lexer::strings::string_body(x, base, p) == Ok::<
            Seq<char>,
            crate::lexer::error::InternalLexerError,
        >(seq![(c as u32) as char] + s.skip(1)));
    }
}

/// A string shown in the dump reads back as itself: the text after `string `,
/// put between double quotes, decodes as a string literal to the same
/// string, unless the string holds a backslash followed by `u{`.
pub proof fn lemma_string_round_trip(s: Seq<char>, lo: int)
    requires
        no_backslash_u_brace(s),
    ensures
        crate::lexer::strings::string_literal(encode_utf8(seq!['"'] + shown(s) + seq!['"']), lo) == Ok::<
            Seq<char>,
            crate::lexer::error::InternalLexerError,
        >(s),
{
    lemma_shown_ascii(s);
    let sh = shown(s);
    lemma_quoted_bytes('"', sh);
    let raw = encode_utf8(seq!['"'] + sh + seq!['"']);
    let inner = raw.subrange(1, raw.len() - 1);
    assert(inner == bytes_of(sh));
    assert(inner.subrange(0, inner.len() as int) =~= inner);
    lemma_body_decodes(inner, lo + 1, 0, s);
}

proof fn lemma_shown_ascii(s: Seq<char>)
    requires
        no_backslash_u_brace(s),
    ensures
        is_ascii_chars(shown(s)),
    decreases s.len(),
{
    if s.len() == 0 {
        assert(escape_default_str(s) == Seq::<char>::empty());
        assert(shown(s) =~= Seq::<char>::empty());
    } else {
        lemma_shown_split(s);
        lemma_shown_char_ascii(s[0]);
        lemma_shown_ascii(s.skip(1));
        let a = shown(seq![s[0]]);
        let b = shown(s.skip(1));
        assert forall|i: int| 0 <= i < shown(s).len() implies '\0' <= #[trigger] shown(s)[i] <= '\u{7f}' by {
            if i < a.len() {
                assert(shown(s)[i] == a[i]);
            } else {
                assert(shown(s)[i] == b[i - a.len()]);
            }
        }
    }
}

/// The run of hex digits at `i` is exactly the `k` digits placed there when
/// a non-digit follows.
proof fn lemma_hex_run_digits(s: Seq<u8>, i: int, k: int)
    requires
        0 <= i,
        0 <= k,
        i + k < s.len(),
        forall|m: int| i <= m < i + k ==> #[trigger] is_hex_digit(s[m]),
        !is_hex_digit(s[i + k]),
    ensures
        hex_run(s, i) == k,
    decreases k,
{
    if k > 0 {
        lemma_hex_run_digits(s, i + 1, k - 1);
    }
}


// ---- fixed tokens ----

/// A keyword, boolean or operator token, printed and lexed again, is that
/// one token, spanning the whole text, and nothing follows it.
pub proof fn lemma_fixed_token_round_trip(f: Fixed, base: int)
    ensures
        encode_utf8(token_text(token_of_fixed(f))) == spelling(f),
        forall|r: Option<Result<SourceToken, InternalLexerError>>, p2: int|
            #[trigger] next_item(spelling(f), base, 0, r, p2) ==> p2 == spelling(f).len() && (r matches Some(
                Ok(st),
            ) && st.tok == token_of_fixed(f) && st.span == Span {
                lo: base as u32,
                hi: (base + spelling(f).len()) as u32,
            }),
        forall|r: Option<Result<SourceToken, InternalLexerError>>, p2: int|
            #[trigger] next_item(spelling(f), base, spelling(f).len() as int, r, p2) ==> r is None && p2
                == spelling(f).len(),
{
    let sp = spelling(f);
    lemma_fixed_token_text(f);
    lemma_spelling(f);
    let cs = chars_of(sp);
    assert(sp.len() >= 1);
    assert(forall|i: int| 0 <= i < sp.len() ==> #[trigger] sp[i] < 128);
    assert(is_ascii_chars(cs)) by {
        assert forall|i: int| 0 <= i < cs.len() implies '\0' <= #[trigger] cs[i] <= '\u{7f}' by {
            assert(sp[i] < 128);
        }
    }
    is_ascii_chars_encode_utf8(cs);
    assert(encode_utf8(cs) =~= sp) by {
        assert forall|i: int| 0 <= i < sp.len() implies encode_utf8(cs)[i] == sp[i] by {
            assert(cs[i] as u8 == encode_utf8(cs)[i]);
            assert(cs[i] == sp[i] as char);
        }
    }
    let n = sp.len() as int;
    assert(sp.subrange(0, n) =~= sp);
    assert(is_munch(sp, 0, n, Lexeme::Fixed(f)));
    lemma_munch_unique(sp, 0, n, Lexeme::Fixed(f));
    assert(skip_trivia(sp, 0) == 0);
    assert(skip_trivia(sp, n) == n);
}

} // verus!
