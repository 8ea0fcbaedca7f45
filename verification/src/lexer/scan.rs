//! Longest-match scanning of one word of the token grammar.
use vstd::prelude::*;
use vstd::utf8::{valid_utf8, is_continuation_byte};
use crate::lexer::grammar::{
    Fixed, Lexeme, class_of, fixed_byte, fixed_spelled, spelling, is_munch, is_open_extent,
    is_letter, is_digit, is_ident_char, is_space, identifier, integer_literal, whitespace, comment,
    quoted, quoted_body, open_body, open_quoted, lemma_class_by_first_byte, is_error_extent,
};
use crate::lexer::strings::{char_width, char_width_at, lemma_skip_ascii, lemma_skip_char, lemma_after_first_scalar};

verus! {

/// Items of a quoted body tile it deterministically: once a prefix `[x, k)`
/// is a complete body, the body `[x, y)` is well formed exactly when `[k, y)`
/// is; the same holds for unclosed bodies.
proof fn lemma_body_split(s: Seq<u8>, x: int, k: int, y: int, q: u8)
    requires
        0 <= x <= k <= y <= s.len(),
        quoted_body(s.subrange(x, k), q),
    ensures
        quoted_body(s.subrange(x, y), q) == quoted_body(s.subrange(k, y), q),
        open_body(s.subrange(x, y), q) == open_body(s.subrange(k, y), q),
    decreases k - x,
{
    let a = s.subrange(x, k);
    let b = s.subrange(x, y);
    if x < k {
        assert(a[0] == b[0]);
        if b[0] == 92 {
            assert(a[1] == b[1]);
            assert(a.subrange(2, a.len() as int) =~= s.subrange(x + 2, k));
            assert(b.subrange(2, b.len() as int) =~= s.subrange(x + 2, y));
            lemma_body_split(s, x + 2, k, y, q);
        } else {
            assert(a.subrange(1, a.len() as int) =~= s.subrange(x + 1, k));
            assert(b.subrange(1, b.len() as int) =~= s.subrange(x + 1, y));
            lemma_body_split(s, x + 1, k, y, q);
        }
    } else {
        assert(s.subrange(x, y) =~= s.subrange(k, y));
    }
}

proof fn lemma_empty_body(s: Seq<u8>, x: int, q: u8)
    requires
        0 <= x <= s.len(),
    ensures
        quoted_body(s.subrange(x, x), q),
        open_body(s.subrange(x, x), q),
{
}

/// Scans the quoted literal whose opening quote `q` is at index `i`: the
/// length of the literal when it is closed, or else the extent of the
/// unclosed literal.
fn scan_quoted(s: &[u8], i: usize) -> (r: (bool, usize))
    requires
        i < s@.len(),
        s@[i as int] == 39 || s@[i as int] == 34,
    ensures
        r.0 ==> is_munch(s@, i as int, r.1 as int, if s@[i as int] == 39 { Lexeme::CharLit } else { Lexeme::StrLit }),
        !r.0 ==> (forall|l: int| 1 <= l <= s@.len() - i ==> #[trigger] class_of(s@.subrange(i as int, i + l)) is None),
        !r.0 ==> is_open_extent(s@, i as int, r.1 as int),
        !r.0 ==> (i + r.1 == s@.len() || s@[i + r.1] == 10),
{
    let q = s[i];
    let n = s.len();
    let mut j = i + 1;
    proof {
        lemma_empty_body(s@, j as int, q);
    }
    while j < n
        invariant
            n == s@.len(),
            i < j <= n,
            q == s@[i as int],
            q == 39 || q == 34,
            quoted_body(s@.subrange(i + 1, j as int), q),
            forall|p: int| i + 1 <= p < j && s@[p] == q ==> !quoted_body(s@.subrange(i + 1, p), q),
        decreases n - j,
    {
        let b = s[j];
        if b == q {
            let len = j + 1 - i;
            let ghost w = s@.subrange(i as int, i + len);
            proof {
                assert(w.subrange(1, w.len() - 1) =~= s@.subrange(i + 1, j as int));
                assert(quoted(w, q));
                assert(fixed_spelled(w) is None);
                assert forall|l: int| len < l <= s@.len() - i implies #[trigger] class_of(
                    s@.subrange(i as int, i + l),
                ) is None by {
                    let w2 = s@.subrange(i as int, i + l);
                    if class_of(w2) is Some {
                        lemma_class_by_first_byte(w2);
                        assert(w2.subrange(1, w2.len() - 1) =~= s@.subrange(i + 1, i + l - 1));
                        lemma_body_split(s@, i + 1, j as int, i + l - 1, q);
                        assert(s@.subrange(j as int, i + l - 1)[0] == q);
                    }
                }
            }
            return (true, len);
        }
        if b == 92 {
            if j + 1 == n {
                // a backslash at the very end: the literal stays open to the end
                proof {
                    lemma_body_split(s@, i + 1, j as int, n as int, q);
                    assert(s@.subrange(j as int, n as int).len() == 1);
                    lemma_no_close(s@, i, j, q);
                    let w = s@.subrange(i as int, n as int);
                    assert(w.subrange(1, w.len() as int) =~= s@.subrange(i + 1, n as int));
                }
                return (false, n - i);
            }
            if s[j + 1] == 10 {
                // `\` before a line feed matches nothing: the literal ends unclosed
                proof {
                    lemma_body_split(s@, i + 1, j as int, j + 1, q);
                    lemma_no_close(s@, i, j, q);
                    let w = s@.subrange(i as int, j + 1);
                    assert(w.subrange(1, w.len() as int) =~= s@.subrange(i + 1, j + 1));
                    assert forall|l: int| j + 1 - i < l <= s@.len() - i implies !#[trigger] open_quoted(
                        s@.subrange(i as int, i + l),
                        s@[i as int],
                    ) by {
                        let w2 = s@.subrange(i as int, i + l);
                        assert(w2.subrange(1, w2.len() as int) =~= s@.subrange(i + 1, i + l));
                        lemma_body_split(s@, i + 1, j as int, i + l, q);
                        let t = s@.subrange(j as int, i + l);
                        assert(t[0] == 92 && t[1] == 10);
                    }
                }
                return (false, j + 1 - i);
            }
            proof {
                let t = s@.subrange(j as int, j + 2);
                assert(t.subrange(2, 2) =~= s@.subrange(j + 2, j + 2));
                lemma_empty_body(s@, j + 2, q);
                assert(quoted_body(t, q));
                lemma_concat_body(s@, i + 1, j as int, j + 2, q);
                assert forall|p: int| i + 1 <= p < j + 2 && s@[p] == q implies !quoted_body(
                    s@.subrange(i + 1, p),
                    q,
                ) by {
                    if p == j + 1 {
                        lemma_body_split(s@, i + 1, j as int, p, q);
                    }
                }
            }
            j = j + 2;
        } else {
            proof {
                let t = s@.subrange(j as int, j + 1);
                assert(t.subrange(1, 1) =~= s@.subrange(j + 1, j + 1));
                lemma_empty_body(s@, j + 1, q);
                assert(quoted_body(t, q));
                lemma_concat_body(s@, i + 1, j as int, j + 1, q);
            }
            j = j + 1;
        }
    }
    proof {
        lemma_no_close(s@, i, j, q);
        let w = s@.subrange(i as int, n as int);
        assert(w.subrange(1, w.len() as int) =~= s@.subrange(i + 1, n as int));
        lemma_quoted_open(s@.subrange(i + 1, n as int), q);
    }
    (false, n - i)
}

proof fn lemma_quoted_open(b: Seq<u8>, q: u8)
    requires
        quoted_body(b, q),
    ensures
        open_body(b, q),
    decreases b.len(),
{
    if b.len() > 0 {
        if b[0] == 92 {
            lemma_quoted_open(b.subrange(2, b.len() as int), q);
        } else {
            lemma_quoted_open(b.subrange(1, b.len() as int), q);
        }
    }
}

/// Two complete bodies side by side make a complete body.
proof fn lemma_concat_body(s: Seq<u8>, x: int, k: int, y: int, q: u8)
    requires
        0 <= x <= k <= y <= s.len(),
        quoted_body(s.subrange(x, k), q),
        quoted_body(s.subrange(k, y), q),
    ensures
        quoted_body(s.subrange(x, y), q),
{
    lemma_body_split(s, x, k, y, q);
}

/// When no closing quote was met up to `j` (where the body is complete, or
/// where the scan stopped at a backslash), no prefix at `i` is a literal.
proof fn lemma_no_close(s: Seq<u8>, i: usize, j: usize, q: u8)
    requires
        i < j <= s.len(),
        q == s[i as int],
        q == 39 || q == 34,
        quoted_body(s.subrange(i + 1, j as int), q),
        forall|p: int| i + 1 <= p < j && s[p] == q ==> !quoted_body(s.subrange(i + 1, p), q),
        j < s.len() ==> s[j as int] == 92 && (j + 1 == s.len() || s[j + 1] == 10),
    ensures
        forall|l: int| 1 <= l <= s.len() - i ==> #[trigger] class_of(s.subrange(i as int, i + l)) is None,
{
    assert forall|l: int| 1 <= l <= s.len() - i implies #[trigger] class_of(
        s.subrange(i as int, i + l),
    ) is None by {
        let w = s.subrange(i as int, i + l);
        if class_of(w) is Some {
            lemma_class_by_first_byte(w);
            assert(quoted(w, q));
            let p = i + l - 1;
            assert(w.subrange(1, w.len() - 1) =~= s.subrange(i + 1, p));
            assert(s[p] == q);
            if p >= j {
                lemma_body_split(s, i + 1, j as int, p, q);
                let t = s.subrange(j as int, p);
                if p > j {
                    assert(t[0] == 92);
                }
            }
        }
    }
}


/// After an ASCII byte of a well-formed text, a new character starts.
proof fn lemma_after_ascii(s: Seq<u8>, i: int, k: int)
    requires
        0 <= i <= k < s.len(),
        valid_utf8(s.subrange(i, s.len() as int)),
        s[k] < 128,
    ensures
        k + 1 == s.len() || !is_continuation_byte(s[k + 1]),
{
    let t = s.subrange(i, s.len() as int);
    let m = k - i;
    vstd::utf8::is_char_boundary_iff_not_is_continuation_byte(t, m);
    vstd::utf8::valid_utf8_split(t, m);
    assert(t.subrange(m, t.len() as int) =~= s.subrange(k, s.len() as int));
    lemma_skip_ascii(s, k);
    if k + 1 < s.len() {
        lemma_after_first_scalar(s.subrange(k + 1, s.len() as int));
        assert(s.subrange(k + 1, s.len() as int)[0] == s[k + 1]);
    }
}

/// The fixed token spelled by an identifier-shaped word: a keyword or a
/// boolean literal.
fn keyword_of(s: &[u8], i: usize, j: usize) -> (r: Option<Fixed>)
    requires
        i < j <= s@.len(),
        identifier(s@.subrange(i as int, j as int)),
    ensures
        r == fixed_spelled(s@.subrange(i as int, j as int)),
{
    let ghost w = s@.subrange(i as int, j as int);
    let n = j - i;
    proof {
        assert forall|k: int| 0 <= k < n implies w[k] == s@[i + k] by {}
    }
    if n == 2 {
        if s[i] == 105 && s[i + 1] == 102 {
            return Some(Fixed::KeywordIf);
        }
        return None;
    }
    if n == 3 {
        if s[i] == 117 && s[i + 1] == 115 && s[i + 2] == 101 {
            assert(w =~= spelling(Fixed::KeywordUse));
            return Some(Fixed::KeywordUse);
        }
        if s[i] == 105 && s[i + 1] == 110 && s[i + 2] == 116 {
            assert(w =~= spelling(Fixed::KeywordInt));
            return Some(Fixed::KeywordInt);
        }
        proof {
            assert(w[0] != 42);
        }
        return None;
    }
    if n == 4 {
        if s[i] == 101 && s[i + 1] == 108 && s[i + 2] == 115 && s[i + 3] == 101 {
            assert(w =~= spelling(Fixed::KeywordElse));
            return Some(Fixed::KeywordElse);
        }
        if s[i] == 98 && s[i + 1] == 111 && s[i + 2] == 111 && s[i + 3] == 108 {
            assert(w =~= spelling(Fixed::KeywordBool));
            return Some(Fixed::KeywordBool);
        }
        if s[i] == 116 && s[i + 1] == 114 && s[i + 2] == 117 && s[i + 3] == 101 {
            assert(w =~= spelling(Fixed::True));
            return Some(Fixed::True);
        }
        return None;
    }
    if n == 5 {
        if s[i] == 119 && s[i + 1] == 104 && s[i + 2] == 105 && s[i + 3] == 108 && s[i + 4] == 101 {
            assert(w =~= spelling(Fixed::KeywordWhile));
            return Some(Fixed::KeywordWhile);
        }
        if s[i] == 102 && s[i + 1] == 97 && s[i + 2] == 108 && s[i + 3] == 115 && s[i + 4] == 101 {
            assert(w =~= spelling(Fixed::False));
            return Some(Fixed::False);
        }
        return None;
    }
    if n == 6 {
        if s[i] == 108 && s[i + 1] == 101 && s[i + 2] == 110 && s[i + 3] == 103 && s[i + 4] == 116
            && s[i + 5] == 104 {
            assert(w =~= spelling(Fixed::KeywordLength));
            return Some(Fixed::KeywordLength);
        }
        if s[i] == 114 && s[i + 1] == 101 && s[i + 2] == 116 && s[i + 3] == 117 && s[i + 4] == 114
            && s[i + 5] == 110 {
            assert(w =~= spelling(Fixed::KeywordReturn));
            return Some(Fixed::KeywordReturn);
        }
        return None;
    }
    None
}

fn fixed_byte_exec(b: u8) -> (r: Option<Fixed>)
    ensures
        r == fixed_byte(b),
{
    if b == 59 {
        Some(Fixed::SemiColon)
    } else if b == 95 {
        Some(Fixed::Discard)
    } else if b == 58 {
        Some(Fixed::OfType)
    } else if b == 61 {
        Some(Fixed::Assign)
    } else if b == 44 {
        Some(Fixed::Comma)
    } else if b == 40 {
        Some(Fixed::LParen)
    } else if b == 41 {
        Some(Fixed::RParen)
    } else if b == 91 {
        Some(Fixed::LBracket)
    } else if b == 93 {
        Some(Fixed::RBracket)
    } else if b == 123 {
        Some(Fixed::BlockOpen)
    } else if b == 125 {
        Some(Fixed::BlockClose)
    } else if b == 42 {
        Some(Fixed::OperatorMul)
    } else if b == 47 {
        Some(Fixed::OperatorDiv)
    } else if b == 37 {
        Some(Fixed::OperatorMod)
    } else if b == 33 {
        Some(Fixed::OperatorNot)
    } else if b == 45 {
        Some(Fixed::Minus)
    } else if b == 43 {
        Some(Fixed::OperatorAdd)
    } else if b == 62 {
        Some(Fixed::RelOpGr)
    } else if b == 60 {
        Some(Fixed::RelOpLt)
    } else if b == 38 {
        Some(Fixed::Land)
    } else if b == 124 {
        Some(Fixed::Lor)
    } else {
        None
    }
}

fn is_letter_exec(b: u8) -> (r: bool)
    ensures
        r == is_letter(b),
{
    (b >= 65 && b <= 90) || (b >= 97 && b <= 122)
}

fn is_ident_char_exec(b: u8) -> (r: bool)
    ensures
        r == is_ident_char(b),
{
    is_letter_exec(b) || (b >= 48 && b <= 57) || b == 95 || b == 39
}

fn is_space_exec(b: u8) -> (r: bool)
    ensures
        r == is_space(b),
{
    b == 32 || b == 9 || b == 10 || b == 12 || b == 13
}

/// Index of the first byte at or after `j` that `keep` rejects.
fn run_end(s: &[u8], j: usize, kind: u8) -> (e: usize)
    requires
        j <= s@.len(),
        kind <= 3,
    ensures
        j <= e <= s@.len(),
        forall|k: int| j <= k < e ==> #[trigger] run_byte(kind, s@[k]),
        e < s@.len() ==> !run_byte(kind, s@[e as int]),
{
    let mut e = j;
    while e < s.len()
        invariant
            j <= e <= s@.len(),
            kind <= 3,
            forall|k: int| j <= k < e ==> #[trigger] run_byte(kind, s@[k]),
        ensures
            e < s@.len() ==> !run_byte(kind, s@[e as int]),
        decreases s@.len() - e,
    {
        let b = s[e];
        let keep = if kind == 0 {
            is_ident_char_exec(b)
        } else if kind == 1 {
            b >= 48 && b <= 57
        } else if kind == 2 {
            is_space_exec(b)
        } else {
            b != 10
        };
        if !keep {
            break;
        }
        e = e + 1;
    }
    e
}

/// The bytes that the runs of identifiers (0), digits (1), blanks (2) and
/// comments (3) are made of.
spec fn run_byte(kind: u8, b: u8) -> bool {
    if kind == 0 {
        is_ident_char(b)
    } else if kind == 1 {
        is_digit(b)
    } else if kind == 2 {
        is_space(b)
    } else {
        b != 10
    }
}

/// `r` is the outcome of scanning at `i`: the longest match there and its
/// length, or, when no word there has a class, `None` and the extent of the
/// error. Either way the next position starts a character.
pub open spec fn scanned(s: Seq<u8>, i: int, r: (Option<Lexeme>, usize)) -> bool {
    &&& 1 <= r.1 <= s.len() - i
    &&& (i + r.1 == s.len() || !is_continuation_byte(s[i + r.1]))
    &&& (r.0 matches Some(c) ==> is_munch(s, i, r.1 as int, c))
    &&& (r.0 is None ==> (forall|l: int| 1 <= l <= s.len() - i ==> #[trigger] class_of(s.subrange(i, i + l)) is None))
    &&& (r.0 is None ==> is_error_extent(s, i, r.1 as int))
}

fn scan_word(s: &[u8], i: usize) -> (r: (Option<Lexeme>, usize))
    requires
        i < s@.len(),
        valid_utf8(s@.subrange(i as int, s@.len() as int)),
        is_letter(s@[i as int]),
    ensures
        scanned(s@, i as int, r),
{
    let ghost sv = s@;
    let _n = s.len();
    let e = run_end(s, i + 1, 0);
    let len = e - i;
    let ghost w = sv.subrange(i as int, e as int);
    proof {
        assert forall|k: int| 1 <= k < w.len() implies is_ident_char(#[trigger] w[k]) by {
            assert(run_byte(0, sv[i + k]));
        }
        assert(identifier(w));
        if e - 1 > i {
            assert(run_byte(0, sv[e - 1]));
        }
        lemma_after_ascii(sv, i as int, e - 1);
        assert forall|l: int| len < l <= sv.len() - i implies #[trigger] class_of(
            sv.subrange(i as int, i + l),
        ) is None by {
            let w2 = sv.subrange(i as int, i + l);
            if class_of(w2) is Some {
                lemma_class_by_first_byte(w2);
                assert(w2[len as int] == sv[e as int]);
            }
        }
    }
    let c = match keyword_of(s, i, e) {
        Some(f) => Lexeme::Fixed(f),
        None => Lexeme::Ident,
    };
    (Some(c), len)
}

fn scan_number(s: &[u8], i: usize) -> (r: (Option<Lexeme>, usize))
    requires
        i < s@.len(),
        valid_utf8(s@.subrange(i as int, s@.len() as int)),
        is_digit(s@[i as int]),
    ensures
        scanned(s@, i as int, r),
{
    let ghost sv = s@;
    let b = s[i];
    let e = if b == 48 { i + 1 } else { run_end(s, i + 1, 1) };
    let len = e - i;
    let ghost w = sv.subrange(i as int, e as int);
    proof {
        if b != 48 {
            assert forall|k: int| 1 <= k < w.len() implies is_digit(#[trigger] w[k]) by {
                assert(run_byte(1, sv[i + k]));
            }
        }
        assert(integer_literal(w));
        assert(fixed_spelled(w) is None);
        if e - 1 > i {
            assert(run_byte(1, sv[e - 1]));
        }
        lemma_after_ascii(sv, i as int, e - 1);
        assert forall|l: int| len < l <= sv.len() - i implies #[trigger] class_of(
            sv.subrange(i as int, i + l),
        ) is None by {
            let w2 = sv.subrange(i as int, i + l);
            if class_of(w2) is Some {
                lemma_class_by_first_byte(w2);
                assert(w2[len as int] == sv[e as int]);
            }
        }
    }
    (Some(Lexeme::Int), len)
}

fn scan_minus(s: &[u8], i: usize) -> (r: (Option<Lexeme>, usize))
    requires
        i < s@.len(),
        valid_utf8(s@.subrange(i as int, s@.len() as int)),
        s@[i as int] == 45,
    ensures
        scanned(s@, i as int, r),
{
    let ghost sv = s@;
    let n = s.len();
    if n - i > 1 && s[i + 1] >= 49 && s[i + 1] <= 57 {
        let e = run_end(s, i + 2, 1);
        let len = e - i;
        let ghost w = sv.subrange(i as int, e as int);
        proof {
            assert forall|k: int| 2 <= k < w.len() implies is_digit(#[trigger] w[k]) by {
                assert(run_byte(1, sv[i + k]));
            }
            assert(integer_literal(w));
            assert(fixed_spelled(w) is None);
            if e - 1 > i + 1 {
                assert(run_byte(1, sv[e - 1]));
            }
            lemma_after_ascii(sv, i as int, e - 1);
            assert forall|l: int| len < l <= sv.len() - i implies #[trigger] class_of(
                sv.subrange(i as int, i + l),
            ) is None by {
                let w2 = sv.subrange(i as int, i + l);
                if class_of(w2) is Some {
                    lemma_class_by_first_byte(w2);
                    assert(w2[len as int] == sv[e as int]);
                }
            }
        }
        return (Some(Lexeme::Int), len);
    }
    proof {
        lemma_after_ascii(sv, i as int, i as int);
        assert forall|l: int| 1 < l <= sv.len() - i implies #[trigger] class_of(
            sv.subrange(i as int, i + l),
        ) is None by {
            let w2 = sv.subrange(i as int, i + l);
            if class_of(w2) is Some {
                lemma_class_by_first_byte(w2);
                assert(w2[1] == sv[i + 1]);
            }
        }
        assert(fixed_spelled(sv.subrange(i as int, i + 1)) == Some(Fixed::Minus));
    }
    (Some(Lexeme::Fixed(Fixed::Minus)), 1)
}

fn scan_space(s: &[u8], i: usize) -> (r: (Option<Lexeme>, usize))
    requires
        i < s@.len(),
        valid_utf8(s@.subrange(i as int, s@.len() as int)),
        is_space(s@[i as int]),
    ensures
        scanned(s@, i as int, r),
{
    let ghost sv = s@;
    let _n = s.len();
    let e = run_end(s, i + 1, 2);
    let len = e - i;
    let ghost w = sv.subrange(i as int, e as int);
    proof {
        assert forall|k: int| 0 <= k < w.len() implies is_space(#[trigger] w[k]) by {
            if k > 0 {
                assert(run_byte(2, sv[i + k]));
            }
        }
        assert(whitespace(w));
        assert(fixed_spelled(w) is None);
        if e - 1 > i {
            assert(run_byte(2, sv[e - 1]));
        }
        lemma_after_ascii(sv, i as int, e - 1);
        assert forall|l: int| len < l <= sv.len() - i implies #[trigger] class_of(
            sv.subrange(i as int, i + l),
        ) is None by {
            let w2 = sv.subrange(i as int, i + l);
            if class_of(w2) is Some {
                lemma_class_by_first_byte(w2);
                assert(w2[len as int] == sv[e as int]);
            }
        }
    }
    (Some(Lexeme::Space), len)
}

fn scan_comment(s: &[u8], i: usize) -> (r: (Option<Lexeme>, usize))
    requires
        i + 1 < s@.len(),
        s@[i as int] == 47,
        s@[i + 1] == 47,
    ensures
        scanned(s@, i as int, r),
{
    let ghost sv = s@;
    let _n = s.len();
    let e = run_end(s, i + 2, 3);
    let len = e - i;
    let ghost w = sv.subrange(i as int, e as int);
    proof {
        assert forall|k: int| 2 <= k < w.len() implies #[trigger] w[k] != 10 by {
            assert(run_byte(3, sv[i + k]));
        }
        assert(comment(w));
        assert(fixed_spelled(w) is None);
        assert forall|l: int| len < l <= sv.len() - i implies #[trigger] class_of(
            sv.subrange(i as int, i + l),
        ) is None by {
            let w2 = sv.subrange(i as int, i + l);
            if class_of(w2) is Some {
                lemma_class_by_first_byte(w2);
                assert(w2[len as int] == sv[e as int]);
            }
        }
    }
    (Some(Lexeme::Comment), len)
}

fn scan_operator(s: &[u8], i: usize, f: Fixed) -> (r: (Option<Lexeme>, usize))
    requires
        i < s@.len(),
        valid_utf8(s@.subrange(i as int, s@.len() as int)),
        fixed_byte(s@[i as int]) == Some(f),
        s@[i as int] != 45,
        !(s@[i as int] == 47 && i + 1 < s@.len() && s@[i + 1] == 47),
    ensures
        scanned(s@, i as int, r),
{
    let ghost sv = s@;
    let n = s.len();
    let b = s[i];
    // operators that may continue into a longer one
    let (g, len): (Fixed, usize) = if b == 42 && n - i > 2 && s[i + 1] == 62 && s[i + 2] == 62 {
        (Fixed::OperatorHighMul, 3)
    } else if (b == 61 || b == 33 || b == 62 || b == 60) && n - i > 1 && s[i + 1] == 61 {
        let g = if b == 61 {
            Fixed::RelOpEq
        } else if b == 33 {
            Fixed::RelOpNeq
        } else if b == 62 {
            Fixed::RelOpGe
        } else {
            Fixed::RelOpLe
        };
        (g, 2)
    } else {
        (f, 1)
    };
    let ghost w = sv.subrange(i as int, i + len);
    proof {
        if len == 3 {
            assert(w =~= spelling(Fixed::OperatorHighMul));
        }
        assert(fixed_spelled(w) == Some(g));
        lemma_after_ascii(sv, i as int, i + len - 1);
        assert forall|l: int| len < l <= sv.len() - i implies #[trigger] class_of(
            sv.subrange(i as int, i + l),
        ) is None by {
            let w2 = sv.subrange(i as int, i + l);
            if class_of(w2) is Some {
                lemma_class_by_first_byte(w2);
                assert(w2[0] == b);
                assert(w2[1] == sv[i + 1]);
                if l >= 3 {
                    assert(w2[2] == sv[i + 2]);
                }
            }
        }
    }
    (Some(Lexeme::Fixed(g)), len)
}

fn scan_unknown(s: &[u8], i: usize) -> (r: (Option<Lexeme>, usize))
    requires
        i < s@.len(),
        valid_utf8(s@.subrange(i as int, s@.len() as int)),
        fixed_byte(s@[i as int]) is None,
        !is_letter(s@[i as int]),
        !is_digit(s@[i as int]),
        !is_space(s@[i as int]),
        s@[i as int] != 39,
        s@[i as int] != 34,
    ensures
        scanned(s@, i as int, r),
{
    let ghost sv = s@;
    let b = s[i];
    proof {
        assert forall|l: int| 1 <= l <= sv.len() - i implies #[trigger] class_of(
            sv.subrange(i as int, i + l),
        ) is None by {
            let w2 = sv.subrange(i as int, i + l);
            if class_of(w2) is Some {
                lemma_class_by_first_byte(w2);
                assert(w2[0] == b);
            }
        }
    }
    // no word starts with this byte: the error covers one character
    let w = char_width(s, i);
    (None, w)
}

/// The longest match at index `i`: its class and length, or, when no word
/// there has a class, `None` and the extent of the error.
pub fn scan_at(s: &[u8], i: usize) -> (r: (Option<Lexeme>, usize))
    requires
        i < s@.len(),
        valid_utf8(s@.subrange(i as int, s@.len() as int)),
    ensures
        scanned(s@, i as int, r),
{
    let n = s.len();
    let b = s[i];
    if is_letter_exec(b) {
        return scan_word(s, i);
    }
    if b >= 48 && b <= 57 {
        return scan_number(s, i);
    }
    if b == 45 {
        return scan_minus(s, i);
    }
    if b == 39 || b == 34 {
        let (closed, len) = scan_quoted(s, i);
        proof {
            if closed {
                lemma_after_ascii(s@, i as int, i + len - 1);
            }
        }
        if closed {
            let c = if b == 39 { Lexeme::CharLit } else { Lexeme::StrLit };
            return (Some(c), len);
        }
        return (None, len);
    }
    if is_space_exec(b) {
        return scan_space(s, i);
    }
    if b == 47 && n - i > 1 && s[i + 1] == 47 {
        return scan_comment(s, i);
    }
    match fixed_byte_exec(b) {
        Some(f) => scan_operator(s, i, f),
        None => scan_unknown(s, i),
    }
}

} // verus!
