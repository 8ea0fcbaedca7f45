//! What the parser hands back, and how its failures become diagnostics.
use vstd::prelude::*;
use vstd::string::StringExecFns;
use lalrpop_util::ParseError;
use crate::ast::span_table::{NodeId, SpanTable};
use crate::ast::{Expr, ExprKind, LValue, LValueKind};
use crate::diag::{Diag, DiagCtx, DiagnosticView, Level, LabelColor};
use crate::lexer::text::token_text;
use crate::lexer::tokens::RawToken;
use crate::span::Span;
use crate::text::push_str;

verus! {

/// Outcome of a parse. Its diagnostics have already been recorded.
#[derive(Debug)]
pub enum Parsed<Out> {
    /// Parsed cleanly.
    Clean(Out),
    /// The parser recovered from one or more errors and still built a tree.
    Recovered(Out),
    /// Parsing hit a fatal error and built no tree.
    Failed,
}

impl<Out> Parsed<Out> {
    /// The tree, if one was built.
    pub fn output(&self) -> (r: Option<&Out>)
        ensures
            r == match *self {
                Parsed::Clean(o) => Some(&o),
                Parsed::Recovered(o) => Some(&o),
                Parsed::Failed => None::<&Out>,
            },
    {
        match self {
            Parsed::Clean(out) => Some(out),
            Parsed::Recovered(out) => Some(out),
            Parsed::Failed => None,
        }
    }
}

// ---- expected-token lists ----

/// The strings of `s` joined with `sep` between neighbours.
pub open spec fn join(s: Seq<Seq<char>>, sep: Seq<char>) -> Seq<char>
    decreases s.len(),
{
    if s.len() == 0 {
        Seq::empty()
    } else if s.len() == 1 {
        s[0]
    } else {
        join(s.drop_last(), sep) + sep + s.last()
    }
}

/// How the tokens the parser expected are listed in a label.
pub open spec fn expected_text(e: Seq<Seq<char>>) -> Seq<char> {
    if e.len() == 0 {
        "expected nothing"@
    } else if e.len() == 1 {
        "expected "@ + e[0]
    } else {
        "expected one of "@ + join(e.drop_last(), ", "@) + ", or "@ + e.last()
    }
}

pub open spec fn strings_view(v: Seq<String>) -> Seq<Seq<char>> {
    v.map_values(|s: String| s@)
}

/// Lists the tokens the parser expected.
pub fn format_expected(expected: &[String]) -> (s: String)
    ensures
        s@ == expected_text(strings_view(expected@)),
{
    let n = expected.len();
    let ghost e = strings_view(expected@);
    if n == 0 {
        return String::from_str("expected nothing");
    }
    if n == 1 {
        let mut s = String::from_str("expected ");
        push_str(&mut s, expected[0].as_str());
        return s;
    }
    let mut s = String::from_str("expected one of ");
    push_str(&mut s, expected[0].as_str());
    let mut i: usize = 1;
    proof {
        assert(e.take(1).drop_last() =~= Seq::<Seq<char>>::empty());
        assert(join(e.take(1), ", "@) == e[0]);
    }
    while i < n - 1
        invariant
            n == expected@.len(),
            e == strings_view(expected@),
            n >= 2,
            1 <= i <= n - 1,
            s@ == "expected one of "@ + join(e.take(i as int), ", "@),
        decreases n - i,
    {
        push_str(&mut s, ", ");
        push_str(&mut s, expected[i].as_str());
        proof {
            let t = e.take(i + 1);
            assert(t.drop_last() =~= e.take(i as int));
            assert(t.last() == expected@[i as int]@);
        }
        i += 1;
        proof {
            assert(s@ =~= "expected one of "@ + join(e.take(i as int), ", "@));
        }
    }
    push_str(&mut s, ", or ");
    push_str(&mut s, expected[n - 1].as_str());
    proof {
        assert(e.take((n - 1) as int) =~= e.drop_last());
        assert(s@ =~= expected_text(e));
    }
    s
}

// ---- lvalues read as expressions ----

pub open spec fn expr_kind_of(k: LValueKind) -> ExprKind {
    match k {
        LValueKind::Id(id) => ExprKind::Id(id),
        LValueKind::ProcCall(pc) => ExprKind::Call(pc),
        LValueKind::Index { array, index } => ExprKind::Index { array, index },
    }
}

/// Reads an lvalue as the expression with the same shape. The rebuilt node
/// gets a fresh id whose span is the lvalue's.
pub fn lvalue_to_expr(lv: LValue, spans: &mut SpanTable) -> (e: Expr)
    requires
        old(spans).knows(lv.node_id),
        old(spans)@.len() < u32::MAX,
    ensures
        e.kind == expr_kind_of(lv.kind),
        !old(spans).knows(e.node_id),
        final(spans).knows(e.node_id),
        final(spans).span_for(e.node_id) == old(spans).span_for(lv.node_id),
        final(spans)@ == old(spans)@.push(old(spans).span_for(lv.node_id)),
{
    let id = spans.dup(lv.node_id);
    let kind = match lv.kind {
        LValueKind::Id(id) => ExprKind::Id(id),
        LValueKind::ProcCall(pc) => ExprKind::Call(pc),
        LValueKind::Index { array, index } => ExprKind::Index { array, index },
    };
    Expr::new(id, kind)
}

// ---- parse failures ----

/// A failure reported by the parser, as plain values.
#[derive(Debug)]
pub enum ParseFailure {
    /// A token the lexer could not make; never produced with this lexer.
    InvalidToken { location: u32 },
    /// The input ended where more was expected.
    UnrecognizedEof { location: u32, expected: Vec<String> },
    /// A token that does not fit here, with its bounds.
    UnrecognizedToken { token: (u32, RawToken, u32), expected: Vec<String> },
    /// A token after a complete program.
    ExtraToken { token: (u32, RawToken, u32) },
    /// A diagnostic raised by the grammar's own actions.
    User { error: Diag },
}

#[verifier::external_type_specification]
#[verifier::external_body]
#[verifier::reject_recursive_types(L)]
#[verifier::reject_recursive_types(T)]
#[verifier::reject_recursive_types(E)]
pub struct ExParseError<L, T, E>(ParseError<L, T, E>);

/// The failure that a `lalrpop_util::ParseError` holds: the variant of the
/// same name with the same fields. It depends on the error alone.
pub uninterp spec fn failure_of(e: ParseError<u32, RawToken, Diag>) -> ParseFailure;

/// Tells the variants of `lalrpop_util::ParseError` apart: each becomes the
/// variant of the same name, its fields moved over, which is
/// [`failure_of`] of the error.
#[verifier::external_body]
fn parse_failure(e: ParseError<u32, RawToken, Diag>) -> (r: ParseFailure)
    ensures
        r == failure_of(e),
{
    match e {
        ParseError::InvalidToken { location } => ParseFailure::InvalidToken { location },
        ParseError::UnrecognizedEof { location, expected } => ParseFailure::UnrecognizedEof { location, expected },
        ParseError::UnrecognizedToken { token, expected } => ParseFailure::UnrecognizedToken { token, expected },
        ParseError::ExtraToken { token } => ParseFailure::ExtraToken { token },
        ParseError::User { error } => ParseFailure::User { error },
    }
}

/// The token of a failure can be printed: a char literal holds a scalar value.
pub open spec fn printable(t: RawToken) -> bool {
    t matches RawToken::CharLiteral(c) ==> vstd::utf8::is_scalar(c)
}

/// The failures that become a diagnostic: every one but an invalid token,
/// whose token, if any, can be printed.
pub open spec fn reportable(f: ParseFailure) -> bool {
    match f {
        ParseFailure::InvalidToken { .. } => false,
        ParseFailure::UnrecognizedToken { token, .. } => printable(token.1),
        ParseFailure::ExtraToken { token } => printable(token.1),
        _ => true,
    }
}

pub open spec fn error_at(lo: u32, hi: u32, message: Seq<char>, label: Seq<char>) -> DiagnosticView {
    let span = Span { lo, hi };
    DiagnosticView {
        level: Level::Error,
        message,
        loc: Some(span),
        labels: seq![(span, label, LabelColor::Red)],
        code: None,
        note: None,
    }
}

/// The diagnostic a failure is reported as.
pub open spec fn failure_view(f: ParseFailure) -> DiagnosticView {
    match f {
        ParseFailure::User { error } => error@,
        ParseFailure::UnrecognizedToken { token, expected } => error_at(
            token.0,
            token.2,
            "Unexpected token "@ + token_text(token.1),
            expected_text(strings_view(expected@)),
        ),
        ParseFailure::UnrecognizedEof { location, expected } => error_at(
            location,
            location,
            "Unexpected end of file"@,
            expected_text(strings_view(expected@)),
        ),
        ParseFailure::ExtraToken { token } => error_at(
            token.0,
            token.2,
            "Extra token "@ + token_text(token.1) + " after program"@,
            "unexpected"@,
        ),
        ParseFailure::InvalidToken { .. } => arbitrary(),
    }
}

/// Turns a parse failure into its diagnostic. A failure raised by the
/// grammar is already one.
pub fn to_diag(dcx: &DiagCtx, err: ParseFailure) -> (d: Diag)
    requires
        reportable(err),
    ensures
        d@ == failure_view(err),
        err matches ParseFailure::User { error } ==> d == error,
{
    match err {
        ParseFailure::User { error } => error,
        ParseFailure::UnrecognizedToken { token, expected } => {
            let (lo, t, hi) = token;
            let mut msg = String::from_str("Unexpected token ");
            let tt = t.to_string();
            push_str(&mut msg, tt.as_str());
            let label = format_expected(expected.as_slice());
            let d = dcx.err(Span::new(lo, hi), msg).with_primary_label(label);
            proof {
                assert(d@ =~= failure_view(ParseFailure::UnrecognizedToken { token, expected }));
            }
            d
        },
        ParseFailure::UnrecognizedEof { location, expected } => {
            let label = format_expected(expected.as_slice());
            let d = dcx.err(Span::new(location, location), String::from_str("Unexpected end of file"))
                .with_primary_label(label);
            proof {
                assert(d@ =~= failure_view(ParseFailure::UnrecognizedEof { location, expected }));
            }
            d
        },
        ParseFailure::ExtraToken { token } => {
            let (lo, t, hi) = token;
            let mut msg = String::from_str("Extra token ");
            let tt = t.to_string();
            push_str(&mut msg, tt.as_str());
            push_str(&mut msg, " after program");
            let d = dcx.err(Span::new(lo, hi), msg).with_primary_label(String::from_str("unexpected"));
            proof {
                assert(d@ =~= failure_view(ParseFailure::ExtraToken { token }));
            }
            d
        },
        ParseFailure::InvalidToken { .. } => {
            proof {
                assert(false);
            }
            dcx.err_no_span(String::new())
        },
    }
}

/// Reports a failure of the generated parser: `None` for the failures that
/// become no diagnostic (an invalid token, which this lexer never hands the
/// parser, or an unprintable char literal), else the diagnostic of
/// [`to_diag`].
pub fn report_parse_error(dcx: &DiagCtx, err: ParseError<u32, RawToken, Diag>) -> (d: Option<Diag>)
    ensures
        d is Some <==> reportable(failure_of(err)),
        d matches Some(x) ==> x@ == failure_view(failure_of(err)),
{
    let f = parse_failure(err);
    if is_reportable(&f) {
        Some(to_diag(dcx, f))
    } else {
        None
    }
}

pub fn is_reportable(f: &ParseFailure) -> (b: bool)
    ensures
        b == reportable(*f),
{
    match f {
        ParseFailure::InvalidToken { .. } => false,
        ParseFailure::UnrecognizedToken { token, .. } => is_printable(&token.1),
        ParseFailure::ExtraToken { token } => is_printable(&token.1),
        _ => true,
    }
}

fn is_printable(t: &RawToken) -> (b: bool)
    ensures
        b == printable(*t),
{
    match t {
        RawToken::CharLiteral(c) => crate::text::char_from_u32(*c).is_some(),
        _ => true,
    }
}

// ---- settling a parse ----

/// The level of the diagnostic a failure becomes.
pub open spec fn failure_level(f: ParseFailure) -> Level {
    failure_view(f).level
}

pub open spec fn any_error(s: Seq<ParseFailure>) -> bool {
    exists|i: int| 0 <= i < s.len() && failure_level(#[trigger] s[i]) == Level::Error
}

pub open spec fn diag_views(s: Seq<Diag>) -> Seq<DiagnosticView> {
    s.map_values(|d: Diag| d@)
}

pub open spec fn failure_views(s: Seq<ParseFailure>) -> Seq<DiagnosticView> {
    s.map_values(|f: ParseFailure| failure_view(f))
}

/// Settles a parse from the parser's result and the failures it recovered
/// from. Each recovered failure, then a fatal one, is reported into `errs`.
/// The outcome is `Failed` when the parser failed, `Recovered` when it built
/// a tree past at least one error, and `Clean` otherwise.
pub fn conclude_parse<Out>(
    dcx: &DiagCtx,
    result: Result<Out, ParseFailure>,
    recovered: Vec<ParseFailure>,
    errs: &mut Vec<Diag>,
) -> (p: Parsed<Out>)
    requires
        forall|i: int| 0 <= i < recovered@.len() ==> reportable(#[trigger] recovered@[i]),
        result matches Err(f) ==> reportable(f),
    ensures
        diag_views(final(errs)@) == diag_views(old(errs)@) + failure_views(recovered@) + match result {
            Ok(_) => Seq::<DiagnosticView>::empty(),
            Err(f) => seq![failure_view(f)],
        },
        match result {
            Ok(o) => if any_error(recovered@) {
                p == Parsed::Recovered(o)
            } else {
                p == Parsed::Clean(o)
            },
            Err(_) => p is Failed,
        },
{
    let ghost rec = recovered@;
    let mut rest = recovered;
    let mut saw_error = false;
    let mut k: usize = 0;
    let n = rest.len();
    while rest.len() > 0
        invariant
            rest@ == rec.skip(k as int),
            k <= rec.len(),
            n == rec.len(),
            forall|i: int| 0 <= i < rec.len() ==> reportable(#[trigger] rec[i]),
            diag_views(errs@) == diag_views(old(errs)@) + failure_views(rec.take(k as int)),
            saw_error == exists|i: int| 0 <= i < k && failure_level(#[trigger] rec[i]) == Level::Error,
        decreases rest.len(),
    {
        let f = rest.remove(0);
        proof {
            assert(f == rec[k as int]);
        }
        let d = to_diag(dcx, f);
        if d.level() == Level::Error {
            saw_error = true;
        }
        let ghost before = errs@;
        let ghost dv = d@;
        errs.push(d);
        proof {
            assert(rec.take(k + 1) =~= rec.take(k as int).push(rec[k as int]));
            assert(diag_views(errs@) =~= diag_views(before).push(dv));
            assert(failure_views(rec.take(k + 1)) =~= failure_views(rec.take(k as int)).push(
                failure_view(rec[k as int]),
            ));
            assert(diag_views(errs@) =~= diag_views(old(errs)@) + failure_views(rec.take(k + 1)));
        }
        k += 1;
        proof {
            assert(rest@ =~= rec.skip(k as int));
        }
    }
    proof {
        assert(k == rec.len());
        assert(rec.take(k as int) =~= rec);
    }
    match result {
        Ok(out) => if saw_error {
            Parsed::Recovered(out)
        } else {
            Parsed::Clean(out)
        },
        Err(fatal) => {
            let ghost fv = failure_view(fatal);
            let d = to_diag(dcx, fatal);
            let ghost before = errs@;
            errs.push(d);
            proof {
                assert(diag_views(errs@) =~= diag_views(before).push(fv));
                assert(diag_views(errs@) =~= diag_views(old(errs)@) + failure_views(rec) + seq![fv]);
            }
            Parsed::Failed
        },
    }
}

} // verus!
