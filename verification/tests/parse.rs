use lalrpop_util::ParseError;
use etac::diag::{Diag, DiagCtx, Level};
use etac::lexer::tokens::RawToken;
use etac::parse::{conclude_parse, format_expected, report_parse_error, to_diag, ParseFailure, Parsed};
use etac::span::Span;

fn strings(v: &[&str]) -> Vec<String> {
    v.iter().map(|s| s.to_string()).collect()
}

#[test]
fn expected_lists() {
    assert_eq!(format_expected(&[]), "expected nothing");
    assert_eq!(format_expected(&strings(&["\";\""])), "expected \";\"");
    assert_eq!(format_expected(&strings(&["a", "b"])), "expected one of a, or b");
    assert_eq!(format_expected(&strings(&["a", "b", "c"])), "expected one of a, b, or c");
}

#[test]
fn output_of_a_parse() {
    assert_eq!(Parsed::Clean(3).output(), Some(&3));
    assert_eq!(Parsed::Recovered(4).output(), Some(&4));
    assert_eq!(Parsed::<i32>::Failed.output(), None);
}

fn recorded(d: Diag) -> etac::diag::Diagnostic {
    let mut dcx = DiagCtx::new();
    d.finish(&mut dcx);
    *dcx.into_diagnostics().pop().unwrap()
}

#[test]
fn failures_become_diagnostics() {
    let dcx = DiagCtx::new();
    let d = recorded(to_diag(&dcx, ParseFailure::UnrecognizedToken {
        token: (4, RawToken::Identifier("x".to_string()), 5),
        expected: strings(&["\"(\"", "\"=\""]),
    }));
    assert_eq!(d.level, Level::Error);
    assert_eq!(d.message, "Unexpected token id x");
    assert_eq!(d.loc, Some(Span::new(4, 5)));
    assert_eq!(d.labels[0].1, "expected one of \"(\", or \"=\"");

    let d = recorded(to_diag(&dcx, ParseFailure::UnrecognizedEof { location: 9, expected: vec![] }));
    assert_eq!(d.message, "Unexpected end of file");
    assert_eq!(d.loc, Some(Span::new(9, 9)));
    assert_eq!(d.labels[0].1, "expected nothing");

    let d = recorded(to_diag(&dcx, ParseFailure::ExtraToken { token: (1, RawToken::BlockClose, 2) }));
    assert_eq!(d.message, "Extra token } after program");
    assert_eq!(d.labels[0].1, "unexpected");

    let user = dcx.warn(Span::new(0, 1), "from the grammar".to_string());
    let d = recorded(to_diag(&dcx, ParseFailure::User { error: user }));
    assert_eq!(d.message, "from the grammar");
    assert_eq!(d.level, Level::Warning);
}

#[test]
fn settling_a_parse() {
    let dcx = DiagCtx::new();
    let mut errs = Vec::new();
    let p = conclude_parse(&dcx, Ok::<i32, ParseFailure>(1), vec![], &mut errs);
    assert!(matches!(p, Parsed::Clean(1)));
    assert!(errs.is_empty());

    let warn = dcx.warn(Span::new(0, 1), "w".to_string());
    let p = conclude_parse(&dcx, Ok::<i32, ParseFailure>(2), vec![ParseFailure::User { error: warn }], &mut errs);
    assert!(matches!(p, Parsed::Clean(2)));
    assert_eq!(errs.len(), 1);

    let mut errs = Vec::new();
    let p = conclude_parse(
        &dcx,
        Ok::<i32, ParseFailure>(3),
        vec![ParseFailure::ExtraToken { token: (0, RawToken::Comma, 1) }],
        &mut errs,
    );
    assert!(matches!(p, Parsed::Recovered(3)));
    assert_eq!(errs.len(), 1);

    let mut errs = Vec::new();
    let p = conclude_parse(
        &dcx,
        Err::<i32, ParseFailure>(ParseFailure::UnrecognizedEof { location: 0, expected: vec![] }),
        vec![ParseFailure::ExtraToken { token: (0, RawToken::Comma, 1) }],
        &mut errs,
    );
    assert!(matches!(p, Parsed::Failed));
    assert_eq!(errs.len(), 2);
    assert_eq!(errs[1].message(), "Unexpected end of file");
}

#[test]
fn parser_errors_are_reported_by_variant() {
    let mut dcx = DiagCtx::new();
    let extra: ParseError<u32, RawToken, Diag> = ParseError::ExtraToken { token: (3, RawToken::KeywordWhile, 8) };
    report_parse_error(&dcx, extra).unwrap().finish(&mut dcx);
    let eof: ParseError<u32, RawToken, Diag> =
        ParseError::UnrecognizedEof { location: 9, expected: vec!["\";\"".to_string()] };
    report_parse_error(&dcx, eof).unwrap().finish(&mut dcx);
    let invalid: ParseError<u32, RawToken, Diag> = ParseError::InvalidToken { location: 1 };
    assert!(report_parse_error(&dcx, invalid).is_none());
    let all = dcx.into_diagnostics();
    assert_eq!(all[0].message, "Extra token while after program");
    assert_eq!(all[0].loc, Some(Span::new(3, 8)));
    assert_eq!(all[0].labels[0].1, "unexpected");
    assert_eq!(all[1].message, "Unexpected end of file");
    assert_eq!(all[1].labels[0].1, "expected \";\"");
}
