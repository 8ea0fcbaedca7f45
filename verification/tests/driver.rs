use etac::diag::{DiagCtx, Level};
use etac::driver::{outcome, settle_parse, source_kind, CompilationFailure, CompilationSuccess, SourceKind};
use etac::lexer::log::{LexLog, TeeLexer};
use etac::lexer::stream::EtaLexer;
use etac::line_index::LineIndex;
use etac::parse::Parsed;
use etac::parse_log::{ParseLog, ParsedDump};
use etac::span::Span;

#[test]
fn a_run_fails_exactly_when_an_error_was_reported() {
    let mut dcx = DiagCtx::new();
    dcx.warn(Span::new(0, 1), "w".to_string()).finish(&mut dcx);
    assert_eq!(outcome(&dcx), Ok(CompilationSuccess { warnings: 1 }));
    dcx.err_no_span("e".to_string()).finish(&mut dcx);
    assert_eq!(outcome(&dcx), Err(CompilationFailure { errors: 1, warnings: 1 }));
}

#[test]
fn file_kinds() {
    assert_eq!(source_kind(Some("eta"), "a.eta"), Ok(SourceKind::Program));
    assert_eq!(source_kind(Some("eti"), "a.eti"), Ok(SourceKind::Interface));
    assert_eq!(source_kind(Some("txt"), "foo.txt"), Err("unknown file type `txt` for foo.txt".to_string()));
    assert_eq!(source_kind(None, "foo"), Err("unknown file type `` for foo".to_string()));
}

#[test]
fn settling_records_the_diagnostics_of_an_unclean_parse() {
    let mut dcx = DiagCtx::new();
    let mut lexer = EtaLexer::new(0, "");
    let e = dcx.err(Span::new(0, 1), "bad".to_string());
    let r = settle_parse(Parsed::Recovered(5), vec![e], &mut lexer, &mut dcx);
    assert_eq!(r.ok(), Some(5));
    assert_eq!(dcx.err_count(), 1);
    let e = dcx.err(Span::new(0, 1), "worse".to_string());
    let r = settle_parse(Parsed::<i32>::Failed, vec![e], &mut lexer, &mut dcx);
    assert!(r.is_err());
    assert_eq!(dcx.err_count(), 2);
    let r = settle_parse(Parsed::Clean(7), vec![], &mut lexer, &mut dcx);
    assert_eq!(r.ok(), Some(7));
    assert_eq!(dcx.err_count(), 2);
    assert_eq!(dcx.into_diagnostics().iter().filter(|d| d.level == Level::Error).count(), 2);
}

#[test]
fn a_failed_parse_reports_the_lexical_errors_after_it() {
    let mut dcx = DiagCtx::new();
    let src = "x @ y @ z";
    let mut lexer = EtaLexer::new(100, src);
    let e = dcx.err(Span::new(100, 101), "Unexpected token id x".to_string());
    let r = settle_parse(Parsed::<()>::Failed, vec![e], &mut lexer, &mut dcx);
    assert!(r.is_err());
    let all = dcx.into_diagnostics();
    let messages: Vec<&str> = all.iter().map(|d| d.message.as_str()).collect();
    assert_eq!(messages, vec!["Unexpected token id x", "unknown token", "unknown token"]);
    assert_eq!(all[1].loc, Some(Span::new(102, 103)));
    assert_eq!(all[2].loc, Some(Span::new(106, 107)));
    assert!(lexer.next_reported(&DiagCtx::new()).is_none());
}

#[test]
fn a_recovered_parse_leaves_the_lexer_alone() {
    let mut dcx = DiagCtx::new();
    let mut lexer = EtaLexer::new(0, "@");
    let e = dcx.err(Span::new(0, 1), "bad".to_string());
    let r = settle_parse(Parsed::Recovered(1), vec![e], &mut lexer, &mut dcx);
    assert_eq!(r.ok(), Some(1));
    assert_eq!(dcx.err_count(), 1);
    let d = DiagCtx::new();
    assert!(matches!(lexer.next_reported(&d), Some(Err(_))));
}

#[test]
fn lexed_dump_stops_at_the_first_error() {
    let src = "x\n  @ y";
    let index = LineIndex::new(src);
    let dcx = DiagCtx::new();
    let mut lexer = EtaLexer::new(10, src);
    let mut log = LexLog::new();
    let mut lines = Vec::new();
    while let Some(item) = lexer.next_reported(&dcx) {
        if let Some(line) = log.entry(&item, 10, &index) {
            lines.push(line);
        }
        if let Err(d) = item {
            d.cancel();
        }
    }
    assert_eq!(lines, vec!["1:1 id x".to_string(), "2:3 error:unknown token".to_string()]);
}

#[test]
fn parsed_dump_shows_the_tree_or_the_first_error() {
    let src = "main() {\n  x = \n}";
    let index = LineIndex::new(src);
    let dcx = DiagCtx::new();
    let mut log = ParseLog::new();
    assert_eq!(log.entry(&Parsed::Clean(()), &[], 0, &index), ParsedDump::Tree);
    let recovered = vec![dcx.err(Span::new(16, 17), "Unexpected token }".to_string())];
    assert_eq!(log.entry(&Parsed::Recovered(()), &recovered, 0, &index), ParsedDump::Tree);
    for e in recovered {
        e.cancel();
    }
    let errs = vec![
        dcx.warn(Span::new(0, 1), "just a warning".to_string()),
        dcx.err(Span::new(16, 17), "Unexpected token }".to_string()),
    ];
    assert_eq!(
        log.entry(&Parsed::<()>::Failed, &errs, 0, &index),
        ParsedDump::Line("3:1 error:Unexpected token }".to_string())
    );
    assert_eq!(log.entry(&Parsed::Clean(()), &[], 0, &index), ParsedDump::Nothing);
    for e in errs {
        e.cancel();
    }
}

#[test]
fn the_lexed_dump_of_a_whole_stream() {
    let src = "x 1\n@ y @";
    let mut dcx = DiagCtx::new();
    let mut tee = TeeLexer::new(0, src, true);
    let mut items = Vec::new();
    while let Some(item) = tee.next(&dcx) {
        items.push(item);
    }
    let lines = tee.into_lines();
    assert_eq!(lines, vec!["1:1 id x".to_string(), "1:3 integer 1".to_string(), "2:1 error:unknown token".to_string()]);
    let mut plain = EtaLexer::new(0, src);
    let d2 = DiagCtx::new();
    assert_eq!(items.len(), 5);
    for item in items {
        match (item, plain.next_reported(&d2)) {
            (Ok(a), Some(Ok(b))) => assert_eq!(a, b),
            (Err(a), Some(Err(b))) => {
                assert_eq!(a.message(), b.message());
                assert_eq!(a.loc(), b.loc());
                a.finish(&mut dcx);
                b.cancel();
            }
            _ => panic!("the tee changed the stream"),
        }
    }
    assert!(plain.next_reported(&d2).is_none());
    assert_eq!(dcx.err_count(), 2);
}

#[test]
fn the_tee_writes_nothing_when_not_logging() {
    let dcx = DiagCtx::new();
    let mut tee = TeeLexer::new(0, "x @", false);
    let mut n = 0;
    while let Some(item) = tee.next(&dcx) {
        n += 1;
        if let Err(d) = item {
            d.cancel();
        }
    }
    assert_eq!(n, 2);
    assert!(tee.into_lines().is_empty());
}
