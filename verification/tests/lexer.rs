use etac::lexer::error::{InternalLexerError, LexErrorKind};
use etac::lexer::stream::EtaLexer;
use etac::lexer::tokens::{RawToken, SourceToken};
use etac::span::Span;

fn lex_all(base: u32, src: &str) -> Vec<Result<SourceToken, InternalLexerError>> {
    let mut lexer = EtaLexer::new(base, src);
    let mut out = Vec::new();
    while let Some(item) = lexer.next() {
        out.push(item);
    }
    out
}

fn tokens(src: &str) -> Vec<RawToken> {
    lex_all(0, src)
        .into_iter()
        .map(|r| match r {
            Ok(t) => t.tok,
            Err(e) => panic!("unexpected lexical error {:?}", e),
        })
        .collect()
}

fn first_error(src: &str) -> InternalLexerError {
    lex_all(0, src)
        .into_iter()
        .find_map(|r| r.err())
        .expect("an error")
}

#[test]
fn keywords_and_identifiers() {
    assert_eq!(
        tokens("use length while if else return int bool"),
        vec![
            RawToken::KeywordUse,
            RawToken::KeywordLength,
            RawToken::KeywordWhile,
            RawToken::KeywordIf,
            RawToken::KeywordElse,
            RawToken::KeywordReturn,
            RawToken::KeywordInt,
            RawToken::KeywordBool,
        ]
    );
    assert_eq!(tokens("iffy"), vec![RawToken::Identifier("iffy".to_string())]);
    assert_eq!(tokens("x_1'"), vec![RawToken::Identifier("x_1'".to_string())]);
    assert_eq!(tokens("true false"), vec![RawToken::BoolLiteral(true), RawToken::BoolLiteral(false)]);
}

#[test]
fn longest_match_takes_the_sign_into_the_integer() {
    let items = lex_all(0, "x-1");
    let toks: Vec<SourceToken> = items.into_iter().map(|r| r.unwrap()).collect();
    assert_eq!(toks.len(), 2);
    assert_eq!(toks[0].tok, RawToken::Identifier("x".to_string()));
    assert_eq!(toks[0].span, Span::new(0, 1));
    assert_eq!(toks[1].tok, RawToken::Integer(-1));
    assert_eq!(toks[1].span, Span::new(1, 3));
}

#[test]
fn operators_take_the_longest_spelling() {
    assert_eq!(tokens("*>>"), vec![RawToken::OperatorHighMul]);
    assert_eq!(tokens("*>"), vec![RawToken::OperatorMul, RawToken::RelOpGr]);
    assert_eq!(tokens("<= >= == != < > ! ="), vec![
        RawToken::RelOpLe,
        RawToken::RelOpGe,
        RawToken::RelOpEq,
        RawToken::RelOpNeq,
        RawToken::RelOpLt,
        RawToken::RelOpGr,
        RawToken::OperatorNot,
        RawToken::Assign,
    ]);
    assert_eq!(tokens("-0"), vec![RawToken::Minus, RawToken::Integer(0)]);
    assert_eq!(tokens("007"), vec![RawToken::Integer(0), RawToken::Integer(0), RawToken::Integer(7)]);
}

#[test]
fn trivia_is_skipped() {
    assert_eq!(
        tokens("x // a comment\n\t y"),
        vec![RawToken::Identifier("x".to_string()), RawToken::Identifier("y".to_string())]
    );
    assert_eq!(tokens("   "), vec![]);
    assert_eq!(tokens("// only a comment"), vec![]);
}

#[test]
fn spans_are_in_the_global_space() {
    let items = lex_all(100, "a (b)");
    let spans: Vec<Span> = items.into_iter().map(|r| r.unwrap().span).collect();
    assert_eq!(spans, vec![Span::new(100, 101), Span::new(102, 103), Span::new(103, 104), Span::new(104, 105)]);
}

#[test]
fn integer_bounds() {
    assert_eq!(tokens("9223372036854775807"), vec![RawToken::Integer(i64::MAX)]);
    assert_eq!(tokens("-9223372036854775808"), vec![RawToken::Integer(i64::MIN)]);
    let e = first_error("9223372036854775808");
    assert_eq!(e.kind, LexErrorKind::IntegerTooLarge);
    assert_eq!(e.span, Span::new(0, 19));
    assert_eq!(first_error("-9223372036854775809").kind, LexErrorKind::IntegerTooSmall);
}

#[test]
fn char_literals() {
    assert_eq!(tokens("'a'"), vec![RawToken::CharLiteral(97)]);
    assert_eq!(tokens("'\\n'"), vec![RawToken::CharLiteral(10)]);
    assert_eq!(tokens("'\\x{41}'"), vec![RawToken::CharLiteral(65)]);
    assert_eq!(tokens("'\u{e9}'"), vec![RawToken::CharLiteral(0xe9)]);
    let e = first_error("''");
    assert_eq!(e.kind, LexErrorKind::EmptyCharLiteral);
    assert_eq!(e.span, Span::new(0, 2));
    let e = first_error("'ab'");
    assert_eq!(e.kind, LexErrorKind::TooManyCharacters);
    assert_eq!(e.span, Span::new(0, 4));
}

#[test]
fn string_literals() {
    assert_eq!(tokens("\"hi\\tthere\""), vec![RawToken::StrLiteral("hi\tthere".to_string())]);
    assert_eq!(tokens("\"\\x{263A}!\""), vec![RawToken::StrLiteral("\u{263A}!".to_string())]);
    assert_eq!(first_error("\"\\q\"").kind, LexErrorKind::UnknownEscape('q'));
    assert_eq!(first_error("\"\\x{}\"").kind, LexErrorKind::EmptyUnicodeEscape);
    assert_eq!(first_error("\"\\x{D800}\"").kind, LexErrorKind::SurrogateEscape(0xD800));
    assert_eq!(first_error("\"\\x{110000}\"").kind, LexErrorKind::UnicodeEscapeOutOfRange);
}

#[test]
fn unknown_token() {
    let e = first_error("@");
    assert_eq!(e.kind, LexErrorKind::UnknownToken);
    assert_eq!(e.span, Span::new(0, 1));
    let items = lex_all(0, "a @ b");
    assert_eq!(items.len(), 3);
    assert!(items[1].is_err());
    assert_eq!(items[2].as_ref().unwrap().tok, RawToken::Identifier("b".to_string()));
}

#[test]
fn unterminated_string_runs_to_the_end() {
    let e = first_error("\"abc");
    assert_eq!(e.kind, LexErrorKind::UnknownToken);
    assert_eq!(e.span, Span::new(0, 4));
}
