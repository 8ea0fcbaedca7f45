use etac::lexer::stream::EtaLexer;
use etac::lexer::strings::{parse_char, parse_str};
use etac::lexer::error::{InternalLexerError, LexErrorKind};
use etac::lexer::tokens::RawToken;
use etac::span::Span;

fn err(kind: LexErrorKind) -> InternalLexerError {
    InternalLexerError { span: Span::new(0, 1), kind }
}

#[test]
fn tokens_print_as_in_the_lexed_dump() {
    assert_eq!(RawToken::KeywordWhile.to_string(), "while");
    assert_eq!(RawToken::BlockOpen.to_string(), "{");
    assert_eq!(RawToken::OperatorHighMul.to_string(), "*>>");
    assert_eq!(RawToken::BoolLiteral(false).to_string(), "false");
    assert_eq!(RawToken::Integer(-5).to_string(), "integer -5");
    assert_eq!(RawToken::Integer(0).to_string(), "integer 0");
    assert_eq!(RawToken::Identifier("foo".to_string()).to_string(), "id foo");
}

#[test]
fn literals_print_escaped() {
    assert_eq!(RawToken::CharLiteral(10).to_string(), "character \\n");
    assert_eq!(RawToken::CharLiteral(97).to_string(), "character a");
    assert_eq!(RawToken::CharLiteral(0x263A).to_string(), "character \\x{263a}");
    assert_eq!(RawToken::CharLiteral(39).to_string(), "character \\'");
    assert_eq!(
        RawToken::StrLiteral("a\u{e9}\"".to_string()).to_string(),
        "string a\\x{e9}\\\""
    );
    assert_eq!(RawToken::StrLiteral(String::new()).to_string(), "string ");
}

#[test]
fn backslash_u_brace_in_a_string_reads_as_an_x_escape() {
    assert_eq!(RawToken::StrLiteral("\\u{".to_string()).to_string(), "string \\\\x{");
}

#[test]
fn error_messages() {
    let e = err(LexErrorKind::UnknownToken);
    assert_eq!(e.message(), "unknown token");
    assert_eq!(e.label(), "this token");
    assert_eq!(e.note(), None);

    let e = err(LexErrorKind::IntegerTooLarge);
    assert_eq!(e.message(), "illegal integer literal: number too large to fit in target type");
    assert_eq!(e.label(), "this number is too large");
    assert_eq!(e.note().as_deref(), Some("eta only supports ints in the range [-2^63, 2^63)"));

    let e = err(LexErrorKind::ExpectedBrace);
    assert_eq!(e.message(), "expected '{{' after '\\x'");

    let e = err(LexErrorKind::UnknownEscape('q'));
    assert_eq!(e.message(), "unknown escape: '\\q' is not a recognized escape sequence");
    assert_eq!(
        e.note().as_deref(),
        Some("valid escapes: '\\n', '\\t', '\\r', '\\\\', '\\'', '\\\"', '\\0', '\\x{..}'")
    );

    let e = err(LexErrorKind::InvalidHexDigit('g'));
    assert_eq!(e.message(), "invalid hex digit 'g' in unicode escape: '");

    let e = err(LexErrorKind::SurrogateEscape(0xD800));
    assert_eq!(e.message(), "invalid unicode escape");
    assert_eq!(
        e.note().as_deref(),
        Some("U+D800 is a UTF-16 surrogate half and is not a valid Unicode scalar value; surrogate halves (U+D800–U+DFFF) cannot be used in escape sequences")
    );
    let e = err(LexErrorKind::SurrogateEscape(0x41));
    assert!(e.note().unwrap().starts_with("U+0041 is"));

    let e = err(LexErrorKind::TooManyCharacters);
    assert_eq!(
        e.note().as_deref(),
        Some(" a char literal must contain exactly one character; did you mean to use a string literal (\"...\") instead?")
    );
}

#[test]
fn shown_chars_read_back() {
    use_char_round_trip(10);
    use_char_round_trip(97);
    use_char_round_trip(39);
    use_char_round_trip(92);
    use_char_round_trip(0x263A);
    use_char_round_trip(0x10FFFF);
}

fn use_char_round_trip(c: u32) {
    let shown = RawToken::CharLiteral(c).to_string();
    let body = shown.strip_prefix("character ").unwrap();
    let quoted = format!("'{}'", body);
    assert_eq!(parse_char(quoted.as_bytes(), 0), Ok(c));
}

#[test]
fn shown_strings_read_back() {
    for s in ["", "abc", "a\u{e9}\"", "tab\there\n", "\\x{41}", "q'uote\\"] {
        let shown = RawToken::StrLiteral(s.to_string()).to_string();
        let body = shown.strip_prefix("string ").unwrap();
        let quoted = format!("\"{}\"", body);
        assert_eq!(parse_str(quoted.as_bytes(), 0), Ok(s.to_string()));
    }
}

#[test]
fn backslash_u_brace_does_not_read_back() {
    let shown = RawToken::StrLiteral("\\u{".to_string()).to_string();
    let body = shown.strip_prefix("string ").unwrap();
    let quoted = format!("\"{}\"", body);
    assert_eq!(parse_str(quoted.as_bytes(), 0), Ok("\\x{".to_string()));
}

#[test]
fn fixed_tokens_lex_back_as_themselves() {
    let tokens = [
        RawToken::KeywordWhile,
        RawToken::KeywordIf,
        RawToken::BlockOpen,
        RawToken::BlockClose,
        RawToken::OperatorHighMul,
        RawToken::RelOpLe,
        RawToken::BoolLiteral(true),
        RawToken::BoolLiteral(false),
    ];
    for t in tokens {
        let text = t.to_string();
        let mut lexer = EtaLexer::new(7, &text);
        match lexer.next() {
            Some(Ok(st)) => {
                assert_eq!(st.tok, t);
                assert_eq!(st.span, Span::new(7, 7 + text.len() as u32));
            }
            other => panic!("{text}: {other:?}"),
        }
        assert!(lexer.next().is_none());
    }
}
