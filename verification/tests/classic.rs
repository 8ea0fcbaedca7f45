use etac::diag::no_file::NoFileDiagnostic;
use etac::diag::{LabelColor, Level};
use etac::lexer::classic::{decode_char_content, parse_char, parse_int, parse_str, Token};

#[test]
fn char_contents() {
    assert_eq!(decode_char_content("a"), Some(97));
    assert_eq!(decode_char_content("\u{e9}"), Some(0xe9));
    assert_eq!(decode_char_content("ab"), None);
    assert_eq!(decode_char_content(""), None);
    assert_eq!(decode_char_content("\\n"), Some(10));
    assert_eq!(decode_char_content("\\0"), Some(0));
    assert_eq!(decode_char_content("\\q"), None);
    assert_eq!(decode_char_content("\\"), None);
    assert_eq!(decode_char_content("\\x{41}"), Some(65));
    assert_eq!(decode_char_content("\\x{}"), None);
    assert_eq!(decode_char_content("\\x{41"), None);
    assert_eq!(decode_char_content("\\x{41}z"), None);
    assert_eq!(decode_char_content("\\x41"), None);
    assert_eq!(decode_char_content("\\x{fffffffff}"), None);
    assert_eq!(decode_char_content("\\x{ffffffff}"), None);
    assert_eq!(decode_char_content("\\x{d800}"), None);
    assert_eq!(decode_char_content("\\x{110000}"), None);
    assert_eq!(decode_char_content("\\x{10ffff}"), Some(0x10ffff));
}

#[test]
fn a_one_character_escape_must_be_all_of_the_content() {
    assert_eq!(decode_char_content("\\nxyz"), None);
    assert_eq!(decode_char_content("\\nz"), None);
}

#[test]
fn tokens_print_plainly() {
    assert_eq!(Token::CharLiteral(97).to_string(), "character 97");
    assert_eq!(Token::StrLiteral("a\nb".to_string()).to_string(), "string \"a\nb\"");
    assert_eq!(Token::Integer(18446744073709551615).to_string(), "integer 18446744073709551615");
    assert_eq!(Token::Identifier("v".to_string()).to_string(), "id v");
    assert_eq!(Token::RelOpNeq.to_string(), "!=");
}

fn error_parts(d: &NoFileDiagnostic) -> (String, String) {
    assert_eq!(d.level, Level::Error);
    assert_eq!(d.labels.len(), 1);
    assert_eq!(d.labels[0].0, 3..9);
    assert_eq!(d.labels[0].2, LabelColor::Red);
    assert!(d.code.is_none() && d.note.is_none());
    (d.message.clone(), d.labels[0].1.clone())
}

#[test]
fn integer_callback() {
    assert_eq!(parse_int("0", &(3..9)).ok(), Some(0));
    assert_eq!(parse_int("18446744073709551615", &(3..9)).ok(), Some(u64::MAX));
    let e = parse_int("18446744073709551616", &(3..9)).unwrap_err();
    assert_eq!(
        error_parts(&e),
        (
            "illegal integer literal: number too large to fit in target type".to_string(),
            "number too large to fit in target type".to_string()
        )
    );
    let e = parse_int("", &(3..9)).unwrap_err();
    assert_eq!(error_parts(&e).1, "cannot parse integer from empty string");
    let e = parse_int("1x", &(3..9)).unwrap_err();
    assert_eq!(error_parts(&e).1, "invalid digit found in string");
    assert_eq!(parse_int("+7", &(3..9)).ok(), Some(7));
    assert_eq!(error_parts(&parse_int("+", &(3..9)).unwrap_err()).1, "invalid digit found in string");
}

#[test]
fn char_callback() {
    assert_eq!(parse_char("'a'", &(3..9)).ok(), Some(97));
    assert_eq!(parse_char("'\\x{263A}'", &(3..9)).ok(), Some(0x263A));
    let e = parse_char("'\\x{D800}'", &(3..9)).unwrap_err();
    assert_eq!(
        error_parts(&e),
        ("invalid character literal: '\\x{D800}'".to_string(), "cannot decode '\\x{D800}'".to_string())
    );
}

#[test]
fn string_callback() {
    assert_eq!(parse_str("\"\"", &(3..9)).ok(), Some(String::new()));
    assert_eq!(parse_str("\"a\\tb\\x{e9}\\\"\"", &(3..9)).ok(), Some("a\tb\u{e9}\"".to_string()));
    let cases = [
        ("\"a\\\"", "unterminated escape in string literal", "dangling backslash"),
        ("\"\\q\"", "unknown escape: \\q", "unknown escape: \\q"),
        ("\"\\xz\"", "malformed unicode escape", "expected `{` after `\\x`"),
        ("\"\\x{4g}\"", "malformed unicode escape", "expected hex digits and `}`"),
        ("\"\\x{}\"", "invalid unicode escape: cannot parse integer from empty string", "cannot parse integer from empty string"),
        ("\"\\x{123456789}\"", "invalid unicode escape: number too large to fit in target type", "number too large to fit in target type"),
        ("\"\\x{d800}\"", "invalid unicode codepoint: U+D800", "not a valid unicode scalar"),
        ("\"\\x{110000}\"", "invalid unicode codepoint: U+110000", "not a valid unicode scalar"),
    ];
    for (raw, m, l) in cases {
        let e = parse_str(raw, &(3..9)).unwrap_err();
        assert_eq!(error_parts(&e), (m.to_string(), l.to_string()), "{raw}");
    }
}
