use span_error::error::Error;
use span_error::kind::{float_failure_text, int_failure_text, ErrorKind};
use span_error::token::{Expected, Token};

const TOKENS: [Token; 14] = [
    Token::Comment,
    Token::Eol,
    Token::Equals,
    Token::Period,
    Token::Comma,
    Token::BracketOpen,
    Token::BracketClose,
    Token::BraceOpen,
    Token::BraceClose,
    Token::Bool,
    Token::Integer,
    Token::Float,
    Token::BareString,
    Token::QuotedString,
];

#[test]
fn table_already_defined_message() {
    assert_eq!(ErrorKind::TableAlreadyDefined.message(), "Table already defined");
}

#[test]
fn trailing_characters_message() {
    assert_eq!(ErrorKind::TrailingCharacters.message(), "Trailing characters");
}

#[test]
fn missing_token_message() {
    assert_eq!(ErrorKind::MissingToken.message(), "Missing token");
}

#[test]
fn failed_to_lex_message() {
    assert_eq!(ErrorKind::FailedToLex.message(), "Failed to lex");
}

#[test]
fn unknown_token_message_is_empty() {
    assert_eq!(ErrorKind::UnknownToken.message(), "");
}

#[test]
fn unexpected_token_message() {
    let kind = ErrorKind::UnexpectedToken(Token::Equals, Expected::Value);
    assert_eq!(kind.message(), "UnexpectedToken: Equals - expected: Value");
    let kind = ErrorKind::UnexpectedToken(Token::Comma, Expected::Token(Token::BraceClose));
    assert_eq!(
        kind.message(),
        "UnexpectedToken: Comma - expected: Token(BraceClose)"
    );
}

#[test]
fn unexpected_token_message_matches_debug_output() {
    let wanted = [
        Expected::Token(Token::Eol),
        Expected::LineStart,
        Expected::Value,
        Expected::Bool,
        Expected::String,
        Expected::MapStart,
        Expected::SeqStart,
        Expected::EolOrEof,
        Expected::Enum,
    ];
    for token in TOKENS {
        for expected in wanted {
            let kind = ErrorKind::UnexpectedToken(token, expected);
            assert_eq!(
                kind.message(),
                format!("UnexpectedToken: {:?} - expected: {:?}", token, expected)
            );
        }
    }
}

#[test]
fn token_names_match_debug_output() {
    for token in TOKENS {
        assert_eq!(token.name(), format!("{:?}", token));
        let mut out = String::from("> ");
        Expected::Token(token).write_name(&mut out);
        assert_eq!(out, format!("> {:?}", Expected::Token(token)));
    }
}

#[test]
fn invalid_integer_message_embeds_cause() {
    let cause = "99999999999999999999".parse::<i64>().unwrap_err();
    let message = ErrorKind::InvalidInteger(cause.clone()).message();
    assert_eq!(message, format!("Failed to parse int: {:?}", cause));
    assert!(message.contains("PosOverflow"));
    assert_eq!(message, "Failed to parse int: ParseIntError { kind: PosOverflow }");
}

#[test]
fn invalid_integer_message_tells_causes_apart() {
    let digit = ErrorKind::InvalidInteger("1x".parse::<u8>().unwrap_err()).message();
    let empty = ErrorKind::InvalidInteger("".parse::<u8>().unwrap_err()).message();
    assert!(digit.contains("InvalidDigit"));
    assert!(empty.contains("Empty"));
    assert_ne!(digit, empty);
}

#[test]
fn invalid_float_message_embeds_cause() {
    let cause = "1.2.3".parse::<f64>().unwrap_err();
    let message = ErrorKind::InvalidFloat(cause.clone()).message();
    assert_eq!(message, format!("Failed to parse float: {:?}", cause));
    assert!(message.starts_with("Failed to parse float: ParseFloatError"));
    let empty = ErrorKind::InvalidFloat("".parse::<f64>().unwrap_err()).message();
    assert_ne!(message, empty);
}

#[test]
fn custom_message_is_the_stored_prefix() {
    let mut buf = [0u8; 64];
    buf[..5].copy_from_slice(b"hello");
    assert_eq!(ErrorKind::Custom(buf, 5).message(), "hello");
    assert_eq!(ErrorKind::Custom(buf, 2).message(), "he");
    assert_eq!(ErrorKind::Custom(buf, 0).message(), "");
    assert_eq!(ErrorKind::Custom([b'x'; 64], 64).message(), "x".repeat(64));
}

#[test]
fn custom_message_decodes_utf8() {
    let text = "né→☃";
    let mut buf = [0u8; 64];
    buf[..text.len()].copy_from_slice(text.as_bytes());
    assert_eq!(ErrorKind::Custom(buf, text.len()).message(), text);
}

#[test]
fn error_message_is_that_of_its_kind() {
    let e = Error::new(4..9, ErrorKind::TableAlreadyDefined);
    assert_eq!(e.message(), "Table already defined");
    let e = Error::unexpected(4..9, Token::Eol, Expected::MapStart);
    assert_eq!(e.message(), e.kind.message());
    assert_eq!(e.message(), "UnexpectedToken: Eol - expected: MapStart");
}

#[test]
fn error_message_leaves_the_span_out() {
    let a = Error::new(0..1, ErrorKind::MissingToken);
    let b = Error::new(40..50, ErrorKind::MissingToken);
    assert_eq!(a.message(), b.message());
}

#[test]
fn well_formed_kinds() {
    assert!(ErrorKind::UnknownToken.is_wf());
    assert!(ErrorKind::Custom([0u8; 64], 0).is_wf());
    assert!(ErrorKind::Custom([b'a'; 64], 64).is_wf());
    assert!(!ErrorKind::Custom([b'a'; 64], 65).is_wf());
    assert!(!ErrorKind::Custom([0xff; 64], 1).is_wf());
    assert!(ErrorKind::Custom([0xff; 64], 0).is_wf());
    let snowman = "☃".as_bytes();
    let mut buf = [0u8; 64];
    buf[..3].copy_from_slice(snowman);
    assert!(ErrorKind::Custom(buf, 3).is_wf());
    assert!(!ErrorKind::Custom(buf, 2).is_wf());
}

#[test]
fn int_failure_text_puts_the_cause_behind_the_label() {
    assert_eq!(int_failure_text("PosOverflow"), "Failed to parse int: PosOverflow");
    assert_eq!(int_failure_text(""), "Failed to parse int: ");
    let cause = "-".parse::<i8>().unwrap_err();
    assert_eq!(
        int_failure_text(&format!("{:?}", cause)),
        ErrorKind::InvalidInteger(cause).message()
    );
}

#[test]
fn float_failure_text_puts_the_cause_behind_the_label() {
    assert_eq!(float_failure_text("Invalid"), "Failed to parse float: Invalid");
    assert_eq!(float_failure_text(""), "Failed to parse float: ");
    let cause = "1e".parse::<f32>().unwrap_err();
    assert_eq!(
        float_failure_text(&format!("{:?}", cause)),
        ErrorKind::InvalidFloat(cause).message()
    );
}
