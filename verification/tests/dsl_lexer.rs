use invest_dsl::decimal::Decimal;
use invest_dsl::dsl::lexer::Lexer;
use invest_dsl::dsl::token::Token;

#[test]
fn test_tokenize_simple_tokens() {
    let mut lexer = Lexer::new("+ - @ : , ( ) { }");
    let tokens = lexer.tokenize().unwrap();

    assert_eq!(
        tokens,
        vec![
            Token::Plus,
            Token::Minus,
            Token::At,
            Token::Colon,
            Token::Comma,
            Token::LeftParen,
            Token::RightParen,
            Token::LeftBrace,
            Token::RightBrace,
            Token::Eof,
        ]
    );
}

#[test]
fn test_tokenize_numbers() {
    let mut lexer = Lexer::new("123 45.67 -89.01");
    let tokens = lexer.tokenize().unwrap();

    assert_eq!(
        tokens,
        vec![
            Token::Number(Decimal::new(123, 0)),
            Token::Number(Decimal::new(4567, 2)),
            Token::Minus,
            Token::Number(Decimal::new(8901, 2)),
            Token::Eof,
        ]
    );
}

#[test]
fn test_tokenize_date() {
    let mut lexer = Lexer::new("2024-01-15");
    let tokens = lexer.tokenize().unwrap();

    assert_eq!(tokens, vec![Token::Date("2024-01-15".to_string()), Token::Eof]);
}

#[test]
fn test_tokenize_string() {
    let mut lexer = Lexer::new(r#""Hello World" "Test \"Quote\"" "#);
    let tokens = lexer.tokenize().unwrap();

    assert_eq!(
        tokens,
        vec![
            Token::String("Hello World".to_string()),
            Token::String("Test \"Quote\"".to_string()),
            Token::Eof,
        ]
    );
}

#[test]
fn test_tokenize_keywords() {
    let mut lexer = Lexer::new("PLAN DEFINE END TRADE MARK MONTHLY END_DATE");
    let tokens = lexer.tokenize().unwrap();

    assert_eq!(
        tokens,
        vec![
            Token::Plan,
            Token::Define,
            Token::End,
            Token::Trade,
            Token::Mark,
            Token::Monthly,
            Token::EndDate,
            Token::Eof,
        ]
    );
}

#[test]
fn test_tokenize_symbol() {
    let mut lexer = Lexer::new("ETF:510300 STOCK:AAPL");
    let tokens = lexer.tokenize().unwrap();

    assert_eq!(
        tokens,
        vec![
            Token::Symbol("ETF".to_string(), "510300".to_string()),
            Token::Symbol("STOCK".to_string(), "AAPL".to_string()),
            Token::Eof,
        ]
    );
}

#[test]
fn test_tokenize_comment() {
    let mut lexer = Lexer::new("# This is a comment\nTRADE");
    let tokens = lexer.tokenize().unwrap();

    assert_eq!(
        tokens,
        vec![
            Token::Comment(" This is a comment".to_string()),
            Token::Trade,
            Token::Eof,
        ]
    );
}

#[test]
fn test_tokenize_complete_statement() {
    let mut lexer = Lexer::new("2024-01-01 TRADE ETF:510300 +5000 CNY @ 4.56");
    let tokens = lexer.tokenize().unwrap();

    assert_eq!(
        tokens,
        vec![
            Token::Date("2024-01-01".to_string()),
            Token::Trade,
            Token::Symbol("ETF".to_string(), "510300".to_string()),
            Token::Plus,
            Token::Number(Decimal::new(5000, 0)),
            Token::Identifier("CNY".to_string()),
            Token::At,
            Token::Number(Decimal::new(456, 2)),
            Token::Eof,
        ]
    );
}

#[test]
fn test_standalone_negative_number() {
    let mut lexer = Lexer::new("-42");
    let tokens = lexer.tokenize().unwrap();

    assert_eq!(
        tokens,
        vec![Token::Minus, Token::Number(Decimal::new(42, 0)), Token::Eof]
    );
}

#[test]
fn test_negative_number_in_context() {
    let mut lexer = Lexer::new("2024-01-01 TRADE ETF:510300 -1000 CNY @ 4.56");
    let tokens = lexer.tokenize().unwrap();

    println!("Tokens: {:?}", tokens);

    assert_eq!(
        tokens,
        vec![
            Token::Date("2024-01-01".to_string()),
            Token::Trade,
            Token::Symbol("ETF".to_string(), "510300".to_string()),
            Token::Minus,
            Token::Number(Decimal::new(1000, 0)),
            Token::Identifier("CNY".to_string()),
            Token::At,
            Token::Number(Decimal::new(456, 2)),
            Token::Eof,
        ]
    );
}

#[test]
fn date_shape_beats_number() {
    // Any valid DDDD-DD-DD lexes as a date, never as a number.
    let mut lexer = Lexer::new("0000-00-00 9999-12-31");
    let tokens = lexer.tokenize().unwrap();
    assert_eq!(
        tokens,
        vec![
            Token::Date("0000-00-00".to_string()),
            Token::Date("9999-12-31".to_string()),
            Token::Eof,
        ]
    );
}

#[test]
fn broken_date_shape_is_error() {
    // A failed date attempt has consumed a dash and cannot fall back to a
    // valid number: the whole tokenization aborts at the literal's start.
    let mut lexer = Lexer::new("  2024-01-1 TRADE");
    let err = lexer.tokenize().unwrap_err();
    assert_eq!(err.position, 2);
}

#[test]
fn trailing_colon_is_error() {
    let mut lexer = Lexer::new("ETF: 123");
    let err = lexer.tokenize().unwrap_err();
    assert_eq!(err.position, 4);
}

#[test]
fn unterminated_string_is_error() {
    let mut lexer = Lexer::new("\"no end");
    let err = lexer.tokenize().unwrap_err();
    assert_eq!(err.position, 7);
}

#[test]
fn string_with_raw_newline_is_error() {
    let mut lexer = Lexer::new("\"a\nb\"");
    let err = lexer.tokenize().unwrap_err();
    assert_eq!(err.position, 2);
}

#[test]
fn unexpected_character_is_error() {
    let mut lexer = Lexer::new("   ~");
    let err = lexer.tokenize().unwrap_err();
    assert_eq!(err.position, 4);
    assert!(err.message.contains("Unexpected character"));
}

#[test]
fn oversized_number_literal_is_error() {
    // 40 nines exceed the exact decimal mantissa range.
    let text = "9".repeat(40);
    let mut lexer = Lexer::new(&text);
    let err = lexer.tokenize().unwrap_err();
    assert_eq!(err.position, 0);
}

#[test]
fn string_escapes_translate() {
    let mut lexer = Lexer::new(r#""a\nb\tc\rd\\e\"f\zg""#);
    let tokens = lexer.tokenize().unwrap();
    assert_eq!(
        tokens,
        vec![
            Token::String("a\nb\tc\rd\\e\"f\\zg".to_string()),
            Token::Eof,
        ]
    );
}

#[test]
fn keywords_are_case_insensitive() {
    let mut lexer = Lexer::new("plan Define portfolio end_date yearly");
    let tokens = lexer.tokenize().unwrap();
    assert_eq!(
        tokens,
        vec![
            Token::Plan,
            Token::Define,
            Token::Portfolio,
            Token::EndDate,
            Token::Yearly,
            Token::Eof,
        ]
    );
}

#[test]
fn number_with_trailing_dot() {
    let mut lexer = Lexer::new("5.");
    let tokens = lexer.tokenize().unwrap();
    assert_eq!(tokens, vec![Token::Number(Decimal::new(5, 0)), Token::Eof]);
}
