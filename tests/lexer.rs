use donitsi::lexer::{tokenize, Decimal, Span, Token};

fn kinds(src: &str) -> Vec<Token> {
    tokenize(src).into_iter().map(|(t, _)| t).collect()
}

#[test]
fn lex_punctuation_and_keywords() {
    assert_eq!(kinds("for type struct return => :: : = { } ( ) [ ] , . + - * /"), vec![
        Token::For,
        Token::Type,
        Token::Struct,
        Token::Ret,
        Token::Arrow,
        Token::DoubleColon,
        Token::Colon,
        Token::Assign,
        Token::OpenBrace,
        Token::CloseBrace,
        Token::OpenParen,
        Token::CloseParen,
        Token::OpenBracket,
        Token::CloseBracket,
        Token::Comma,
        Token::Dot,
        Token::Plus,
        Token::Minus,
        Token::Multiply,
        Token::Divide,
    ]);
}

#[test]
fn lex_longest_word_wins_over_keyword() {
    assert_eq!(kinds("format returned Int"), vec![
        Token::Ident("format".to_string()),
        Token::Ident("returned".to_string()),
        Token::Ident("Int".to_string()),
    ]);
}

#[test]
fn lex_identifiers_stop_at_digits() {
    assert_eq!(kinds("ab1_c"), vec![
        Token::Ident("ab".to_string()),
        Token::Int(1),
        Token::Ident("_c".to_string()),
    ]);
}

#[test]
fn lex_numbers() {
    assert_eq!(kinds("42 -7 3.25 -.5 1. 007"), vec![
        Token::Int(42),
        Token::Int(-7),
        Token::Decimal(Decimal::new(325, 2)),
        Token::Decimal(Decimal::new(-5, 1)),
        Token::Int(1),
        Token::Dot,
        Token::Int(7),
    ]);
}

#[test]
fn lex_minus_glued_to_digits_is_a_sign() {
    assert_eq!(kinds("1 -2"), vec![Token::Int(1), Token::Int(-2)]);
    assert_eq!(kinds("1 - 2"), vec![Token::Int(1), Token::Minus, Token::Int(2)]);
}

#[test]
fn lex_integer_limits() {
    assert_eq!(kinds("9223372036854775807"), vec![Token::Int(i64::MAX)]);
    assert_eq!(kinds("-9223372036854775808"), vec![Token::Int(i64::MIN)]);
    assert_eq!(kinds("9223372036854775808"), vec![Token::Error]);
    assert_eq!(kinds("99999999999999999999999"), vec![Token::Error]);
}

#[test]
fn lex_strings_are_verbatim() {
    assert_eq!(kinds("\"a \\n b\" \"\""), vec![
        Token::Str("a \\n b".to_string()),
        Token::Str(String::new()),
    ]);
}

#[test]
fn lex_unterminated_string_and_unknown_chars_are_errors() {
    assert_eq!(kinds("\"abc"), vec![Token::Error, Token::Ident("abc".to_string())]);
    assert_eq!(kinds("a # b"), vec![
        Token::Ident("a".to_string()),
        Token::Error,
        Token::Ident("b".to_string()),
    ]);
}

#[test]
fn lex_empty_and_blank() {
    assert!(kinds("").is_empty());
    assert!(kinds(" \t\r\n ").is_empty());
}

#[test]
fn lex_spans_count_bytes() {
    let toks = tokenize("é = \"ü\"");
    assert_eq!(toks.len(), 3);
    assert_eq!(toks[0].0, Token::Error);
    assert_eq!(toks[0].1, Span { start: 0, end: 2, char_start: 0, char_end: 1 });
    assert_eq!(toks[1].1, Span { start: 3, end: 4, char_start: 2, char_end: 3 });
    assert_eq!(toks[2].0, Token::Str("ü".to_string()));
    assert_eq!(toks[2].1, Span { start: 5, end: 9, char_start: 4, char_end: 7 });
}
