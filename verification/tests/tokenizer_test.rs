use yeti::numerics::{Float, Integer, Ratio};
use yeti::token::Token;
use yeti::tokenizer::tokenize;

fn integer_token(n: i64) -> Token {
    Token::Integer(Integer::from_i64(n))
}

#[test]
fn tokenize_symbol() {
    let actual = tokenize("snake_case PascalCase kebab-case camelCase predicate? -> namespaced/symbol");
    let expected = vec![
        Token::Symbol("snake_case".to_string()),
        Token::Symbol("PascalCase".to_string()),
        Token::Symbol("kebab-case".to_string()),
        Token::Symbol("camelCase".to_string()),
        Token::Symbol("predicate?".to_string()),
        Token::Symbol("->".to_string()),
        Token::NamespacedSymbol(vec!["namespaced".to_string(), "symbol".to_string()]),
    ];
    assert_eq!(actual, expected);
}

#[test]
fn tokenize_keyword() {
    let actual = tokenize(":snake_case :PascalCase :kebab-case :camelCase :predicate? :that's");
    let expected = vec![
        Token::Keyword(":snake_case".to_string()),
        Token::Keyword(":PascalCase".to_string()),
        Token::Keyword(":kebab-case".to_string()),
        Token::Keyword(":camelCase".to_string()),
        Token::Keyword(":predicate?".to_string()),
        Token::Keyword(":that's".to_string()),
    ];
    assert_eq!(actual, expected);
}

#[test]
fn tokenize_string_literal() {
    let actual = tokenize(r#""hello" "world" "123" "that's" "that’s" "Quoted \"String\"""#);
    let expected = vec![
        Token::String("hello".to_string()),
        Token::String("world".to_string()),
        Token::String("123".to_string()),
        Token::String("that's".to_string()),
        Token::String("that’s".to_string()),
        Token::String("Quoted \"String\"".to_string()),
    ];
    assert_eq!(actual, expected);
}

#[test]
fn tokenize_integer() {
    let actual = tokenize("123 456 789 1_000 -321 -456");
    let expected = vec![integer_token(123), integer_token(456), integer_token(789), integer_token(1000), integer_token(-321), integer_token(-456)];
    assert_eq!(actual, expected);
}

#[test]
fn tokenize_float() {
    let actual = tokenize("1.23 4.56 7.89 1_000.0 -3.23");
    let expected = vec![
        Token::Float(Float::from_str("1.23")),
        Token::Float(Float::from_str("4.56")),
        Token::Float(Float::from_str("7.89")),
        Token::Float(Float::from_str("1000.0")),
        Token::Float(Float::from_str("-3.23")),
    ];
    assert_eq!(actual, expected);
}

#[test]
fn tokenize_delimiters() {
    let actual = tokenize("( { [ ] } )");
    let expected = vec![
        Token::LeftParen,
        Token::LeftBrace,
        Token::LeftBracket,
        Token::RightBracket,
        Token::RightBrace,
        Token::RightParen,
    ];
    assert_eq!(actual, expected);
}

#[test]
fn tokenize_call_inside_array() {
    let actual = tokenize("[3.14 (+ 2 3)]");
    let expected = vec![
        Token::LeftBracket,
        Token::Float(Float::from_str("3.14")),
        Token::LeftParen,
        Token::Symbol("+".to_string()),
        integer_token(2),
        integer_token(3),
        Token::RightParen,
        Token::RightBracket,
    ];
    assert_eq!(actual, expected);
}

#[test]
fn tokenize_quote() {
    let actual = tokenize("'(1 2)");
    let expected = vec![Token::Quote, Token::LeftParen, integer_token(1), integer_token(2), Token::RightParen];
    assert_eq!(actual, expected);
}

#[test]
fn tokenize_ratio() {
    let actual = tokenize("5/3 4/2");
    let expected = vec![
        Token::Ratio(Ratio::new(Integer::from_i64(5), Integer::from_i64(3))),
        integer_token(2),
    ];
    assert_eq!(actual, expected);
}

#[test]
fn tokenize_deref() {
    let actual = tokenize("@ @x @(atom x)");
    let expected = vec![
        Token::Deref,
        Token::Deref,
        Token::Symbol("x".to_string()),
        Token::Deref,
        Token::LeftParen,
        Token::Symbol("atom".to_string()),
        Token::Symbol("x".to_string()),
        Token::RightParen,
    ];
    assert_eq!(actual, expected);
}

#[test]
fn tokenize_comment_after_expression() {
    let actual = tokenize("(+ 1 2) ; comment after expression");
    let expected = vec![Token::LeftParen, Token::Symbol("+".to_string()), integer_token(1), integer_token(2), Token::RightParen];
    assert_eq!(actual, expected);
}

#[test]
fn tokenize_comment_before_expression() {
    let actual = tokenize(
        r#"
          ; comment before expression
          (+ 1 2)
        "#,
    );
    let expected = vec![Token::LeftParen, Token::Symbol("+".to_string()), integer_token(1), integer_token(2), Token::RightParen];
    assert_eq!(actual, expected);
}

#[test]
fn tokenize_comment_in_between_expression() {
    let actual = tokenize(
        r#"
          (+ 1 ; comment before expression
             2)
        "#,
    );
    let expected = vec![Token::LeftParen, Token::Symbol("+".to_string()), integer_token(1), integer_token(2), Token::RightParen];
    assert_eq!(actual, expected);
}

#[test]
fn tokenize_paren_after_keyword() {
    let actual = tokenize("(get map :key)");
    let expected = vec![
        Token::LeftParen,
        Token::Symbol("get".to_string()),
        Token::Symbol("map".to_string()),
        Token::Keyword(":key".to_string()),
        Token::RightParen,
    ];
    assert_eq!(actual, expected);
}
