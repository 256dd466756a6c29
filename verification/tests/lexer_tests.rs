use deed::dql_lexer::{Lexer, Token};

#[test]
fn test_keywords() {
    let mut lexer = Lexer::new("FROM WHERE SELECT TRAVERSE");
    let tokens = lexer.tokenize().unwrap();
    assert_eq!(tokens[0], Token::From);
    assert_eq!(tokens[1], Token::Where);
    assert_eq!(tokens[2], Token::Select);
    assert_eq!(tokens[3], Token::Traverse);
}

#[test]
fn test_identifiers() {
    let mut lexer = Lexer::new("users_table column_name _private");
    let tokens = lexer.tokenize().unwrap();
    assert_eq!(tokens[0], Token::Identifier("users_table".to_string()));
    assert_eq!(tokens[1], Token::Identifier("column_name".to_string()));
    assert_eq!(tokens[2], Token::Identifier("_private".to_string()));
}

#[test]
fn test_numbers() {
    let mut lexer = Lexer::new("42 3.14 0 -1");
    let tokens = lexer.tokenize().unwrap();
    assert_eq!(tokens[0], Token::Integer(42));
    assert_eq!(tokens[1], Token::Float("3.14".to_string()));
    assert_eq!(tokens[2], Token::Integer(0));
    assert_eq!(tokens[3], Token::Minus);
    assert_eq!(tokens[4], Token::Integer(1));
}

#[test]
fn test_strings() {
    let mut lexer = Lexer::new(r#"'hello' "world" 'it\'s'"#);
    let tokens = lexer.tokenize().unwrap();
    assert_eq!(tokens[0], Token::String("hello".to_string()));
    assert_eq!(tokens[1], Token::String("world".to_string()));
    assert_eq!(tokens[2], Token::String("it's".to_string()));
}

#[test]
fn test_operators() {
    let mut lexer = Lexer::new("= != < <= > >= -> <- <->");
    let tokens = lexer.tokenize().unwrap();
    assert_eq!(tokens[0], Token::Equal);
    assert_eq!(tokens[1], Token::NotEqual);
    assert_eq!(tokens[2], Token::LessThan);
    assert_eq!(tokens[3], Token::LessThanEq);
    assert_eq!(tokens[4], Token::GreaterThan);
    assert_eq!(tokens[5], Token::GreaterThanEq);
    assert_eq!(tokens[6], Token::Arrow);
    assert_eq!(tokens[7], Token::LeftArrow);
    assert_eq!(tokens[8], Token::BiArrow);
}

#[test]
fn dql_lexer_test_hybrid_query() {
    let query = "FROM Users WHERE city = 'NYC' TRAVERSE -[:PURCHASED]-> Product";
    let mut lexer = Lexer::new(query);
    let tokens = lexer.tokenize().unwrap();

    assert_eq!(tokens[0], Token::From);
    assert_eq!(tokens[1], Token::Identifier("Users".to_string()));
    assert_eq!(tokens[2], Token::Where);
    assert_eq!(tokens[3], Token::Identifier("city".to_string()));
    assert_eq!(tokens[4], Token::Equal);
    assert_eq!(tokens[5], Token::String("NYC".to_string()));
    assert_eq!(tokens[6], Token::Traverse);
    assert_eq!(tokens[7], Token::Minus);
    assert_eq!(tokens[8], Token::LeftBracket);
    assert_eq!(tokens[9], Token::Colon);
    assert_eq!(tokens[10], Token::Identifier("PURCHASED".to_string()));
    assert_eq!(tokens[11], Token::RightBracket);
    assert_eq!(tokens[12], Token::Arrow);
    assert_eq!(tokens[13], Token::Identifier("Product".to_string()));
}

#[test]
fn stream_ends_with_eof_and_errors_are_reported() {
    let mut lexer = Lexer::new("a.b, 7;");
    let tokens = lexer.tokenize().unwrap();
    assert_eq!(
        tokens,
        vec![
            Token::Identifier("a".to_string()),
            Token::Dot,
            Token::Identifier("b".to_string()),
            Token::Comma,
            Token::Integer(7),
            Token::Semicolon,
            Token::Eof,
        ]
    );
    let mut bad = Lexer::new("'open");
    assert!(bad.tokenize().is_err());
    let mut lower = Lexer::new("from Where order by");
    let tokens = lower.tokenize().unwrap();
    assert_eq!(tokens[0], Token::From);
    assert_eq!(tokens[1], Token::Where);
    assert_eq!(tokens[2], Token::OrderBy);
    assert_eq!(tokens[3], Token::Eof);
}
