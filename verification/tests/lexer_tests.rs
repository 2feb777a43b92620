use redbelly::lexer::Lexer;
use redbelly::token::{Token, TokenType};

fn scan(source: &str) -> Vec<Token> {
    let mut lexer = Lexer::new(String::from(source));
    lexer.scan().unwrap()
}

fn number_value(token: &Token) -> f64 {
    match &token.token_type {
        TokenType::Number(text) => text.parse::<f64>().unwrap(),
        other => panic!("not a number: {:?}", other),
    }
}

#[test]
fn test_single_characters() {
    let test_tokens: Vec<Token> = vec![
        Token::from_str(TokenType::LeftParen, "("),
        Token::from_str(TokenType::RightParen, ")"),
        Token::from_str(TokenType::LeftBrace, "{"),
        Token::from_str(TokenType::RightBrace, "}"),
        Token::from_str(TokenType::Eof, ""),
    ];
    let string = String::from("(){}");
    let mut lexer = Lexer::new(string.clone());
    let tokens = lexer.scan().unwrap();
    assert_eq!(test_tokens, tokens);
}

#[test]
fn test_consume_and_add_or() {
    let test_tokens: Vec<Token> = vec![
        Token::from_str(TokenType::BangEqual, "!="),
        Token::from_str(TokenType::Eof, ""),
    ];
    let string = String::from("!=");
    let mut lexer = Lexer::new(string.clone());
    let tokens = lexer.scan().unwrap();
    assert_eq!(test_tokens, tokens);
    let test_tokens: Vec<Token> = vec![
        Token::from_str(TokenType::Bang, "!"),
        Token::from_str(TokenType::Eof, ""),
    ];
    let string = String::from("!");
    let mut lexer = Lexer::new(string.clone());
    let tokens = lexer.scan().unwrap();
    assert_eq!(test_tokens, tokens);
}

#[test]
fn test_comments() {
    let test_tokens: Vec<Token> = vec![
        Token::from_str(TokenType::LessEqual, "<="),
        Token::from_str(TokenType::Eof, ""),
    ];
    let string = String::from("// Comment which should be ignored\n<=");
    let mut lexer = Lexer::new(string.clone());
    let tokens = lexer.scan().unwrap();
    assert_eq!(test_tokens, tokens);
}

#[test]
fn test_strings() {
    let test_tokens: Vec<Token> = vec![
        Token::from_str(TokenType::String(String::from("Test")), "\"Test\""),
        Token::from_str(TokenType::Eof, ""),
    ];
    let string = String::from("\"Test\"");
    let mut lexer = Lexer::new(string.clone());
    let tokens = lexer.scan().unwrap();
    assert_eq!(test_tokens, tokens);
}

#[test]
fn test_integers() {
    let test_tokens: Vec<Token> = vec![
        Token::from_str(TokenType::Number(String::from("123")), "123"),
        Token::from_str(TokenType::Eof, ""),
    ];
    let string = String::from("123");
    let mut lexer = Lexer::new(string.clone());
    let tokens = lexer.scan().unwrap();
    assert_eq!(test_tokens, tokens);
    assert_eq!(number_value(&tokens[0]), 123.);
}

#[test]
fn test_floats() {
    let test_tokens: Vec<Token> = vec![
        Token::from_str(TokenType::Number(String::from("693.8932")), "693.8932"),
        Token::from_str(TokenType::Eof, ""),
    ];
    let string = String::from("693.8932");
    let mut lexer = Lexer::new(string.clone());
    let tokens = lexer.scan().unwrap();
    assert_eq!(test_tokens, tokens);
    assert_eq!(number_value(&tokens[0]), 693.8932);
}

#[test]
fn comment_at_end_of_input_is_ignored() {
    assert_eq!(scan("1 // trailing"), vec![
        Token::from_str(TokenType::Number(String::from("1")), "1"),
        Token::from_str(TokenType::Eof, ""),
    ]);
}

#[test]
fn blanks_are_ignored_and_newlines_count_lines() {
    let tokens = scan(" \t\r(\n\n)");
    assert_eq!(tokens, vec![
        Token::from_str(TokenType::LeftParen, "("),
        Token::from_str(TokenType::RightParen, ")"),
        Token::from_str(TokenType::Eof, ""),
    ]);
    assert_eq!(tokens[0].line, 1);
    assert_eq!(tokens[1].line, 3);
    assert_eq!(tokens[2].line, 3);
}

#[test]
fn two_character_operators() {
    assert_eq!(scan("== = >= > <= < != !"), vec![
        Token::from_str(TokenType::EqualEqual, "=="),
        Token::from_str(TokenType::Equal, "="),
        Token::from_str(TokenType::GreaterEqual, ">="),
        Token::from_str(TokenType::Greater, ">"),
        Token::from_str(TokenType::LessEqual, "<="),
        Token::from_str(TokenType::Less, "<"),
        Token::from_str(TokenType::BangEqual, "!="),
        Token::from_str(TokenType::Bang, "!"),
        Token::from_str(TokenType::Eof, ""),
    ]);
}

#[test]
fn single_operators_and_slash() {
    assert_eq!(scan(",.-+;*/"), vec![
        Token::from_str(TokenType::Comma, ","),
        Token::from_str(TokenType::Dot, "."),
        Token::from_str(TokenType::Minus, "-"),
        Token::from_str(TokenType::Plus, "+"),
        Token::from_str(TokenType::Semicolon, ";"),
        Token::from_str(TokenType::Star, "*"),
        Token::from_str(TokenType::Slash, "/"),
        Token::from_str(TokenType::Eof, ""),
    ]);
}

#[test]
fn number_followed_by_dot_without_digits() {
    assert_eq!(scan("12."), vec![
        Token::from_str(TokenType::Number(String::from("12")), "12"),
        Token::from_str(TokenType::Dot, "."),
        Token::from_str(TokenType::Eof, ""),
    ]);
}

#[test]
fn string_across_lines_ends_on_its_last_line() {
    let tokens = scan("\"a\nb\"");
    assert_eq!(tokens[0], Token::from_str(TokenType::String(String::from("a\nb")), "\"a\nb\""));
    assert_eq!(tokens[0].line, 2);
}

#[test]
fn unterminated_string_is_an_error() {
    let mut lexer = Lexer::new(String::from("\"abc"));
    let error = lexer.scan().unwrap_err();
    assert_eq!(error.message(), "Untermintated String");
    assert_eq!(error.line(), 1);
}

#[test]
fn unexpected_character_is_an_error() {
    let mut lexer = Lexer::new(String::from("\n\n@"));
    let error = lexer.scan().unwrap_err();
    assert_eq!(error.message(), "Unexpected Character");
    assert_eq!(error.line(), 3);
}

#[test]
fn eof_token_is_on_the_last_line() {
    let tokens = scan("1\n2\n");
    assert_eq!(tokens[2].token_type, TokenType::Eof);
    assert_eq!(tokens[2].line, 3);
}

#[test]
fn names_and_keywords() {
    assert_eq!(scan("let foo_1 = nil; while whilex _x func return print"), vec![
        Token::from_str(TokenType::Let, "let"),
        Token::from_str(TokenType::Identifier, "foo_1"),
        Token::from_str(TokenType::Equal, "="),
        Token::from_str(TokenType::Nil, "nil"),
        Token::from_str(TokenType::Semicolon, ";"),
        Token::from_str(TokenType::While, "while"),
        Token::from_str(TokenType::Identifier, "whilex"),
        Token::from_str(TokenType::Identifier, "_x"),
        Token::from_str(TokenType::Func, "func"),
        Token::from_str(TokenType::Return, "return"),
        Token::from_str(TokenType::Print, "print"),
        Token::from_str(TokenType::Eof, ""),
    ]);
}

#[test]
fn every_keyword() {
    let words = [
        ("and", TokenType::And), ("class", TokenType::Class), ("else", TokenType::Else),
        ("false", TokenType::False), ("func", TokenType::Func), ("for", TokenType::For),
        ("if", TokenType::If), ("nil", TokenType::Nil), ("or", TokenType::Or),
        ("print", TokenType::Print), ("return", TokenType::Return), ("super", TokenType::Super),
        ("this", TokenType::This), ("true", TokenType::True), ("var", TokenType::Var),
        ("while", TokenType::While), ("let", TokenType::Let),
    ];
    for (word, token_type) in words {
        assert_eq!(scan(word)[0], Token::from_str(token_type, word));
    }
    assert_eq!(scan("Let")[0], Token::from_str(TokenType::Identifier, "Let"));
}

#[test]
fn a_number_followed_by_letters_is_two_tokens() {
    assert_eq!(scan("12ab"), vec![
        Token::from_str(TokenType::Number(String::from("12")), "12"),
        Token::from_str(TokenType::Identifier, "ab"),
        Token::from_str(TokenType::Eof, ""),
    ]);
}
