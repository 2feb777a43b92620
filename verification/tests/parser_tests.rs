use redbelly::ast::{Expression, LiteralValue, Statement};
use redbelly::parser::{ParseError, Parser};
use redbelly::token::{Token, TokenType};

fn tok(token_type: TokenType, lexeme: &str) -> Token {
    Token::new(token_type, lexeme.to_owned(), 1)
}

fn num(text: &str) -> Token {
    tok(TokenType::Number(text.to_owned()), text)
}

fn ident(text: &str) -> Token {
    tok(TokenType::Identifier, text)
}

fn eof() -> Token {
    tok(TokenType::Eof, "")
}

fn parse(tokens: Vec<Token>) -> Result<Vec<Statement>, Vec<ParseError>> {
    Parser::parse_tokens(tokens)
}

#[test]
fn empty_program_has_no_statements() {
    assert_eq!(parse(vec![eof()]).unwrap().len(), 0);
}

#[test]
fn variable_declaration_with_initializer() {
    let stmts = parse(vec![
        tok(TokenType::Let, "let"),
        ident("foo"),
        tok(TokenType::Equal, "="),
        tok(TokenType::String("bar".to_owned()), "\"bar\""),
        tok(TokenType::Semicolon, ";"),
        eof(),
    ])
    .unwrap();
    assert_eq!(stmts.len(), 1);
    match &stmts[0] {
        Statement::Variable(v) => {
            assert_eq!(v.name.lexeme, "foo");
            match &v.initializer {
                Some(Expression::Literal(l)) => match &l.value {
                    LiteralValue::String(s) => assert_eq!(s, "bar"),
                    other => panic!("unexpected literal {:?}", other),
                },
                other => panic!("unexpected initializer {:?}", other),
            }
        }
        other => panic!("unexpected statement {:?}", other),
    }
}

#[test]
fn variable_declaration_without_name_fails_and_recovers() {
    let result = parse(vec![
        tok(TokenType::Let, "let"),
        num("1"),
        tok(TokenType::Semicolon, ";"),
        tok(TokenType::Print, "print"),
        num("2"),
        tok(TokenType::Semicolon, ";"),
        eof(),
    ]);
    let errors = result.unwrap_err();
    assert_eq!(errors.len(), 1);
    assert_eq!(errors[0].message, "Expect Variable name");
    assert_eq!(errors[0].token.lexeme, "let");
}

#[test]
fn assignment_to_a_variable() {
    let stmts = parse(vec![
        ident("foo"),
        tok(TokenType::Equal, "="),
        tok(TokenType::String("baz".to_owned()), "\"baz\""),
        tok(TokenType::Semicolon, ";"),
        eof(),
    ])
    .unwrap();
    match &stmts[0] {
        Statement::Expression(e) => match &e.expr {
            Expression::Assignment(a) => assert_eq!(a.name.lexeme, "foo"),
            other => panic!("unexpected expression {:?}", other),
        },
        other => panic!("unexpected statement {:?}", other),
    }
}

#[test]
fn assignment_to_a_non_variable_is_an_error() {
    let errors = parse(vec![
        num("1"),
        tok(TokenType::Equal, "="),
        num("2"),
        tok(TokenType::Semicolon, ";"),
        eof(),
    ])
    .unwrap_err();
    // The error leaves the `;` unread, and it starts a declaration of its own.
    assert_eq!(errors.len(), 2);
    assert_eq!(errors[0].message, "Invalid assignment target");
    assert_eq!(errors[0].token.lexeme, "=");
    assert_eq!(errors[1].message, "Expect Expression");
    assert_eq!(errors[1].token.lexeme, ";");
}

#[test]
fn binary_operators_bind_by_precedence_and_to_the_left() {
    // 1 - 2 - 3 * 4;
    let stmts = parse(vec![
        num("1"),
        tok(TokenType::Minus, "-"),
        num("2"),
        tok(TokenType::Minus, "-"),
        num("3"),
        tok(TokenType::Star, "*"),
        num("4"),
        tok(TokenType::Semicolon, ";"),
        eof(),
    ])
    .unwrap();
    let expr = match &stmts[0] {
        Statement::Expression(e) => &e.expr,
        other => panic!("unexpected statement {:?}", other),
    };
    match expr {
        Expression::Binary(outer) => {
            assert_eq!(outer.operator.lexeme, "-");
            match (&*outer.left, &*outer.right) {
                (Expression::Binary(l), Expression::Binary(r)) => {
                    assert_eq!(l.operator.lexeme, "-");
                    assert_eq!(r.operator.lexeme, "*");
                }
                other => panic!("unexpected operands {:?}", other),
            }
        }
        other => panic!("unexpected expression {:?}", other),
    }
}

#[test]
fn for_loop_reads_as_a_while_loop() {
    // for (let i = 0; i < 10; i = i + 1) print i;
    let stmts = parse(vec![
        tok(TokenType::For, "for"),
        tok(TokenType::LeftParen, "("),
        tok(TokenType::Let, "let"),
        ident("i"),
        tok(TokenType::Equal, "="),
        num("0"),
        tok(TokenType::Semicolon, ";"),
        ident("i"),
        tok(TokenType::Less, "<"),
        num("10"),
        tok(TokenType::Semicolon, ";"),
        ident("i"),
        tok(TokenType::Equal, "="),
        ident("i"),
        tok(TokenType::Plus, "+"),
        num("1"),
        tok(TokenType::RightParen, ")"),
        tok(TokenType::Print, "print"),
        ident("i"),
        tok(TokenType::Semicolon, ";"),
        eof(),
    ])
    .unwrap();
    assert_eq!(stmts.len(), 1);
    let block = match &stmts[0] {
        Statement::Block(b) => b,
        other => panic!("unexpected statement {:?}", other),
    };
    assert_eq!(block.statements.len(), 2);
    assert!(matches!(block.statements[0], Statement::Variable(_)));
    let looped = match &block.statements[1] {
        Statement::While(w) => w,
        other => panic!("unexpected statement {:?}", other),
    };
    assert!(matches!(looped.condition, Expression::Binary(_)));
    match &*looped.body {
        Statement::Block(b) => {
            // The body runs first, then the increment.
            assert_eq!(b.statements.len(), 2);
            assert!(matches!(b.statements[0], Statement::Print(_)));
            assert!(matches!(b.statements[1], Statement::Expression(_)));
        }
        other => panic!("unexpected body {:?}", other),
    }
}

#[test]
fn for_loop_without_clauses_loops_on_true() {
    let stmts = parse(vec![
        tok(TokenType::For, "for"),
        tok(TokenType::LeftParen, "("),
        tok(TokenType::Semicolon, ";"),
        tok(TokenType::Semicolon, ";"),
        tok(TokenType::RightParen, ")"),
        tok(TokenType::LeftBrace, "{"),
        tok(TokenType::RightBrace, "}"),
        eof(),
    ])
    .unwrap();
    match &stmts[0] {
        Statement::While(w) => {
            assert!(matches!(
                w.condition,
                Expression::Literal(redbelly::ast::Literal { value: LiteralValue::True })
            ));
            assert!(matches!(*w.body, Statement::Block(_)));
        }
        other => panic!("unexpected statement {:?}", other),
    }
}

#[test]
fn if_with_else_and_while() {
    // if (true) print 1; else while (false) print 2;
    let stmts = parse(vec![
        tok(TokenType::If, "if"),
        tok(TokenType::LeftParen, "("),
        tok(TokenType::True, "true"),
        tok(TokenType::RightParen, ")"),
        tok(TokenType::Print, "print"),
        num("1"),
        tok(TokenType::Semicolon, ";"),
        tok(TokenType::Else, "else"),
        tok(TokenType::While, "while"),
        tok(TokenType::LeftParen, "("),
        tok(TokenType::False, "false"),
        tok(TokenType::RightParen, ")"),
        tok(TokenType::Print, "print"),
        num("2"),
        tok(TokenType::Semicolon, ";"),
        eof(),
    ])
    .unwrap();
    match &stmts[0] {
        Statement::If(i) => {
            assert!(matches!(*i.then_branch, Statement::Print(_)));
            match &i.else_branch {
                Some(e) => assert!(matches!(**e, Statement::While(_))),
                None => panic!("missing else branch"),
            }
        }
        other => panic!("unexpected statement {:?}", other),
    }
}

#[test]
fn call_with_arguments() {
    // f(1, 2)(3);
    let stmts = parse(vec![
        ident("f"),
        tok(TokenType::LeftParen, "("),
        num("1"),
        tok(TokenType::Comma, ","),
        num("2"),
        tok(TokenType::RightParen, ")"),
        tok(TokenType::LeftParen, "("),
        num("3"),
        tok(TokenType::RightParen, ")"),
        tok(TokenType::Semicolon, ";"),
        eof(),
    ])
    .unwrap();
    match &stmts[0] {
        Statement::Expression(e) => match &e.expr {
            Expression::Call(outer) => {
                assert_eq!(outer.arguments.len(), 1);
                match &*outer.callee {
                    Expression::Call(inner) => assert_eq!(inner.arguments.len(), 2),
                    other => panic!("unexpected callee {:?}", other),
                }
            }
            other => panic!("unexpected expression {:?}", other),
        },
        other => panic!("unexpected statement {:?}", other),
    }
}

#[test]
fn every_failing_declaration_reports_an_error() {
    // print 1 print 2; 3 +;
    let errors = parse(vec![
        tok(TokenType::Print, "print"),
        num("1"),
        tok(TokenType::Print, "print"),
        num("2"),
        tok(TokenType::Semicolon, ";"),
        num("3"),
        tok(TokenType::Plus, "+"),
        tok(TokenType::Semicolon, ";"),
        eof(),
    ])
    .unwrap_err();
    assert_eq!(errors.len(), 2);
    assert_eq!(errors[0].message, "Expected ; after value");
    assert_eq!(errors[1].message, "Expect Expression");
}

#[test]
fn missing_closing_brace_is_reported_at_the_last_token() {
    let errors = parse(vec![
        tok(TokenType::LeftBrace, "{"),
        num("1"),
        tok(TokenType::Semicolon, ";"),
        eof(),
    ])
    .unwrap_err();
    assert_eq!(errors.len(), 1);
    assert_eq!(errors[0].message, "Expect '}' after block");
    assert_eq!(errors[0].to_string(), "[Line 1]: Expect '}' after block at \";\"");
}

#[test]
fn parse_error_text() {
    let at_token = ParseError::new("Expect Expression", &Token::new(TokenType::Plus, "+".to_owned(), 12));
    assert_eq!(at_token.to_string(), "[Line 12]: Expect Expression at \"+\"");
    let at_end = ParseError::new("Expect Expression", &Token::new(TokenType::Eof, String::new(), 3));
    assert_eq!(at_end.to_string(), "[Line 3]: Expect Expression at end");
}

#[test]
fn function_declaration_with_parameters_and_return() {
    // func add(a, b) { return a + b; }
    let stmts = parse(vec![
        tok(TokenType::Func, "func"),
        ident("add"),
        tok(TokenType::LeftParen, "("),
        ident("a"),
        tok(TokenType::Comma, ","),
        ident("b"),
        tok(TokenType::RightParen, ")"),
        tok(TokenType::LeftBrace, "{"),
        tok(TokenType::Return, "return"),
        ident("a"),
        tok(TokenType::Plus, "+"),
        ident("b"),
        tok(TokenType::Semicolon, ";"),
        tok(TokenType::RightBrace, "}"),
        eof(),
    ])
    .unwrap();
    assert_eq!(stmts.len(), 1);
    match &stmts[0] {
        Statement::Function(f) => {
            assert_eq!(f.name.lexeme, "add");
            assert_eq!(f.parameters.len(), 2);
            assert_eq!(f.parameters[1].lexeme, "b");
            match &*f.body {
                Statement::Block(b) => {
                    assert_eq!(b.statements.len(), 1);
                    assert!(matches!(b.statements[0], Statement::Return(_)));
                }
                other => panic!("unexpected body {:?}", other),
            }
        }
        other => panic!("unexpected statement {:?}", other),
    }
}

#[test]
fn function_without_parameters() {
    let stmts = parse(vec![
        tok(TokenType::Func, "func"),
        ident("f"),
        tok(TokenType::LeftParen, "("),
        tok(TokenType::RightParen, ")"),
        tok(TokenType::LeftBrace, "{"),
        tok(TokenType::RightBrace, "}"),
        eof(),
    ])
    .unwrap();
    match &stmts[0] {
        Statement::Function(f) => assert_eq!(f.parameters.len(), 0),
        other => panic!("unexpected statement {:?}", other),
    }
}

#[test]
fn function_declaration_errors() {
    let errors = parse(vec![tok(TokenType::Func, "func"), num("1"), eof()]).unwrap_err();
    assert_eq!(errors[0].message, "Expect function name");
    let errors = parse(vec![
        tok(TokenType::Func, "func"),
        ident("f"),
        tok(TokenType::LeftParen, "("),
        num("1"),
        tok(TokenType::RightParen, ")"),
        eof(),
    ])
    .unwrap_err();
    assert_eq!(errors[0].message, "Expect parameter name");
    let errors = parse(vec![
        tok(TokenType::Func, "func"),
        ident("f"),
        tok(TokenType::LeftParen, "("),
        tok(TokenType::RightParen, ")"),
        tok(TokenType::Semicolon, ";"),
        eof(),
    ])
    .unwrap_err();
    assert_eq!(errors[0].message, "Expect '{' before function body");
}

#[test]
fn return_without_semicolon_is_an_error() {
    let errors = parse(vec![tok(TokenType::Return, "return"), num("1"), eof()]).unwrap_err();
    assert_eq!(errors[0].message, "Expect ; after return value");
}
