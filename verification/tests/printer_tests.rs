use redbelly::ast::{Binary, Expression, Grouping, Literal, LiteralValue, Unary};
use redbelly::parser::Parser;
use redbelly::lexer::Lexer;
use redbelly::ast::Statement;
use redbelly::token::{Token, TokenType};

fn number(text: &str) -> Expression {
    Expression::Literal(Literal::new(LiteralValue::Number(String::from(text))))
}

#[test]
fn test_print() {
    let expr: Box<Expression> = Box::new(Expression::Binary(Binary::new(
        Expression::Unary(Unary::new(
            Token::new(TokenType::Minus, String::from("-"), 1),
            number("123"),
        )),
        Token::new(TokenType::Star, String::from("*"), 1),
        Expression::Grouping(Grouping::new(number("45.67"))),
    )));
    assert_eq!(expr.print(), "(* (- 123) (group 45.67))");
}

fn printed(source: &str) -> String {
    let mut lexer = Lexer::new(String::from(source));
    let stmts = Parser::parse_tokens(lexer.scan().unwrap()).unwrap();
    match &stmts[0] {
        Statement::Expression(e) => e.expr.print(),
        other => panic!("unexpected statement {:?}", other),
    }
}

#[test]
fn printing_shows_precedence_and_association() {
    assert_eq!(printed("1 - 2 - 3 * 4;"), "(- (- 1 2) (* 3 4))");
    assert_eq!(printed("a = b = !c == nil;"), "(= a (= b (== (! c) nil)))");
    assert_eq!(printed("f(1, \"x\")(true);"), "(call (call f 1 x) true)");
    assert_eq!(printed("g();"), "(call g)");
    assert_eq!(printed("1 + 2 * 3;"), "(+ 1 (* 2 3))");
    assert_eq!(printed("(1 + 2) * 3;"), "(* (group (+ 1 2)) 3)");
}
