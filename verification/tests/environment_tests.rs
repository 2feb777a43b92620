use redbelly::environment::Environment;
use redbelly::token::{Token, TokenType};

fn name(text: &str) -> Token {
    Token::new(TokenType::Identifier, text.to_owned(), 1)
}

#[test]
fn test_enclosing_environments() {
    let mut enclosing = Environment::new(None);
    enclosing.define("test".to_owned(), 3.0_f64);
    let environment = enclosing.enclosed();

    let result = environment.get(Token::new(TokenType::Identifier, "test".to_owned(), 1));

    assert!(result.unwrap() == &3.0_f64);
}

#[test]
fn test_shadowing() {
    let mut enclosing = Environment::new(None);
    enclosing.define("test".to_owned(), 3.0_f64);
    let mut environment = enclosing.enclosed();

    environment.define("test".to_owned(), 4.0_f64);

    let result = environment.get(Token::new(TokenType::Identifier, "test".to_owned(), 1));

    assert!(result.unwrap() == &4.0_f64);
}

#[test]
fn test_nested_reassignment() {
    let mut enclosing = Environment::new(None);
    enclosing.define("test".to_owned(), 3.0_f64);
    let mut environment = enclosing.enclosed();

    environment.assign(Token::new(TokenType::Identifier, "test".to_owned(), 1), 4.0_f64);

    let new_env = environment.release_enclosing().unwrap();
    let result = new_env.get(Token::new(TokenType::Identifier, "test".to_owned(), 1));

    assert!(result.unwrap() == &4.0_f64);
}

#[test]
fn get_after_define_in_the_same_scope() {
    let mut env = Environment::new(None);
    env.define("a".to_owned(), 1);
    env.define("b".to_owned(), 2);
    env.define("a".to_owned(), 5);
    assert_eq!(*env.get(name("a")).unwrap(), 5);
    assert_eq!(*env.get(name("b")).unwrap(), 2);
}

#[test]
fn get_of_an_undefined_name_fails() {
    let env: Environment<i32> = Environment::new(None);
    let error = env.get(Token::new(TokenType::Identifier, "x".to_owned(), 7)).unwrap_err();
    assert_eq!(error.message, "Undefined variable");
    let token = error.token.unwrap();
    assert_eq!(token.lexeme, "x");
    assert_eq!(token.line, 7);
}

#[test]
fn assign_to_an_undefined_name_fails_and_changes_nothing() {
    let mut env = Environment::new(None);
    env.define("a".to_owned(), 1);
    let error = env.assign(name("zz"), 9).unwrap();
    assert_eq!(error.message, "Undefined Variable zz");
    assert_eq!(error.token.unwrap().lexeme, "zz");
    assert_eq!(*env.get(name("a")).unwrap(), 1);
    assert!(env.get(name("zz")).is_err());
}

#[test]
fn assign_in_the_own_scope_succeeds() {
    let mut env = Environment::new(None);
    env.define("a".to_owned(), 1);
    assert!(env.assign(name("a"), 2).is_none());
    assert_eq!(*env.get(name("a")).unwrap(), 2);
}

#[test]
fn assign_changes_the_nearest_binding_only() {
    let mut outer = Environment::new(None);
    outer.define("a".to_owned(), 1);
    let mut inner = outer.enclosed();
    inner.define("a".to_owned(), 10);
    assert!(inner.assign(name("a"), 20).is_none());
    assert_eq!(*inner.get(name("a")).unwrap(), 20);
    let outer = inner.release_enclosing().unwrap();
    assert_eq!(*outer.get(name("a")).unwrap(), 1);
}

#[test]
fn release_of_an_outermost_environment_gives_nothing() {
    let env: Environment<i32> = Environment::new(None);
    assert!(env.release_enclosing().is_none());
}

#[test]
fn release_undoes_enclosed() {
    let mut env = Environment::new(None);
    env.define("a".to_owned(), 1);
    let back = env.enclosed().release_enclosing().unwrap();
    assert_eq!(*back.get(name("a")).unwrap(), 1);
    assert!(back.release_enclosing().is_none());
}

#[test]
fn clone_keeps_bindings_and_is_independent() {
    let mut outer = Environment::new(None);
    outer.define("a".to_owned(), String::from("x"));
    let mut inner = outer.enclosed();
    inner.define("b".to_owned(), String::from("y"));
    let copy = inner.clone();
    inner.assign(name("a"), String::from("changed"));
    assert_eq!(copy.get(name("a")).unwrap(), "x");
    assert_eq!(copy.get(name("b")).unwrap(), "y");
    assert_eq!(inner.get(name("a")).unwrap(), "changed");
}
