use redbelly::ast::{Expression, Statement};
use redbelly::text::decimal;
use redbelly::{parse_bytes, parse_source, run};

#[test]
fn run_accepts_a_program_without_errors() {
    assert!(run(b"1 + 2;\n(3);".to_vec()).is_ok());
}

#[test]
fn run_reports_a_scanning_error_with_its_line() {
    let error = run(b"1;\n\"open".to_vec()).unwrap_err();
    assert_eq!(error.message(), "Untermintated String");
    assert_eq!(error.line(), 2);
}

#[test]
fn run_reports_the_first_parse_error() {
    let error = run(b"1\n;\n1 +;".to_vec()).unwrap_err();
    assert_eq!(error.message(), "Expect Expression");
    assert_eq!(error.line(), 3);
}

#[test]
fn invalid_utf8_reads_as_a_replacement_character() {
    let error = parse_bytes(vec![b'1', b';', 0xff]).unwrap_err();
    assert_eq!(error.message(), "Unexpected Character");
    assert_eq!(error.line(), 1);
    assert!(parse_bytes(b"1;".to_vec()).is_ok());
}

#[test]
fn parse_source_builds_statements() {
    let stmts = parse_source(String::from("\"a\" + \"b\";\n-2 * (3);")).unwrap();
    assert_eq!(stmts.len(), 2);
    assert!(matches!(stmts[0], Statement::Expression(_)));
    match &stmts[1] {
        Statement::Expression(e) => assert!(matches!(e.expr, Expression::Binary(_))),
        other => panic!("unexpected statement {:?}", other),
    }
}

#[test]
fn readme_programs_scan_and_parse() {
    assert!(run(b"println(\"Hello World\");".to_vec()).is_ok());
    assert!(run(b"let foo = \"bar\";\nfoo = \"baz\";\nprintln(foo);".to_vec()).is_ok());
    assert!(run(b"let break = false;\nwhile(!break) {\n   break = true;\n}\nprintln(break);".to_vec()).is_ok());
    assert!(run(b"for(let i = 0; i < 10; i = i + 1) { print(i); }".to_vec()).is_ok());
    assert!(run(b"func foo(bar) {\n   return bar;\n}\nprintln(foo(7));".to_vec()).is_ok());
}

#[test]
fn keywords_and_names_build_statements() {
    let stmts = parse_source(String::from("let foo = \"bar\";\nfoo = \"baz\";\nprintln(foo);")).unwrap();
    assert_eq!(stmts.len(), 3);
    assert!(matches!(stmts[0], Statement::Variable(_)));
    match &stmts[1] {
        Statement::Expression(e) => assert!(matches!(e.expr, Expression::Assignment(_))),
        other => panic!("unexpected statement {:?}", other),
    }
    match &stmts[2] {
        Statement::Expression(e) => assert!(matches!(e.expr, Expression::Call(_))),
        other => panic!("unexpected statement {:?}", other),
    }
}

#[test]
fn for_loop_runs_the_increment_after_the_body() {
    let stmts = parse_source(String::from("for(let i = 0; i < 10; i = i + 1) { print(i); }")).unwrap();
    let block = match &stmts[0] {
        Statement::Block(b) => b,
        other => panic!("unexpected statement {:?}", other),
    };
    match &block.statements[1] {
        Statement::While(w) => match &*w.body {
            Statement::Block(b) => {
                assert!(matches!(b.statements[0], Statement::Block(_)));
                assert!(matches!(b.statements[1], Statement::Expression(_)));
            }
            other => panic!("unexpected body {:?}", other),
        },
        other => panic!("unexpected statement {:?}", other),
    }
}

#[test]
fn characters_outside_the_language_are_refused() {
    let error = parse_source(String::from("let x = 1;\n@")).unwrap_err();
    assert_eq!(error.message(), "Unexpected Character");
    assert_eq!(error.line(), 2);
}

#[test]
fn decimal_writes_numbers() {
    assert_eq!(decimal(0), "0");
    assert_eq!(decimal(7), "7");
    assert_eq!(decimal(10), "10");
    assert_eq!(decimal(1207), "1207");
}

#[test]
fn comment_before_a_program_changes_nothing() {
    let with_comment = parse_source(String::from("// a comment (with symbols) \"\n1 + 2;")).unwrap();
    let without = parse_source(String::from("\n1 + 2;")).unwrap();
    assert_eq!(format!("{:?}", with_comment), format!("{:?}", without));
}

#[test]
fn valid_utf8_reads_as_its_text() {
    let stmts = parse_bytes("\"é ü\";".as_bytes().to_vec()).unwrap();
    match &stmts[0] {
        Statement::Expression(e) => match &e.expr {
            Expression::Literal(l) => match &l.value {
                redbelly::ast::LiteralValue::String(s) => assert_eq!(s, "é ü"),
                other => panic!("unexpected literal {:?}", other),
            },
            other => panic!("unexpected expression {:?}", other),
        },
        other => panic!("unexpected statement {:?}", other),
    }
}
