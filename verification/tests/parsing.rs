//! Parser tests: tree shapes, `for` desugaring, error recording and
//! synchronization.

use lox_interpreter::lexer::tokenize;
use lox_interpreter::{Expr, Interp, Literal, Parser, Stmt, Token};

fn parse_src(src: &str) -> (Vec<Stmt>, Vec<String>) {
    let tokens = tokenize(src).expect("lexing failed");
    let mut parser = Parser::new(&tokens);
    let stmts = parser.parse();
    (stmts, parser.errors)
}

fn parse_clean(src: &str) -> Vec<Stmt> {
    let (stmts, errors) = parse_src(src);
    assert!(errors.is_empty(), "unexpected parse errors: {:?}", errors);
    stmts
}

#[test]
fn parses_a_variable_declaration() {
    let stmts = parse_clean("var x = 1;");
    assert_eq!(
        stmts,
        vec![Stmt::Var {
            name: "x".to_string(),
            initializer: Some(Expr::Literal(Literal::Number(1))),
        }]
    );
}

#[test]
fn for_desugars_exactly_to_its_while_form() {
    // the two programs must produce the very same tree: the evaluator has
    // no separate code path for `for`
    let a = parse_clean("for (var i = 0; i < 3; i = i + 1) print i;");
    let b = parse_clean("{ var i = 0; while (i < 3) { print i; i = i + 1; } }");
    assert_eq!(a, b);
}

#[test]
fn for_without_clauses_desugars_to_while_true() {
    let a = parse_clean("for (;;) print 1;");
    let b = parse_clean("while (true) print 1;");
    assert_eq!(a, b);
}

#[test]
fn for_and_while_behave_identically() {
    let run = |src: &str| {
        let tokens = tokenize(src).unwrap();
        let mut parser = Parser::new(&tokens);
        let stmts = parser.parse();
        assert!(parser.errors.is_empty());
        let mut it = Interp::new();
        it.run(&stmts, 10_000).unwrap();
        it.output().clone()
    };
    let a = run("var s = 0; for (var i = 0; i < 5; i = i + 1) s = s + i; print s;");
    let b = run("var s = 0; { var i = 0; while (i < 5) { s = s + i; i = i + 1; } } print s;");
    assert_eq!(a, b);
    assert_eq!(a, vec!["10".to_string()]);
}

#[test]
fn a_bad_statement_does_not_stop_parsing() {
    let (stmts, errors) = parse_src("var ; print 1;");
    assert_eq!(errors.len(), 1);
    assert_eq!(stmts, vec![Stmt::Print(Expr::Literal(Literal::Number(1)))]);
}

#[test]
fn several_bad_statements_each_get_an_error() {
    let (stmts, errors) = parse_src("var ; +; print 2;");
    assert_eq!(errors.len(), 2);
    assert_eq!(stmts, vec![Stmt::Print(Expr::Literal(Literal::Number(2)))]);
}

#[test]
fn return_at_top_level_is_rejected() {
    let (stmts, errors) = parse_src("return 1;");
    assert!(stmts.is_empty());
    assert_eq!(errors, vec!["Error: Can't return from top-level code.".to_string()]);
}

#[test]
fn return_inside_a_function_is_accepted() {
    let (_, errors) = parse_src("fun f() { return 1; }");
    assert!(errors.is_empty());
}

#[test]
fn assignment_to_a_literal_is_rejected() {
    let (_, errors) = parse_src("1 = 2;");
    assert_eq!(errors.len(), 1);
}

#[test]
fn property_assignment_becomes_a_field_write() {
    let stmts = parse_clean("a.b = 3;");
    assert_eq!(
        stmts,
        vec![Stmt::Expr(Expr::SetField {
            object: Box::new(Expr::Variable("a".to_string())),
            name: "b".to_string(),
            value: Box::new(Expr::Literal(Literal::Number(3))),
        })]
    );
}

#[test]
fn too_many_parameters_is_rejected() {
    let mut src = String::from("fun f(");
    for i in 0..256 {
        if i > 0 {
            src.push(',');
        }
        src.push_str(&format!("p{}", i));
    }
    src.push_str(") { }");
    let (_, errors) = parse_src(&src);
    assert_eq!(errors.len(), 1);
}

#[test]
fn expression_entry_point_parses_one_expression() {
    let tokens = tokenize("1 + 2").unwrap();
    let mut parser = Parser::new(&tokens);
    let e = parser.expression().unwrap();
    assert_eq!(
        e,
        Expr::Binary {
            op: lox_interpreter::ast::BinaryOp::Add,
            left: Box::new(Expr::Literal(Literal::Number(1))),
            right: Box::new(Expr::Literal(Literal::Number(2))),
        }
    );
}

#[test]
fn class_declaration_records_its_superclass_name() {
    let stmts = parse_clean("class A { } class B < A { }");
    match &stmts[1] {
        Stmt::Class { name, superclass, methods } => {
            assert_eq!(name, "B");
            assert_eq!(superclass, &Some("A".to_string()));
            assert!(methods.is_empty());
        }
        other => panic!("expected a class declaration, got {:?}", other),
    }
}

#[test]
fn parser_new_starts_at_the_first_token() {
    let tokens = vec![Token::Nil, Token::Semicolon];
    let parser = Parser::new(&tokens);
    assert_eq!(parser.current, 0);
    assert!(parser.errors.is_empty());
}
