use lox::environment::Environment;
use lox::error::{ErrorKind, LoxError, RuntimeError, TypeError};
use lox::expr::{BinaryOp, Literal, UnaryOp};
use lox::parser::Parser;
use lox::scanner::Scanner;
use lox::stmt::Stmt;

fn arith(op: BinaryOp, a: u64, b: u64) -> u64 {
    let (x, y) = (f64::from_bits(a), f64::from_bits(b));
    match op {
        BinaryOp::Plus => (x + y).to_bits(),
        BinaryOp::Minus => (x - y).to_bits(),
        BinaryOp::Star => (x * y).to_bits(),
        BinaryOp::Slash => (x / y).to_bits(),
        _ => unreachable!(),
    }
}

fn read_number(text: &str) -> Option<u64> {
    text.parse::<f64>().ok().map(f64::to_bits)
}

fn parse_source(source: &str) -> Vec<Result<Stmt, LoxError>> {
    let mut scanner = Scanner::new(source.to_owned());
    scanner.scan_tokens(&read_number);
    let (tokens, errors) = scanner.into_parts();
    assert!(errors.is_empty(), "{:?}", errors);
    let mut parser = Parser::new();
    parser.reset_tokens(tokens);
    parser.parse()
}

/// Runs a program; gives what it printed and the result of each statement.
fn run(source: &str) -> (Vec<Literal>, Vec<Result<(), RuntimeError>>) {
    let mut env = Environment::new();
    let mut out = Vec::new();
    let mut results = Vec::new();
    for stmt in parse_source(source) {
        let stmt = stmt.expect("syntax error");
        results.push(stmt.interpret_stmt(&mut env, &arith, &mut out));
    }
    (out, results)
}

/// The value of an expression, by way of `print`.
fn value_of(expression: &str) -> Result<Literal, RuntimeError> {
    let (mut out, mut results) = run(&format!("print {};", expression));
    assert_eq!(results.len(), 1);
    results.pop().unwrap().map(|_| out.pop().unwrap())
}

fn number(x: f64) -> Literal {
    Literal::Number(x.to_bits())
}

fn text(s: &str) -> Literal {
    Literal::String(s.to_owned())
}

#[test]
fn multiplication_binds_tighter_than_addition() {
    assert_eq!(value_of("1 + 2 * 3"), Ok(number(7.0)));
    assert_eq!(value_of("2 * 3 + 1"), Ok(number(7.0)));
    assert_eq!(value_of("1 + 6 / 3"), Ok(number(3.0)));
    assert_eq!(value_of("1 < 2 + 3"), Ok(Literal::Boolean(true)));
    assert_eq!(value_of("1 + 1 == 2"), Ok(Literal::Boolean(true)));
    assert_eq!(value_of("2 == 1 < 2"), Ok(Literal::Boolean(false)));
}

#[test]
fn subtraction_is_left_associative() {
    assert_eq!(value_of("8 - 3 - 2"), Ok(number(3.0)));
    assert_eq!(value_of("8 / 4 / 2"), Ok(number(1.0)));
}

#[test]
fn grouping_overrides_precedence() {
    assert_eq!(value_of("(1 + 2) * 3"), Ok(number(9.0)));
    assert_eq!(value_of("8 - (3 - 2)"), Ok(number(7.0)));
}

#[test]
fn strings_concatenate() {
    assert_eq!(value_of("\"a\" + \"b\""), Ok(text("ab")));
    assert_eq!(value_of("\"\" + \"b\" + \"cd\""), Ok(text("bcd")));
}

#[test]
fn string_plus_number_is_a_type_error() {
    assert_eq!(
        value_of("\"a\" + 1"),
        Err(RuntimeError::TypeError(
            TypeError::Operands(BinaryOp::Plus, text("a"), number(1.0)),
            1
        ))
    );
    assert!(matches!(value_of("1 + \"a\""), Err(RuntimeError::TypeError(..))));
    assert!(matches!(value_of("\"a\" - \"b\""), Err(RuntimeError::TypeError(..))));
    assert!(matches!(value_of("\"a\" < \"b\""), Err(RuntimeError::TypeError(..))));
    assert!(matches!(value_of("true + false"), Err(RuntimeError::TypeError(..))));
    assert!(matches!(value_of("nil * nil"), Err(RuntimeError::TypeError(..))));
    assert!(matches!(value_of("nil > 1"), Err(RuntimeError::TypeError(..))));
}

#[test]
fn equality_of_different_types_is_false() {
    assert_eq!(value_of("1 == \"1\""), Ok(Literal::Boolean(false)));
    assert_eq!(value_of("1 != \"1\""), Ok(Literal::Boolean(true)));
    assert_eq!(value_of("nil == false"), Ok(Literal::Boolean(false)));
    assert_eq!(value_of("nil != false"), Ok(Literal::Boolean(true)));
    assert_eq!(value_of("\"true\" == true"), Ok(Literal::Boolean(false)));
}

#[test]
fn equality_of_same_types_compares_contents() {
    assert_eq!(value_of("1 == 1"), Ok(Literal::Boolean(true)));
    assert_eq!(value_of("1 != 1"), Ok(Literal::Boolean(false)));
    assert_eq!(value_of("1 == 2"), Ok(Literal::Boolean(false)));
    assert_eq!(value_of("\"ab\" == \"ab\""), Ok(Literal::Boolean(true)));
    assert_eq!(value_of("\"ab\" != \"ba\""), Ok(Literal::Boolean(true)));
    assert_eq!(value_of("true == true"), Ok(Literal::Boolean(true)));
    assert_eq!(value_of("true == false"), Ok(Literal::Boolean(false)));
    assert_eq!(value_of("nil == nil"), Ok(Literal::Boolean(true)));
    assert_eq!(value_of("nil != nil"), Ok(Literal::Boolean(false)));
}

#[test]
fn comparisons_of_numbers() {
    assert_eq!(value_of("1 < 2"), Ok(Literal::Boolean(true)));
    assert_eq!(value_of("2 < 2"), Ok(Literal::Boolean(false)));
    assert_eq!(value_of("2 <= 2"), Ok(Literal::Boolean(true)));
    assert_eq!(value_of("3 > 2"), Ok(Literal::Boolean(true)));
    assert_eq!(value_of("2 >= 3"), Ok(Literal::Boolean(false)));
    assert_eq!(value_of("-1 < 0"), Ok(Literal::Boolean(true)));
    assert_eq!(value_of("-2 < -1"), Ok(Literal::Boolean(true)));
    assert_eq!(value_of("0 == -0"), Ok(Literal::Boolean(true)));
    // 0/0 is a NaN: equal to nothing, itself included
    assert_eq!(value_of("0 / 0 == 0 / 0"), Ok(Literal::Boolean(false)));
    assert_eq!(value_of("0 / 0 != 0 / 0"), Ok(Literal::Boolean(true)));
    assert_eq!(value_of("0 / 0 < 1"), Ok(Literal::Boolean(false)));
    assert_eq!(value_of("1 / 0 > 1000000"), Ok(Literal::Boolean(true)));
}

#[test]
fn unary_operators_want_their_type() {
    assert_eq!(value_of("-3"), Ok(number(-3.0)));
    assert_eq!(value_of("--3"), Ok(number(3.0)));
    assert_eq!(value_of("!true"), Ok(Literal::Boolean(false)));
    assert_eq!(value_of("!!true"), Ok(Literal::Boolean(true)));
    assert!(matches!(value_of("-\"a\""), Err(RuntimeError::TypeError(..))));
    assert!(matches!(value_of("-true"), Err(RuntimeError::TypeError(..))));
    assert!(matches!(value_of("!1"), Err(RuntimeError::TypeError(..))));
    assert!(matches!(value_of("!nil"), Err(RuntimeError::TypeError(..))));
}

#[test]
fn block_shadows_and_restores() {
    let (out, results) = run("var x = 1; { var x = 2; print x; } print x;");
    assert!(results.iter().all(|r| r.is_ok()));
    assert_eq!(out, vec![number(2.0), number(1.0)]);
}

#[test]
fn block_assigns_to_enclosing_scope() {
    let (out, results) = run("var x = 1; { x = 2; var y = x + 1; print y; } print x;");
    assert!(results.iter().all(|r| r.is_ok()));
    assert_eq!(out, vec![number(3.0), number(2.0)]);
}

#[test]
fn block_scope_is_gone_after_a_failure() {
    let (out, results) = run("var x = 1; { var y = 2; print -\"a\"; } print y; print x;");
    assert!(results[0].is_ok());
    assert!(matches!(results[1], Err(RuntimeError::TypeError(..))));
    assert_eq!(results[2], Err(RuntimeError::UndefinedVariable("y".to_owned(), 1)));
    assert!(results[3].is_ok());
    assert_eq!(out, vec![number(1.0)]);
}

#[test]
fn assignment_needs_a_declaration() {
    let (_, results) = run("y = 5;");
    assert_eq!(results, vec![Err(RuntimeError::UndefinedVariable("y".to_owned(), 1))]);
}

#[test]
fn assignment_to_a_literal_is_a_syntax_error() {
    let parsed = parse_source("1 = 5;");
    assert_eq!(parsed.len(), 1);
    let error = parsed[0].as_ref().unwrap_err();
    assert_eq!(error.kind, ErrorKind::InvalidAssignmentTarget);
    assert_eq!(error.line, 1);
    assert_eq!(error.message, "Invalid assignment target");
}

#[test]
fn assignment_is_an_expression() {
    let (out, results) = run("var a; var b; print a = b = 3; print a; print b;");
    assert!(results.iter().all(|r| r.is_ok()));
    assert_eq!(out, vec![number(3.0), number(3.0), number(3.0)]);
}

#[test]
fn redeclaration_overwrites() {
    let (out, results) = run("var x = 1; var x = \"two\"; print x; var x; print x;");
    assert!(results.iter().all(|r| r.is_ok()));
    assert_eq!(out, vec![text("two"), Literal::Nil]);
}

#[test]
fn undefined_variable_is_reported() {
    assert_eq!(
        value_of("missing"),
        Err(RuntimeError::UndefinedVariable("missing".to_owned(), 1))
    );
}

#[test]
fn left_operand_is_evaluated_first() {
    let (out, results) = run("var a = 1; print (a = 2) + a; print missing + (a = 3); print a;");
    assert!(results[1].is_ok());
    assert!(results[2].is_err());
    assert_eq!(out, vec![number(4.0), number(2.0)]);
}

#[test]
fn a_failed_statement_keeps_earlier_state() {
    let (out, results) = run("var a = 1; print a + nil; print a;");
    assert!(results[1].is_err());
    assert_eq!(out, vec![number(1.0)]);
}

#[test]
fn a_runtime_error_names_its_line() {
    let (_, results) = run("var a = 1;\nprint a\n  + nil;\n\nprint -\n\"a\";\nprint\n\nb;\nb\n=\n2;");
    assert_eq!(results.len(), 5);
    // the line of the operator, not that of an operand
    assert_eq!(
        results[1],
        Err(RuntimeError::TypeError(
            TypeError::Operands(BinaryOp::Plus, number(1.0), Literal::Nil),
            3
        ))
    );
    assert_eq!(
        results[2],
        Err(RuntimeError::TypeError(TypeError::Operand(UnaryOp::Minus, text("a")), 5))
    );
    // the line of the name
    assert_eq!(results[3], Err(RuntimeError::UndefinedVariable("b".to_owned(), 9)));
    assert_eq!(results[4], Err(RuntimeError::UndefinedVariable("b".to_owned(), 10)));
    assert_eq!(results[2].as_ref().unwrap_err().line(), 5);
    assert_eq!(results[3].as_ref().unwrap_err().line(), 9);
}

#[test]
fn every_token_on_line_four_gives_line_four() {
    let (_, results) = run("\n\n\nprint -\"a\";");
    assert_eq!(
        results,
        vec![Err(RuntimeError::TypeError(TypeError::Operand(UnaryOp::Minus, text("a")), 4))]
    );
}
