use lox::error::{ErrorKind, RuntimeError, TypeError};
use lox::expr::{BinaryOp, Literal, UnaryOp};
use lox::interpreter::{run, try_run, Event};

fn float_arith(op: BinaryOp, a: u64, b: u64) -> u64 {
    let (x, y) = (f64::from_bits(a), f64::from_bits(b));
    match op {
        BinaryOp::Plus => (x + y).to_bits(),
        BinaryOp::Minus => (x - y).to_bits(),
        BinaryOp::Star => (x * y).to_bits(),
        BinaryOp::Slash => (x / y).to_bits(),
        _ => unreachable!(),
    }
}

fn float_of(text: &str) -> Option<u64> {
    text.parse::<f64>().ok().map(f64::to_bits)
}

fn float_text(bits: u64) -> String {
    f64::from_bits(bits).to_string()
}

fn events_of(source: &str) -> Vec<Event> {
    run(source.to_owned(), &float_of, &float_arith)
}

/// What a program prints, line by line; it must not fail.
fn output_of(source: &str) -> Vec<String> {
    events_of(source)
        .into_iter()
        .map(|event| match event {
            Event::Printed(value) => value.render(&float_text),
            other => panic!("{:?}", other),
        })
        .collect()
}

#[test]
fn prints_in_order() {
    assert_eq!(output_of("print 1; print \"two\"; print 1 + 2;"), vec!["1", "two", "3"]);
}

#[test]
fn values_are_rendered() {
    assert_eq!(
        output_of("print 7; print 3 / 2; print -0; print \"a b\"; print true; print false; print nil; print 1 / 0;"),
        vec!["7", "1.5", "-0", "a b", "true", "false", "nil", "inf"]
    );
    assert_eq!(Literal::String("".to_owned()).render(&float_text), "");
    assert_eq!(Literal::Number(0.1f64.to_bits()).render(&float_text), "0.1");
}

#[test]
fn shadowing_in_a_block() {
    assert_eq!(output_of("var x = 1; { var x = 2; print x; } print x;"), vec!["2", "1"]);
}

#[test]
fn a_runtime_error_stops_its_statement_only() {
    let events = events_of("var a = 1; print a; print b; { print 2; print -nil; print 3; } print a + 1;");
    assert_eq!(
        events,
        vec![
            Event::Printed(Literal::Number(1.0f64.to_bits())),
            Event::RuntimeError(RuntimeError::UndefinedVariable("b".to_owned(), 1)),
            Event::Printed(Literal::Number(2.0f64.to_bits())),
            Event::RuntimeError(RuntimeError::TypeError(
                TypeError::Operand(UnaryOp::Minus, Literal::Nil),
                1
            )),
            Event::Printed(Literal::Number(2.0f64.to_bits())),
        ]
    );
}

#[test]
fn syntax_errors_do_not_stop_the_rest() {
    let events = events_of("print 1; 1 = 5; print 2; y = 5;");
    assert_eq!(events.len(), 4);
    assert_eq!(events[0], Event::Printed(Literal::Number(1.0f64.to_bits())));
    match &events[1] {
        Event::SyntaxError(error) => assert_eq!(error.kind, ErrorKind::InvalidAssignmentTarget),
        other => panic!("{:?}", other),
    }
    assert_eq!(events[2], Event::Printed(Literal::Number(2.0f64.to_bits())));
    assert_eq!(
        events[3],
        Event::RuntimeError(RuntimeError::UndefinedVariable("y".to_owned(), 1))
    );
}

#[test]
fn scanner_errors_come_first() {
    let events = events_of("print 1; @ print \"open");
    assert_eq!(events.len(), 4);
    match (&events[0], &events[1]) {
        (Event::SyntaxError(first), Event::SyntaxError(second)) => {
            assert_eq!(first.kind, ErrorKind::UnexpectedCharacter);
            assert_eq!(second.kind, ErrorKind::UnterminatedString);
        }
        other => panic!("{:?}", other),
    }
    assert_eq!(events[2], Event::Printed(Literal::Number(1.0f64.to_bits())));
    match &events[3] {
        Event::SyntaxError(error) => assert_eq!(error.kind, ErrorKind::UnexpectedToken),
        other => panic!("{:?}", other),
    }
}

#[test]
fn an_empty_source_shows_nothing() {
    assert_eq!(events_of(""), vec![]);
    assert_eq!(events_of("// nothing to do\n"), vec![]);
}

#[test]
fn messages_of_runtime_errors() {
    let message = |source: &str| -> String {
        match events_of(source).pop() {
            Some(Event::RuntimeError(error)) => error.message(&float_text),
            other => panic!("{:?}", other),
        }
    };
    assert_eq!(message("-\"a\";"), "Expected a number but got a");
    assert_eq!(message("!1;"), "Expected a boolean value but got 1");
    assert_eq!(message("!(3 / 2);"), "Expected a boolean value but got 1.5");
    assert_eq!(message("\"a\" * \"b\";"), "Operation * not supported for Strings");
    assert_eq!(message("true < false;"), "Operation < not supported for Booleans");
    assert_eq!(message("nil - nil;"), "Operation - not supported for Booleans");
    assert_eq!(message("1 + \"a\";"), "Mismatched types: left was 1 while right was a");
    assert_eq!(message("nil >= true;"), "Mismatched types: left was nil while right was true");
    assert_eq!(message("x;"), "Undefined variable: x");
    assert_eq!(message("x = 1;"), "Undefined variable: x");
}

#[test]
fn operators_as_written() {
    let all = [
        (BinaryOp::EqualEqual, "=="),
        (BinaryOp::BangEqual, "!="),
        (BinaryOp::Less, "<"),
        (BinaryOp::LessEqual, "<="),
        (BinaryOp::Greater, ">"),
        (BinaryOp::GreaterEqual, ">="),
        (BinaryOp::Plus, "+"),
        (BinaryOp::Minus, "-"),
        (BinaryOp::Star, "*"),
        (BinaryOp::Slash, "/"),
    ];
    for (op, written) in all {
        assert_eq!(op.symbol(), written);
    }
}

#[test]
fn arithmetic_is_what_the_caller_supplies() {
    // a kernel that is not floating point: wrapping integers
    let wrapping = |op: BinaryOp, a: u64, b: u64| match op {
        BinaryOp::Plus => a.wrapping_add(b),
        BinaryOp::Minus => a.wrapping_sub(b),
        BinaryOp::Star => a.wrapping_mul(b),
        _ => if b == 0 { 0 } else { a / b },
    };
    let literal = |text: &str| text.parse::<u64>().ok();
    let events = run("print 6 * 7; print 1 - 2; print 7 / 2;".to_owned(), &literal, &wrapping);
    assert_eq!(
        events,
        vec![
            Event::Printed(Literal::Number(42)),
            Event::Printed(Literal::Number(u64::MAX)),
            Event::Printed(Literal::Number(3)),
        ]
    );
}

#[test]
fn a_source_of_ordinary_length_is_run() {
    assert_eq!(
        try_run("print 1;".to_owned(), &float_of, &float_arith),
        Some(vec![Event::Printed(Literal::Number(1.0f64.to_bits()))])
    );
    assert_eq!(try_run("".to_owned(), &float_of, &float_arith), Some(vec![]));
}

#[test]
fn a_message_without_a_number_needs_no_printer() {
    let never = |_: u64| -> String { panic!("no number is printed") };
    let error = RuntimeError::TypeError(
        TypeError::Operands(BinaryOp::Less, Literal::Boolean(true), Literal::Nil),
        3,
    );
    assert_eq!(error.message(&never), "Mismatched types: left was true while right was nil");
    assert_eq!(error.line(), 3);
    let unbound = RuntimeError::UndefinedVariable("x".to_owned(), 2);
    assert_eq!(unbound.message(&never), "Undefined variable: x");
    assert_eq!(unbound.line(), 2);
}
