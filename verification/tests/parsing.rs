use lox::error::{ErrorKind, LoxError};
use lox::expr::{Assign, Binary, BinaryOp, Expr, Grouping, Literal, Unary, UnaryOp};
use lox::parser::{readable, Parser};
use lox::scanner::Scanner;
use lox::stmt::{Stmt, Var};
use lox::tokens;
use lox::tokens::{Token, TokenType};

fn digits(text: &str) -> Option<u64> {
    text.parse::<f64>().ok().map(f64::to_bits)
}

fn tokens_of(source: &str) -> Vec<Token> {
    let mut scanner = Scanner::new(source.to_owned());
    scanner.scan_tokens(&digits);
    let (tokens, errors) = scanner.into_parts();
    assert!(errors.is_empty(), "{:?}", errors);
    tokens
}

fn parse(source: &str) -> Vec<Result<Stmt, LoxError>> {
    let mut parser = Parser::new();
    parser.reset_tokens(tokens_of(source));
    parser.parse()
}

/// The expression of a program that is one expression statement.
fn expression(source: &str) -> Expr {
    let mut parsed = parse(&format!("{};", source));
    assert_eq!(parsed.len(), 1);
    match parsed.pop().unwrap() {
        Ok(Stmt::Expr(expr)) => expr,
        other => panic!("{:?}", other),
    }
}

fn error_of(source: &str) -> LoxError {
    let mut parsed = parse(source);
    assert_eq!(parsed.len(), 1, "{:?}", parsed);
    parsed.pop().unwrap().unwrap_err()
}

fn num(x: f64) -> Expr {
    Expr::Literal(Literal::Number(x.to_bits()))
}

fn binary(l: Expr, op: BinaryOp, r: Expr) -> Expr {
    Expr::Binary(Binary::new(Box::new(l), op, Box::new(r), 1))
}

fn name(lexeme: &str, line: u32) -> Token {
    Token::new(
        TokenType::Identifier,
        lexeme.to_owned(),
        Some(tokens::Literal::Identifier(lexeme.to_owned())),
        line,
    )
}

fn variable(lexeme: &str) -> Expr {
    Expr::Variable(name(lexeme, 1))
}

#[test]
fn primary_expressions() {
    assert_eq!(expression("1"), num(1.0));
    assert_eq!(expression("\"s\""), Expr::Literal(Literal::String("s".to_owned())));
    assert_eq!(expression("true"), Expr::Literal(Literal::Boolean(true)));
    assert_eq!(expression("false"), Expr::Literal(Literal::Boolean(false)));
    assert_eq!(expression("nil"), Expr::Literal(Literal::Nil));
    assert_eq!(expression("x"), variable("x"));
    assert_eq!(expression("(1)"), Expr::Grouping(Grouping::new(Box::new(num(1.0)))));
}

#[test]
fn factors_bind_tighter_than_terms() {
    assert_eq!(
        expression("1 + 2 * 3"),
        binary(num(1.0), BinaryOp::Plus, binary(num(2.0), BinaryOp::Star, num(3.0)))
    );
    assert_eq!(
        expression("1 * 2 + 3"),
        binary(binary(num(1.0), BinaryOp::Star, num(2.0)), BinaryOp::Plus, num(3.0))
    );
    assert_eq!(
        expression("1 - 2 / 3"),
        binary(num(1.0), BinaryOp::Minus, binary(num(2.0), BinaryOp::Slash, num(3.0)))
    );
}

#[test]
fn terms_bind_tighter_than_comparisons_and_those_than_equalities() {
    assert_eq!(
        expression("1 < 2 + 3"),
        binary(num(1.0), BinaryOp::Less, binary(num(2.0), BinaryOp::Plus, num(3.0)))
    );
    assert_eq!(
        expression("1 == 2 >= 3"),
        binary(num(1.0), BinaryOp::EqualEqual, binary(num(2.0), BinaryOp::GreaterEqual, num(3.0)))
    );
    assert_eq!(
        expression("1 <= 2 != 3 > 4"),
        binary(
            binary(num(1.0), BinaryOp::LessEqual, num(2.0)),
            BinaryOp::BangEqual,
            binary(num(3.0), BinaryOp::Greater, num(4.0))
        )
    );
}

#[test]
fn binary_operators_fold_to_the_left() {
    assert_eq!(
        expression("8 - 3 - 2"),
        binary(binary(num(8.0), BinaryOp::Minus, num(3.0)), BinaryOp::Minus, num(2.0))
    );
    assert_eq!(
        expression("1 == 2 == 3"),
        binary(binary(num(1.0), BinaryOp::EqualEqual, num(2.0)), BinaryOp::EqualEqual, num(3.0))
    );
    assert_eq!(
        expression("1 < 2 < 3"),
        binary(binary(num(1.0), BinaryOp::Less, num(2.0)), BinaryOp::Less, num(3.0))
    );
}

#[test]
fn grouping_is_kept_in_the_tree() {
    assert_eq!(
        expression("(1 + 2) * 3"),
        binary(
            Expr::Grouping(Grouping::new(Box::new(binary(num(1.0), BinaryOp::Plus, num(2.0))))),
            BinaryOp::Star,
            num(3.0)
        )
    );
}

#[test]
fn unary_operators_nest() {
    assert_eq!(
        expression("-!x"),
        Expr::Unary(Unary::new(
            UnaryOp::Minus,
            Box::new(Expr::Unary(Unary::new(UnaryOp::Bang, Box::new(variable("x")), 1))),
            1
        ))
    );
    assert_eq!(
        expression("1 - -2"),
        binary(
            num(1.0),
            BinaryOp::Minus,
            Expr::Unary(Unary::new(UnaryOp::Minus, Box::new(num(2.0)), 1))
        )
    );
}

#[test]
fn assignment_folds_to_the_right() {
    assert_eq!(
        expression("a = b = 1 + 2"),
        Expr::Assign(Assign::new(
            name("a", 1),
            Box::new(Expr::Assign(Assign::new(
                name("b", 1),
                Box::new(binary(num(1.0), BinaryOp::Plus, num(2.0)))
            )))
        ))
    );
}

#[test]
fn statements_of_each_kind() {
    let parsed = parse("print 1; 2; var a; var b = 3; { var c; print c; } {}");
    assert_eq!(
        parsed,
        vec![
            Ok(Stmt::Print(num(1.0))),
            Ok(Stmt::Expr(num(2.0))),
            Ok(Stmt::Var(Var::new(name("a", 1)))),
            Ok(Stmt::Var(Var::with_init(name("b", 1), num(3.0)))),
            Ok(Stmt::Block(vec![
                Stmt::Var(Var::new(name("c", 1))),
                Stmt::Print(variable("c"))
            ])),
            Ok(Stmt::Block(vec![])),
        ]
    );
}

#[test]
fn blocks_nest() {
    let parsed = parse("{ { 1; } 2; }");
    assert_eq!(
        parsed,
        vec![Ok(Stmt::Block(vec![
            Stmt::Block(vec![Stmt::Expr(num(1.0))]),
            Stmt::Expr(num(2.0))
        ]))]
    );
}

#[test]
fn an_empty_program_has_no_statements() {
    assert_eq!(parse(""), vec![]);
    assert_eq!(parse("  // nothing\n"), vec![]);
}

#[test]
fn the_parser_can_be_used_again() {
    let mut parser = Parser::new();
    parser.reset_tokens(tokens_of("1;"));
    assert_eq!(parser.parse(), vec![Ok(Stmt::Expr(num(1.0)))]);
    assert_eq!(parser.parse(), vec![]);
    parser.reset_tokens(tokens_of("2;"));
    assert_eq!(parser.parse(), vec![Ok(Stmt::Expr(num(2.0)))]);
}

#[test]
fn invalid_assignment_targets() {
    let error = error_of("1 = 5;");
    assert_eq!(
        error,
        LoxError::new(
            ErrorKind::InvalidAssignmentTarget,
            1,
            0,
            "=".to_owned(),
            "Invalid assignment target".to_owned()
        )
    );
    assert_eq!(error_of("a + b = 5;").kind, ErrorKind::InvalidAssignmentTarget);
    assert_eq!(error_of("(a) = 5;").kind, ErrorKind::InvalidAssignmentTarget);
    // the line is that of the `=`
    assert_eq!(error_of("1 =\n5\n;").line, 1);
    assert_eq!(error_of("1\n=\n5\n;").line, 2);
    // a fault in the right side comes first
    assert_eq!(error_of("1 = ;").kind, ErrorKind::UnexpectedToken);
}

#[test]
fn a_missing_closing_parenthesis() {
    assert_eq!(
        error_of("(1 + 2;"),
        LoxError::new(
            ErrorKind::ExpectedToken(TokenType::RightParen),
            1,
            0,
            ";".to_owned(),
            "')' Expected after expression".to_owned()
        )
    );
    let at_end = error_of("\n(1");
    assert_eq!(at_end.kind, ErrorKind::ExpectedToken(TokenType::RightParen));
    assert_eq!(at_end.line, 2);
    assert_eq!(at_end.chars_in_line, "");
}

#[test]
fn a_missing_semicolon() {
    assert_eq!(
        error_of("print 1"),
        LoxError::new(
            ErrorKind::ExpectedToken(TokenType::Semicolon),
            1,
            0,
            "".to_owned(),
            "Expected semicolon after expression".to_owned()
        )
    );
    assert_eq!(error_of("1 2;").chars_in_line, "2");
    assert_eq!(
        error_of("var a = 1").message,
        "Expect ';' after variable declaration"
    );
    assert_eq!(error_of("var a").kind, ErrorKind::ExpectedToken(TokenType::Semicolon));
}

#[test]
fn a_missing_variable_name() {
    assert_eq!(
        error_of("var = 1;"),
        LoxError::new(
            ErrorKind::ExpectedToken(TokenType::Identifier),
            1,
            0,
            "=".to_owned(),
            "Expect variable name".to_owned()
        )
    );
}

#[test]
fn a_missing_closing_brace() {
    assert_eq!(
        error_of("{ 1;"),
        LoxError::new(
            ErrorKind::ExpectedToken(TokenType::RightBrace),
            1,
            0,
            "".to_owned(),
            "Expected '}' after block".to_owned()
        )
    );
}

#[test]
fn an_unexpected_token() {
    assert_eq!(
        error_of("1 + ;"),
        LoxError::new(
            ErrorKind::UnexpectedToken,
            1,
            0,
            ";".to_owned(),
            "Unexpected character encountered".to_owned()
        )
    );
    assert_eq!(error_of("\n\n)").line, 3);
    assert_eq!(error_of("1 +").kind, ErrorKind::UnexpectedToken);
}

#[test]
fn a_failed_initializer_leaves_the_semicolon() {
    // parsing goes on right behind the `;` of the declaration
    let parsed = parse("var a = ; print 1;");
    assert_eq!(parsed.len(), 2);
    assert_eq!(
        parsed[0],
        Err(LoxError::new(
            ErrorKind::UnexpectedToken,
            1,
            0,
            ";".to_owned(),
            "Unexpected character encountered".to_owned()
        ))
    );
    assert_eq!(parsed[1], Ok(Stmt::Print(num(1.0))));
    // the fault of the initializer is the one reported
    assert_eq!(error_of("var a = )").kind, ErrorKind::UnexpectedToken);
    assert_eq!(error_of("var a = (1").kind, ErrorKind::ExpectedToken(TokenType::RightParen));
}

#[test]
fn two_declarations_without_initializer_give_two_errors() {
    let parsed = parse("var x = ; var y = ;");
    assert_eq!(parsed.len(), 2);
    for result in &parsed {
        let error = result.as_ref().unwrap_err();
        assert_eq!(error.kind, ErrorKind::UnexpectedToken);
        assert_eq!(error.chars_in_line, ";");
    }
    let more = parse("var x = ;\nprint ;\n1 + ;\nprint 2;");
    assert_eq!(more.len(), 4);
    assert_eq!(more[0].as_ref().unwrap_err().line, 1);
    assert_eq!(more[1].as_ref().unwrap_err().line, 2);
    assert_eq!(more[2].as_ref().unwrap_err().line, 3);
    assert_eq!(more[3], Ok(Stmt::Print(num(2.0))));
}

#[test]
fn two_faults_give_two_errors() {
    let parsed = parse("print (1; print 2; var = 3; print 4;");
    assert_eq!(parsed.len(), 4);
    assert_eq!(
        parsed[0].as_ref().unwrap_err().kind,
        ErrorKind::ExpectedToken(TokenType::RightParen)
    );
    assert_eq!(parsed[1], Ok(Stmt::Print(num(2.0))));
    assert_eq!(
        parsed[2].as_ref().unwrap_err().kind,
        ErrorKind::ExpectedToken(TokenType::Identifier)
    );
    assert_eq!(parsed[3], Ok(Stmt::Print(num(4.0))));
}

#[test]
fn one_fault_gives_one_error() {
    // all tokens up to the `;` are dropped
    let parsed = parse("1 + * 2 3 4; print 5;");
    assert_eq!(parsed.len(), 2);
    assert!(parsed[0].is_err());
    assert_eq!(parsed[1], Ok(Stmt::Print(num(5.0))));
}

#[test]
fn parsing_takes_up_at_a_keyword() {
    let parsed = parse("1 + ) 2 var a; ) ) print 3;");
    assert_eq!(parsed.len(), 4);
    assert!(parsed[0].is_err());
    assert_eq!(parsed[1], Ok(Stmt::Var(Var::new(name("a", 1)))));
    assert!(parsed[2].is_err());
    assert_eq!(parsed[3], Ok(Stmt::Print(num(3.0))));
}

#[test]
fn a_fault_in_a_block_ends_the_block() {
    let parsed = parse("{ 1 +; 2; } 3; 4;");
    // the block fails at `;`, parsing takes up at `2`, and the `}` is a fault of its own,
    // after which the tokens up to the next `;` are dropped
    assert_eq!(parsed.len(), 4);
    assert_eq!(parsed[0].as_ref().unwrap_err().kind, ErrorKind::UnexpectedToken);
    assert_eq!(parsed[1], Ok(Stmt::Expr(num(2.0))));
    assert_eq!(parsed[2].as_ref().unwrap_err().chars_in_line, "}");
    assert_eq!(parsed[3], Ok(Stmt::Expr(num(4.0))));
}

#[test]
fn scanned_tokens_are_readable() {
    assert!(readable(&tokens_of("")));
    assert!(readable(&tokens_of("var a = \"s\" + 1; { print a; }")));
}

#[test]
fn a_stream_must_end_with_the_end_marker() {
    assert!(!readable(&vec![]));
    let mut tokens = tokens_of("1;");
    tokens.pop();
    assert!(!readable(&tokens));
    tokens.push(Token::new(TokenType::Eof, "".to_owned(), None, 1));
    assert!(readable(&tokens));
}

#[test]
fn number_and_string_tokens_must_carry_their_value() {
    let end = || Token::new(TokenType::Eof, "".to_owned(), None, 1);
    let bare = Token::new(TokenType::Number, "1".to_owned(), None, 1);
    assert!(!readable(&vec![bare, end()]));
    let named = Token::new(
        TokenType::String,
        "\"a\"".to_owned(),
        Some(tokens::Literal::Identifier("a".to_owned())),
        1,
    );
    assert!(!readable(&vec![named, end()]));
    let valued = Token::new(
        TokenType::String,
        "\"a\"".to_owned(),
        Some(tokens::Literal::String("a".to_owned())),
        1,
    );
    assert!(readable(&vec![valued, end()]));
    // other tokens need none
    let word = Token::new(TokenType::Identifier, "a".to_owned(), None, 1);
    assert!(readable(&vec![word, end()]));
}

#[test]
fn operators_keep_their_line() {
    assert_eq!(
        expression("1\n+\n2"),
        Expr::Binary(Binary::new(Box::new(num(1.0)), BinaryOp::Plus, Box::new(num(2.0)), 2))
    );
    assert_eq!(
        expression("\n\n!\ntrue"),
        Expr::Unary(Unary::new(
            UnaryOp::Bang,
            Box::new(Expr::Literal(Literal::Boolean(true))),
            3
        ))
    );
}
