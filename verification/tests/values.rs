use lox::environment::{same_text, Environment};
use lox::error::{RuntimeError, TypeError};
use lox::expr::{
    binary_value, numeric, unary_value, Assign, Binary, BinaryOp, Expr, Grouping, Literal, Unary,
    UnaryOp,
};
use lox::stmt::{Stmt, Var};
use lox::tokens::{Token, TokenType};

/// Arithmetic that is easy to tell from any other: it encodes its arguments.
fn tagged(op: BinaryOp, a: u64, b: u64) -> u64 {
    let code = match op {
        BinaryOp::Plus => 1,
        BinaryOp::Minus => 2,
        BinaryOp::Star => 3,
        BinaryOp::Slash => 4,
        _ => panic!("not arithmetic"),
    };
    code * 10_000 + a * 100 + b
}

fn lit(bits: u64) -> Literal {
    Literal::Number(bits)
}

fn s(text: &str) -> Literal {
    Literal::String(text.to_owned())
}

fn word(lexeme: &str) -> Token {
    Token::new(TokenType::Identifier, lexeme.to_owned(), None, 7)
}

fn one() -> u64 {
    1.0f64.to_bits()
}

fn two() -> u64 {
    2.0f64.to_bits()
}

#[test]
fn arithmetic_goes_to_the_kernel_with_operator_and_operands_in_order() {
    assert_eq!(numeric(BinaryOp::Plus, 3, 4, &tagged), lit(10_304));
    assert_eq!(numeric(BinaryOp::Minus, 3, 4, &tagged), lit(20_304));
    assert_eq!(numeric(BinaryOp::Star, 4, 3, &tagged), lit(30_403));
    assert_eq!(numeric(BinaryOp::Slash, 0, 9, &tagged), lit(40_009));
}

#[test]
fn comparisons_do_not_go_to_the_kernel() {
    assert_eq!(numeric(BinaryOp::Less, one(), two(), &tagged), Literal::Boolean(true));
    assert_eq!(numeric(BinaryOp::LessEqual, two(), two(), &tagged), Literal::Boolean(true));
    assert_eq!(numeric(BinaryOp::Greater, one(), two(), &tagged), Literal::Boolean(false));
    assert_eq!(numeric(BinaryOp::GreaterEqual, one(), two(), &tagged), Literal::Boolean(false));
    assert_eq!(numeric(BinaryOp::EqualEqual, one(), one(), &tagged), Literal::Boolean(true));
    assert_eq!(numeric(BinaryOp::BangEqual, one(), one(), &tagged), Literal::Boolean(false));
}

#[test]
fn unary_values() {
    assert_eq!(unary_value(UnaryOp::Minus, lit(one()), 1), Ok(lit((-1.0f64).to_bits())));
    assert_eq!(
        unary_value(UnaryOp::Bang, Literal::Boolean(false), 1),
        Ok(Literal::Boolean(true))
    );
    assert_eq!(
        unary_value(UnaryOp::Minus, Literal::Boolean(false), 8),
        Err(RuntimeError::TypeError(
            TypeError::Operand(UnaryOp::Minus, Literal::Boolean(false)),
            8
        ))
    );
    assert_eq!(
        unary_value(UnaryOp::Bang, Literal::Nil, 9),
        Err(RuntimeError::TypeError(TypeError::Operand(UnaryOp::Bang, Literal::Nil), 9))
    );
}

#[test]
fn binary_values_of_each_pair_of_types() {
    assert_eq!(binary_value(BinaryOp::Plus, lit(1), lit(2), 1, &tagged), Ok(lit(10_102)));
    assert_eq!(binary_value(BinaryOp::Plus, s("a"), s("b"), 1, &tagged), Ok(s("ab")));
    assert_eq!(
        binary_value(BinaryOp::EqualEqual, s("a"), s("a"), 1, &tagged),
        Ok(Literal::Boolean(true))
    );
    assert_eq!(
        binary_value(
            BinaryOp::BangEqual,
            Literal::Boolean(true),
            Literal::Boolean(false),
            1,
            &tagged
        ),
        Ok(Literal::Boolean(true))
    );
    assert_eq!(
        binary_value(BinaryOp::EqualEqual, Literal::Nil, Literal::Nil, 1, &tagged),
        Ok(Literal::Boolean(true))
    );
    assert_eq!(
        binary_value(BinaryOp::EqualEqual, Literal::Nil, lit(0), 1, &tagged),
        Ok(Literal::Boolean(false))
    );
    assert_eq!(
        binary_value(BinaryOp::Star, s("a"), lit(2), 6, &tagged),
        Err(RuntimeError::TypeError(TypeError::Operands(BinaryOp::Star, s("a"), lit(2)), 6))
    );
    assert_eq!(
        binary_value(BinaryOp::Less, Literal::Nil, Literal::Nil, 7, &tagged),
        Err(RuntimeError::TypeError(
            TypeError::Operands(BinaryOp::Less, Literal::Nil, Literal::Nil),
            7
        ))
    );
}

#[test]
fn trees_built_by_hand_are_evaluated() {
    let mut env = Environment::new();
    env.define("x".to_owned(), lit(5));
    // -(x * (x = 7))
    let tree = Expr::Unary(Unary::new(
        UnaryOp::Minus,
        Box::new(Expr::Grouping(Grouping::new(Box::new(Expr::Binary(Binary::new(
            Box::new(Expr::Variable(word("x"))),
            BinaryOp::Star,
            Box::new(Expr::Assign(Assign::new(word("x"), Box::new(Expr::Literal(lit(7)))))),
            1,
        )))))),
        1,
    ));
    // the product is tagged(Star, 5, 7) = 30507, negated by flipping the sign bit
    assert_eq!(
        tree.interpret_ast(&mut env, &tagged),
        Ok(lit(30_507 + 0x8000_0000_0000_0000))
    );
    assert_eq!(env.get("x"), Some(lit(7)));
    // the tree is not used up
    assert_eq!(
        tree.interpret_ast(&mut env, &tagged),
        Ok(lit(30_707 + 0x8000_0000_0000_0000))
    );
}

#[test]
fn a_variable_is_known_by_its_lexeme() {
    let mut env = Environment::new();
    env.define("count".to_owned(), lit(3));
    let by_any_token = Expr::Variable(Token::new(TokenType::Number, "count".to_owned(), None, 1));
    assert_eq!(by_any_token.interpret_ast(&mut env, &tagged), Ok(lit(3)));
}

#[test]
fn statements_built_by_hand_are_executed() {
    let mut env = Environment::new();
    let mut out = Vec::new();
    let program = vec![
        Stmt::Var(Var::with_init(word("a"), Expr::Literal(lit(1)))),
        Stmt::Var(Var::new(word("b"))),
        Stmt::Block(vec![
            Stmt::Var(Var::with_init(word("a"), Expr::Literal(s("inner")))),
            Stmt::Print(Expr::Variable(word("a"))),
            Stmt::Expr(Expr::Assign(Assign::new(word("b"), Box::new(Expr::Variable(word("a")))))),
        ]),
        Stmt::Print(Expr::Variable(word("a"))),
        Stmt::Print(Expr::Variable(word("b"))),
    ];
    for stmt in &program {
        assert_eq!(stmt.interpret_stmt(&mut env, &tagged, &mut out), Ok(()));
    }
    assert_eq!(out, vec![s("inner"), lit(1), s("inner")]);
    assert_eq!(env.depth(), 1);
}

#[test]
fn what_was_printed_before_a_failure_stays() {
    let mut env = Environment::new();
    let mut out = vec![s("earlier")];
    let block = Stmt::Block(vec![
        Stmt::Print(Expr::Literal(lit(1))),
        Stmt::Print(Expr::Variable(word("nowhere"))),
        Stmt::Print(Expr::Literal(lit(2))),
    ]);
    assert_eq!(
        block.interpret_stmt(&mut env, &tagged, &mut out),
        Err(RuntimeError::UndefinedVariable("nowhere".to_owned(), 7))
    );
    assert_eq!(out, vec![s("earlier"), lit(1)]);
    assert_eq!(env.depth(), 1);
}

#[test]
fn texts_are_compared_by_their_characters() {
    assert!(same_text("", ""));
    assert!(same_text("abc", "abc"));
    assert!(!same_text("abc", "abd"));
    assert!(!same_text("abc", "ab"));
    assert!(same_text("h\u{e9}\u{4e16}", "h\u{e9}\u{4e16}"));
    assert!(!same_text("h\u{e9}", "he"));
}
