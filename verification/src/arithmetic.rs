//! The value of an arithmetic expression, read from its tokens as
//! precedence asks, and the law that parsing and evaluating gives it.
//!
//! An arithmetic expression is a sum: products joined by `+` and `-`.
//! A product is factors joined by `*` and `/`. A factor is a number, a sum
//! in parentheses, or a factor with `-` before it. Sums and products are
//! computed from the left. So `-` before a factor binds tightest, `*` and
//! `/` bind tighter than `+` and `-`, and a part in parentheses is computed
//! as a unit.

use crate::environment::Scopes;
use crate::expr::{evaluate, Arithmetic, BinaryOp, Evaluated, ExprView, Value};
use crate::grammar::{
    assignment, binary, binary_rest, check, expression, operand, operator_at, primary, remaining,
    unary, Parsed,
};
use crate::number::negated;
use crate::tokens::{LiteralView, TokenType, TokenView};
use vstd::prelude::*;

verus! {

/// The value of the factor at `pos` and the number of its tokens, or
/// `None` where no factor stands there.
pub open spec fn factor(k: Arithmetic, tokens: Seq<TokenView>, pos: int) -> Option<(u64, nat)>
    decreases remaining(tokens, pos), 0nat,
{
    if check(tokens, pos, TokenType::Minus) {
        match factor(k, tokens, pos + 1) {
            Some((value, used)) => Some((negated(value), used + 1)),
            None => None,
        }
    } else if check(tokens, pos, TokenType::Number) {
        match tokens[pos].literal {
            Some(LiteralView::Number(value)) => Some((value, 1)),
            _ => None,
        }
    } else if check(tokens, pos, TokenType::LeftParen) {
        match sum(k, tokens, pos + 1) {
            Some((value, used)) => if check(tokens, pos + 1 + used, TokenType::RightParen) {
                Some((value, used + 2))
            } else {
                None
            },
            None => None,
        }
    } else {
        None
    }
}

/// The operator of a product at `pos`, if one stands there.
pub open spec fn product_operator(tokens: Seq<TokenView>, pos: int) -> Option<BinaryOp> {
    if check(tokens, pos, TokenType::Star) {
        Some(BinaryOp::Star)
    } else if check(tokens, pos, TokenType::Slash) {
        Some(BinaryOp::Slash)
    } else {
        None
    }
}

/// The operator of a sum at `pos`, if one stands there.
pub open spec fn sum_operator(tokens: Seq<TokenView>, pos: int) -> Option<BinaryOp> {
    if check(tokens, pos, TokenType::Plus) {
        Some(BinaryOp::Plus)
    } else if check(tokens, pos, TokenType::Minus) {
        Some(BinaryOp::Minus)
    } else {
        None
    }
}

/// The value of the product at `pos`: its factors, multiplied and divided
/// from the left.
pub open spec fn product(k: Arithmetic, tokens: Seq<TokenView>, pos: int) -> Option<(u64, nat)>
    decreases remaining(tokens, pos), 2nat,
{
    match factor(k, tokens, pos) {
        Some((first, used)) => match product_rest(k, tokens, pos + used, first) {
            Some((value, more)) => Some((value, used + more)),
            None => None,
        },
        None => None,
    }
}

/// The value of a product whose factors up to `pos` have the value `left`.
pub open spec fn product_rest(k: Arithmetic, tokens: Seq<TokenView>, pos: int, left: u64) -> Option<
    (u64, nat),
>
    decreases remaining(tokens, pos), 1nat,
{
    match product_operator(tokens, pos) {
        None => Some((left, 0)),
        Some(op) => match factor(k, tokens, pos + 1) {
            Some((right, used)) => match product_rest(
                k,
                tokens,
                pos + 1 + used,
                k(op, left, right),
            ) {
                Some((value, more)) => Some((value, 1 + used + more)),
                None => None,
            },
            None => None,
        },
    }
}

/// The value of the sum at `pos`: its products, added and subtracted from
/// the left.
pub open spec fn sum(k: Arithmetic, tokens: Seq<TokenView>, pos: int) -> Option<(u64, nat)>
    decreases remaining(tokens, pos), 4nat,
{
    match product(k, tokens, pos) {
        Some((first, used)) => match sum_rest(k, tokens, pos + used, first) {
            Some((value, more)) => Some((value, used + more)),
            None => None,
        },
        None => None,
    }
}

/// The value of a sum whose products up to `pos` have the value `left`.
pub open spec fn sum_rest(k: Arithmetic, tokens: Seq<TokenView>, pos: int, left: u64) -> Option<
    (u64, nat),
>
    decreases remaining(tokens, pos), 3nat,
{
    match sum_operator(tokens, pos) {
        None => Some((left, 0)),
        Some(op) => match product(k, tokens, pos + 1) {
            Some((right, used)) => match sum_rest(k, tokens, pos + 1 + used, k(op, left, right)) {
                Some((value, more)) => Some((value, 1 + used + more)),
                None => None,
            },
            None => None,
        },
    }
}

/// Whether the expression ends before the token at `pos`: whether that
/// token is no comparison, no `==` or `!=`, and no `=`.
pub open spec fn ends_expression(tokens: Seq<TokenView>, pos: int) -> bool {
    &&& operator_at(2, tokens, pos) is None
    &&& operator_at(3, tokens, pos) is None
    &&& !check(tokens, pos, TokenType::Equal)
}

/// Whether the rule has parsed `used` tokens to a tree whose value is the
/// number `value`, in any scopes, with no effect on them.
pub open spec fn yields(
    k: Arithmetic,
    parsed: Parsed<ExprView>,
    value: u64,
    used: nat,
    scopes: Scopes,
) -> bool {
    &&& parsed.used == used
    &&& parsed.result matches Ok(expr)
    &&& evaluate(k, expr, scopes) == (Evaluated { result: Ok(Value::Number(value)), scopes })
}

proof fn lemma_factor(k: Arithmetic, tokens: Seq<TokenView>, pos: int, scopes: Scopes)
    requires
        factor(k, tokens, pos) is Some,
    ensures
        yields(
            k,
            unary(tokens, pos),
            factor(k, tokens, pos)->Some_0.0,
            factor(k, tokens, pos)->Some_0.1,
            scopes,
        ),
    decreases remaining(tokens, pos), 0nat,
{
    if check(tokens, pos, TokenType::Minus) {
        lemma_factor(k, tokens, pos + 1, scopes);
    } else if check(tokens, pos, TokenType::Number) {
        assert(unary(tokens, pos) == primary(tokens, pos));
    } else {
        // the rule for primaries and the rule for expressions call each other
        reveal(expression);
        lemma_sum(k, tokens, pos + 1, scopes);
        let (value, used) = sum(k, tokens, pos + 1)->Some_0;
        lemma_ends(k, tokens, pos + 1, value, used, scopes);
        assert(unary(tokens, pos) == primary(tokens, pos));
    }
}

proof fn lemma_product(k: Arithmetic, tokens: Seq<TokenView>, pos: int, scopes: Scopes)
    requires
        product(k, tokens, pos) is Some,
    ensures
        yields(
            k,
            binary(0, tokens, pos),
            product(k, tokens, pos)->Some_0.0,
            product(k, tokens, pos)->Some_0.1,
            scopes,
        ),
    decreases remaining(tokens, pos), 2nat,
{
    lemma_factor(k, tokens, pos, scopes);
    let (first, used) = factor(k, tokens, pos)->Some_0;
    let left = unary(tokens, pos).result->Ok_0;
    assert(operand(0, tokens, pos) == unary(tokens, pos));
    lemma_product_rest(k, tokens, pos + used, first, left, scopes);
}

proof fn lemma_product_rest(
    k: Arithmetic,
    tokens: Seq<TokenView>,
    pos: int,
    left: u64,
    left_expr: ExprView,
    scopes: Scopes,
)
    requires
        product_rest(k, tokens, pos, left) is Some,
        evaluate(k, left_expr, scopes) == (Evaluated { result: Ok(Value::Number(left)), scopes }),
    ensures
        yields(
            k,
            binary_rest(0, tokens, pos, left_expr),
            product_rest(k, tokens, pos, left)->Some_0.0,
            product_rest(k, tokens, pos, left)->Some_0.1,
            scopes,
        ),
    decreases remaining(tokens, pos), 1nat,
{
    if let Some(op) = product_operator(tokens, pos) {
        assert(operator_at(0, tokens, pos) == Some(op));
        lemma_factor(k, tokens, pos + 1, scopes);
        let (right, used) = factor(k, tokens, pos + 1)->Some_0;
        let right_expr = unary(tokens, pos + 1).result->Ok_0;
        assert(operand(0, tokens, pos + 1) == unary(tokens, pos + 1));
        let both = ExprView::Binary(
            Box::new(left_expr),
            op,
            tokens[pos].line,
            Box::new(right_expr),
        );
        assert(evaluate(k, both, scopes) == (Evaluated {
            result: Ok(Value::Number(k(op, left, right))),
            scopes,
        }));
        lemma_product_rest(k, tokens, pos + 1 + used, k(op, left, right), both, scopes);
    } else {
        assert(operator_at(0, tokens, pos) is None);
    }
}

proof fn lemma_sum(k: Arithmetic, tokens: Seq<TokenView>, pos: int, scopes: Scopes)
    requires
        sum(k, tokens, pos) is Some,
    ensures
        yields(
            k,
            binary(1, tokens, pos),
            sum(k, tokens, pos)->Some_0.0,
            sum(k, tokens, pos)->Some_0.1,
            scopes,
        ),
    decreases remaining(tokens, pos), 4nat,
{
    lemma_product(k, tokens, pos, scopes);
    let (first, used) = product(k, tokens, pos)->Some_0;
    let left = binary(0, tokens, pos).result->Ok_0;
    assert(operand(1, tokens, pos) == binary(0, tokens, pos));
    lemma_sum_rest(k, tokens, pos + used, first, left, scopes);
}

proof fn lemma_sum_rest(
    k: Arithmetic,
    tokens: Seq<TokenView>,
    pos: int,
    left: u64,
    left_expr: ExprView,
    scopes: Scopes,
)
    requires
        sum_rest(k, tokens, pos, left) is Some,
        evaluate(k, left_expr, scopes) == (Evaluated { result: Ok(Value::Number(left)), scopes }),
    ensures
        yields(
            k,
            binary_rest(1, tokens, pos, left_expr),
            sum_rest(k, tokens, pos, left)->Some_0.0,
            sum_rest(k, tokens, pos, left)->Some_0.1,
            scopes,
        ),
    decreases remaining(tokens, pos), 3nat,
{
    if let Some(op) = sum_operator(tokens, pos) {
        assert(operator_at(1, tokens, pos) == Some(op));
        lemma_product(k, tokens, pos + 1, scopes);
        let (right, used) = product(k, tokens, pos + 1)->Some_0;
        let right_expr = binary(0, tokens, pos + 1).result->Ok_0;
        assert(operand(1, tokens, pos + 1) == binary(0, tokens, pos + 1));
        let both = ExprView::Binary(
            Box::new(left_expr),
            op,
            tokens[pos].line,
            Box::new(right_expr),
        );
        assert(evaluate(k, both, scopes) == (Evaluated {
            result: Ok(Value::Number(k(op, left, right))),
            scopes,
        }));
        lemma_sum_rest(k, tokens, pos + 1 + used, k(op, left, right), both, scopes);
    } else {
        assert(operator_at(1, tokens, pos) is None);
    }
}

/// A sum that the expression ends behind is the whole expression.
proof fn lemma_ends(
    k: Arithmetic,
    tokens: Seq<TokenView>,
    pos: int,
    value: u64,
    used: nat,
    scopes: Scopes,
)
    requires
        yields(k, binary(1, tokens, pos), value, used, scopes),
        ends_expression(tokens, pos + used),
    ensures
        yields(k, expression(tokens, pos), value, used, scopes),
{
    reveal(expression);
    assert(operand(2, tokens, pos) == binary(1, tokens, pos));
    assert(binary(2, tokens, pos) == binary(1, tokens, pos));
    assert(operand(3, tokens, pos) == binary(2, tokens, pos));
    assert(binary(3, tokens, pos) == binary(1, tokens, pos));
    assert(assignment(tokens, pos) == binary(1, tokens, pos));
}

/// Parsing an arithmetic expression and evaluating the tree gives the
/// value that precedence asks for. Where the tokens from `pos` on are a
/// sum, and the token behind it does not go on with the expression, the
/// parser takes just these tokens, and the tree that it yields has the
/// value of the sum, in any scopes and with no effect on them.
pub proof fn lemma_parsed_arithmetic_has_its_value(
    k: Arithmetic,
    tokens: Seq<TokenView>,
    pos: int,
    scopes: Scopes,
)
    requires
        sum(k, tokens, pos) is Some,
        ends_expression(tokens, pos + sum(k, tokens, pos)->Some_0.1),
    ensures
        yields(
            k,
            expression(tokens, pos),
            sum(k, tokens, pos)->Some_0.0,
            sum(k, tokens, pos)->Some_0.1,
            scopes,
        ),
{
    lemma_sum(k, tokens, pos, scopes);
    let (value, used) = sum(k, tokens, pos)->Some_0;
    lemma_ends(k, tokens, pos, value, used, scopes);
}

} // verus!
