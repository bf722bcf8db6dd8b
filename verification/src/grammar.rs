//! The grammar, as mathematical functions from a token sequence and a
//! position to what is parsed there.
//!
//! ```text
//! primary    := NUMBER | STRING | "true" | "false" | "nil" | IDENTIFIER
//!             | "(" expression ")"
//! unary      := ("-" | "!") unary | primary
//! factor     := unary ( ("*" | "/") unary )*
//! term       := factor ( ("+" | "-") factor )*
//! comparison := term ( ("<" | "<=" | ">" | ">=") term )*
//! equality   := comparison ( ("==" | "!=") comparison )*
//! assignment := IDENTIFIER "=" assignment | equality
//! expression := assignment
//! printStmt  := "print" expression ";"
//! exprStmt   := expression ";"
//! varDecl    := "var" IDENTIFIER ("=" expression)? ";"
//! block      := "{" declaration* "}"
//! declaration:= varDecl | statement
//! statement  := printStmt | block | exprStmt
//! program    := declaration* EOF
//! ```
//!
//! Each rule says what it yields at a position and how many tokens it
//! takes, on success and on failure alike: after a failure the parser goes
//! on from where the rule stopped.

use crate::error::{ErrorKind, LoxErrorView};
use crate::expr::{BinaryOp, ExprView, UnaryOp, Value};
use crate::stmt::StmtView;
use crate::tokens::{LiteralView, TokenType, TokenView};
use vstd::prelude::*;

verus! {

/// What a rule yields at a position: the tree or the error, and the number
/// of tokens taken.
pub struct Parsed<T> {
    pub result: Result<T, LoxErrorView>,
    pub used: nat,
}

/// Whether a number or string token carries a number or a string.
pub open spec fn has_value(token: TokenView) -> bool {
    token.literal matches Some(literal) && !(literal is Identifier)
}

/// Whether the tokens are a stream that the parser can read: the last
/// token is the end marker, every number and string token carries its
/// value, and a position fits in 32 bits.
pub open spec fn well_formed(tokens: Seq<TokenView>) -> bool {
    &&& 0 < tokens.len() <= u32::MAX
    &&& tokens.last().token_type == TokenType::Eof
    &&& forall|i: int|
        0 <= i < tokens.len() && (#[trigger] tokens[i].token_type == TokenType::Number
            || tokens[i].token_type == TokenType::String) ==> has_value(tokens[i])
}

/// Whether the input ends at `pos`: at the end marker, or past the tokens.
pub open spec fn at_end(tokens: Seq<TokenView>, pos: int) -> bool {
    !(0 <= pos < tokens.len()) || tokens[pos].token_type == TokenType::Eof
}

/// Whether the token at `pos` is of type `wanted` and not the end.
pub open spec fn check(tokens: Seq<TokenView>, pos: int, wanted: TokenType) -> bool {
    !at_end(tokens, pos) && tokens[pos].token_type == wanted
}

/// The number of tokens from `pos` to the end of the sequence.
pub open spec fn remaining(tokens: Seq<TokenView>, pos: int) -> nat {
    if pos <= tokens.len() {
        (tokens.len() - pos) as nat
    } else {
        0
    }
}

/// An error at the token at `pos`, with that token's line and text.
pub open spec fn error_at(tokens: Seq<TokenView>, pos: int, kind: ErrorKind, message: Seq<char>) -> LoxErrorView {
    LoxErrorView {
        kind,
        line: tokens[pos].line,
        loc_in_line: 0,
        chars_in_line: tokens[pos].lexeme,
        message,
    }
}

/// The error for a token of type `wanted` that is missing at `pos`.
pub open spec fn missing(tokens: Seq<TokenView>, pos: int, wanted: TokenType, message: Seq<char>) -> LoxErrorView {
    error_at(tokens, pos, ErrorKind::ExpectedToken(wanted), message)
}

/// The value that a number or string token stands for.
pub open spec fn token_value(token: TokenView) -> Value {
    match token.literal {
        Some(LiteralView::Number(n)) => Value::Number(n),
        Some(LiteralView::String(s)) => Value::Text(s),
        _ => Value::Absence,
    }
}

/// The unary operator that a token of this type is, if any.
pub open spec fn unary_operator(token_type: TokenType) -> Option<UnaryOp> {
    match token_type {
        TokenType::Minus => Some(UnaryOp::Minus),
        TokenType::Bang => Some(UnaryOp::Bang),
        _ => None,
    }
}

/// The binary operator of the given precedence level that a token of this
/// type is, if any. Level 0 binds tightest: `*` and `/`; then `+` and `-`;
/// then the four comparisons; level 3 is `==` and `!=`.
pub open spec fn binary_operator(level: nat, token_type: TokenType) -> Option<BinaryOp> {
    if level == 0 {
        match token_type {
            TokenType::Slash => Some(BinaryOp::Slash),
            TokenType::Star => Some(BinaryOp::Star),
            _ => None,
        }
    } else if level == 1 {
        match token_type {
            TokenType::Minus => Some(BinaryOp::Minus),
            TokenType::Plus => Some(BinaryOp::Plus),
            _ => None,
        }
    } else if level == 2 {
        match token_type {
            TokenType::Less => Some(BinaryOp::Less),
            TokenType::LessEqual => Some(BinaryOp::LessEqual),
            TokenType::Greater => Some(BinaryOp::Greater),
            TokenType::GreaterEqual => Some(BinaryOp::GreaterEqual),
            _ => None,
        }
    } else if level == 3 {
        match token_type {
            TokenType::BangEqual => Some(BinaryOp::BangEqual),
            TokenType::EqualEqual => Some(BinaryOp::EqualEqual),
            _ => None,
        }
    } else {
        None
    }
}

/// The binary operator of the given level at `pos`, if one stands there.
pub open spec fn operator_at(level: nat, tokens: Seq<TokenView>, pos: int) -> Option<BinaryOp> {
    if at_end(tokens, pos) {
        None
    } else {
        binary_operator(level, tokens[pos].token_type)
    }
}

/// `expression := assignment`
#[verifier::opaque]
pub open spec fn expression(tokens: Seq<TokenView>, pos: int) -> Parsed<ExprView>
    decreases remaining(tokens, pos), 11nat,
{
    assignment(tokens, pos)
}

/// `assignment := IDENTIFIER "=" assignment | equality`
///
/// The left side is read as an equality. Where `=` follows it, the right
/// side is read, and then the left side must be a variable: else the `=`
/// is reported, with its line and its text.
pub open spec fn assignment(tokens: Seq<TokenView>, pos: int) -> Parsed<ExprView>
    decreases remaining(tokens, pos), 10nat,
{
    let left = binary(3, tokens, pos);
    match left.result {
        Err(_) => left,
        Ok(target) => if check(tokens, pos + left.used, TokenType::Equal) {
            let right = assignment(tokens, pos + left.used + 1);
            let used = left.used + 1 + right.used;
            match right.result {
                Err(error) => Parsed { result: Err(error), used },
                Ok(value) => match target {
                    ExprView::Variable(name) => Parsed {
                        result: Ok(ExprView::Assign(name, Box::new(value))),
                        used,
                    },
                    _ => Parsed {
                        result: Err(
                            error_at(
                                tokens,
                                pos + left.used,
                                ErrorKind::InvalidAssignmentTarget,
                                "Invalid assignment target"@,
                            ),
                        ),
                        used,
                    },
                },
            }
        } else {
            left
        },
    }
}

/// A chain of binary operators of one precedence level: an operand of the
/// next tighter level, then operators of this level with further operands,
/// folded to the left.
pub open spec fn binary(level: nat, tokens: Seq<TokenView>, pos: int) -> Parsed<ExprView>
    decreases remaining(tokens, pos), 2 * level + 3,
{
    let first = operand(level, tokens, pos);
    match first.result {
        Err(_) => first,
        Ok(left) => {
            let rest = binary_rest(level, tokens, pos + first.used, left);
            Parsed { result: rest.result, used: first.used + rest.used }
        },
    }
}

/// An operand of a binary operator of the given level.
pub open spec fn operand(level: nat, tokens: Seq<TokenView>, pos: int) -> Parsed<ExprView>
    decreases remaining(tokens, pos), 2 * level + 2,
{
    if level == 0 {
        unary(tokens, pos)
    } else {
        binary((level - 1) as nat, tokens, pos)
    }
}

/// The rest of a chain of binary operators, with `left` read so far.
pub open spec fn binary_rest(level: nat, tokens: Seq<TokenView>, pos: int, left: ExprView) -> Parsed<ExprView>
    decreases remaining(tokens, pos), 2 * level + 2,
{
    match operator_at(level, tokens, pos) {
        None => Parsed { result: Ok(left), used: 0 },
        Some(op) => {
            let right = operand(level, tokens, pos + 1);
            match right.result {
                Err(error) => Parsed { result: Err(error), used: 1 + right.used },
                Ok(right_expr) => {
                    let rest = binary_rest(
                        level,
                        tokens,
                        pos + 1 + right.used,
                        ExprView::Binary(
                            Box::new(left),
                            op,
                            tokens[pos].line,
                            Box::new(right_expr),
                        ),
                    );
                    Parsed { result: rest.result, used: 1 + right.used + rest.used }
                },
            }
        },
    }
}

/// `unary := ("-" | "!") unary | primary`
pub open spec fn unary(tokens: Seq<TokenView>, pos: int) -> Parsed<ExprView>
    decreases remaining(tokens, pos), 1nat,
{
    if at_end(tokens, pos) {
        primary(tokens, pos)
    } else {
        match unary_operator(tokens[pos].token_type) {
            Some(op) => {
                let inner = unary(tokens, pos + 1);
                Parsed {
                    result: match inner.result {
                        Ok(expr) => Ok(ExprView::Unary(op, tokens[pos].line, Box::new(expr))),
                        Err(error) => Err(error),
                    },
                    used: 1 + inner.used,
                }
            },
            None => primary(tokens, pos),
        }
    }
}

/// `primary := NUMBER | STRING | "true" | "false" | "nil" | IDENTIFIER | "(" expression ")"`
pub open spec fn primary(tokens: Seq<TokenView>, pos: int) -> Parsed<ExprView>
    decreases remaining(tokens, pos), 0nat,
{
    if check(tokens, pos, TokenType::False) {
        Parsed { result: Ok(ExprView::Literal(Value::Boolean(false))), used: 1 }
    } else if check(tokens, pos, TokenType::True) {
        Parsed { result: Ok(ExprView::Literal(Value::Boolean(true))), used: 1 }
    } else if check(tokens, pos, TokenType::Nil) {
        Parsed { result: Ok(ExprView::Literal(Value::Absence)), used: 1 }
    } else if check(tokens, pos, TokenType::Number) || check(tokens, pos, TokenType::String) {
        Parsed { result: Ok(ExprView::Literal(token_value(tokens[pos]))), used: 1 }
    } else if check(tokens, pos, TokenType::LeftParen) {
        let inner = expression(tokens, pos + 1);
        match inner.result {
            Err(error) => Parsed { result: Err(error), used: 1 + inner.used },
            Ok(expr) => if check(tokens, pos + 1 + inner.used, TokenType::RightParen) {
                Parsed { result: Ok(ExprView::Grouping(Box::new(expr))), used: 1 + inner.used + 1 }
            } else {
                Parsed {
                    result: Err(
                        missing(
                            tokens,
                            pos + 1 + inner.used,
                            TokenType::RightParen,
                            "')' Expected after expression"@,
                        ),
                    ),
                    used: 1 + inner.used,
                }
            },
        }
    } else if check(tokens, pos, TokenType::Identifier) {
        Parsed { result: Ok(ExprView::Variable(tokens[pos])), used: 1 }
    } else {
        Parsed {
            result: Err(
                error_at(tokens, pos, ErrorKind::UnexpectedToken, "Unexpected character encountered"@),
            ),
            used: 0,
        }
    }
}

/// The precedence level of a binary operator. Level 0 binds tightest.
pub open spec fn level_of(op: BinaryOp) -> int {
    match op {
        BinaryOp::Slash | BinaryOp::Star => 0,
        BinaryOp::Minus | BinaryOp::Plus => 1,
        BinaryOp::Less | BinaryOp::LessEqual | BinaryOp::Greater | BinaryOp::GreaterEqual => 2,
        BinaryOp::BangEqual | BinaryOp::EqualEqual => 3,
    }
}

/// The level of the operator at the top of a tree: that of a binary
/// operator, 4 for an assignment, and -1 for a tree whose top is a
/// literal, a variable, a grouping or a unary operator.
pub open spec fn top_level(expr: ExprView) -> int {
    match expr {
        ExprView::Binary(_, op, _, _) => level_of(op),
        ExprView::Assign(_, _) => 4,
        _ => -1,
    }
}

/// Whether a tree is built as precedence and associativity ask. The left
/// operand of a binary operator has no looser operator at its top, the
/// right operand only tighter ones, and the operand of a unary operator
/// none: a looser operator is found below a tighter one only inside a
/// grouping. So operators of one level fold to the left, and
/// `1 + 2 * 3` can only be the sum of `1` and `2 * 3`.
pub open spec fn precedence_ordered(expr: ExprView) -> bool
    decreases expr,
{
    match expr {
        ExprView::Literal(_) => true,
        ExprView::Variable(_) => true,
        ExprView::Grouping(inner) => precedence_ordered(*inner),
        ExprView::Unary(_, _, operand) => precedence_ordered(*operand) && top_level(*operand) < 0,
        ExprView::Binary(left, op, _, right) => {
            &&& precedence_ordered(*left)
            &&& precedence_ordered(*right)
            &&& top_level(*left) <= level_of(op)
            &&& top_level(*right) < level_of(op)
        },
        ExprView::Assign(_, value) => precedence_ordered(*value),
    }
}

/// Every expression that the parser yields is built as precedence and
/// associativity ask.
pub proof fn lemma_parse_respects_precedence(tokens: Seq<TokenView>, pos: int)
    ensures
        expression(tokens, pos).result matches Ok(expr) ==> precedence_ordered(expr),
{
    lemma_ordered_expression(tokens, pos);
}

proof fn lemma_ordered_expression(tokens: Seq<TokenView>, pos: int)
    ensures
        expression(tokens, pos).result matches Ok(expr) ==> precedence_ordered(expr),
        assignment(tokens, pos).result matches Ok(expr) ==> precedence_ordered(expr),
    decreases remaining(tokens, pos), 10nat,
{
    reveal(expression);
    lemma_ordered_binary(3, tokens, pos);
    let left = binary(3, tokens, pos);
    if left.result is Ok && check(tokens, pos + left.used, TokenType::Equal) {
        lemma_ordered_expression(tokens, pos + left.used + 1);
    }
}

proof fn lemma_ordered_binary(level: nat, tokens: Seq<TokenView>, pos: int)
    requires
        level <= 3,
    ensures
        binary(level, tokens, pos).result matches Ok(expr) ==> precedence_ordered(expr)
            && top_level(expr) <= level,
    decreases remaining(tokens, pos), 2 * level + 3,
{
    lemma_ordered_operand(level, tokens, pos);
    let first = operand(level, tokens, pos);
    if let Ok(left) = first.result {
        lemma_ordered_rest(level, tokens, pos + first.used, left);
    }
}

proof fn lemma_ordered_operand(level: nat, tokens: Seq<TokenView>, pos: int)
    requires
        level <= 3,
    ensures
        operand(level, tokens, pos).result matches Ok(expr) ==> precedence_ordered(expr)
            && top_level(expr) < level,
    decreases remaining(tokens, pos), 2 * level + 2,
{
    if level == 0 {
        lemma_ordered_unary(tokens, pos);
    } else {
        lemma_ordered_binary((level - 1) as nat, tokens, pos);
    }
}

proof fn lemma_ordered_rest(level: nat, tokens: Seq<TokenView>, pos: int, left: ExprView)
    requires
        level <= 3,
        precedence_ordered(left),
        top_level(left) <= level,
    ensures
        binary_rest(level, tokens, pos, left).result matches Ok(expr) ==> precedence_ordered(expr)
            && top_level(expr) <= level,
    decreases remaining(tokens, pos), 2 * level + 2,
{
    if let Some(op) = operator_at(level, tokens, pos) {
        assert(level_of(op) == level);
        lemma_ordered_operand(level, tokens, pos + 1);
        let right = operand(level, tokens, pos + 1);
        if let Ok(right_expr) = right.result {
            lemma_ordered_rest(
                level,
                tokens,
                pos + 1 + right.used,
                ExprView::Binary(Box::new(left), op, tokens[pos].line, Box::new(right_expr)),
            );
        }
    }
}

proof fn lemma_ordered_unary(tokens: Seq<TokenView>, pos: int)
    ensures
        unary(tokens, pos).result matches Ok(expr) ==> precedence_ordered(expr) && top_level(expr)
            < 0,
        primary(tokens, pos).result matches Ok(expr) ==> precedence_ordered(expr) && top_level(expr)
            < 0,
    decreases remaining(tokens, pos), 1nat,
{
    reveal(expression);
    if !at_end(tokens, pos) && unary_operator(tokens[pos].token_type) is Some {
        lemma_ordered_unary(tokens, pos + 1);
    }
    if check(tokens, pos, TokenType::LeftParen) {
        lemma_ordered_expression(tokens, pos + 1);
    }
}

/// A unary expression that is parsed takes at least one token.
pub proof fn lemma_unary_advances(tokens: Seq<TokenView>, pos: int)
    ensures
        primary(tokens, pos).result is Ok ==> primary(tokens, pos).used >= 1,
        unary(tokens, pos).result is Ok ==> unary(tokens, pos).used >= 1,
{
}

/// An operand that is parsed takes at least one token.
pub proof fn lemma_operand_advances(level: nat, tokens: Seq<TokenView>, pos: int)
    ensures
        operand(level, tokens, pos).result is Ok ==> operand(level, tokens, pos).used >= 1,
        binary(level, tokens, pos).result is Ok ==> binary(level, tokens, pos).used >= 1,
    decreases level,
{
    if level > 0 {
        lemma_operand_advances((level - 1) as nat, tokens, pos);
    } else {
        lemma_unary_advances(tokens, pos);
    }
}

/// An expression that is parsed takes at least one token.
pub proof fn lemma_expression_advances(tokens: Seq<TokenView>, pos: int)
    ensures
        expression(tokens, pos).result is Ok ==> expression(tokens, pos).used >= 1,
{
    reveal(expression);
    lemma_operand_advances(3, tokens, pos);
}

/// Where `=` follows something that is not a variable, and the right side
/// can be parsed, the assignment is refused as having an invalid target,
/// and the error names the `=`: its line and its text.
pub proof fn lemma_invalid_assignment_target(tokens: Seq<TokenView>, pos: int)
    ensures
        ({
            let left = binary(3, tokens, pos);
            let right = assignment(tokens, pos + left.used + 1);
            (left.result matches Ok(target) && !(target is Variable) && check(
                tokens,
                pos + left.used,
                TokenType::Equal,
            ) && right.result is Ok) ==> (assignment(tokens, pos).result matches Err(error)
                && error.kind == ErrorKind::InvalidAssignmentTarget && error.line == tokens[pos
                + left.used].line && error.chars_in_line == tokens[pos + left.used].lexeme)
        }),
{
}

/// The same result, with `before` more tokens taken in front of it.
pub open spec fn after<T>(before: nat, parsed: Parsed<T>) -> Parsed<T> {
    Parsed { result: parsed.result, used: before + parsed.used }
}

/// `varDecl := "var" IDENTIFIER ("=" expression)? ";"`, from the token
/// after `var`.
///
/// Where the initializer fails, its error is the result and the `;` is
/// not looked for: it is left for the parser to take up its work behind.
#[verifier::opaque]
pub open spec fn var_declaration(tokens: Seq<TokenView>, pos: int) -> Parsed<StmtView> {
    if !check(tokens, pos, TokenType::Identifier) {
        Parsed {
            result: Err(missing(tokens, pos, TokenType::Identifier, "Expect variable name"@)),
            used: 0,
        }
    } else if check(tokens, pos + 1, TokenType::Equal) {
        let initializer = expression(tokens, pos + 2);
        match initializer.result {
            Err(error) => Parsed { result: Err(error), used: 2 + initializer.used },
            Ok(expr) => declared(
                tokens,
                pos,
                2 + initializer.used,
                StmtView::Var(tokens[pos], Some(expr)),
            ),
        }
    } else {
        declared(tokens, pos, 1, StmtView::Var(tokens[pos], None))
    }
}

/// The end of a variable declaration that has taken `used` tokens from
/// `pos`: the `;`, or the error that it is missing.
pub open spec fn declared(tokens: Seq<TokenView>, pos: int, used: nat, stmt: StmtView) -> Parsed<
    StmtView,
> {
    if check(tokens, pos + used, TokenType::Semicolon) {
        Parsed { result: Ok(stmt), used: used + 1 }
    } else {
        Parsed {
            result: Err(
                missing(
                    tokens,
                    pos + used,
                    TokenType::Semicolon,
                    "Expect ';' after variable declaration"@,
                ),
            ),
            used,
        }
    }
}

/// An expression and the `;` that ends its statement.
#[verifier::opaque]
pub open spec fn terminated_expression(tokens: Seq<TokenView>, pos: int) -> Parsed<ExprView> {
    let parsed = expression(tokens, pos);
    match parsed.result {
        Err(_) => parsed,
        Ok(_) => if check(tokens, pos + parsed.used, TokenType::Semicolon) {
            after(1, parsed)
        } else {
            Parsed {
                result: Err(
                    missing(
                        tokens,
                        pos + parsed.used,
                        TokenType::Semicolon,
                        "Expected semicolon after expression"@,
                    ),
                ),
                used: parsed.used,
            }
        },
    }
}

/// `printStmt := "print" expression ";"`, from the token after `print`.
#[verifier::opaque]
pub open spec fn print_statement(tokens: Seq<TokenView>, pos: int) -> Parsed<StmtView> {
    let parsed = terminated_expression(tokens, pos);
    Parsed {
        result: match parsed.result {
            Ok(expr) => Ok(StmtView::Print(expr)),
            Err(error) => Err(error),
        },
        used: parsed.used,
    }
}

/// `exprStmt := expression ";"`
#[verifier::opaque]
pub open spec fn expr_statement(tokens: Seq<TokenView>, pos: int) -> Parsed<StmtView> {
    let parsed = terminated_expression(tokens, pos);
    Parsed {
        result: match parsed.result {
            Ok(expr) => Ok(StmtView::Expr(expr)),
            Err(error) => Err(error),
        },
        used: parsed.used,
    }
}

/// `declaration := varDecl | statement`
#[verifier::opaque]
pub open spec fn declaration(tokens: Seq<TokenView>, pos: int) -> Parsed<StmtView>
    decreases remaining(tokens, pos), 2nat,
{
    if check(tokens, pos, TokenType::Var) {
        after(1, var_declaration(tokens, pos + 1))
    } else {
        statement(tokens, pos)
    }
}

/// `statement := printStmt | block | exprStmt`
#[verifier::opaque]
pub open spec fn statement(tokens: Seq<TokenView>, pos: int) -> Parsed<StmtView>
    decreases remaining(tokens, pos), 1nat,
{
    if check(tokens, pos, TokenType::Print) {
        after(1, print_statement(tokens, pos + 1))
    } else if check(tokens, pos, TokenType::LeftBrace) {
        let parsed = block(tokens, pos + 1);
        Parsed {
            result: match parsed.result {
                Ok(stmts) => Ok(StmtView::Block(stmts)),
                Err(error) => Err(error),
            },
            used: 1 + parsed.used,
        }
    } else {
        expr_statement(tokens, pos)
    }
}

/// `block := "{" declaration* "}"`, from the token after `{`.
#[verifier::opaque]
pub open spec fn block(tokens: Seq<TokenView>, pos: int) -> Parsed<Seq<StmtView>>
    decreases remaining(tokens, pos), 4nat,
{
    let items = block_items(tokens, pos);
    match items.result {
        Err(_) => items,
        Ok(_) => if check(tokens, pos + items.used, TokenType::RightBrace) {
            after(1, items)
        } else {
            Parsed {
                result: Err(
                    missing(
                        tokens,
                        pos + items.used,
                        TokenType::RightBrace,
                        "Expected '}' after block"@,
                    ),
                ),
                used: items.used,
            }
        },
    }
}

/// The declarations of a block, up to its `}` or the end of the input. The
/// first that fails ends the block with its error.
///
/// A declaration that succeeds takes at least one token
/// ([`lemma_declaration_advances`]), so the test on `used` never ends a
/// block: it is there for the recursion to be well founded.
#[verifier::opaque]
pub open spec fn block_items(tokens: Seq<TokenView>, pos: int) -> Parsed<Seq<StmtView>>
    decreases remaining(tokens, pos), 3nat,
{
    if check(tokens, pos, TokenType::RightBrace) || at_end(tokens, pos) {
        Parsed { result: Ok(Seq::empty()), used: 0 }
    } else {
        let first = declaration(tokens, pos);
        match first.result {
            Err(error) => Parsed { result: Err(error), used: first.used },
            Ok(stmt) => if first.used == 0 {
                Parsed { result: Ok(seq![stmt]), used: 0 }
            } else {
                let rest = block_items(tokens, pos + first.used);
                Parsed {
                    result: match rest.result {
                        Ok(stmts) => Ok(seq![stmt] + stmts),
                        Err(error) => Err(error),
                    },
                    used: first.used + rest.used,
                }
            },
        }
    }
}

/// A declaration that is parsed takes at least one token.
pub proof fn lemma_declaration_advances(tokens: Seq<TokenView>, pos: int)
    ensures
        declaration(tokens, pos).result is Ok ==> declaration(tokens, pos).used >= 1,
{
    reveal(declaration);
    reveal(statement);
    reveal(expr_statement);
    reveal(terminated_expression);
    lemma_expression_advances(tokens, pos);
}

/// Whether a statement may start with a token of this type: where the
/// parser takes up its work after an error.
pub open spec fn starts_statement(token_type: TokenType) -> bool {
    match token_type {
        TokenType::Class
        | TokenType::Fun
        | TokenType::For
        | TokenType::If
        | TokenType::Print
        | TokenType::Return
        | TokenType::Var
        | TokenType::While => true,
        _ => false,
    }
}

/// The first position from `pos` on that ends the input, follows a `;`,
/// or holds a token that starts a statement.
pub open spec fn next_boundary(tokens: Seq<TokenView>, pos: int) -> int
    decreases remaining(tokens, pos),
{
    if at_end(tokens, pos) || tokens[pos - 1].token_type == TokenType::Semicolon
        || starts_statement(tokens[pos].token_type) {
        pos
    } else {
        next_boundary(tokens, pos + 1)
    }
}

/// Where the parser goes on after an error at `pos`: it drops the token at
/// `pos` and then all tokens up to the next boundary.
pub open spec fn synchronize(tokens: Seq<TokenView>, pos: int) -> int {
    if at_end(tokens, pos) {
        pos
    } else {
        next_boundary(tokens, pos + 1)
    }
}

/// The boundary is not before the position it is looked for from.
pub proof fn lemma_next_boundary_advances(tokens: Seq<TokenView>, pos: int)
    ensures
        next_boundary(tokens, pos) >= pos,
    decreases remaining(tokens, pos),
{
    if at_end(tokens, pos) || tokens[pos - 1].token_type == TokenType::Semicolon
        || starts_statement(tokens[pos].token_type) {
    } else {
        lemma_next_boundary_advances(tokens, pos + 1);
    }
}

/// `program := declaration* EOF`: what each declaration yields, in order.
/// After a declaration that fails the parser synchronizes and goes on.
///
/// As in [`block_items`], the test on `used` is there for the recursion
/// to be well founded and never ends a program.
#[verifier::opaque]
pub open spec fn program(tokens: Seq<TokenView>, pos: int) -> Seq<Result<StmtView, LoxErrorView>>
    decreases remaining(tokens, pos),
{
    if at_end(tokens, pos) {
        Seq::empty()
    } else {
        let first = declaration(tokens, pos);
        match first.result {
            Ok(stmt) => if first.used == 0 {
                seq![Ok(stmt)]
            } else {
                seq![Ok(stmt)] + program(tokens, pos + first.used)
            },
            Err(error) => {
                proof {
                    lemma_next_boundary_advances(tokens, pos + first.used + 1);
                }
                seq![Err(error)] + program(tokens, synchronize(tokens, pos + first.used))
            },
        }
    }
}

/// Whether every expression of the statement is built as precedence and
/// associativity ask.
pub open spec fn stmt_ordered(stmt: StmtView) -> bool
    decreases stmt,
{
    match stmt {
        StmtView::Expr(expr) => precedence_ordered(expr),
        StmtView::Print(expr) => precedence_ordered(expr),
        StmtView::Block(stmts) => forall|i: int|
            0 <= i < stmts.len() ==> stmt_ordered(#[trigger] stmts[i]),
        StmtView::Var(_, None) => true,
        StmtView::Var(_, Some(initializer)) => precedence_ordered(initializer),
    }
}

proof fn lemma_ordered_declaration(tokens: Seq<TokenView>, pos: int)
    ensures
        declaration(tokens, pos).result matches Ok(stmt) ==> stmt_ordered(stmt),
    decreases remaining(tokens, pos), 2nat,
{
    reveal(declaration);
    reveal(statement);
    if check(tokens, pos, TokenType::Var) {
        reveal(var_declaration);
        lemma_parse_respects_precedence(tokens, pos + 3);
    } else {
        lemma_ordered_statement(tokens, pos);
    }
}

proof fn lemma_ordered_statement(tokens: Seq<TokenView>, pos: int)
    ensures
        statement(tokens, pos).result matches Ok(stmt) ==> stmt_ordered(stmt),
    decreases remaining(tokens, pos), 1nat,
{
    reveal(statement);
    reveal(block);
    reveal(print_statement);
    reveal(expr_statement);
    reveal(terminated_expression);
    if check(tokens, pos, TokenType::Print) {
        lemma_parse_respects_precedence(tokens, pos + 1);
    } else if check(tokens, pos, TokenType::LeftBrace) {
        lemma_ordered_block_items(tokens, pos + 1);
        reveal(block_items);
    } else {
        lemma_parse_respects_precedence(tokens, pos);
    }
}

proof fn lemma_ordered_block_items(tokens: Seq<TokenView>, pos: int)
    ensures
        block_items(tokens, pos).result matches Ok(stmts) ==> forall|i: int|
            0 <= i < stmts.len() ==> stmt_ordered(#[trigger] stmts[i]),
        block(tokens, pos).result matches Ok(stmts) ==> forall|i: int|
            0 <= i < stmts.len() ==> stmt_ordered(#[trigger] stmts[i]),
    decreases remaining(tokens, pos), 3nat,
{
    reveal(block);
    reveal(block_items);
    reveal(declaration);
    if !(check(tokens, pos, TokenType::RightBrace) || at_end(tokens, pos)) {
        lemma_ordered_declaration(tokens, pos);
        let first = declaration(tokens, pos);
        if first.result is Ok && first.used > 0 {
            lemma_ordered_block_items(tokens, pos + first.used);
        }
    }
}

/// Every statement that the parser yields holds only expressions that are
/// built as precedence and associativity ask.
pub proof fn lemma_program_respects_precedence(tokens: Seq<TokenView>, pos: int)
    ensures
        forall|i: int|
            0 <= i < program(tokens, pos).len() ==> ((#[trigger] program(tokens, pos)[i]) matches Ok(
                stmt,
            ) ==> stmt_ordered(stmt)),
    decreases remaining(tokens, pos),
{
    lemma_program_unfolds(tokens, pos);
    if !at_end(tokens, pos) {
        let first = declaration(tokens, pos);
        lemma_declaration_advances(tokens, pos);
        lemma_ordered_declaration(tokens, pos);
        let next = match first.result {
            Ok(_) => pos + first.used,
            Err(_) => synchronize(tokens, pos + first.used),
        };
        lemma_next_boundary_advances(tokens, pos + first.used + 1);
        lemma_program_respects_precedence(tokens, next);
    }
}

/// The declarations of a block from a position: none at the `}` and at
/// the end of the input; else the first declaration and then, where it was
/// parsed, those from behind it.
pub proof fn lemma_block_items_unfolds(tokens: Seq<TokenView>, pos: int)
    ensures
        check(tokens, pos, TokenType::RightBrace) || at_end(tokens, pos) ==> block_items(tokens, pos)
            == (Parsed { result: Ok::<Seq<StmtView>, LoxErrorView>(Seq::empty()), used: 0 }),
        !(check(tokens, pos, TokenType::RightBrace) || at_end(tokens, pos)) ==> ({
            let first = declaration(tokens, pos);
            let rest = block_items(tokens, pos + first.used);
            match first.result {
                Err(error) => block_items(tokens, pos) == (Parsed {
                    result: Err::<Seq<StmtView>, LoxErrorView>(error),
                    used: first.used,
                }),
                Ok(stmt) => block_items(tokens, pos) == (Parsed {
                    result: match rest.result {
                        Ok(stmts) => Ok(seq![stmt] + stmts),
                        Err(error) => Err(error),
                    },
                    used: first.used + rest.used,
                }),
            }
        }),
{
    reveal(block_items);
    reveal(declaration);
    lemma_declaration_advances(tokens, pos);
}

/// The program from a position: nothing at the end of the input; else what
/// the first declaration yields and then the program from where the
/// parser goes on, which after an error is the next statement boundary.
pub proof fn lemma_program_unfolds(tokens: Seq<TokenView>, pos: int)
    ensures
        at_end(tokens, pos) ==> program(tokens, pos) == Seq::<
            Result<StmtView, LoxErrorView>,
        >::empty(),
        !at_end(tokens, pos) ==> ({
            let first = declaration(tokens, pos);
            match first.result {
                Ok(stmt) => program(tokens, pos) == seq![Ok::<StmtView, LoxErrorView>(stmt)]
                    + program(tokens, pos + first.used),
                Err(error) => program(tokens, pos) == seq![Err::<StmtView, LoxErrorView>(error)]
                    + program(tokens, synchronize(tokens, pos + first.used)),
            }
        }),
{
    reveal(program);
    lemma_declaration_advances(tokens, pos);
}

/// Whether none of the `n` tokens from `from` on is a `;`.
pub open spec fn semicolon_free(tokens: Seq<TokenView>, from: int, n: nat) -> bool {
    forall|j: int| from <= j < from + n ==> (#[trigger] tokens[j]).token_type != TokenType::Semicolon
}

/// Whether the tokens from `from` up to `to` are inside one statement: none
/// is a `;` and none ends the input.
pub open spec fn inside_statement(tokens: Seq<TokenView>, from: int, to: int) -> bool {
    forall|j: int|
        from <= j < to ==> !at_end(tokens, j) && (#[trigger] tokens[j]).token_type
            != TokenType::Semicolon
}

/// Whether none of the tokens from `from` up to `to` starts a statement.
pub open spec fn keyword_free(tokens: Seq<TokenView>, from: int, to: int) -> bool {
    forall|j: int| from <= j < to ==> !starts_statement((#[trigger] tokens[j]).token_type)
}

proof fn lemma_free_expression(tokens: Seq<TokenView>, pos: int)
    ensures
        semicolon_free(tokens, pos, expression(tokens, pos).used),
        semicolon_free(tokens, pos, assignment(tokens, pos).used),
    decreases remaining(tokens, pos), 10nat,
{
    reveal(expression);
    lemma_free_binary(3, tokens, pos);
    let left = binary(3, tokens, pos);
    if left.result is Ok && check(tokens, pos + left.used, TokenType::Equal) {
        lemma_free_expression(tokens, pos + left.used + 1);
    }
}

proof fn lemma_free_binary(level: nat, tokens: Seq<TokenView>, pos: int)
    ensures
        semicolon_free(tokens, pos, binary(level, tokens, pos).used),
    decreases remaining(tokens, pos), 2 * level + 3,
{
    lemma_free_operand(level, tokens, pos);
    let first = operand(level, tokens, pos);
    if let Ok(left) = first.result {
        lemma_free_rest(level, tokens, pos + first.used, left);
    }
}

proof fn lemma_free_operand(level: nat, tokens: Seq<TokenView>, pos: int)
    ensures
        semicolon_free(tokens, pos, operand(level, tokens, pos).used),
    decreases remaining(tokens, pos), 2 * level + 2,
{
    if level == 0 {
        lemma_free_unary(tokens, pos);
    } else {
        lemma_free_binary((level - 1) as nat, tokens, pos);
    }
}

proof fn lemma_free_rest(level: nat, tokens: Seq<TokenView>, pos: int, left: ExprView)
    ensures
        semicolon_free(tokens, pos, binary_rest(level, tokens, pos, left).used),
    decreases remaining(tokens, pos), 2 * level + 2,
{
    if let Some(op) = operator_at(level, tokens, pos) {
        lemma_free_operand(level, tokens, pos + 1);
        let right = operand(level, tokens, pos + 1);
        if let Ok(right_expr) = right.result {
            lemma_free_rest(
                level,
                tokens,
                pos + 1 + right.used,
                ExprView::Binary(Box::new(left), op, tokens[pos].line, Box::new(right_expr)),
            );
        }
    }
}

proof fn lemma_free_unary(tokens: Seq<TokenView>, pos: int)
    ensures
        semicolon_free(tokens, pos, unary(tokens, pos).used),
        semicolon_free(tokens, pos, primary(tokens, pos).used),
    decreases remaining(tokens, pos), 1nat,
{
    reveal(expression);
    if !at_end(tokens, pos) && unary_operator(tokens[pos].token_type) is Some {
        lemma_free_unary(tokens, pos + 1);
    }
    if check(tokens, pos, TokenType::LeftParen) {
        lemma_free_expression(tokens, pos + 1);
    }
}

/// An expression takes no `;`, whether it can be parsed or not.
pub proof fn lemma_expression_takes_no_semicolon(tokens: Seq<TokenView>, pos: int)
    ensures
        semicolon_free(tokens, pos, expression(tokens, pos).used),
{
    lemma_free_expression(tokens, pos);
}

/// A statement that fails has taken no `;`, unless it is a block: the `;`
/// that ends the statement is still ahead.
pub proof fn lemma_fault_takes_no_semicolon(tokens: Seq<TokenView>, pos: int)
    requires
        !check(tokens, pos, TokenType::LeftBrace),
        declaration(tokens, pos).result is Err,
    ensures
        semicolon_free(tokens, pos, declaration(tokens, pos).used),
{
    reveal(declaration);
    reveal(statement);
    reveal(var_declaration);
    reveal(print_statement);
    reveal(expr_statement);
    reveal(terminated_expression);
    if check(tokens, pos, TokenType::Var) {
        lemma_free_expression(tokens, pos + 3);
    } else if check(tokens, pos, TokenType::Print) {
        lemma_free_expression(tokens, pos + 1);
    } else {
        lemma_free_expression(tokens, pos);
    }
}

/// After a fault the parser goes on right behind the next `;`: where a `;`
/// stands at `semicolon`, the tokens from the fault up to it are inside
/// one statement, and none behind the fault starts a statement.
pub proof fn lemma_resumes_behind_semicolon(tokens: Seq<TokenView>, fault: int, semicolon: int)
    requires
        0 <= fault <= semicolon < tokens.len(),
        tokens[semicolon].token_type == TokenType::Semicolon,
        inside_statement(tokens, fault, semicolon),
        keyword_free(tokens, fault + 1, semicolon),
    ensures
        synchronize(tokens, fault) == semicolon + 1,
{
    lemma_boundary_behind_semicolon(tokens, fault + 1, semicolon);
}

proof fn lemma_boundary_behind_semicolon(tokens: Seq<TokenView>, from: int, semicolon: int)
    requires
        0 < from <= semicolon + 1,
        semicolon < tokens.len(),
        tokens[semicolon].token_type == TokenType::Semicolon,
        inside_statement(tokens, from - 1, semicolon),
        keyword_free(tokens, from, semicolon),
    ensures
        next_boundary(tokens, from) == semicolon + 1,
    decreases semicolon + 1 - from,
{
    if from <= semicolon {
        assert(tokens[from - 1].token_type != TokenType::Semicolon);
        if from < semicolon {
            assert(!at_end(tokens, from) && !starts_statement(tokens[from].token_type));
        }
        lemma_boundary_behind_semicolon(tokens, from + 1, semicolon);
    }
}

/// Each fault is reported, and once. Of two malformed statements with a
/// `;` between them the program's results start with the errors of both,
/// in this order. The first statement is not a block, it reaches from
/// `pos` to the first `;`, at `semicolon`, and none of its tokens behind
/// the first starts a statement; the second stands right behind that `;`.
pub proof fn lemma_two_faults_two_errors(tokens: Seq<TokenView>, pos: int, semicolon: int)
    requires
        0 <= pos <= semicolon < tokens.len(),
        tokens[semicolon].token_type == TokenType::Semicolon,
        inside_statement(tokens, pos, semicolon),
        keyword_free(tokens, pos + 1, semicolon),
        !check(tokens, pos, TokenType::LeftBrace),
        declaration(tokens, pos).result is Err,
        !at_end(tokens, semicolon + 1),
        declaration(tokens, semicolon + 1).result is Err,
    ensures
        program(tokens, pos).len() >= 2,
        program(tokens, pos)[0] == Err::<StmtView, LoxErrorView>(
            declaration(tokens, pos).result->Err_0,
        ),
        program(tokens, pos)[1] == Err::<StmtView, LoxErrorView>(
            declaration(tokens, semicolon + 1).result->Err_0,
        ),
{
    let first = declaration(tokens, pos);
    let fault = pos + first.used;
    lemma_fault_takes_no_semicolon(tokens, pos);
    if fault > semicolon {
        assert(tokens[semicolon].token_type != TokenType::Semicolon);
    }
    assert(inside_statement(tokens, fault, semicolon));
    assert(keyword_free(tokens, fault + 1, semicolon));
    lemma_resumes_behind_semicolon(tokens, fault, semicolon);
    lemma_program_unfolds(tokens, pos);
    lemma_program_unfolds(tokens, semicolon + 1);
}

} // verus!
