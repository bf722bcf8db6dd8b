//! Expressions: the tree, its mathematical model, and its evaluation.

use crate::environment::{assign, lookup, Environment, Scopes};
use crate::error::{RuntimeError, RuntimeErrorView, TypeError, TypeErrorView};
use crate::number;
use crate::tokens::{Token, TokenView};
use vstd::prelude::*;
use vstd::string::StringExecFns;

verus! {

/// A runtime value. A number is the bit pattern of an IEEE 754 binary64
/// value.
#[derive(Debug, PartialEq, Eq)]
pub enum Literal {
    Number(u64),
    String(String),
    Boolean(bool),
    Nil,
}

/// Mathematical model of a runtime value.
pub enum Value {
    Number(u64),
    Text(Seq<char>),
    Boolean(bool),
    Absence,
}

impl View for Literal {
    type V = Value;

    open spec fn view(&self) -> Value {
        match self {
            Literal::Number(n) => Value::Number(*n),
            Literal::String(s) => Value::Text(s@),
            Literal::Boolean(b) => Value::Boolean(*b),
            Literal::Nil => Value::Absence,
        }
    }
}

impl Clone for Literal {
    fn clone(&self) -> (copy: Self)
        ensures
            copy == *self,
    {
        match self {
            Literal::Number(n) => Literal::Number(*n),
            Literal::String(s) => Literal::String(s.clone()),
            Literal::Boolean(b) => Literal::Boolean(*b),
            Literal::Nil => Literal::Nil,
        }
    }
}

/// A unary operator: arithmetic negation or logical not.
#[derive(Debug, PartialEq, Eq, Clone, Copy, Structural)]
pub enum UnaryOp {
    Minus,
    Bang,
}

/// A binary operator.
#[derive(Debug, PartialEq, Eq, Clone, Copy, Structural)]
pub enum BinaryOp {
    EqualEqual,
    BangEqual,
    Less,
    LessEqual,
    Greater,
    GreaterEqual,
    Plus,
    Minus,
    Star,
    Slash,
}

/// A unary operation: the operator, its operand, and the line that the
/// operator stands on.
#[derive(Debug, PartialEq, Eq)]
pub struct Unary {
    op: UnaryOp,
    expr: Box<Expr>,
    line: u32,
}

/// A binary operation: the operator between its operands, and the line
/// that the operator stands on.
#[derive(Debug, PartialEq, Eq)]
pub struct Binary {
    l_expr: Box<Expr>,
    op: BinaryOp,
    r_expr: Box<Expr>,
    line: u32,
}

/// An expression in parentheses.
#[derive(Debug, PartialEq, Eq)]
pub struct Grouping {
    expr: Box<Expr>,
}

/// An assignment: the token of the variable's name and the expression
/// whose value it gets.
#[derive(Debug, PartialEq, Eq)]
pub struct Assign {
    name: Token,
    expr: Box<Expr>,
}

/// An expression tree. A node owns its operands; the tree is not changed
/// once it is built. A variable is known by the text of its token.
#[derive(Debug, PartialEq, Eq)]
pub enum Expr {
    Literal(Literal),
    Unary(Unary),
    Binary(Binary),
    Grouping(Grouping),
    Variable(Token),
    Assign(Assign),
}

/// Mathematical model of an expression tree.
pub enum ExprView {
    Literal(Value),
    /// The operator, its line, the operand.
    Unary(UnaryOp, u32, Box<ExprView>),
    /// The left operand, the operator, its line, the right operand.
    Binary(Box<ExprView>, BinaryOp, u32, Box<ExprView>),
    Grouping(Box<ExprView>),
    Variable(TokenView),
    Assign(TokenView, Box<ExprView>),
}

impl Unary {
    pub closed spec fn model(&self) -> ExprView
        decreases self,
    {
        ExprView::Unary(self.op, self.line, Box::new(self.expr.model()))
    }

    /// The operation `op` on `expr`, written on line `line`.
    pub fn new(op: UnaryOp, expr: Box<Expr>, line: u32) -> (unary: Self)
        ensures
            unary.model() == ExprView::Unary(op, line, Box::new(expr@)),
    {
        Self { op, expr, line }
    }
}

impl Binary {
    pub closed spec fn model(&self) -> ExprView
        decreases self,
    {
        ExprView::Binary(
            Box::new(self.l_expr.model()),
            self.op,
            self.line,
            Box::new(self.r_expr.model()),
        )
    }

    /// The operation `op` on `l_expr` and `r_expr`, written on line
    /// `line`.
    pub fn new(l_expr: Box<Expr>, op: BinaryOp, r_expr: Box<Expr>, line: u32) -> (binary: Self)
        ensures
            binary.model() == ExprView::Binary(Box::new(l_expr@), op, line, Box::new(r_expr@)),
    {
        Self { l_expr, op, r_expr, line }
    }
}

impl Grouping {
    pub closed spec fn model(&self) -> ExprView
        decreases self,
    {
        ExprView::Grouping(Box::new(self.expr.model()))
    }

    pub fn new(expr: Box<Expr>) -> (grouping: Self)
        ensures
            grouping.model() == ExprView::Grouping(Box::new(expr@)),
    {
        Self { expr }
    }
}

impl Assign {
    pub closed spec fn model(&self) -> ExprView
        decreases self,
    {
        ExprView::Assign(self.name@, Box::new(self.expr.model()))
    }

    pub fn new(name: Token, expr: Box<Expr>) -> (assign: Self)
        ensures
            assign.model() == ExprView::Assign(name@, Box::new(expr@)),
    {
        Self { name, expr }
    }
}

impl Expr {
    /// The mathematical model of the tree.
    pub open spec fn model(&self) -> ExprView
        decreases self,
    {
        match self {
            Expr::Literal(literal) => ExprView::Literal(literal@),
            Expr::Unary(unary) => unary.model(),
            Expr::Binary(binary) => binary.model(),
            Expr::Grouping(grouping) => grouping.model(),
            Expr::Variable(name) => ExprView::Variable(name@),
            Expr::Assign(assign) => assign.model(),
        }
    }
}

impl Expr {
    /// The model of an expression is of the same kind as the expression.
    pub proof fn lemma_same_kind(&self)
        ensures
            self is Literal <==> self@ is Literal,
            self is Unary <==> self@ is Unary,
            self is Binary <==> self@ is Binary,
            self is Grouping <==> self@ is Grouping,
            self is Variable <==> self@ is Variable,
            self is Assign <==> self@ is Assign,
    {
    }
}

impl View for Unary {
    type V = ExprView;

    open spec fn view(&self) -> ExprView {
        self.model()
    }
}

impl View for Binary {
    type V = ExprView;

    open spec fn view(&self) -> ExprView {
        self.model()
    }
}

impl View for Grouping {
    type V = ExprView;

    open spec fn view(&self) -> ExprView {
        self.model()
    }
}

impl View for Assign {
    type V = ExprView;

    open spec fn view(&self) -> ExprView {
        self.model()
    }
}

impl View for Expr {
    type V = ExprView;

    open spec fn view(&self) -> ExprView {
        self.model()
    }
}

/// The printing of numbers that the caller supplies, as a mathematical
/// function: from a bit pattern to the decimal text of its value.
pub type NumberText = spec_fn(u64) -> Seq<char>;

/// Whether every result of the executable `number_text` is the one that
/// `text` gives.
pub open spec fn prints<F: Fn(u64) -> String>(number_text: &F, text: NumberText) -> bool {
    forall|bits: u64, printed: String|
        call_ensures(number_text, (bits,), printed) ==> printed@ == text(bits)
}

/// Whether `text` says what a printing with `number_text` yields: it is
/// what `number_text` computes, or the printing is one that needs no number
/// printed, so that every `text` says the same.
pub open spec fn shows<F: Fn(u64) -> String>(number_text: &F, text: NumberText, needed: bool) -> bool {
    !needed || prints(number_text, text)
}

/// Whether the value is a number.
pub open spec fn is_number(value: Value) -> bool {
    value is Number
}

/// Whether `number_text` may be called on every number.
pub open spec fn prints_all<F: Fn(u64) -> String>(number_text: &F) -> bool {
    forall|bits: u64| call_requires(number_text, (bits,))
}

/// The text that a value is printed as: a number as `text` has it, a text
/// as it is, a boolean as `true` or `false`, the absent value as `nil`.
pub open spec fn rendering(text: NumberText, value: Value) -> Seq<char> {
    match value {
        Value::Number(bits) => text(bits),
        Value::Text(s) => s,
        Value::Boolean(true) => "true"@,
        Value::Boolean(false) => "false"@,
        Value::Absence => "nil"@,
    }
}

/// The operator as it is written.
pub open spec fn symbol_text(op: BinaryOp) -> Seq<char> {
    match op {
        BinaryOp::EqualEqual => "=="@,
        BinaryOp::BangEqual => "!="@,
        BinaryOp::Less => "<"@,
        BinaryOp::LessEqual => "<="@,
        BinaryOp::Greater => ">"@,
        BinaryOp::GreaterEqual => ">="@,
        BinaryOp::Plus => "+"@,
        BinaryOp::Minus => "-"@,
        BinaryOp::Star => "*"@,
        BinaryOp::Slash => "/"@,
    }
}

impl Literal {
    /// The text that the value is printed as. The text of a number is what
    /// `number_text` returns; that of another value is the same whatever
    /// `number_text` is.
    pub fn render<F: Fn(u64) -> String>(&self, number_text: &F) -> (printed: String)
        requires
            prints_all(number_text),
        ensures
            self matches Literal::Number(bits) ==> call_ensures(number_text, (*bits,), printed),
            forall|text: NumberText| #[trigger]
                shows(number_text, text, is_number(self@)) ==> printed@ == rendering(text, self@),
    {
        match self {
            Literal::Number(n) => number_text(*n),
            Literal::String(s) => s.clone(),
            Literal::Boolean(b) => if *b {
                "true".to_owned()
            } else {
                "false".to_owned()
            },
            Literal::Nil => "nil".to_owned(),
        }
    }
}

impl BinaryOp {
    /// The operator as it is written.
    pub fn symbol(&self) -> (written: &'static str)
        ensures
            written@ == symbol_text(*self),
    {
        match self {
            BinaryOp::EqualEqual => "==",
            BinaryOp::BangEqual => "!=",
            BinaryOp::Less => "<",
            BinaryOp::LessEqual => "<=",
            BinaryOp::Greater => ">",
            BinaryOp::GreaterEqual => ">=",
            BinaryOp::Plus => "+",
            BinaryOp::Minus => "-",
            BinaryOp::Star => "*",
            BinaryOp::Slash => "/",
        }
    }
}

/// The arithmetic that the caller supplies, as a mathematical function:
/// from `+`, `-`, `*` or `/` and two bit patterns to the bit pattern of the
/// rounded result.
pub type Arithmetic = spec_fn(BinaryOp, u64, u64) -> u64;

/// Whether the operator computes a number from two numbers.
pub open spec fn is_arithmetic(op: BinaryOp) -> bool {
    op == BinaryOp::Plus || op == BinaryOp::Minus || op == BinaryOp::Star || op == BinaryOp::Slash
}

/// Whether every result of the executable `arith` is the one that `k` gives.
pub open spec fn computes<F: Fn(BinaryOp, u64, u64) -> u64>(arith: &F, k: Arithmetic) -> bool {
    forall|op: BinaryOp, a: u64, b: u64, r: u64|
        is_arithmetic(op) && call_ensures(arith, (op, a, b), r) ==> r == k(op, a, b)
}

/// Whether `k` says what an evaluation with `arith` yields: it is what
/// `arith` computes, or the evaluation is one that needs no arithmetic, so
/// that every `k` says the same.
pub open spec fn governs<F: Fn(BinaryOp, u64, u64) -> u64>(
    arith: &F,
    k: Arithmetic,
    needed: bool,
) -> bool {
    !needed || computes(arith, k)
}

/// Whether `arith` may be called on every pair of numbers with every
/// arithmetic operator.
pub open spec fn total<F: Fn(BinaryOp, u64, u64) -> u64>(arith: &F) -> bool {
    forall|op: BinaryOp, a: u64, b: u64| is_arithmetic(op) ==> call_requires(arith, (op, a, b))
}

/// The value of a unary operation written on line `line`.
pub open spec fn apply_unary(op: UnaryOp, operand: Value, line: u32) -> Result<
    Value,
    RuntimeErrorView,
> {
    match (op, operand) {
        (UnaryOp::Minus, Value::Number(n)) => Ok(Value::Number(number::negated(n))),
        (UnaryOp::Bang, Value::Boolean(b)) => Ok(Value::Boolean(!b)),
        _ => Err(RuntimeErrorView::TypeError(TypeErrorView::Operand(op, operand), line)),
    }
}

/// The value of an operation on two numbers.
pub open spec fn apply_numeric(k: Arithmetic, op: BinaryOp, a: u64, b: u64) -> Value {
    match op {
        BinaryOp::EqualEqual => Value::Boolean(number::equal(a, b)),
        BinaryOp::BangEqual => Value::Boolean(!number::equal(a, b)),
        BinaryOp::Less => Value::Boolean(number::less(a, b)),
        BinaryOp::LessEqual => Value::Boolean(number::less_equal(a, b)),
        BinaryOp::Greater => Value::Boolean(number::less(b, a)),
        BinaryOp::GreaterEqual => Value::Boolean(number::less_equal(b, a)),
        BinaryOp::Plus => Value::Number(k(op, a, b)),
        BinaryOp::Minus => Value::Number(k(op, a, b)),
        BinaryOp::Star => Value::Number(k(op, a, b)),
        BinaryOp::Slash => Value::Number(k(op, a, b)),
    }
}

/// Whether two values have the same tag.
pub open spec fn same_tag(left: Value, right: Value) -> bool {
    match (left, right) {
        (Value::Number(_), Value::Number(_)) => true,
        (Value::Text(_), Value::Text(_)) => true,
        (Value::Boolean(_), Value::Boolean(_)) => true,
        (Value::Absence, Value::Absence) => true,
        _ => false,
    }
}

/// Equality of two values: of different tags never equal, of the same tag
/// equal as their contents are, numbers as IEEE 754 compares them.
pub open spec fn values_equal(left: Value, right: Value) -> bool {
    match (left, right) {
        (Value::Number(a), Value::Number(b)) => number::equal(a, b),
        (Value::Text(a), Value::Text(b)) => a == b,
        (Value::Boolean(a), Value::Boolean(b)) => a == b,
        (Value::Absence, Value::Absence) => true,
        _ => false,
    }
}

/// The value of a binary operation written on line `line`.
pub open spec fn apply_binary(
    k: Arithmetic,
    op: BinaryOp,
    left: Value,
    right: Value,
    line: u32,
) -> Result<Value, RuntimeErrorView> {
    match op {
        BinaryOp::EqualEqual => Ok(Value::Boolean(values_equal(left, right))),
        BinaryOp::BangEqual => Ok(Value::Boolean(!values_equal(left, right))),
        _ => match (left, right) {
            (Value::Number(a), Value::Number(b)) => Ok(apply_numeric(k, op, a, b)),
            (Value::Text(a), Value::Text(b)) if op == BinaryOp::Plus => Ok(Value::Text(a + b)),
            _ => Err(RuntimeErrorView::TypeError(TypeErrorView::Operands(op, left, right), line)),
        },
    }
}

/// Equality never fails: `==` and `!=` have a value on every pair of
/// operands, and on operands of different tags `==` is false and `!=`
/// true.
pub proof fn lemma_equality_never_fails(k: Arithmetic, left: Value, right: Value, line: u32)
    ensures
        apply_binary(k, BinaryOp::EqualEqual, left, right, line) is Ok,
        apply_binary(k, BinaryOp::BangEqual, left, right, line) is Ok,
        !same_tag(left, right) ==> apply_binary(k, BinaryOp::EqualEqual, left, right, line) == Ok::<
            Value,
            RuntimeErrorView,
        >(Value::Boolean(false)) && apply_binary(k, BinaryOp::BangEqual, left, right, line) == Ok::<
            Value,
            RuntimeErrorView,
        >(Value::Boolean(true)),
{
}

/// An operator other than `==` and `!=` has a value only on two numbers,
/// and `+` also on two texts. Every other pair of operands is a type
/// error that names the operator, the operands and the operator's line.
pub proof fn lemma_operand_types(k: Arithmetic, op: BinaryOp, left: Value, right: Value, line: u32)
    requires
        op != BinaryOp::EqualEqual,
        op != BinaryOp::BangEqual,
    ensures
        apply_binary(k, op, left, right, line) is Ok <==> (left is Number && right is Number) || (op
            == BinaryOp::Plus && left is Text && right is Text),
        apply_binary(k, op, left, right, line) is Err ==> apply_binary(k, op, left, right, line)
            == Err::<Value, RuntimeErrorView>(
            RuntimeErrorView::TypeError(TypeErrorView::Operands(op, left, right), line),
        ),
{
}

/// Whether the tree holds one of the operators `+`, `-`, `*` and `/`. The
/// value of a tree that holds none is the same whatever the arithmetic is.
pub open spec fn has_arithmetic(expr: ExprView) -> bool
    decreases expr,
{
    match expr {
        ExprView::Literal(_) => false,
        ExprView::Variable(_) => false,
        ExprView::Grouping(inner) => has_arithmetic(*inner),
        ExprView::Unary(_, _, operand) => has_arithmetic(*operand),
        ExprView::Binary(left, op, _, right) => is_arithmetic(op) || has_arithmetic(*left)
            || has_arithmetic(*right),
        ExprView::Assign(_, value) => has_arithmetic(*value),
    }
}

/// Whether the operation is arithmetic on two numbers.
pub open spec fn needs_arithmetic(op: BinaryOp, left: Value, right: Value) -> bool {
    is_arithmetic(op) && left is Number && right is Number
}

/// What an evaluation leaves behind: the value or the error, and the scopes
/// as they then are.
pub struct Evaluated {
    pub result: Result<Value, RuntimeErrorView>,
    pub scopes: Scopes,
}

/// The value of an expression in the given scopes, and the scopes after
/// its assignments. Operands are evaluated left to right; the first error
/// ends the evaluation and keeps the assignments made before it.
pub open spec fn evaluate(k: Arithmetic, expr: ExprView, scopes: Scopes) -> Evaluated
    decreases expr,
{
    match expr {
        ExprView::Literal(value) => Evaluated { result: Ok(value), scopes },
        ExprView::Unary(op, line, operand) => {
            let inner = evaluate(k, *operand, scopes);
            match inner.result {
                Ok(value) => Evaluated {
                    result: apply_unary(op, value, line),
                    scopes: inner.scopes,
                },
                Err(_) => inner,
            }
        },
        ExprView::Binary(left, op, line, right) => {
            let l = evaluate(k, *left, scopes);
            match l.result {
                Ok(left_value) => {
                    let r = evaluate(k, *right, l.scopes);
                    match r.result {
                        Ok(right_value) => Evaluated {
                            result: apply_binary(k, op, left_value, right_value, line),
                            scopes: r.scopes,
                        },
                        Err(_) => r,
                    }
                },
                Err(_) => l,
            }
        },
        ExprView::Grouping(inner) => evaluate(k, *inner, scopes),
        ExprView::Variable(name) => Evaluated {
            result: match lookup(scopes, name.lexeme) {
                Some(value) => Ok(value),
                None => Err(RuntimeErrorView::UndefinedVariable(name.lexeme, name.line)),
            },
            scopes,
        },
        ExprView::Assign(name, value) => {
            let v = evaluate(k, *value, scopes);
            match v.result {
                Ok(value) => match assign(v.scopes, name.lexeme, value) {
                    Some(assigned) => Evaluated { result: Ok(value), scopes: assigned },
                    None => Evaluated {
                        result: Err(RuntimeErrorView::UndefinedVariable(name.lexeme, name.line)),
                        scopes: v.scopes,
                    },
                },
                Err(_) => v,
            }
        },
    }
}

/// An assignment to a name that no scope binds fails with
/// `UndefinedVariable`, once its right side has been evaluated, and binds
/// nothing.
pub proof fn lemma_assignment_needs_declaration(
    k: Arithmetic,
    name: TokenView,
    value: ExprView,
    scopes: Scopes,
)
    ensures
        ({
            let right = evaluate(k, value, scopes);
            let whole = evaluate(k, ExprView::Assign(name, Box::new(value)), scopes);
            right.result is Ok && lookup(right.scopes, name.lexeme) is None ==> whole.result == Err::<
                Value,
                RuntimeErrorView,
            >(RuntimeErrorView::UndefinedVariable(name.lexeme, name.line)) && whole.scopes
                == right.scopes
        }),
{
    let right = evaluate(k, value, scopes);
    if right.result is Ok {
        crate::environment::lemma_assign_needs_binding(
            right.scopes,
            name.lexeme,
            right.result->Ok_0,
        );
    }
}

/// Evaluation never enters or leaves a scope, and never makes a binding:
/// afterwards there are as many scopes as before, and each binds the names
/// it bound before.
pub proof fn lemma_evaluate_keeps_names(k: Arithmetic, expr: ExprView, scopes: Scopes)
    ensures
        evaluate(k, expr, scopes).scopes.len() == scopes.len(),
        forall|i: int|
            0 <= i < scopes.len() ==> (#[trigger] evaluate(k, expr, scopes).scopes[i]).dom()
                == scopes[i].dom(),
    decreases expr,
{
    match expr {
        ExprView::Literal(_) => {},
        ExprView::Unary(_, _, operand) => {
            lemma_evaluate_keeps_names(k, *operand, scopes);
        },
        ExprView::Binary(left, _, _, right) => {
            lemma_evaluate_keeps_names(k, *left, scopes);
            let l = evaluate(k, *left, scopes);
            if l.result is Ok {
                lemma_evaluate_keeps_names(k, *right, l.scopes);
                assert forall|i: int| 0 <= i < scopes.len() implies (#[trigger] evaluate(
                    k,
                    expr,
                    scopes,
                ).scopes[i]).dom() == scopes[i].dom() by {
                    assert(l.scopes[i].dom() == scopes[i].dom());
                }
            }
        },
        ExprView::Grouping(inner) => {
            lemma_evaluate_keeps_names(k, *inner, scopes);
        },
        ExprView::Variable(_) => {},
        ExprView::Assign(name, value) => {
            lemma_evaluate_keeps_names(k, *value, scopes);
            let v = evaluate(k, *value, scopes);
            if let Ok(assigned) = v.result {
                assert forall|i: int| 0 <= i < scopes.len() implies (#[trigger] evaluate(
                    k,
                    expr,
                    scopes,
                ).scopes[i]).dom() == scopes[i].dom() by {
                    crate::environment::lemma_assign_keeps_names(v.scopes, name.lexeme, assigned, i);
                    assert(v.scopes[i].dom() == scopes[i].dom());
                }
                crate::environment::lemma_assign_needs_binding(v.scopes, name.lexeme, assigned);
            }
        },
    }
}

/// The model of an evaluation's result.
pub open spec fn result_view(result: Result<Literal, RuntimeError>) -> Result<
    Value,
    RuntimeErrorView,
> {
    match result {
        Ok(literal) => Ok(literal@),
        Err(error) => Err(error@),
    }
}

/// The value of `op` on the numbers `a` and `b`. Comparison and equality
/// are decided here; for `+`, `-`, `*` and `/` the result is what `arith`
/// returns.
pub fn numeric<F: Fn(BinaryOp, u64, u64) -> u64>(op: BinaryOp, a: u64, b: u64, arith: &F) -> (value:
    Literal)
    requires
        total(arith),
    ensures
        is_arithmetic(op) ==> (value matches Literal::Number(r) && call_ensures(
            arith,
            (op, a, b),
            r,
        )),
        forall|k: Arithmetic| #[trigger]
            governs(arith, k, is_arithmetic(op)) ==> value@ == apply_numeric(k, op, a, b),
{
    match op {
        BinaryOp::EqualEqual => Literal::Boolean(number::eq(a, b)),
        BinaryOp::BangEqual => Literal::Boolean(!number::eq(a, b)),
        BinaryOp::Less => Literal::Boolean(number::lt(a, b)),
        BinaryOp::LessEqual => Literal::Boolean(number::le(a, b)),
        BinaryOp::Greater => Literal::Boolean(number::lt(b, a)),
        BinaryOp::GreaterEqual => Literal::Boolean(number::le(b, a)),
        BinaryOp::Plus => Literal::Number(arith(BinaryOp::Plus, a, b)),
        BinaryOp::Minus => Literal::Number(arith(BinaryOp::Minus, a, b)),
        BinaryOp::Star => Literal::Number(arith(BinaryOp::Star, a, b)),
        BinaryOp::Slash => Literal::Number(arith(BinaryOp::Slash, a, b)),
    }
}

/// The value of a unary operation, written on line `line`, on an
/// evaluated operand.
pub fn unary_value(op: UnaryOp, operand: Literal, line: u32) -> (result: Result<
    Literal,
    RuntimeError,
>)
    ensures
        result_view(result) == apply_unary(op, operand@, line),
{
    match op {
        UnaryOp::Minus => match operand {
            Literal::Number(n) => Ok(Literal::Number(number::negate(n))),
            other => Err(RuntimeError::TypeError(TypeError::Operand(op, other), line)),
        },
        UnaryOp::Bang => match operand {
            Literal::Boolean(b) => Ok(Literal::Boolean(!b)),
            other => Err(RuntimeError::TypeError(TypeError::Operand(op, other), line)),
        },
    }
}

/// The value of a binary operation, written on line `line`, on evaluated
/// operands.
pub fn binary_value<F: Fn(BinaryOp, u64, u64) -> u64>(
    op: BinaryOp,
    left: Literal,
    right: Literal,
    line: u32,
    arith: &F,
) -> (result: Result<Literal, RuntimeError>)
    requires
        total(arith),
    ensures
        forall|k: Arithmetic| #[trigger]
            governs(arith, k, needs_arithmetic(op, left@, right@)) ==> result_view(result)
                == apply_binary(k, op, left@, right@, line),
{
    match (left, right) {
        (Literal::Number(ln), Literal::Number(rn)) => Ok(numeric(op, ln, rn, arith)),
        (Literal::String(ls), Literal::String(rs)) => match op {
            BinaryOp::Plus => Ok(Literal::String(ls.concat(rs.as_str()))),
            BinaryOp::EqualEqual => Ok(Literal::Boolean(ls == rs)),
            BinaryOp::BangEqual => Ok(Literal::Boolean(ls != rs)),
            bad_op => Err(
                RuntimeError::TypeError(
                    TypeError::Operands(bad_op, Literal::String(ls), Literal::String(rs)),
                    line,
                ),
            ),
        },
        (Literal::Boolean(lb), Literal::Boolean(rb)) => match op {
            BinaryOp::EqualEqual => Ok(Literal::Boolean(lb == rb)),
            BinaryOp::BangEqual => Ok(Literal::Boolean(lb != rb)),
            bad_op => Err(
                RuntimeError::TypeError(
                    TypeError::Operands(bad_op, Literal::Boolean(lb), Literal::Boolean(rb)),
                    line,
                ),
            ),
        },
        (Literal::Nil, Literal::Nil) => match op {
            BinaryOp::EqualEqual => Ok(Literal::Boolean(true)),
            BinaryOp::BangEqual => Ok(Literal::Boolean(false)),
            bad_op => Err(
                RuntimeError::TypeError(
                    TypeError::Operands(bad_op, Literal::Nil, Literal::Nil),
                    line,
                ),
            ),
        },
        (mismatch_l, mismatch_r) => match op {
            BinaryOp::EqualEqual => Ok(Literal::Boolean(false)),
            BinaryOp::BangEqual => Ok(Literal::Boolean(true)),
            bad_op => Err(
                RuntimeError::TypeError(
                    TypeError::Operands(bad_op, mismatch_l, mismatch_r),
                    line,
                ),
            ),
        },
    }
}

impl Expr {
    /// Evaluates the expression in `env`. The arithmetic on numbers is
    /// done by `arith`; everything else is decided here. The result and
    /// the scopes afterwards are those of [`evaluate`], for every `k` that
    /// `arith` computes, and for every `k` at all where the tree holds no
    /// arithmetic operator.
    pub fn interpret_ast<F: Fn(BinaryOp, u64, u64) -> u64>(
        &self,
        env: &mut Environment,
        arith: &F,
    ) -> (result: Result<Literal, RuntimeError>)
        requires
            old(env).wf(),
            total(arith),
        ensures
            final(env).wf(),
            final(env)@.len() == old(env)@.len(),
            forall|k: Arithmetic| #[trigger]
                governs(arith, k, has_arithmetic(self@)) ==> {
                    let evaluated = evaluate(k, self@, old(env)@);
                    &&& result_view(result) == evaluated.result
                    &&& final(env)@ == evaluated.scopes
                },
        decreases self,
    {
        match self {
            Expr::Literal(literal) => Ok(literal.clone()),
            Expr::Unary(unary) => {
                assert forall|k: Arithmetic| #[trigger]
                    governs(arith, k, has_arithmetic(self@)) implies governs(
                    arith,
                    k,
                    has_arithmetic(unary.expr@),
                ) by {}
                let operand = unary.expr.interpret_ast(env, arith)?;
                unary_value(unary.op, operand, unary.line)
            },
            Expr::Binary(binary) => {
                assert forall|k: Arithmetic| #[trigger]
                    governs(arith, k, has_arithmetic(self@)) implies governs(
                    arith,
                    k,
                    has_arithmetic(binary.l_expr@),
                ) && governs(arith, k, has_arithmetic(binary.r_expr@)) && governs(
                    arith,
                    k,
                    is_arithmetic(binary.op),
                ) by {}
                let l = binary.l_expr.interpret_ast(env, arith)?;
                let r = binary.r_expr.interpret_ast(env, arith)?;
                assert forall|k: Arithmetic| #[trigger]
                    governs(arith, k, is_arithmetic(binary.op)) implies governs(
                    arith,
                    k,
                    needs_arithmetic(binary.op, l@, r@),
                ) by {}
                binary_value(binary.op, l, r, binary.line, arith)
            },
            Expr::Grouping(grouping) => {
                assert forall|k: Arithmetic| #[trigger]
                    governs(arith, k, has_arithmetic(self@)) implies governs(
                    arith,
                    k,
                    has_arithmetic(grouping.expr@),
                ) by {}
                grouping.expr.interpret_ast(env, arith)
            },
            Expr::Variable(name) => match env.get(name.lexeme.as_str()) {
                Some(value) => Ok(value),
                None => Err(RuntimeError::UndefinedVariable(name.lexeme.clone(), name.line)),
            },
            Expr::Assign(assign) => {
                assert forall|k: Arithmetic| #[trigger]
                    governs(arith, k, has_arithmetic(self@)) implies governs(
                    arith,
                    k,
                    has_arithmetic(assign.expr@),
                ) by {}
                let val = assign.expr.interpret_ast(env, arith)?;
                match env.assign(assign.name.lexeme.clone(), val.clone()) {
                    Ok(_) => Ok(val),
                    Err(_) => Err(
                        RuntimeError::UndefinedVariable(
                            assign.name.lexeme.clone(),
                            assign.name.line,
                        ),
                    ),
                }
            },
        }
    }
}

} // verus!
