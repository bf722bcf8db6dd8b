//! Errors: those found before evaluation starts, and those of evaluation.

use crate::expr::{
    is_number, prints_all, rendering, shows, symbol_text, BinaryOp, Literal, NumberText, UnaryOp,
    Value,
};
use crate::tokens::TokenType;
use vstd::prelude::*;
use vstd::string::StringExecFns;

verus! {

/// What went wrong while scanning or parsing.
#[derive(Debug, PartialEq, Eq, Clone, Copy, Structural)]
pub enum ErrorKind {
    /// The scanner met a character that starts no token.
    UnexpectedCharacter,
    /// A string literal was still open at the end of the source.
    UnterminatedString,
    /// A numeral could not be read as a number.
    MalformedNumber,
    /// A token that cannot start an expression.
    UnexpectedToken,
    /// The grammar asked for a token of this type and found another.
    ExpectedToken(TokenType),
    /// The left side of `=` is not a variable.
    InvalidAssignmentTarget,
}

/// A scanning or parsing error with the place it was found.
#[derive(Debug, PartialEq, Eq)]
pub struct LoxError {
    pub kind: ErrorKind,
    pub line: u32,
    pub loc_in_line: u32,
    pub chars_in_line: String,
    pub message: String,
}

/// Mathematical model of a [`LoxError`].
pub struct LoxErrorView {
    pub kind: ErrorKind,
    pub line: u32,
    pub loc_in_line: u32,
    pub chars_in_line: Seq<char>,
    pub message: Seq<char>,
}

impl View for LoxError {
    type V = LoxErrorView;

    open spec fn view(&self) -> LoxErrorView {
        LoxErrorView {
            kind: self.kind,
            line: self.line,
            loc_in_line: self.loc_in_line,
            chars_in_line: self.chars_in_line@,
            message: self.message@,
        }
    }
}

impl LoxError {
    pub fn new(
        kind: ErrorKind,
        line: u32,
        loc_in_line: u32,
        chars_in_line: String,
        message: String,
    ) -> (error: Self)
        ensures
            error.kind == kind,
            error.line == line,
            error.loc_in_line == loc_in_line,
            error.chars_in_line == chars_in_line,
            error.message == message,
    {
        Self { kind, line, loc_in_line, chars_in_line, message }
    }
}

/// An operator met operands that it is not defined on.
#[derive(Debug, PartialEq, Eq)]
pub enum TypeError {
    /// `-` wants a number and `!` a boolean; the operand was this.
    Operand(UnaryOp, Literal),
    /// The operator is not defined on this pair of operands.
    Operands(BinaryOp, Literal, Literal),
}

/// Mathematical model of a [`TypeError`].
pub enum TypeErrorView {
    Operand(UnaryOp, Value),
    Operands(BinaryOp, Value, Value),
}

impl View for TypeError {
    type V = TypeErrorView;

    open spec fn view(&self) -> TypeErrorView {
        match self {
            TypeError::Operand(op, operand) => TypeErrorView::Operand(*op, operand@),
            TypeError::Operands(op, left, right) => TypeErrorView::Operands(*op, left@, right@),
        }
    }
}

/// An error of evaluation, with the line it is on.
#[derive(Debug, PartialEq, Eq)]
pub enum RuntimeError {
    /// An operator met operands that it is not defined on. The line is
    /// that of the operator.
    TypeError(TypeError, u32),
    /// No scope binds this name. The line is that of the name.
    UndefinedVariable(String, u32),
}

/// Mathematical model of a [`RuntimeError`].
pub enum RuntimeErrorView {
    TypeError(TypeErrorView, u32),
    UndefinedVariable(Seq<char>, u32),
}

/// The line that the error is on.
pub open spec fn line_of(error: RuntimeErrorView) -> u32 {
    match error {
        RuntimeErrorView::TypeError(_, line) => line,
        RuntimeErrorView::UndefinedVariable(_, line) => line,
    }
}

impl View for RuntimeError {
    type V = RuntimeErrorView;

    open spec fn view(&self) -> RuntimeErrorView {
        match self {
            RuntimeError::TypeError(error, line) => RuntimeErrorView::TypeError(error@, *line),
            RuntimeError::UndefinedVariable(name, line) => RuntimeErrorView::UndefinedVariable(
                name@,
                *line,
            ),
        }
    }
}

/// Whether the message of the error holds a number: whether an operand
/// that the message shows is one.
pub open spec fn names_number(error: TypeErrorView) -> bool {
    match error {
        TypeErrorView::Operand(_, operand) => is_number(operand),
        TypeErrorView::Operands(_, Value::Text(_), Value::Text(_)) => false,
        TypeErrorView::Operands(_, Value::Boolean(_), Value::Boolean(_)) => false,
        TypeErrorView::Operands(_, Value::Absence, Value::Absence) => false,
        TypeErrorView::Operands(_, left, right) => is_number(left) || is_number(right),
    }
}

/// Whether the message of the error holds a number.
pub open spec fn message_names_number(error: RuntimeErrorView) -> bool {
    match error {
        RuntimeErrorView::TypeError(error, _) => names_number(error),
        RuntimeErrorView::UndefinedVariable(_, _) => false,
    }
}

/// The message of a type error.
pub open spec fn type_error_text(text: NumberText, error: TypeErrorView) -> Seq<char> {
    match error {
        TypeErrorView::Operand(UnaryOp::Minus, operand) => "Expected a number but got "@
            + rendering(text, operand),
        TypeErrorView::Operand(UnaryOp::Bang, operand) => "Expected a boolean value but got "@
            + rendering(text, operand),
        TypeErrorView::Operands(op, Value::Text(_), Value::Text(_)) => "Operation "@ + symbol_text(
            op,
        ) + " not supported for Strings"@,
        TypeErrorView::Operands(op, Value::Boolean(_), Value::Boolean(_)) => "Operation "@
            + symbol_text(op) + " not supported for Booleans"@,
        TypeErrorView::Operands(op, Value::Absence, Value::Absence) => "Operation "@ + symbol_text(
            op,
        ) + " not supported for Booleans"@,
        TypeErrorView::Operands(_, left, right) => "Mismatched types: left was "@ + rendering(
            text,
            left,
        ) + " while right was "@ + rendering(text, right),
    }
}

/// The message of a runtime error.
pub open spec fn message_text(text: NumberText, error: RuntimeErrorView) -> Seq<char> {
    match error {
        RuntimeErrorView::TypeError(error, _) => type_error_text(text, error),
        RuntimeErrorView::UndefinedVariable(name, _) => "Undefined variable: "@ + name,
    }
}

impl TypeError {
    /// The message of the error. The text of a number in it is what
    /// `number_text` returns; a message without a number is the same
    /// whatever `number_text` is.
    pub fn message<F: Fn(u64) -> String>(&self, number_text: &F) -> (message: String)
        requires
            prints_all(number_text),
        ensures
            forall|text: NumberText| #[trigger]
                shows(number_text, text, names_number(self@)) ==> message@ == type_error_text(
                    text,
                    self@,
                ),
    {
        match self {
            TypeError::Operand(UnaryOp::Minus, operand) => {
                assert forall|text: NumberText| #[trigger]
                    shows(number_text, text, names_number(self@)) implies shows(
                    number_text,
                    text,
                    is_number(operand@),
                ) by {}
                "Expected a number but got ".to_owned().concat(
                    operand.render(number_text).as_str(),
                )
            },
            TypeError::Operand(UnaryOp::Bang, operand) => {
                assert forall|text: NumberText| #[trigger]
                    shows(number_text, text, names_number(self@)) implies shows(
                    number_text,
                    text,
                    is_number(operand@),
                ) by {}
                "Expected a boolean value but got ".to_owned().concat(
                    operand.render(number_text).as_str(),
                )
            },
            TypeError::Operands(op, Literal::String(_), Literal::String(_)) => {
                "Operation ".to_owned().concat(op.symbol()).concat(" not supported for Strings")
            },
            TypeError::Operands(op, Literal::Boolean(_), Literal::Boolean(_)) => {
                "Operation ".to_owned().concat(op.symbol()).concat(" not supported for Booleans")
            },
            TypeError::Operands(op, Literal::Nil, Literal::Nil) => {
                "Operation ".to_owned().concat(op.symbol()).concat(" not supported for Booleans")
            },
            TypeError::Operands(_, left, right) => {
                assert forall|text: NumberText| #[trigger]
                    shows(number_text, text, names_number(self@)) implies shows(
                    number_text,
                    text,
                    is_number(left@),
                ) && shows(number_text, text, is_number(right@)) by {}
                "Mismatched types: left was ".to_owned().concat(
                    left.render(number_text).as_str(),
                ).concat(" while right was ").concat(right.render(number_text).as_str())
            },
        }
    }
}

impl RuntimeError {
    /// The line that the error is on.
    pub fn line(&self) -> (line: u32)
        ensures
            line == line_of(self@),
    {
        match self {
            RuntimeError::TypeError(_, line) => *line,
            RuntimeError::UndefinedVariable(_, line) => *line,
        }
    }

    /// The message of the error. The text of a number in it is what
    /// `number_text` returns; a message without a number is the same
    /// whatever `number_text` is.
    pub fn message<F: Fn(u64) -> String>(&self, number_text: &F) -> (message: String)
        requires
            prints_all(number_text),
        ensures
            forall|text: NumberText| #[trigger]
                shows(number_text, text, message_names_number(self@)) ==> message@ == message_text(
                    text,
                    self@,
                ),
    {
        match self {
            RuntimeError::TypeError(error, _) => {
                assert forall|text: NumberText| #[trigger]
                    shows(number_text, text, message_names_number(self@)) implies shows(
                    number_text,
                    text,
                    names_number(error@),
                ) by {}
                error.message(number_text)
            },
            RuntimeError::UndefinedVariable(name, _) => {
                "Undefined variable: ".to_owned().concat(name.as_str())
            },
        }
    }
}

} // verus!
