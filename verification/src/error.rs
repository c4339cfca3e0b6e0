//! The failures of a compilation.

use vstd::prelude::*;
use vstd::string::StringExecFns;

verus! {

/// A part of a parse node that a handler requires.
#[derive(Clone, Copy, Debug, PartialEq, Eq, Structural)]
pub enum Field {
    /// The identifier of a declaration, assignment, definition or call.
    Identifier,
    /// The type tag of a declaration.
    Type,
    /// The value of a declaration or assignment.
    Value,
    /// The term on the left of a comparison.
    ValueA,
    /// The comparison operator.
    Condition,
    /// The term on the right of a comparison.
    ValueB,
    /// The parameter of a built-in call.
    Parameters,
}

/// Why a compilation failed. The first failure ends the compilation.
#[derive(Debug, PartialEq, Eq)]
pub enum CompileError {
    /// An expression's token stream is malformed; holds the text of the
    /// token that cannot stand where it is, or nothing where the stream ends
    /// before an operand.
    ParseError(String),
    /// A parse node lacks a part.
    MissingField(Field),
    /// The value of a declaration or assignment is of no supported kind.
    InvalidValueAssignment,
    /// A call in value position is no known built-in; holds its text.
    UnsupportedBuiltin(String),
    /// A comparison operator that the construct does not support; holds its
    /// text.
    InvalidCondition(String),
    /// An expression is assigned to a name that was never declared; holds
    /// the name.
    UndeclaredVariable(String),
}

/// The model of a [`CompileError`].
pub ghost enum ErrorView {
    ParseError(Seq<char>),
    MissingField(Field),
    InvalidValueAssignment,
    UnsupportedBuiltin(Seq<char>),
    InvalidCondition(Seq<char>),
    UndeclaredVariable(Seq<char>),
}

impl View for CompileError {
    type V = ErrorView;

    open spec fn view(&self) -> ErrorView {
        match self {
            CompileError::ParseError(text) => ErrorView::ParseError(text@),
            CompileError::MissingField(field) => ErrorView::MissingField(*field),
            CompileError::InvalidValueAssignment => ErrorView::InvalidValueAssignment,
            CompileError::UnsupportedBuiltin(text) => ErrorView::UnsupportedBuiltin(text@),
            CompileError::InvalidCondition(text) => ErrorView::InvalidCondition(text@),
            CompileError::UndeclaredVariable(name) => ErrorView::UndeclaredVariable(name@),
        }
    }
}

/// The words for a missing part.
pub open spec fn field_text(field: Field) -> Seq<char> {
    match field {
        Field::Identifier => "Missing identifier"@,
        Field::Type => "Missing type"@,
        Field::Value => "Missing value"@,
        Field::ValueA => "Missing valueA"@,
        Field::Condition => "Missing condition"@,
        Field::ValueB => "Missing valueB"@,
        Field::Parameters => "Missing parameters"@,
    }
}

/// The message of a failure.
pub open spec fn message_text(error: ErrorView) -> Seq<char> {
    match error {
        ErrorView::ParseError(text) => "Unexpected token: "@ + text,
        ErrorView::MissingField(field) => field_text(field),
        ErrorView::InvalidValueAssignment => "Invalid value assignment"@,
        ErrorView::UnsupportedBuiltin(text) => "Unsupported function: "@ + text,
        ErrorView::InvalidCondition(text) => "Invalid condition: "@ + text,
        ErrorView::UndeclaredVariable(name) => "Variable not found: "@ + name,
    }
}

impl Field {
    /// The words for this missing part.
    pub fn message(&self) -> (text: &'static str)
        ensures
            text@ == field_text(*self),
    {
        match self {
            Field::Identifier => "Missing identifier",
            Field::Type => "Missing type",
            Field::Value => "Missing value",
            Field::ValueA => "Missing valueA",
            Field::Condition => "Missing condition",
            Field::ValueB => "Missing valueB",
            Field::Parameters => "Missing parameters",
        }
    }
}

impl CompileError {
    /// The message of this failure.
    pub fn message(&self) -> (text: String)
        ensures
            text@ == message_text(self@),
    {
        match self {
            CompileError::ParseError(token) => String::from_str("Unexpected token: ").concat(
                token.as_str(),
            ),
            CompileError::MissingField(field) => String::from_str(field.message()),
            CompileError::InvalidValueAssignment => String::from_str("Invalid value assignment"),
            CompileError::UnsupportedBuiltin(call) => String::from_str(
                "Unsupported function: ",
            ).concat(call.as_str()),
            CompileError::InvalidCondition(operator) => String::from_str(
                "Invalid condition: ",
            ).concat(operator.as_str()),
            CompileError::UndeclaredVariable(name) => String::from_str(
                "Variable not found: ",
            ).concat(name.as_str()),
        }
    }
}

} // verus!
