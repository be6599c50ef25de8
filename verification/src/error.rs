//! The error type of the engine.

use crate::text::joined;
use vstd::prelude::*;
use vstd::string::*;

verus! {

/// What can go wrong in parsing, in writing a context and in evaluation.
/// Each kind carries a message for a human reader.
#[derive(Debug)]
#[non_exhaustive]
pub enum WirerustError {
    /// The filter text is not an expression of the language.
    ParseError(String),
    /// A value written to a context does not have the type of its field.
    TypeError(String),
    /// A called function is not registered, or gave no result.
    FunctionError(String),
    /// A context write names a field that the schema does not have.
    FieldNotFound(String),
    /// The evaluator ran out of operands.
    ExecutionError(String),
    /// Any other failure.
    Other(String),
}

/// The mathematical value of an error: its kind and its message.
pub enum SpecError {
    ParseError(Seq<char>),
    TypeError(Seq<char>),
    FunctionError(Seq<char>),
    FieldNotFound(Seq<char>),
    ExecutionError(Seq<char>),
    Other(Seq<char>),
}

impl View for WirerustError {
    type V = SpecError;

    open spec fn view(&self) -> SpecError {
        match *self {
            WirerustError::ParseError(m) => SpecError::ParseError(m@),
            WirerustError::TypeError(m) => SpecError::TypeError(m@),
            WirerustError::FunctionError(m) => SpecError::FunctionError(m@),
            WirerustError::FieldNotFound(m) => SpecError::FieldNotFound(m@),
            WirerustError::ExecutionError(m) => SpecError::ExecutionError(m@),
            WirerustError::Other(m) => SpecError::Other(m@),
        }
    }
}

/// The line that describes an error: the name of its kind, then its
/// message.
pub open spec fn error_text(e: SpecError) -> Seq<char> {
    match e {
        SpecError::ParseError(m) => "Parse error: "@ + m,
        SpecError::TypeError(m) => "Type error: "@ + m,
        SpecError::FunctionError(m) => "Function error: "@ + m,
        SpecError::FieldNotFound(m) => "Field not found: "@ + m,
        SpecError::ExecutionError(m) => "Execution error: "@ + m,
        SpecError::Other(m) => "Error: "@ + m,
    }
}

impl WirerustError {
    /// The line that describes this error.
    pub fn message(&self) -> (r: String)
        ensures
            r@ == error_text(self@),
    {
        match self {
            WirerustError::ParseError(m) => joined("Parse error: ", m.as_str()),
            WirerustError::TypeError(m) => joined("Type error: ", m.as_str()),
            WirerustError::FunctionError(m) => joined("Function error: ", m.as_str()),
            WirerustError::FieldNotFound(m) => joined("Field not found: ", m.as_str()),
            WirerustError::ExecutionError(m) => joined("Execution error: ", m.as_str()),
            WirerustError::Other(m) => joined("Error: ", m.as_str()),
        }
    }
}

} // verus!
