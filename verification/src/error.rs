//! The two error families of the interpreter: parse-time errors, raised
//! only while a statement's text is turned into an expression tree, and
//! run-time errors, raised only while a tree is evaluated. A statement
//! is fully parsed before any part of it runs, so the two never mix.

use vstd::prelude::*;

verus! {

/// The abstract value of a [`VMError`]: the same variants over
/// mathematical character sequences.
pub enum ErrV {
    Parse(Seq<char>),
    Compile(Seq<char>),
    Execution(Seq<char>),
    Runtime(Seq<char>),
    StackUnderflow,
    UnknownFunction(Seq<char>),
    InvalidOperation(Seq<char>),
}

/// An error of the interpreter, carrying a human-readable detail text.
#[derive(Debug, Clone)]
pub enum VMError {
    ParseError(String),
    CompileError(String),
    ExecutionError(String),
    RuntimeError(String),
    StackUnderflow,
    UnknownFunction(String),
    InvalidOperation(String),
}

impl View for VMError {
    type V = ErrV;

    open spec fn view(&self) -> ErrV {
        match self {
            VMError::ParseError(m) => ErrV::Parse(m@),
            VMError::CompileError(m) => ErrV::Compile(m@),
            VMError::ExecutionError(m) => ErrV::Execution(m@),
            VMError::RuntimeError(m) => ErrV::Runtime(m@),
            VMError::StackUnderflow => ErrV::StackUnderflow,
            VMError::UnknownFunction(m) => ErrV::UnknownFunction(m@),
            VMError::InvalidOperation(m) => ErrV::InvalidOperation(m@),
        }
    }
}

/// The rendering of an error as one line of text.
pub open spec fn message_spec(e: ErrV) -> Seq<char> {
    match e {
        ErrV::Parse(m) => "Parse error: "@ + m,
        ErrV::Compile(m) => "Compile error: "@ + m,
        ErrV::Execution(m) => "Execution error: "@ + m,
        ErrV::Runtime(m) => "Runtime error: "@ + m,
        ErrV::StackUnderflow => "Stack underflow"@,
        ErrV::UnknownFunction(m) => "Unknown function: "@ + m,
        ErrV::InvalidOperation(m) => "Invalid operation: "@ + m,
    }
}

impl VMError {
    /// One line of text naming the error kind and its detail.
    pub fn message(&self) -> (r: String)
        ensures
            r@ == message_spec(self@),
    {
        match self {
            VMError::ParseError(m) => {
                let mut s = String::from_str("Parse error: ");
                s.append(m.as_str());
                s
            },
            VMError::CompileError(m) => {
                let mut s = String::from_str("Compile error: ");
                s.append(m.as_str());
                s
            },
            VMError::ExecutionError(m) => {
                let mut s = String::from_str("Execution error: ");
                s.append(m.as_str());
                s
            },
            VMError::RuntimeError(m) => {
                let mut s = String::from_str("Runtime error: ");
                s.append(m.as_str());
                s
            },
            VMError::StackUnderflow => String::from_str("Stack underflow"),
            VMError::UnknownFunction(m) => {
                let mut s = String::from_str("Unknown function: ");
                s.append(m.as_str());
                s
            },
            VMError::InvalidOperation(m) => {
                let mut s = String::from_str("Invalid operation: ");
                s.append(m.as_str());
                s
            },
        }
    }
}

/// The usual result type of the interpreter's fallible operations.
pub type VMResult<T> = Result<T, VMError>;

/// The abstract value of a fallible result: both sides by their views.
pub open spec fn res_view<T: View>(r: Result<T, VMError>) -> Result<T::V, ErrV> {
    match r {
        Ok(t) => Ok(t@),
        Err(e) => Err(e@),
    }
}

} // verus!
