//! The closed set of failures an invocation can end in, and the message that
//! each one shows to the user.
use vstd::prelude::*;

verus! {

/// Every way an invocation can fail; none of them is retried.
#[derive(Debug, Clone, PartialEq, Eq)]
pub enum HandlerError {
    /// The message matches neither the inline nor the block syntax.
    FormatError,
    /// No evaluation context could be built for the invocation.
    SandboxError,
    /// The engine rejected the program text; holds its diagnostic.
    ParseError(String),
    /// The engine failed while running the program, or produced an error
    /// value; holds its diagnostic.
    RuntimeError(String),
    /// The program did not finish before the deadline.
    TimeoutError,
}

/// A failure as mathematical text.
pub ghost enum Failure {
    Format,
    Sandbox,
    Parse(Seq<char>),
    Runtime(Seq<char>),
    Timeout,
}

impl View for HandlerError {
    type V = Failure;

    open spec fn view(&self) -> Failure {
        match self {
            HandlerError::FormatError => Failure::Format,
            HandlerError::SandboxError => Failure::Sandbox,
            HandlerError::ParseError(d) => Failure::Parse(d@),
            HandlerError::RuntimeError(d) => Failure::Runtime(d@),
            HandlerError::TimeoutError => Failure::Timeout,
        }
    }
}

} // verus!
