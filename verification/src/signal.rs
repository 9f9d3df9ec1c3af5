//! Control-flow signals and the error taxonomy. A `Signal` is produced
//! transiently by executing a command and consumed by the nearest enclosing
//! section run; `Terminate` keeps propagating upward through every enclosing
//! frame until it reaches the top level. Every error is fatal at the point
//! raised and carries the name of the section or variable involved.

use vstd::prelude::*;

verus! {

/// A control-flow outcome of executing a command.
#[derive(Clone, Copy, PartialEq, Eq, Structural, Debug)]
pub enum Signal {
    /// End the current section invocation early; the caller resumes normally.
    Return,
    /// End the whole program with the given exit code. Must be re-forwarded
    /// by every enclosing invocation on its own return path.
    Terminate(i32),
}

/// A fatal validation or execution error, with the name of the section or
/// variable it concerns.
#[derive(Debug)]
pub enum RunError {
    /// No section with the given name is loaded.
    MissingSection(String),
    /// An invocation of the named section would exceed the recursion ceiling.
    RecursionLimitExceeded(String),
    /// The actual arguments do not match the named section's parameter shape.
    ArgumentMismatch(String),
    /// The named variable is already bound in the current frame.
    DuplicateDeclaration(String),
    /// The named variable is constant and cannot be modified.
    ConstantViolation(String),
    /// The named variable is not bound in the current frame.
    NotFound(String),
    /// A section with the given name is already loaded.
    DuplicateSection(String),
}

/// The mathematical model of a `RunError`.
pub enum RunErrorV {
    MissingSection(Seq<char>),
    RecursionLimitExceeded(Seq<char>),
    ArgumentMismatch(Seq<char>),
    DuplicateDeclaration(Seq<char>),
    ConstantViolation(Seq<char>),
    NotFound(Seq<char>),
    DuplicateSection(Seq<char>),
}

impl View for RunError {
    type V = RunErrorV;

    open spec fn view(&self) -> RunErrorV {
        match self {
            RunError::MissingSection(n) => RunErrorV::MissingSection(n@),
            RunError::RecursionLimitExceeded(n) => RunErrorV::RecursionLimitExceeded(n@),
            RunError::ArgumentMismatch(n) => RunErrorV::ArgumentMismatch(n@),
            RunError::DuplicateDeclaration(n) => RunErrorV::DuplicateDeclaration(n@),
            RunError::ConstantViolation(n) => RunErrorV::ConstantViolation(n@),
            RunError::NotFound(n) => RunErrorV::NotFound(n@),
            RunError::DuplicateSection(n) => RunErrorV::DuplicateSection(n@),
        }
    }
}

/// The process exit status an outcome maps to: 0 for normal completion
/// (sequence exhausted or a top-level `Return`), the carried code for a
/// `Terminate` that reached the top, and 1 for a fatal validation error.
pub fn exit_status(r: &Result<Option<Signal>, RunError>) -> (code: i32)
    ensures
        match r {
            Ok(None) => code == 0,
            Ok(Some(Signal::Return)) => code == 0,
            Ok(Some(Signal::Terminate(c))) => code == c,
            Err(_) => code == 1,
        },
{
    match r {
        Ok(None) => 0,
        Ok(Some(Signal::Return)) => 0,
        Ok(Some(Signal::Terminate(c))) => *c,
        Err(_) => 1,
    }
}

} // verus!
