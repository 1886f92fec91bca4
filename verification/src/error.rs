//! Error kinds of the engine.

use vstd::prelude::*;

verus! {

/// Why a formula string failed to parse.
#[derive(Debug, PartialEq, Eq, Structural, Clone, Copy)]
pub enum ParseError {
    /// A token was grammatically invalid in its position.
    Unexpected,
    /// The input ended before a complete expression was read.
    Incomplete,
}

/// Why evaluating a parsed formula failed.
#[derive(Debug, PartialEq, Eq, Structural, Clone, Copy)]
pub enum EvalError {
    /// A node could not be evaluated.
    Unexpected,
    /// An identifier was not bound in the parameter context.
    Incomplete,
}

/// Why a render run was abandoned.
#[derive(Debug, PartialEq, Eq, Structural, Clone, Copy)]
pub enum RenderError {
    /// A note's program number matched no configured instrument.
    MissingInstrument,
}

/// Result of parsing.
pub type ParseResult<T> = Result<T, ParseError>;

/// Result of evaluation.
pub type EvalResult<T> = Result<T, EvalError>;

} // verus!
