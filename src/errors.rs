//! Errors reported by the library.
use vstd::prelude::*;
use crate::datum::DatumType;

verus! {

/// The attribute of a fact on which two views disagree.
#[derive(Debug, Clone, Copy, PartialEq, Eq, Structural)]
pub enum Attribute {
    DatumType,
    Rank,
    Dim,
    Value,
}

/// The errors of the library.
#[allow(inconsistent_fields)]
#[derive(Debug, Clone, Copy, PartialEq, Eq, Structural)]
pub enum TractError {
    /// Malformed model input.
    ParseError,
    /// Operator type unknown to the registry.
    UnknownOp,
    /// Two facts on an outlet contradict each other.
    InferenceContradiction { node: usize, attribute: Attribute },
    /// A fact that must be known is not.
    UnderdeterminedFact { attribute: Attribute },
    /// A tensor of another element type than the one expected.
    DtypeError { expected: DatumType, got: DatumType },
    /// A tensor whose shape or element count is not the one expected.
    ShapeError { expected: usize, got: usize },
    /// A wrong number of inputs or outputs.
    ArityError { expected: usize, got: usize },
    /// The node cannot run on a stream of pulses.
    NotPulsifiable { node: usize },
    /// A value out of the range of its type, or an undefined operation.
    NumericError,
    /// The declutter loop reached its iteration limit.
    NonTerminatingDeclutter { iterations: usize },
    /// A tensor whose type, shape and elements disagree.
    IllFormedTensor,
    /// The inference solver reached no fixed point within its round limit.
    NotConverged { rounds: usize },
    /// A graph whose edges do not form a well-formed acyclic graph.
    InvalidGraph,
}

} // verus!
