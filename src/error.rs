//! Errors the optimizer reports.
use vstd::prelude::*;

verus! {

#[derive(Clone, Copy, Debug, PartialEq, Eq, Structural)]
pub enum OptimizerError {
    /// A rule was applied to an expression its pattern does not match.
    PatternMismatch,
    /// No expression delivers the required physical properties.
    NoWinner,
    /// The memo or a plan is malformed, holds a cycle, or outgrew its bound.
    InvariantViolation,
}

} // verus!
