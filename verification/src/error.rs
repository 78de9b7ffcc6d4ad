use vstd::prelude::*;

verus! {

/// Failures the engine reports to its callers.
///
/// Row-level failures (`ParseError`, `ValueError`, `DivisionByZero`,
/// `DateTimeConversionError`) describe one rejected input. `NonConvergence`
/// reports an iteration that exceeded its round limit, and
/// `KeyPolicyViolation` a duplicate key under a strict policy.
#[derive(Debug, Clone, PartialEq, Eq)]
pub enum Error {
    ParseError(String),
    ValueError(String),
    DivisionByZero,
    DateTimeConversionError,
    NonConvergence,
    KeyPolicyViolation,
}

} // verus!
