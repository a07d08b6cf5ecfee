//! The failure kinds that store mutations and traversal steps can report.

use vstd::prelude::*;

verus! {

/// Everything that can go wrong inside the store or the traversal engine.
///
/// Store mutations reject a change with [`WeidError::DanglingReference`] and
/// leave the store untouched; lookups that a caller asked for by id report
/// [`WeidError::NotFound`]; the two traversal failure kinds are surfaced to
/// the driver of the session, which decides whether to retry the step.
#[derive(Clone, Copy, Debug, PartialEq, Eq, Structural)]
pub enum WeidError {
    /// A record being inserted or linked refers to an id that is not present
    /// in the store; the mutation was rejected and the store is unchanged.
    DanglingReference,
    /// A lookup of a query, answer or outcome id that does not exist.
    NotFound,
    /// The prompt facility returned a key that maps to no presented answer,
    /// or the facility itself failed.
    SelectionError,
    /// An outcome's underlying action failed (spawn failure, non-zero exit,
    /// or a failure inside a closure).
    OutcomeExecutionError,
}

} // verus!
