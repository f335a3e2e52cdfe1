use vstd::prelude::*;

verus! {

/// Why a signal, a view or an engine could not be built.
#[derive(Debug, Clone, Copy, PartialEq, Eq, Structural)]
pub enum ConstructionError {
    /// A slice does not fit its base, or a value does not fit its shape.
    ShapeMismatch,
    /// The base of a view is itself a view.
    ViewOfView,
    /// A dependency does not name an earlier operator.
    BadDependencyIndex,
    /// A signal of another kind was given (a scalar where an array is needed).
    TypeMismatch,
    /// A signal index is not in the table.
    UnknownSignal,
}

/// Why one operator could not complete its step.
#[derive(Debug, Clone, Copy, PartialEq, Eq, Structural)]
pub enum OperatorError {
    /// The operands' shapes do not fit together.
    ShapeMismatch,
    /// A signal of another kind was given, or an index is not in the table.
    TypeMismatch,
    /// The arithmetic left the range of the element type.
    Overflow,
    /// The host callback reported a failure.
    CallbackFailed,
    /// The host callback returned a value of an unexpected shape.
    CallbackTypeError,
}

/// Why a step did not complete.
#[derive(Debug, Clone, Copy, PartialEq, Eq, Structural)]
pub enum StepError {
    /// The operator at this index in the engine's list failed.
    OperatorFailure(usize, OperatorError),
    /// An earlier step failed; the engine steps no more.
    Failed,
}

} // verus!
