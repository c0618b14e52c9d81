//! How the evaluation of an expression can end other than with a value.
use vstd::prelude::*;
use crate::error::{Raised, RuntimeError};
use crate::native::support::NativeModel;
use crate::span::Span;
use crate::value::Value;

verus! {

/// Why evaluation stopped: a hard error, a raised value, or control flow that is looking for the
/// construct that handles it.
#[derive(Debug)]
pub enum EvaluationError {
    Runtime(RuntimeError),
    Raised(Raised),
    NilPropagate { span: Span },
    Break { value: Value, span: Span },
    Continue { value: Value, span: Span },
}

/// The model of an evaluation failure: the message of a hard error or the value raised. Control
/// flow has the message it becomes when nothing handles it.
pub open spec fn failure_model(e: EvaluationError) -> NativeModel {
    match e {
        EvaluationError::Runtime(error) => NativeModel::Fails(error.message@),
        EvaluationError::Raised(raised) => NativeModel::Raises(raised.value@),
        EvaluationError::NilPropagate { .. } => NativeModel::Fails(
            "nil propagation escaped its standalone block"@,
        ),
        EvaluationError::Break { .. } => NativeModel::Fails("`break` outside of a loop"@),
        EvaluationError::Continue { .. } => NativeModel::Fails("`continue` outside of a loop"@),
    }
}

/// Where an evaluation failure happened.
pub open spec fn failure_span(e: EvaluationError) -> Span {
    match e {
        EvaluationError::Runtime(error) => error.span,
        EvaluationError::Raised(raised) => raised.origin,
        EvaluationError::NilPropagate { span } => span,
        EvaluationError::Break { span, .. } => span,
        EvaluationError::Continue { span, .. } => span,
    }
}

impl EvaluationError {
    /// The hard error that an unhandled failure other than a raise becomes.
    pub fn into_runtime_error(self) -> (e: RuntimeError)
        requires
            !(self is Raised),
        ensures
            failure_model(self) == NativeModel::Fails(e.message@),
            e.span == failure_span(self),
    {
        match self {
            EvaluationError::Runtime(error) => error,
            EvaluationError::Raised(raised) => RuntimeError::new(raised.origin, String::new()),
            EvaluationError::NilPropagate { span } => RuntimeError::new(
                span,
                "nil propagation escaped its standalone block".to_string(),
            ),
            EvaluationError::Break { span, .. } => RuntimeError::new(
                span,
                "`break` outside of a loop".to_string(),
            ),
            EvaluationError::Continue { span, .. } => RuntimeError::new(
                span,
                "`continue` outside of a loop".to_string(),
            ),
        }
    }
}

} // verus!
