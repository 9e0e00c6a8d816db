//! The single error channel of the evaluator.

use vstd::prelude::*;

verus! {

/// Why an evaluation was abandoned. The first error anywhere ends the run.
#[derive(Clone, Copy, Debug, PartialEq, Eq, Structural)]
pub enum EvalError {
    /// A name was read or assigned that no reachable frame holds.
    UnboundVariable,
    /// A call named neither a script function nor anything a handler knows.
    UndefinedFunction,
    /// An operand had no value, or not the kind of value the operation needs.
    TypeMismatch,
    /// The right operand of a division was zero.
    DivisionByZero,
    /// A subtraction would have gone below zero.
    ArithmeticUnderflow,
    /// A sum or product does not fit in a number.
    ArithmeticOverflow,
    /// A definition named a type that the language does not have.
    UnknownType,
    /// A permission annotation held a token that names no capability.
    UnknownPermission,
    /// A handler refused the call for want of permission.
    PermissionRejected,
    /// A handler failed.
    ExternalError,
    /// A loop ran, or script calls nested, beyond the runtime's limit.
    LimitExceeded,
}

impl EvalError {
    /// The text of the error's description.
    pub open spec fn text(self) -> Seq<char> {
        match self {
            EvalError::UnboundVariable => "unbound variable"@,
            EvalError::UndefinedFunction => "function not found"@,
            EvalError::TypeMismatch => "type mismatch"@,
            EvalError::DivisionByZero => "division by zero"@,
            EvalError::ArithmeticUnderflow => "arithmetic underflow"@,
            EvalError::ArithmeticOverflow => "arithmetic overflow"@,
            EvalError::UnknownType => "unknown type"@,
            EvalError::UnknownPermission => "unknown permission"@,
            EvalError::PermissionRejected => "external function rejected"@,
            EvalError::ExternalError => "external function failed"@,
            EvalError::LimitExceeded => "limit exceeded"@,
        }
    }

    /// A short description for the host to show.
    pub fn message(&self) -> (r: &'static str)
        ensures
            r@ == self.text(),
    {
        match self {
            EvalError::UnboundVariable => "unbound variable",
            EvalError::UndefinedFunction => "function not found",
            EvalError::TypeMismatch => "type mismatch",
            EvalError::DivisionByZero => "division by zero",
            EvalError::ArithmeticUnderflow => "arithmetic underflow",
            EvalError::ArithmeticOverflow => "arithmetic overflow",
            EvalError::UnknownType => "unknown type",
            EvalError::UnknownPermission => "unknown permission",
            EvalError::PermissionRejected => "external function rejected",
            EvalError::ExternalError => "external function failed",
            EvalError::LimitExceeded => "limit exceeded",
        }
    }
}

} // verus!
