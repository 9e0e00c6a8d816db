//! The protocol between the evaluator and the host's callbacks.

use crate::error::EvalError;
use crate::permission::Permission;
use crate::variable::{result_of, value_of_opt, Value, Variable};
use vstd::prelude::*;

verus! {

/// What a handler reports about a call.
#[derive(Clone, Copy, Debug, PartialEq, Eq, Structural)]
#[allow(non_camel_case_types)]
pub enum ExternalFuncStatus {
    /// The handler served the call.
    SUCCESS,
    /// The handler does not know the name; the next one is asked.
    NOTFOUND,
    /// The handler failed.
    ERROR,
    /// The handler knows the name and the caller lacks the permission.
    REJECTED,
}

/// A handler's answer: a status and, on success, an optional value.
#[derive(Debug, PartialEq, Eq)]
pub struct ExternalFuncReturn {
    pub status: ExternalFuncStatus,
    pub value: Option<Variable>,
}

/// The mathematical model of an [`ExternalFuncReturn`].
pub struct Reply {
    pub status: ExternalFuncStatus,
    pub value: Option<Value>,
}

impl View for ExternalFuncReturn {
    type V = Reply;

    open spec fn view(&self) -> Reply {
        Reply { status: self.status, value: value_of_opt(self.value) }
    }
}

impl Clone for ExternalFuncReturn {
    fn clone(&self) -> (r: ExternalFuncReturn)
        ensures
            r@ == self@,
    {
        ExternalFuncReturn {
            status: self.status,
            value: match &self.value {
                Some(v) => Some(v.clone()),
                None => None,
            },
        }
    }
}

/// A host callback. It is handed the called name, the evaluated arguments and
/// the caller's accept and reject lists, and answers with a status. Nothing is
/// known of the answer in advance: the evaluator is correct for every answer.
pub trait ExternalFunction {
    fn call(
        &self,
        name: &String,
        args: &Vec<Variable>,
        accept: &Vec<Permission>,
        reject: &Vec<Permission>,
    ) -> ExternalFuncReturn;
}

/// What a reply means for the dispatch that received it.
pub enum Verdict {
    /// The dispatch ends with this result.
    Done(Result<Option<Value>, EvalError>),
    /// The next handler is to be asked.
    Next,
}

impl Reply {
    /// A successful reply ends the dispatch with its value, or with the unit
    /// value if it has none; a rejection or a failure ends it with an error;
    /// only "not found" passes the call on.
    pub open spec fn verdict(self) -> Verdict {
        match self.status {
            ExternalFuncStatus::SUCCESS => Verdict::Done(
                Ok(
                    Some(
                        match self.value {
                            Some(v) => v,
                            None => Value::Unit,
                        },
                    ),
                ),
            ),
            ExternalFuncStatus::NOTFOUND => Verdict::Next,
            ExternalFuncStatus::REJECTED => Verdict::Done(Err(EvalError::PermissionRejected)),
            ExternalFuncStatus::ERROR => Verdict::Done(Err(EvalError::ExternalError)),
        }
    }
}

/// The executable form of a [`Verdict`].
#[derive(Debug, PartialEq, Eq)]
pub enum Decision {
    Done(Result<Option<Variable>, EvalError>),
    Next,
}

impl View for Decision {
    type V = Verdict;

    open spec fn view(&self) -> Verdict {
        match self {
            Decision::Done(r) => Verdict::Done(result_of(*r)),
            Decision::Next => Verdict::Next,
        }
    }
}

impl ExternalFuncReturn {
    /// Decides what a handler's answer means for the call being dispatched.
    pub fn decide(self) -> (d: Decision)
        ensures
            d@ == self@.verdict(),
    {
        match self.status {
            ExternalFuncStatus::SUCCESS => match self.value {
                Some(v) => Decision::Done(Ok(Some(v))),
                None => Decision::Done(Ok(Some(Variable::Unit {  }))),
            },
            ExternalFuncStatus::NOTFOUND => Decision::Next,
            ExternalFuncStatus::REJECTED => Decision::Done(Err(EvalError::PermissionRejected)),
            ExternalFuncStatus::ERROR => Decision::Done(Err(EvalError::ExternalError)),
        }
    }
}

} // verus!
