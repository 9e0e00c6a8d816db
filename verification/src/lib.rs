//! GPSL: an embeddable scripting runtime.
//!
//! A host hands the runtime a parsed program and a list of callbacks, the
//! handlers. The runtime evaluates the program's functions: numbers, text,
//! arithmetic, comparison, variables, `if`, `while`, `for` and calls. A call
//! of a name that the script does not define goes to the handlers, together
//! with the permissions in force where the call stands.
//!
//! The language is defined by a mathematical model, [`vm::model`]. The
//! evaluator, [`vm::evaluator`], is proved to return what the model returns
//! and to leave the frame stack that the model leaves, whatever the handlers
//! answer. What the model implies for every program is proved beside it:
//! scoping, isolation of calls, permissions and the order of dispatch in
//! [`vm::laws`], on top of [`vm::preservation`].
//!
//! No loop runs more often, and no chain of script calls goes deeper, than
//! the runtime's limit allows; the limit of a new runtime is the largest
//! there is. A program that stays within the limit means the same under
//! every larger one ([`vm::limit`]).

pub mod error;
pub mod external_function;
pub mod node;
pub mod permission;
pub mod variable;
pub mod vm;
