//! The virtual machine: scopes, the model of evaluation, the evaluator, and
//! what is proved of them.

pub mod evaluator;
pub mod gpsl;
pub mod laws;
pub mod limit;
pub mod model;
pub mod operator;
pub mod preservation;
pub mod scope;
