//! Flag declaration and typed value extraction for command-line argument
//! handling, together with a polymorphic action wrapper that erases a unary
//! callback behind a uniform, cloneable handle.

pub mod action;
pub mod flag;
pub mod parse;

pub use action::Action;
pub use action::Context;
pub use flag::Flag;
pub use flag::FlagError;
pub use flag::FlagType;
pub use flag::FlagValue;
