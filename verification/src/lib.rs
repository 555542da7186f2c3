//! An evaluator for propositional-logic expressions over single-letter
//! boolean variables.
//!
//! An infix expression such as `!Q & (P | R)` is first reduced to a postfix
//! (Reverse Polish) token sequence by the shunting-yard algorithm, and that
//! sequence is then evaluated against a table binding each variable letter to
//! a boolean.

pub mod bindings;
pub mod defs;
pub mod eval;
pub mod grammar;
pub mod laws;
pub mod reduce;
pub mod types;

pub use bindings::Bindings;
pub use defs::parse_definition;
pub use defs::DefLine;
pub use eval::eval_postfix;
pub use eval::EvalError;
pub use reduce::shunting_yard;
pub use reduce::SyntaxError;
pub use types::Expr;
pub use types::Prop;
