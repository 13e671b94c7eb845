//! A call-by-value evaluator for the untyped lambda calculus, in two forms: a
//! plain recursive evaluator, and one built on a trampoline whose driver loop
//! replaces the recursion into a closure's body. Both are specified against one
//! mathematical semantics and proved to compute the same results.

pub mod laws;
pub mod least;
pub mod model;
pub mod naive;
pub mod semantics;
pub mod stepping;
pub mod syntax;
pub mod trampoline;
pub mod value;

pub use naive::{eval_without_trampoline, eval_without_trampoline_bounded};
pub use syntax::Expr;
pub use trampoline::{eval_with_trampoline, Step, Trampoline};
pub use value::{Context, EvalError, Value};
