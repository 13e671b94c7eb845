//! The recursive evaluator: one native call for every call that the term
//! performs. It defines what the trampolined evaluator must compute, and is
//! meant for checking it, not for terms that recurse deeply.

use vstd::prelude::*;
use crate::semantics::{
    converges, denotation, depth_needed, evaluate, lemma_abstraction, lemma_application,
    lemma_variable,
};
use crate::syntax::Expr;
use crate::value::{bounded_outcome_of, outcome_of, Context, EvalError, Value};

verus! {

/// Evaluates `expr` under `context` by structural recursion.
///
/// The evaluation must converge: on a term that does not, the recursion would
/// never end. The result is the term's denotation: the closure it evaluates
/// to, or the unbound variable that the evaluation met first.
pub fn eval_without_trampoline(expr: Expr, context: Context) -> (result: Result<Value, EvalError>)
    requires
        converges(expr@, context@),
    ensures
        outcome_of(result) == denotation(expr@, context@),
    decreases depth_needed(expr@, context@),
{
    match expr {
        Expr::Var(name) => {
            proof {
                lemma_variable(name@, context@);
            }
            match context.get(&name) {
                Some(value) => Ok(value.clone()),
                None => Err(EvalError::UnboundVariable(name)),
            }
        },
        Expr::Abs(param, body) => {
            proof {
                lemma_abstraction(param@, body@, context@);
            }
            Ok(Value::VClosure(context, param, body))
        },
        Expr::App(f, arg) => {
            proof {
                lemma_application(f@, arg@, context@);
            }
            match eval_without_trampoline(*f, context.clone()) {
                Err(error) => Err(error),
                Ok(Value::VClosure(ctx, param, body)) => {
                    match eval_without_trampoline(*arg, context) {
                        Err(error) => Err(error),
                        Ok(arg_value) => {
                            let mut new_ctx = ctx;
                            new_ctx.insert(param, arg_value);
                            eval_without_trampoline(*body, new_ctx)
                        },
                    }
                },
            }
        },
    }
}

/// Evaluates `expr` under `context` by structural recursion, letting calls
/// nest at most `depth` deep.
///
/// Returns `None` exactly when the evaluation would have to go deeper, and
/// otherwise what the evaluation yields.
pub fn eval_without_trampoline_bounded(expr: Expr, context: Context, depth: u64) -> (result:
    Option<Result<Value, EvalError>>)
    ensures
        bounded_outcome_of(result) == evaluate(expr@, context@, depth as nat),
    decreases depth,
{
    match expr {
        Expr::Var(name) => match context.get(&name) {
            Some(value) => Some(Ok(value.clone())),
            None => Some(Err(EvalError::UnboundVariable(name))),
        },
        Expr::Abs(param, body) => Some(Ok(Value::VClosure(context, param, body))),
        Expr::App(f, arg) => {
            if depth == 0 {
                return None;
            }
            let inner: u64 = depth - 1;
            match eval_without_trampoline_bounded(*f, context.clone(), inner) {
                None => None,
                Some(Err(error)) => Some(Err(error)),
                Some(Ok(Value::VClosure(ctx, param, body))) => {
                    match eval_without_trampoline_bounded(*arg, context, inner) {
                        None => None,
                        Some(Err(error)) => Some(Err(error)),
                        Some(Ok(arg_value)) => {
                            let mut new_ctx = ctx;
                            new_ctx.insert(param, arg_value);
                            eval_without_trampoline_bounded(*body, new_ctx, inner)
                        },
                    }
                },
            }
        },
    }
}

} // verus!
