//! The trampoline and the evaluator built on it.
//!
//! Instead of calling itself for the body of a closure, the evaluator hands
//! back a pending step, and a driver loop invokes one step after another. A
//! chain of calls of any length is then worked off on a native stack that
//! does not grow with it.

use vstd::prelude::*;
use crate::stepping::{
    advance, drive, lemma_complete, lemma_pending, lemma_step, suspend, PendingCall, Progress,
};
use crate::syntax::Expr;
use crate::value::{bounded_outcome_of, outcome_of, Context, EvalError, Value};

verus! {

/// One deferred unit of work: a call whose function and argument are both
/// still to be evaluated.
#[derive(Debug)]
pub struct Step {
    /// The term whose value is to be called.
    pub function: Expr,
    /// The term whose value is to be passed.
    pub argument: Expr,
    /// The context to evaluate both under.
    pub context: Context,
}

/// A computation that is either finished or has one step waiting.
#[derive(Debug)]
pub enum Trampoline {
    /// One step is waiting; invoking it yields the next trampoline.
    Continue(Step),
    /// The evaluation is over: the value, or the error that ended it. Nothing
    /// follows this state.
    Complete(Result<Value, EvalError>),
}

impl View for Step {
    type V = PendingCall;

    open spec fn view(&self) -> PendingCall {
        PendingCall {
            function: self.function@,
            argument: self.argument@,
            environment: self.context@,
        }
    }
}

impl View for Trampoline {
    type V = Progress;

    open spec fn view(&self) -> Progress {
        match self {
            Trampoline::Continue(step) => Progress::Pending(step@),
            Trampoline::Complete(result) => Progress::Complete(outcome_of(*result)),
        }
    }
}

/// What a trampoline denotes that is missing where a bound was reached first.
pub open spec fn bounded_progress_of(next: Option<Trampoline>) -> Option<Progress> {
    match next {
        Some(trampoline) => Some(trampoline@),
        None => None,
    }
}

/// Starts the evaluation of `expr` under `context` without running it.
///
/// A variable or an abstraction is complete at once: with the value that the
/// context binds to the variable, with the error that names the variable
/// where nothing binds it, or with the closure over `context`. An application
/// becomes a pending step.
pub fn eval_with_trampoline(expr: Expr, context: Context) -> (trampoline: Trampoline)
    ensures
        trampoline@ == suspend(expr@, context@),
{
    match expr {
        Expr::Var(name) => Trampoline::Complete(
            match context.get(&name) {
                Some(value) => Ok(value.clone()),
                None => Err(EvalError::UnboundVariable(name)),
            },
        ),
        Expr::Abs(param, body) => Trampoline::Complete(Ok(Value::VClosure(context, param, body))),
        Expr::App(f, arg) => Trampoline::Continue(
            Step { function: *f, argument: *arg, context },
        ),
    }
}

impl Step {
    /// Invokes the step: evaluates the function, then the argument, each by
    /// running a trampoline of its own, and yields the trampoline of the
    /// closure's body without running it.
    ///
    /// Both nested runs must terminate. An error of either completes the
    /// trampoline with that error.
    pub fn invoke(self) -> (next: Trampoline)
        requires
            self@.converges(),
        ensures
            next@ == self@.next(),
        decreases self@.fuel_needed(), 1nat,
    {
        proof {
            lemma_step(self@);
        }
        let Step { function, argument, context } = self;
        let func_value_tramp = eval_with_trampoline(function, context.clone());
        let arg_value_tramp = eval_with_trampoline(argument, context);
        match func_value_tramp.run() {
            Err(error) => Trampoline::Complete(Err(error)),
            Ok(Value::VClosure(ctx, param, body)) => match arg_value_tramp.run() {
                Err(error) => Trampoline::Complete(Err(error)),
                Ok(arg_value) => {
                    let mut new_ctx = ctx;
                    new_ctx.insert(param, arg_value);
                    eval_with_trampoline(*body, new_ctx)
                },
            },
        }
    }

    /// Invokes the step with `fuel` units for each of the two runs nested in
    /// it.
    ///
    /// Returns `None` exactly when one of them runs out of fuel, and otherwise
    /// the next trampoline.
    pub fn invoke_bounded(self, fuel: u64) -> (next: Option<Trampoline>)
        ensures
            bounded_progress_of(next) == advance(self@, fuel as nat),
        decreases fuel, 1nat,
    {
        let Step { function, argument, context } = self;
        let func_value_tramp = eval_with_trampoline(function, context.clone());
        let arg_value_tramp = eval_with_trampoline(argument, context);
        match func_value_tramp.run_bounded(fuel) {
            None => None,
            Some(Err(error)) => Some(Trampoline::Complete(Err(error))),
            Some(Ok(Value::VClosure(ctx, param, body))) => match arg_value_tramp.run_bounded(fuel) {
                None => None,
                Some(Err(error)) => Some(Trampoline::Complete(Err(error))),
                Some(Ok(arg_value)) => {
                    let mut new_ctx = ctx;
                    new_ctx.insert(param, arg_value);
                    Some(eval_with_trampoline(*body, new_ctx))
                },
            },
        }
    }
}

impl Trampoline {
    /// Drives the trampoline to completion: invokes pending steps, one after
    /// another, until none is left, and returns what the last one completed
    /// with.
    ///
    /// The trampoline must terminate: on one that does not, the loop would
    /// never end.
    pub fn run(self) -> (result: Result<Value, EvalError>)
        requires
            self@.terminates(),
        ensures
            outcome_of(result) == self@.result(),
        decreases self@.fuel_needed(), 0nat,
    {
        let ghost start = self@;
        let mut current_trampoline = self;
        loop
            invariant
                current_trampoline@.terminates(),
                current_trampoline@.result() == start.result(),
                current_trampoline@.fuel_needed() <= start.fuel_needed(),
                start == self@,
            decreases current_trampoline@.fuel_needed(),
        {
            match current_trampoline {
                Trampoline::Complete(value) => {
                    proof {
                        lemma_complete(outcome_of(value));
                    }
                    return value;
                },
                Trampoline::Continue(step) => {
                    proof {
                        lemma_pending(step@);
                    }
                    current_trampoline = step.invoke();
                },
            }
        }
    }

    /// Drives the trampoline on `fuel` units: each invoked step costs one, and
    /// the runs nested in a step may spend what is left at that point.
    ///
    /// Returns `None` exactly when the fuel runs out before the trampoline is
    /// complete, and otherwise what it completed with.
    pub fn run_bounded(self, fuel: u64) -> (result: Option<Result<Value, EvalError>>)
        ensures
            bounded_outcome_of(result) == drive(self@, fuel as nat),
        decreases fuel, 0nat,
    {
        let ghost start = self@;
        let mut current_trampoline = self;
        let mut remaining: u64 = fuel;
        loop
            invariant
                remaining <= fuel,
                drive(current_trampoline@, remaining as nat) == drive(start, fuel as nat),
                start == self@,
            decreases remaining,
        {
            match current_trampoline {
                Trampoline::Complete(value) => {
                    return Some(value);
                },
                Trampoline::Continue(step) => {
                    if remaining == 0 {
                        return None;
                    }
                    remaining = remaining - 1;
                    match step.invoke_bounded(remaining) {
                        None => {
                            return None;
                        },
                        Some(next) => {
                            current_trampoline = next;
                        },
                    }
                },
            }
        }
    }
}

} // verus!
