//! The meaning of a trampoline: what driving it step by step yields.
//!
//! A trampoline is either complete or holds one pending call. Invoking the
//! pending call evaluates the call's function and argument, each by driving a
//! trampoline of its own to completion, and hands back the trampoline of the
//! closure's body instead of evaluating it. Driving is defined for every
//! amount of fuel: each invoked step costs one unit, and the runs nested in a
//! step may spend what is left.

use vstd::prelude::*;
use crate::least::{least, lemma_least};
use crate::model::{extend, lookup, Closure, Environment, Outcome, Term};
use crate::semantics::{evaluate, lemma_evaluate_monotonic};

verus! {

/// A call that has been put off: the function and argument terms of an
/// application, and the environment to evaluate them under.
pub struct PendingCall {
    pub function: Term,
    pub argument: Term,
    pub environment: Environment,
}

/// The state of a trampoline.
pub enum Progress {
    /// The evaluation is over, with this outcome. This state is final.
    Complete(Outcome),
    /// One step is waiting to be invoked.
    Pending(PendingCall),
}

/// The trampoline that evaluating `term` under `env` starts with: complete for
/// a variable or an abstraction, which need no further work, and pending for
/// an application.
pub open spec fn suspend(term: Term, env: Environment) -> Progress {
    match term {
        Term::Variable(name) => Progress::Complete(lookup(env, name)),
        Term::Abstraction(parameter, body) => Progress::Complete(
            Ok(Closure { environment: env, parameter, body: *body }),
        ),
        Term::Application(function, argument) => Progress::Pending(
            PendingCall { function: *function, argument: *argument, environment: env },
        ),
    }
}

/// What driving `progress` yields on `fuel` units: its outcome, or `None`
/// where the fuel runs out first.
pub open spec fn drive(progress: Progress, fuel: nat) -> Option<Outcome>
    decreases fuel, 0nat,
{
    match progress {
        Progress::Complete(outcome) => Some(outcome),
        Progress::Pending(call) => {
            if fuel == 0 {
                None
            } else {
                match advance(call, (fuel - 1) as nat) {
                    None => None,
                    Some(next) => drive(next, (fuel - 1) as nat),
                }
            }
        },
    }
}

/// What invoking the step of `call` yields when the runs nested in it have
/// `fuel` units each: the next trampoline, or `None` where one of them runs
/// out of fuel.
///
/// The function is driven to completion, then the argument. A fault of either
/// completes the trampoline with that fault. Otherwise the next trampoline is
/// the one that the closure's body starts with, under the closure's
/// environment extended with the parameter bound to the argument.
pub open spec fn advance(call: PendingCall, fuel: nat) -> Option<Progress>
    decreases fuel, 1nat,
{
    match drive(suspend(call.function, call.environment), fuel) {
        None => None,
        Some(Err(fault)) => Some(Progress::Complete(Err(fault))),
        Some(Ok(callee)) => match drive(suspend(call.argument, call.environment), fuel) {
            None => None,
            Some(Err(fault)) => Some(Progress::Complete(Err(fault))),
            Some(Ok(value)) => Some(
                suspend(callee.body, extend(callee.environment, callee.parameter, value)),
            ),
        },
    }
}

impl PendingCall {
    /// The application that this call was put off from.
    pub open spec fn application(self) -> Term {
        Term::Application(Box::new(self.function), Box::new(self.argument))
    }

    /// The amounts of fuel on which invoking the step finishes.
    pub open spec fn finishes_at(self) -> spec_fn(nat) -> bool {
        |fuel: nat| advance(self, fuel).is_some()
    }

    /// Whether invoking the step finishes at all: whether the runs nested in
    /// it do.
    pub open spec fn converges(self) -> bool {
        exists|fuel: nat| advance(self, fuel).is_some()
    }

    /// The least fuel on which invoking the step finishes.
    pub open spec fn fuel_needed(self) -> nat {
        least(self.finishes_at())
    }

    /// The trampoline that invoking the step yields, where it finishes.
    pub open spec fn next(self) -> Progress {
        advance(self, self.fuel_needed())->0
    }
}

impl Progress {
    /// The amounts of fuel on which driving finishes.
    pub open spec fn finishes_at(self) -> spec_fn(nat) -> bool {
        |fuel: nat| drive(self, fuel).is_some()
    }

    /// Whether driving finishes at all.
    pub open spec fn terminates(self) -> bool {
        exists|fuel: nat| drive(self, fuel).is_some()
    }

    /// The least fuel on which driving finishes.
    pub open spec fn fuel_needed(self) -> nat {
        least(self.finishes_at())
    }

    /// The outcome that driving ends with, where it finishes.
    pub open spec fn result(self) -> Outcome {
        drive(self, self.fuel_needed())->0
    }
}

/// Driving the trampoline of a term yields, on every amount of fuel, exactly
/// what evaluating the term yields at that depth: the same outcome where one
/// finishes, and neither finishes where the other does not.
pub proof fn lemma_drive_evaluates(term: Term, env: Environment, fuel: nat)
    ensures
        drive(suspend(term, env), fuel) == evaluate(term, env, fuel),
    decreases fuel,
{
    if let Term::Application(function, argument) = term {
        if fuel > 0 {
            let rest = (fuel - 1) as nat;
            let call = PendingCall { function: *function, argument: *argument, environment: env };
            lemma_drive_evaluates(*function, env, rest);
            lemma_drive_evaluates(*argument, env, rest);
            if let Some(Ok(callee)) = evaluate(*function, env, rest) {
                if let Some(Ok(value)) = evaluate(*argument, env, rest) {
                    let inner = extend(callee.environment, callee.parameter, value);
                    lemma_drive_evaluates(callee.body, inner, rest);
                    assert(advance(call, rest) == Some(suspend(callee.body, inner)));
                }
            }
            assert(drive(Progress::Pending(call), fuel) == match advance(call, rest) {
                None => None,
                Some(next) => drive(next, rest),
            });
        }
    }
}

/// A pending trampoline is driven as the application that it was put off from
/// is evaluated.
pub proof fn lemma_pending_evaluates(call: PendingCall, fuel: nat)
    ensures
        drive(Progress::Pending(call), fuel) == evaluate(
            call.application(),
            call.environment,
            fuel,
        ),
{
    assert(suspend(call.application(), call.environment) == Progress::Pending(call));
    lemma_drive_evaluates(call.application(), call.environment, fuel);
}

/// Driving that finishes on some fuel finishes with the same outcome on more.
pub proof fn lemma_drive_monotonic(progress: Progress, fuel: nat, more: nat)
    requires
        drive(progress, fuel).is_some(),
        fuel <= more,
    ensures
        drive(progress, more) == drive(progress, fuel),
{
    if let Progress::Pending(call) = progress {
        lemma_pending_evaluates(call, fuel);
        lemma_pending_evaluates(call, more);
        lemma_evaluate_monotonic(call.application(), call.environment, fuel, more);
    }
}

/// A step that finishes on some fuel yields the same trampoline on more.
pub proof fn lemma_advance_monotonic(call: PendingCall, fuel: nat, more: nat)
    requires
        advance(call, fuel).is_some(),
        fuel <= more,
    ensures
        advance(call, more) == advance(call, fuel),
{
    lemma_drive_monotonic(suspend(call.function, call.environment), fuel, more);
    if let Some(Ok(callee)) = drive(suspend(call.function, call.environment), fuel) {
        lemma_drive_monotonic(suspend(call.argument, call.environment), fuel, more);
    }
}

/// Driving that finishes on some fuel terminates, needs no more than that, and
/// results in what it yields there.
pub proof fn lemma_result_at(progress: Progress, fuel: nat)
    requires
        drive(progress, fuel).is_some(),
    ensures
        progress.terminates(),
        progress.fuel_needed() <= fuel,
        drive(progress, fuel) == Some(progress.result()),
{
    lemma_least(progress.finishes_at(), fuel);
    lemma_drive_monotonic(progress, progress.fuel_needed(), fuel);
}

/// A step that finishes on some fuel converges, needs no more than that, and
/// its next trampoline is what it yields there.
pub proof fn lemma_next_at(call: PendingCall, fuel: nat)
    requires
        advance(call, fuel).is_some(),
    ensures
        call.converges(),
        call.fuel_needed() <= fuel,
        advance(call, fuel) == Some(call.next()),
{
    lemma_least(call.finishes_at(), fuel);
    lemma_advance_monotonic(call, call.fuel_needed(), fuel);
}

/// A complete trampoline terminates, with the outcome that it holds.
pub proof fn lemma_complete(outcome: Outcome)
    ensures
        Progress::Complete(outcome).terminates(),
        Progress::Complete(outcome).result() == outcome,
{
    lemma_result_at(Progress::Complete(outcome), 0);
}

/// One turn of the driver loop. Where a pending trampoline terminates, its
/// step finishes, and the trampoline that the step yields terminates with the
/// same result on less fuel.
pub proof fn lemma_pending(call: PendingCall)
    requires
        Progress::Pending(call).terminates(),
    ensures
        call.converges(),
        call.fuel_needed() < Progress::Pending(call).fuel_needed(),
        call.next().terminates(),
        call.next().fuel_needed() < Progress::Pending(call).fuel_needed(),
        call.next().result() == Progress::Pending(call).result(),
{
    let whole = Progress::Pending(call);
    let some = choose|fuel: nat| drive(whole, fuel).is_some();
    lemma_result_at(whole, some);
    lemma_least(whole.finishes_at(), some);
    let rest = (whole.fuel_needed() - 1) as nat;
    lemma_next_at(call, rest);
    lemma_result_at(call.next(), rest);
}

/// What invoking a step that finishes yields, in terms of the runs nested in
/// it. See [`lemma_step`].
pub open spec fn step_unfolds(call: PendingCall) -> bool {
    let function = suspend(call.function, call.environment);
    let argument = suspend(call.argument, call.environment);
    &&& function.terminates()
    &&& function.fuel_needed() <= call.fuel_needed()
    &&& match function.result() {
        Err(fault) => call.next() == Progress::Complete(Err(fault)),
        Ok(callee) => {
            &&& argument.terminates()
            &&& argument.fuel_needed() <= call.fuel_needed()
            &&& match argument.result() {
                Err(fault) => call.next() == Progress::Complete(Err(fault)),
                Ok(value) => call.next() == suspend(
                    callee.body,
                    extend(callee.environment, callee.parameter, value),
                ),
            }
        },
    }
}

/// One step. Where it finishes, the run of the function terminates; if that
/// run faults, the step completes with its fault. Otherwise the run of the
/// argument terminates; if that run faults, the step completes with its fault.
/// Otherwise the step yields the trampoline of the closure's body under the
/// closure's environment extended with the argument. Neither run needs more
/// fuel than the step.
pub proof fn lemma_step(call: PendingCall)
    requires
        call.converges(),
    ensures
        step_unfolds(call),
{
    let some = choose|fuel: nat| advance(call, fuel).is_some();
    lemma_next_at(call, some);
    lemma_least(call.finishes_at(), some);
    let fuel = call.fuel_needed();
    lemma_result_at(suspend(call.function, call.environment), fuel);
    if let Ok(callee) = suspend(call.function, call.environment).result() {
        lemma_result_at(suspend(call.argument, call.environment), fuel);
    }
}

} // verus!
