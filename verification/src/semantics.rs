//! The meaning of a term: what evaluating it under an environment yields.
//!
//! Evaluation is defined for every nesting depth of calls. A term converges
//! when some depth is enough for it; its denotation is what it evaluates to at
//! such a depth, and does not depend on which one.

use vstd::prelude::*;
use crate::least::{least, lemma_least};
use crate::model::{
    abstraction, application, extend, lookup, variable, Closure, Environment, Fault, Outcome, Term,
};

verus! {

/// What evaluating `term` under `env` yields when calls may nest `depth` deep:
/// the outcome, or `None` where the evaluation would have to go deeper.
///
/// A variable is looked up. An abstraction becomes a closure over `env`. An
/// application evaluates its function, then its argument, both under `env`,
/// and then the closure's body under the closure's own environment extended
/// with the parameter bound to the argument. The first fault ends the
/// evaluation.
pub open spec fn evaluate(term: Term, env: Environment, depth: nat) -> Option<Outcome>
    decreases depth,
{
    match term {
        Term::Variable(name) => Some(lookup(env, name)),
        Term::Abstraction(parameter, body) => Some(
            Ok(Closure { environment: env, parameter, body: *body }),
        ),
        Term::Application(function, argument) => {
            if depth == 0 {
                None
            } else {
                match evaluate(*function, env, (depth - 1) as nat) {
                    None => None,
                    Some(Err(fault)) => Some(Err(fault)),
                    Some(Ok(callee)) => match evaluate(*argument, env, (depth - 1) as nat) {
                        None => None,
                        Some(Err(fault)) => Some(Err(fault)),
                        Some(Ok(value)) => evaluate(
                            callee.body,
                            extend(callee.environment, callee.parameter, value),
                            (depth - 1) as nat,
                        ),
                    },
                }
            }
        },
    }
}

/// The depths at which the evaluation of `term` under `env` finishes.
pub open spec fn finishes_at(term: Term, env: Environment) -> spec_fn(nat) -> bool {
    |depth: nat| evaluate(term, env, depth).is_some()
}

/// Whether the evaluation of `term` under `env` finishes at all.
pub open spec fn converges(term: Term, env: Environment) -> bool {
    exists|depth: nat| evaluate(term, env, depth).is_some()
}

/// The least depth at which the evaluation of a converging term finishes.
pub open spec fn depth_needed(term: Term, env: Environment) -> nat {
    least(finishes_at(term, env))
}

/// What a converging term evaluates to.
pub open spec fn denotation(term: Term, env: Environment) -> Outcome {
    evaluate(term, env, depth_needed(term, env))->0
}

/// An evaluation that finishes at one depth finishes with the same outcome at
/// every greater depth.
pub proof fn lemma_evaluate_monotonic(term: Term, env: Environment, depth: nat, deeper: nat)
    requires
        evaluate(term, env, depth).is_some(),
        depth <= deeper,
    ensures
        evaluate(term, env, deeper) == evaluate(term, env, depth),
    decreases depth,
{
    if let Term::Application(function, argument) = term {
        let d = (depth - 1) as nat;
        let e = (deeper - 1) as nat;
        lemma_evaluate_monotonic(*function, env, d, e);
        if let Some(Ok(callee)) = evaluate(*function, env, d) {
            lemma_evaluate_monotonic(*argument, env, d, e);
            if let Some(Ok(value)) = evaluate(*argument, env, d) {
                lemma_evaluate_monotonic(
                    callee.body,
                    extend(callee.environment, callee.parameter, value),
                    d,
                    e,
                );
            }
        }
    }
}

/// An evaluation that finishes at some depth converges, needs no more than
/// that depth, and denotes what it yields there.
pub proof fn lemma_denotation_at(term: Term, env: Environment, depth: nat)
    requires
        evaluate(term, env, depth).is_some(),
    ensures
        converges(term, env),
        depth_needed(term, env) <= depth,
        evaluate(term, env, depth) == Some(denotation(term, env)),
{
    lemma_least(finishes_at(term, env), depth);
    lemma_evaluate_monotonic(term, env, depth_needed(term, env), depth);
}

/// A converging term finishes at the depth it needs, and at none below.
pub proof fn lemma_depth_needed(term: Term, env: Environment)
    requires
        converges(term, env),
    ensures
        evaluate(term, env, depth_needed(term, env)) == Some(denotation(term, env)),
        forall|depth: nat|
            depth < depth_needed(term, env) ==> (#[trigger] evaluate(term, env, depth)).is_none(),
{
    let depth = choose|depth: nat| evaluate(term, env, depth).is_some();
    lemma_least(finishes_at(term, env), depth);
    assert forall|k: nat| k < depth_needed(term, env) implies (#[trigger] evaluate(
        term,
        env,
        k,
    )).is_none() by {
        assert(!finishes_at(term, env)(k));
    }
}

/// A variable converges at once, to whatever the environment binds it to.
pub proof fn lemma_variable(name: Seq<char>, env: Environment)
    ensures
        converges(variable(name), env),
        depth_needed(variable(name), env) == 0,
        denotation(variable(name), env) == lookup(env, name),
{
    lemma_denotation_at(variable(name), env, 0);
}

/// An abstraction converges at once, to a closure over the environment.
pub proof fn lemma_abstraction(parameter: Seq<char>, body: Term, env: Environment)
    ensures
        converges(abstraction(parameter, body), env),
        depth_needed(abstraction(parameter, body), env) == 0,
        denotation(abstraction(parameter, body), env) == Ok::<Closure, Fault>(
            Closure { environment: env, parameter, body },
        ),
{
    lemma_denotation_at(abstraction(parameter, body), env, 0);
}

/// What the parts of a converging application do, and what the application
/// denotes. See [`lemma_application`].
pub open spec fn application_unfolds(function: Term, argument: Term, env: Environment) -> bool {
    let whole = application(function, argument);
    &&& converges(function, env)
    &&& depth_needed(function, env) < depth_needed(whole, env)
    &&& match denotation(function, env) {
        Err(fault) => denotation(whole, env) == Err::<Closure, Fault>(fault),
        Ok(callee) => {
            &&& converges(argument, env)
            &&& depth_needed(argument, env) < depth_needed(whole, env)
            &&& match denotation(argument, env) {
                Err(fault) => denotation(whole, env) == Err::<Closure, Fault>(fault),
                Ok(value) => {
                    let inner = extend(callee.environment, callee.parameter, value);
                    &&& converges(callee.body, inner)
                    &&& depth_needed(callee.body, inner) < depth_needed(whole, env)
                    &&& denotation(whole, env) == denotation(callee.body, inner)
                },
            }
        },
    }
}

/// How the denotation of an application is made of the denotations of its
/// parts.
///
/// The function converges. If it faults, so does the application, with that
/// fault. Otherwise the argument converges; if it faults, so does the
/// application. Otherwise the closure's body converges under the closure's
/// own environment extended with the argument, not under the caller's, and the
/// application denotes what the body denotes there. Each part needs less depth
/// than the application.
pub proof fn lemma_application(function: Term, argument: Term, env: Environment)
    requires
        converges(application(function, argument), env),
    ensures
        application_unfolds(function, argument, env),
{
    let whole = application(function, argument);
    lemma_depth_needed(whole, env);
    let inner = (depth_needed(whole, env) - 1) as nat;
    lemma_denotation_at(function, env, inner);
    if let Ok(callee) = denotation(function, env) {
        lemma_denotation_at(argument, env, inner);
        if let Ok(value) = denotation(argument, env) {
            lemma_denotation_at(
                callee.body,
                extend(callee.environment, callee.parameter, value),
                inner,
            );
        }
    }
}

/// Whether every part of an application that gets evaluated converges: the
/// function; the argument, unless the function faults; and the closure's body
/// under its extended environment, unless the argument faults.
pub open spec fn parts_converge(function: Term, argument: Term, env: Environment) -> bool {
    &&& converges(function, env)
    &&& denotation(function, env) matches Ok(callee) ==> {
        &&& converges(argument, env)
        &&& denotation(argument, env) matches Ok(value) ==> converges(
            callee.body,
            extend(callee.environment, callee.parameter, value),
        )
    }
}

/// An application converges exactly when the parts of it that get evaluated
/// do.
pub proof fn lemma_application_converges(function: Term, argument: Term, env: Environment)
    ensures
        converges(application(function, argument), env) == parts_converge(function, argument, env),
{
    let whole = application(function, argument);
    if converges(whole, env) {
        lemma_application(function, argument, env);
    }
    if parts_converge(function, argument, env) {
        lemma_depth_needed(function, env);
        let f = depth_needed(function, env);
        match denotation(function, env) {
            Err(fault) => {
                lemma_denotation_at(whole, env, f + 1);
            },
            Ok(callee) => {
                lemma_depth_needed(argument, env);
                let a = depth_needed(argument, env);
                let fa = if f <= a { a } else { f };
                lemma_evaluate_monotonic(function, env, f, fa);
                lemma_evaluate_monotonic(argument, env, a, fa);
                match denotation(argument, env) {
                    Err(fault) => {
                        lemma_denotation_at(whole, env, fa + 1);
                    },
                    Ok(value) => {
                        let inner = extend(callee.environment, callee.parameter, value);
                        lemma_depth_needed(callee.body, inner);
                        let b = depth_needed(callee.body, inner);
                        let all = if fa <= b { b } else { fa };
                        lemma_evaluate_monotonic(function, env, f, all);
                        lemma_evaluate_monotonic(argument, env, a, all);
                        lemma_evaluate_monotonic(callee.body, inner, b, all);
                        lemma_denotation_at(whole, env, all + 1);
                    },
                }
            },
        }
    }
}

} // verus!
