//! What holds of the two evaluators and of scoping, for all terms and
//! environments.

use vstd::prelude::*;
use crate::model::{
    abstraction, application, extend, lookup, variable, Closure, Environment, Fault, Term,
};
use crate::semantics::{
    converges, denotation, evaluate, lemma_abstraction, lemma_application,
    lemma_application_converges, lemma_denotation_at, lemma_evaluate_monotonic, lemma_variable,
};
use crate::stepping::{
    drive, lemma_drive_evaluates, lemma_drive_monotonic, lemma_result_at, suspend, Progress,
};

verus! {

/// The two evaluators agree. The trampoline of a term terminates exactly when
/// the recursive evaluation of the term converges, and then it results in the
/// term's denotation: the same closure, or the same fault.
pub proof fn law_trampoline_agrees(term: Term, env: Environment)
    ensures
        suspend(term, env).terminates() == converges(term, env),
        converges(term, env) ==> suspend(term, env).result() == denotation(term, env),
{
    if converges(term, env) {
        let depth = choose|depth: nat| evaluate(term, env, depth).is_some();
        lemma_drive_evaluates(term, env, depth);
        lemma_denotation_at(term, env, depth);
        lemma_result_at(suspend(term, env), depth);
    }
    if suspend(term, env).terminates() {
        let fuel = choose|fuel: nat| drive(suspend(term, env), fuel).is_some();
        lemma_drive_evaluates(term, env, fuel);
    }
}

/// Evaluation is deterministic: whatever two depths an evaluation finishes
/// at, it finishes with the same outcome. The environment is a value, and no
/// evaluation changes it.
pub proof fn law_evaluation_is_deterministic(
    term: Term,
    env: Environment,
    depth: nat,
    other_depth: nat,
)
    requires
        evaluate(term, env, depth).is_some(),
        evaluate(term, env, other_depth).is_some(),
    ensures
        evaluate(term, env, depth) == evaluate(term, env, other_depth),
{
    if depth <= other_depth {
        lemma_evaluate_monotonic(term, env, depth, other_depth);
    } else {
        lemma_evaluate_monotonic(term, env, other_depth, depth);
    }
}

/// Driving is deterministic: whatever two amounts of fuel a trampoline
/// finishes on, it finishes with the same outcome.
pub proof fn law_driving_is_deterministic(progress: Progress, fuel: nat, other_fuel: nat)
    requires
        drive(progress, fuel).is_some(),
        drive(progress, other_fuel).is_some(),
    ensures
        drive(progress, fuel) == drive(progress, other_fuel),
{
    if fuel <= other_fuel {
        lemma_drive_monotonic(progress, fuel, other_fuel);
    } else {
        lemma_drive_monotonic(progress, other_fuel, fuel);
    }
}

/// Extending an environment binds the new name to the new value and leaves
/// every other name as it was.
pub proof fn law_extension(
    env: Environment,
    parameter: Seq<char>,
    value: Closure,
    name: Seq<char>,
)
    ensures
        lookup(extend(env, parameter, value), name) == if name == parameter {
            Ok::<Closure, Fault>(value)
        } else {
            lookup(env, name)
        },
{
}

/// The term `((\x. \x. x) outer) inner`: two nested abstractions that bind the
/// same name, applied to one argument each.
pub open spec fn nested_binders(name: Seq<char>, outer: Term, inner: Term) -> Term {
    application(
        application(abstraction(name, abstraction(name, variable(name))), outer),
        inner,
    )
}

/// The innermost binding of a name shadows the outer ones. Where two nested
/// abstractions bind the same name, the name stands in the inner body for the
/// inner argument, whatever the outer one was.
pub proof fn law_inner_binding_shadows(
    name: Seq<char>,
    outer: Term,
    inner: Term,
    env: Environment,
)
    requires
        converges(outer, env),
        denotation(outer, env) is Ok,
        converges(inner, env),
        denotation(inner, env) is Ok,
    ensures
        converges(nested_binders(name, outer, inner), env),
        denotation(nested_binders(name, outer, inner), env) == denotation(inner, env),
{
    let binders = abstraction(name, abstraction(name, variable(name)));
    let first = denotation(outer, env)->Ok_0;
    let second = denotation(inner, env)->Ok_0;
    let once = extend(env, name, first);
    let twice = extend(once, name, second);
    lemma_abstraction(name, abstraction(name, variable(name)), env);
    lemma_abstraction(name, variable(name), once);
    lemma_application_converges(binders, outer, env);
    lemma_application(binders, outer, env);
    lemma_variable(name, twice);
    lemma_application_converges(application(binders, outer), inner, env);
    lemma_application(application(binders, outer), inner, env);
}

/// The term `(\other. name) ((\name. name) argument)`: a call that binds
/// `name`, made while the argument of a function is evaluated whose body
/// refers to `name` from outside that call.
pub open spec fn reference_after_call(name: Seq<char>, other: Seq<char>, argument: Term) -> Term {
    application(
        abstraction(other, variable(name)),
        application(abstraction(name, variable(name)), argument),
    )
}

/// A binding does not leak out of the call that made it. A name that is bound
/// only while a call is evaluated is unbound again where the call is over:
/// a reference to it from outside meets no binding.
pub proof fn law_binding_does_not_leak(
    name: Seq<char>,
    other: Seq<char>,
    argument: Term,
    env: Environment,
)
    requires
        name != other,
        !env.contains_key(name),
        converges(argument, env),
        denotation(argument, env) is Ok,
    ensures
        converges(reference_after_call(name, other, argument), env),
        denotation(reference_after_call(name, other, argument), env) == Err::<Closure, Fault>(
            Fault::UnboundVariable(name),
        ),
{
    let value = denotation(argument, env)->Ok_0;
    let identity = abstraction(name, variable(name));
    let call = application(identity, argument);
    let outside = abstraction(other, variable(name));
    lemma_abstraction(name, variable(name), env);
    lemma_variable(name, extend(env, name, value));
    lemma_application_converges(identity, argument, env);
    lemma_application(identity, argument, env);
    lemma_abstraction(other, variable(name), env);
    lemma_variable(name, extend(env, other, value));
    lemma_application_converges(outside, call, env);
    lemma_application(outside, call, env);
}

/// A variable that nothing binds fails with the fault that names it, under
/// both evaluators and at once.
pub proof fn law_unbound_variable(name: Seq<char>, env: Environment)
    requires
        !env.contains_key(name),
    ensures
        converges(variable(name), env),
        denotation(variable(name), env) == Err::<Closure, Fault>(Fault::UnboundVariable(name)),
        suspend(variable(name), env).terminates(),
        suspend(variable(name), env).result() == Err::<Closure, Fault>(
            Fault::UnboundVariable(name),
        ),
{
    lemma_variable(name, env);
    law_trampoline_agrees(variable(name), env);
}

/// The term `\name. name name`, which applies its argument to itself.
pub open spec fn self_application(name: Seq<char>) -> Term {
    abstraction(name, application(variable(name), variable(name)))
}

/// The term that applies self-application to itself.
pub open spec fn omega(name: Seq<char>) -> Term {
    application(self_application(name), self_application(name))
}

/// The closure that self-application evaluates to under `env`.
pub open spec fn self_applier(name: Seq<char>, env: Environment) -> Closure {
    Closure {
        environment: env,
        parameter: name,
        body: application(variable(name), variable(name)),
    }
}

/// Once the self-applying closure is bound to its own parameter, the call of
/// that parameter on itself finishes at no depth.
proof fn lemma_self_call_diverges(name: Seq<char>, env: Environment, depth: nat)
    ensures
        evaluate(
            application(variable(name), variable(name)),
            extend(env, name, self_applier(name, env)),
            depth,
        ).is_none(),
    decreases depth,
{
    if depth > 0 {
        let bound = extend(env, name, self_applier(name, env));
        let inner = (depth - 1) as nat;
        lemma_self_call_diverges(name, env, inner);
        assert(evaluate(variable(name), bound, inner) == Some(
            Ok::<Closure, Fault>(self_applier(name, env)),
        ));
    }
}

/// The self-applying term loops: under no environment does its evaluation
/// finish at any depth, nor its trampoline on any amount of fuel.
pub proof fn law_omega_diverges(name: Seq<char>, env: Environment)
    ensures
        forall|depth: nat| (#[trigger] evaluate(omega(name), env, depth)).is_none(),
        forall|fuel: nat| (#[trigger] drive(suspend(omega(name), env), fuel)).is_none(),
        !converges(omega(name), env),
        !suspend(omega(name), env).terminates(),
{
    assert forall|depth: nat| (#[trigger] evaluate(omega(name), env, depth)).is_none() by {
        if depth > 0 {
            let inner = (depth - 1) as nat;
            lemma_self_call_diverges(name, env, inner);
            assert(evaluate(self_application(name), env, inner) == Some(
                Ok::<Closure, Fault>(self_applier(name, env)),
            ));
        }
    }
    assert forall|fuel: nat| (#[trigger] drive(suspend(omega(name), env), fuel)).is_none() by {
        lemma_drive_evaluates(omega(name), env, fuel);
    }
}

} // verus!
