//! The mathematical model that every contract of this crate is stated over.

use vstd::prelude::*;

verus! {

/// A term of the calculus.
pub enum Term {
    /// A reference to the variable of that name.
    Variable(Seq<char>),
    /// A function of one parameter: the parameter's name, then the body.
    Abstraction(Seq<char>, Box<Term>),
    /// A call: the function term, then the argument term.
    Application(Box<Term>, Box<Term>),
}

/// The only kind of runtime value: an abstraction together with the
/// environment that was in effect when it was evaluated.
pub struct Closure {
    pub environment: Map<Seq<char>, Closure>,
    pub parameter: Seq<char>,
    pub body: Term,
}

/// The term that refers to the variable `name`.
pub open spec fn variable(name: Seq<char>) -> Term {
    Term::Variable(name)
}

/// The term that abstracts `body` over `parameter`.
pub open spec fn abstraction(parameter: Seq<char>, body: Term) -> Term {
    Term::Abstraction(parameter, Box::new(body))
}

/// The term that applies `function` to `argument`.
pub open spec fn application(function: Term, argument: Term) -> Term {
    Term::Application(Box::new(function), Box::new(argument))
}

/// A mapping from variable names to values, one value per name.
pub type Environment = Map<Seq<char>, Closure>;

/// Why an evaluation failed.
pub enum Fault {
    /// A variable of this name was referenced where nothing binds it.
    UnboundVariable(Seq<char>),
}

/// How a finished evaluation ended.
pub type Outcome = Result<Closure, Fault>;

/// Resolves `name` in `env`: the value bound to it, or the fault that names it.
pub open spec fn lookup(env: Environment, name: Seq<char>) -> Outcome {
    if env.contains_key(name) {
        Ok(env[name])
    } else {
        Err(Fault::UnboundVariable(name))
    }
}

/// `env` with `parameter` bound to `argument`; a binding of the same name that
/// `env` already holds is hidden by the new one.
pub open spec fn extend(env: Environment, parameter: Seq<char>, argument: Closure) -> Environment {
    env.insert(parameter, argument)
}

} // verus!
