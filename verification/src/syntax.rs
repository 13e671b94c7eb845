//! The executable syntax tree.

use vstd::prelude::*;
use vstd::std_specs::cmp::PartialEqSpecImpl;
use crate::model::Term;

verus! {

/// A term of the calculus, as a tree that owns its subterms.
#[derive(Debug)]
pub enum Expr {
    /// A reference to the variable of that name.
    Var(String),
    /// A function of one parameter: the parameter's name, then the body.
    Abs(String, Box<Expr>),
    /// A call: the function term, then the argument term.
    App(Box<Expr>, Box<Expr>),
}

impl Expr {
    /// The term that this tree denotes.
    pub open spec fn term(&self) -> Term
        decreases self,
    {
        match self {
            Expr::Var(name) => Term::Variable(name@),
            Expr::Abs(param, body) => Term::Abstraction(param@, Box::new(body.term())),
            Expr::App(f, arg) => Term::Application(Box::new(f.term()), Box::new(arg.term())),
        }
    }
}

impl View for Expr {
    type V = Term;

    open spec fn view(&self) -> Term {
        self.term()
    }
}

impl Clone for Expr {
    /// A deep copy: a tree of its own that denotes the same term.
    fn clone(&self) -> (copy: Self)
        ensures
            copy@ == self@,
        decreases self,
    {
        match self {
            Expr::Var(name) => Expr::Var(name.clone()),
            Expr::Abs(param, body) => Expr::Abs(param.clone(), Box::new((&**body).clone())),
            Expr::App(f, arg) => Expr::App(
                Box::new((&**f).clone()),
                Box::new((&**arg).clone()),
            ),
        }
    }
}

impl PartialEq for Expr {
    /// Structural equality: the same shape with the same names.
    fn eq(&self, other: &Self) -> (equal: bool)
        decreases self,
    {
        match self {
            Expr::Var(name) => match other {
                Expr::Var(other_name) => name.eq(other_name),
                _ => false,
            },
            Expr::Abs(param, body) => match other {
                Expr::Abs(other_param, other_body) => param.eq(other_param) && (&**body).eq(
                    &**other_body,
                ),
                _ => false,
            },
            Expr::App(f, arg) => match other {
                Expr::App(other_f, other_arg) => (&**f).eq(&**other_f) && (&**arg).eq(
                    &**other_arg,
                ),
                _ => false,
            },
        }
    }
}

impl PartialEqSpecImpl for Expr {
    open spec fn obeys_eq_spec() -> bool {
        true
    }

    open spec fn eq_spec(&self, other: &Self) -> bool {
        self@ == other@
    }
}

} // verus!
