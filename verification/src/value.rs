//! Runtime values, the contexts that bind names to them, and evaluation errors.

use vstd::prelude::*;
use vstd::std_specs::cmp::PartialEqSpecImpl;
use crate::model::{extend, Closure, Environment, Fault, Outcome};
use crate::syntax::Expr;

verus! {

/// The only failure an evaluation can end in.
#[derive(Debug)]
pub enum EvalError {
    /// A variable of this name was referenced where nothing binds it.
    UnboundVariable(String),
}

/// The result of evaluating a term.
#[derive(Debug)]
pub enum Value {
    /// A function: the context it was created in, the name of its parameter,
    /// and its body. The context is the function's own copy; nothing that
    /// happens to the scope it was taken from reaches it.
    VClosure(Context, String, Box<Expr>),
}

/// One name bound to one value.
#[derive(Debug)]
struct Binding {
    name: String,
    value: Value,
}

/// A mapping from variable names to values.
///
/// No name occurs twice among the bindings it holds: binding a name again
/// replaces the name's value.
#[derive(Debug)]
pub struct Context {
    bindings: Vec<Binding>,
}

impl View for EvalError {
    type V = Fault;

    open spec fn view(&self) -> Fault {
        match self {
            EvalError::UnboundVariable(name) => Fault::UnboundVariable(name@),
        }
    }
}

impl Value {
    /// The closure that this value denotes.
    pub open spec fn closure(&self) -> Closure
        decreases self,
    {
        match self {
            Value::VClosure(context, parameter, body) => Closure {
                environment: context.environment(),
                parameter: parameter@,
                body: body.term(),
            },
        }
    }
}

impl View for Value {
    type V = Closure;

    open spec fn view(&self) -> Closure {
        self.closure()
    }
}

impl Context {
    /// No name is bound twice.
    #[verifier::type_invariant]
    spec fn names_are_unique(&self) -> bool {
        forall|i: int, j: int|
            0 <= i < j < self.bindings@.len() ==> (#[trigger] self.bindings@[i]).name@ != (
            #[trigger] self.bindings@[j]).name@
    }

    /// The environment that the first `n` bindings denote.
    spec fn prefix(&self, n: nat) -> Environment
        decreases self, 0nat, n,
    {
        if n == 0 || n > self.bindings@.len() {
            Map::empty()
        } else {
            self.prefix((n - 1) as nat).insert(
                self.bindings@[n - 1].name@,
                self.bindings@[n - 1].value.closure(),
            )
        }
    }

    /// The environment that this context denotes.
    pub closed spec fn environment(&self) -> Environment
        decreases self, 1nat, 0nat,
    {
        self.prefix(self.bindings@.len())
    }
}

impl View for Context {
    type V = Environment;

    open spec fn view(&self) -> Environment {
        self.environment()
    }
}

/// What a finished evaluation's result denotes.
pub open spec fn outcome_of(result: Result<Value, EvalError>) -> Outcome {
    match result {
        Ok(value) => Ok(value@),
        Err(error) => Err(error@),
    }
}

/// What a result denotes that is missing where a bound was reached first.
pub open spec fn bounded_outcome_of(result: Option<Result<Value, EvalError>>) -> Option<Outcome> {
    match result {
        Some(finished) => Some(outcome_of(finished)),
        None => None,
    }
}

impl Context {
    /// Bindings that `name` does not occur among leave its lookup untouched.
    proof fn lemma_prefix_skips(&self, from: nat, to: nat, name: Seq<char>)
        requires
            from <= to <= self.bindings@.len(),
            forall|j: int| from <= j < to ==> (#[trigger] self.bindings@[j]).name@ != name,
        ensures
            self.prefix(to).contains_key(name) == self.prefix(from).contains_key(name),
            self.prefix(to).contains_key(name) ==> self.prefix(to)[name] == self.prefix(from)[name],
        decreases to,
    {
        if from < to {
            self.lemma_prefix_skips(from, (to - 1) as nat, name);
        }
    }

    /// Two contexts whose first `n` bindings denote the same names and values
    /// denote the same environment up to there.
    proof fn lemma_prefix_congruent(&self, other: &Context, n: nat)
        requires
            n <= self.bindings@.len(),
            n <= other.bindings@.len(),
            forall|j: int|
                0 <= j < n ==> (#[trigger] self.bindings@[j]).name@ == other.bindings@[j].name@
                    && self.bindings@[j].value@ == other.bindings@[j].value@,
        ensures
            self.prefix(n) == other.prefix(n),
        decreases n,
    {
        if n > 0 {
            self.lemma_prefix_congruent(other, (n - 1) as nat);
        }
    }

    /// Every name in the denoted environment is the name of some binding.
    proof fn lemma_prefix_names(&self, n: nat, name: Seq<char>)
        requires
            n <= self.bindings@.len(),
            self.prefix(n).contains_key(name),
        ensures
            exists|j: int| 0 <= j < n && (#[trigger] self.bindings@[j]).name@ == name,
        decreases n,
    {
        if n > 0 && self.bindings@[n - 1].name@ != name {
            self.lemma_prefix_names((n - 1) as nat, name);
        }
    }

    /// Every binding decides its name: the denoted environment binds the name
    /// to the binding's value.
    proof fn lemma_binding_decides(&self, at: int)
        requires
            self.names_are_unique(),
            0 <= at < self.bindings@.len(),
        ensures
            self@.contains_key(self.bindings@[at].name@),
            self@[self.bindings@[at].name@] == self.bindings@[at].value@,
    {
        self.lemma_prefix_skips((at + 1) as nat, self.bindings@.len(), self.bindings@[at].name@);
    }

    /// Replacing the value of the one binding of a name rebinds that name and
    /// nothing else.
    proof fn lemma_rebound(&self, after: &Context, at: int, n: nat)
        requires
            self.names_are_unique(),
            0 <= at < n <= self.bindings@.len(),
            after.bindings@.len() == self.bindings@.len(),
            after.bindings@[at].name@ == self.bindings@[at].name@,
            forall|j: int|
                0 <= j < self.bindings@.len() && j != at ==> (#[trigger] after.bindings@[j])
                    == self.bindings@[j],
        ensures
            after.prefix(n) == self.prefix(n).insert(
                after.bindings@[at].name@,
                after.bindings@[at].value@,
            ),
        decreases n,
    {
        let name = after.bindings@[at].name@;
        let value = after.bindings@[at].value@;
        if n == at + 1 {
            self.lemma_prefix_congruent(after, at as nat);
            assert(after.prefix(n) =~= self.prefix(n).insert(name, value));
        } else {
            self.lemma_rebound(after, at, (n - 1) as nat);
            assert(after.bindings@[n - 1] == self.bindings@[n - 1]);
            assert(self.bindings@[at].name@ != self.bindings@[n - 1].name@);
            assert(after.prefix(n) =~= self.prefix(n).insert(name, value));
        }
    }

    /// The empty context.
    pub fn new() -> (context: Context)
        ensures
            context@ == Map::<Seq<char>, Closure>::empty(),
    {
        Context { bindings: Vec::new() }
    }

    /// The position of the binding of `name`, if it has one.
    fn find(&self, name: &String) -> (at: Option<usize>)
        ensures
            at.is_some() == self@.contains_key(name@),
            at matches Some(i) ==> i < self.bindings@.len() && self.bindings@[i as int].name@
                == name@ && self.bindings@[i as int].value@ == self@[name@],
    {
        let mut i: usize = self.bindings.len();
        while i > 0
            invariant
                i <= self.bindings@.len(),
                forall|j: int|
                    i <= j < self.bindings@.len() ==> (#[trigger] self.bindings@[j]).name@
                        != name@,
            decreases i,
        {
            i = i - 1;
            if self.bindings[i].name.eq(name) {
                proof {
                    self.lemma_prefix_skips((i + 1) as nat, self.bindings@.len(), name@);
                }
                return Some(i);
            }
        }
        proof {
            self.lemma_prefix_skips(0, self.bindings@.len(), name@);
        }
        None
    }

    /// The value bound to `name`, if there is one.
    pub fn get(&self, name: &String) -> (found: Option<&Value>)
        ensures
            found.is_some() == self@.contains_key(name@),
            found matches Some(value) ==> value@ == self@[name@],
    {
        match self.find(name) {
            Some(i) => Some(&self.bindings[i].value),
            None => None,
        }
    }

    /// Binds `name` to `value`, in place of the value that `name` was bound to
    /// if it was bound.
    pub fn insert(&mut self, name: String, value: Value)
        ensures
            final(self)@ == extend(old(self)@, name@, value@),
    {
        let ghost before = *self;
        proof {
            use_type_invariant(&*self);
        }
        let found = self.find(&name);
        proof {
            if found.is_none() {
                assert forall|j: int| 0 <= j < before.bindings@.len() implies (
                #[trigger] before.bindings@[j]).name@ != name@ by {
                    before.lemma_binding_decides(j);
                }
            }
        }
        let mut bindings: Vec<Binding> = Vec::new();
        core::mem::swap(&mut self.bindings, &mut bindings);
        match found {
            Some(at) => bindings.set(at, Binding { name, value }),
            None => bindings.push(Binding { name, value }),
        }
        core::mem::swap(&mut self.bindings, &mut bindings);
        proof {
            match found {
                Some(at) => before.lemma_rebound(self, at as int, before.bindings@.len()),
                None => before.lemma_prefix_congruent(self, before.bindings@.len()),
            }
        }
    }
}

impl Clone for EvalError {
    fn clone(&self) -> (copy: Self)
        ensures
            copy@ == self@,
    {
        match self {
            EvalError::UnboundVariable(name) => EvalError::UnboundVariable(name.clone()),
        }
    }
}

impl PartialEq for EvalError {
    fn eq(&self, other: &Self) -> (equal: bool) {
        match self {
            EvalError::UnboundVariable(name) => match other {
                EvalError::UnboundVariable(other_name) => name.eq(other_name),
            },
        }
    }
}

impl PartialEqSpecImpl for EvalError {
    open spec fn obeys_eq_spec() -> bool {
        true
    }

    open spec fn eq_spec(&self, other: &Self) -> bool {
        self@ == other@
    }
}

impl Clone for Value {
    /// A deep copy: a value of its own that denotes the same closure.
    fn clone(&self) -> (copy: Self)
        ensures
            copy@ == self@,
        decreases self,
    {
        match self {
            Value::VClosure(context, parameter, body) => Value::VClosure(
                context.clone(),
                parameter.clone(),
                Box::new((&**body).clone()),
            ),
        }
    }
}

impl Clone for Context {
    /// A deep copy: a context of its own that denotes the same environment.
    fn clone(&self) -> (copy: Self)
        ensures
            copy@ == self@,
        decreases self,
    {
        let mut bindings: Vec<Binding> = Vec::new();
        let mut i: usize = 0;
        while i < self.bindings.len()
            invariant
                i <= self.bindings@.len(),
                bindings@.len() == i,
                forall|j: int|
                    0 <= j < i ==> (#[trigger] bindings@[j]).name@ == self.bindings@[j].name@
                        && bindings@[j].value@ == self.bindings@[j].value@,
            decreases self.bindings@.len() - i,
        {
            let binding = &self.bindings[i];
            bindings.push(Binding { name: binding.name.clone(), value: binding.value.clone() });
            i = i + 1;
        }
        proof {
            use_type_invariant(self);
        }
        let copy = Context { bindings };
        proof {
            copy.lemma_prefix_congruent(self, self.bindings@.len());
        }
        copy
    }
}

impl PartialEq for Value {
    /// Two values are equal when they denote the same closure: the same
    /// parameter, the same body and the same captured bindings.
    fn eq(&self, other: &Self) -> (equal: bool)
        decreases self,
    {
        match self {
            Value::VClosure(context, parameter, body) => match other {
                Value::VClosure(other_context, other_parameter, other_body) => {
                    parameter.eq(other_parameter) && (&**body).eq(&**other_body) && context.eq(
                        other_context,
                    )
                },
            },
        }
    }
}

impl PartialEqSpecImpl for Value {
    open spec fn obeys_eq_spec() -> bool {
        true
    }

    open spec fn eq_spec(&self, other: &Self) -> bool {
        self@ == other@
    }
}

impl PartialEq for Context {
    /// Two contexts are equal when they denote the same environment: the same
    /// names, each bound to equal values. The order of the bindings does not
    /// count.
    fn eq(&self, other: &Self) -> (equal: bool)
        decreases self,
    {
        proof {
            use_type_invariant(self);
            use_type_invariant(other);
        }
        let mut i: usize = 0;
        while i < self.bindings.len()
            invariant
                self.names_are_unique(),
                i <= self.bindings@.len(),
                forall|j: int|
                    0 <= j < i ==> other@.contains_key((#[trigger] self.bindings@[j]).name@)
                        && other@[self.bindings@[j].name@] == self.bindings@[j].value@,
            decreases self.bindings@.len() - i,
        {
            proof {
                self.lemma_binding_decides(i as int);
            }
            match other.find(&self.bindings[i].name) {
                Some(there) => {
                    if !self.bindings[i].value.eq(&other.bindings[there].value) {
                        return false;
                    }
                },
                None => {
                    return false;
                },
            }
            i = i + 1;
        }
        let mut k: usize = 0;
        while k < other.bindings.len()
            invariant
                other.names_are_unique(),
                k <= other.bindings@.len(),
                forall|j: int|
                    0 <= j < k ==> self@.contains_key((#[trigger] other.bindings@[j]).name@),
            decreases other.bindings@.len() - k,
        {
            proof {
                other.lemma_binding_decides(k as int);
            }
            if self.find(&other.bindings[k].name).is_none() {
                return false;
            }
            k = k + 1;
        }
        proof {
            assert forall|name: Seq<char>| #[trigger]
                self@.contains_key(name) implies other@.contains_key(name) && other@[name]
                == self@[name] by {
                self.lemma_prefix_names(self.bindings@.len(), name);
                let j = choose|j: int|
                    0 <= j < self.bindings@.len() && (#[trigger] self.bindings@[j]).name@ == name;
                self.lemma_binding_decides(j);
            }
            assert forall|name: Seq<char>| #[trigger]
                other@.contains_key(name) implies self@.contains_key(name) by {
                other.lemma_prefix_names(other.bindings@.len(), name);
                let j = choose|j: int|
                    0 <= j < other.bindings@.len() && (#[trigger] other.bindings@[j]).name@
                        == name;
                assert(self@.contains_key(other.bindings@[j].name@));
            }
            assert(self@ =~= other@);
        }
        true
    }
}

impl PartialEqSpecImpl for Context {
    open spec fn obeys_eq_spec() -> bool {
        true
    }

    open spec fn eq_spec(&self, other: &Self) -> bool {
        self@ == other@
    }
}

} // verus!
