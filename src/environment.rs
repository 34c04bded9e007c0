//! Variable bindings, innermost last.
use vstd::prelude::*;
use crate::interpreter::{Error, runtime, undefined_text};
use crate::token::token::Token;
use crate::value::{Value, ValueModel};

verus! {

/// The bindings of all open scopes, oldest first: a scope's bindings follow
/// those of the scope that encloses it, and a name is looked up from the end.
pub type Bindings = Seq<(Seq<char>, ValueModel)>;

/// The position of the last binding of `name`.
pub open spec fn last_index(env: Bindings, name: Seq<char>) -> Option<nat>
    decreases env.len(),
{
    if env.len() == 0 {
        None
    } else if env.last().0 == name {
        Some((env.len() - 1) as nat)
    } else {
        last_index(env.drop_last(), name)
    }
}

pub open spec fn lookup(env: Bindings, name: Seq<char>) -> Option<ValueModel> {
    match last_index(env, name) {
        Some(i) => Some(env[i as int].1),
        None => None,
    }
}

/// The bindings after `name` is given `v` where it is bound last, if anywhere.
pub open spec fn assigned(env: Bindings, name: Seq<char>, v: ValueModel) -> Option<Bindings> {
    match last_index(env, name) {
        Some(i) => Some(env.update(i as int, (name, v))),
        None => None,
    }
}

pub open spec fn defined(env: Bindings, name: Seq<char>, v: ValueModel) -> Bindings {
    env.push((name, v))
}

/// The bindings cut back to the first `mark`, as when a scope closes.
pub open spec fn truncated(env: Bindings, mark: nat) -> Bindings {
    if mark <= env.len() { env.take(mark as int) } else { env }
}

pub proof fn lemma_last_index_bound(env: Bindings, name: Seq<char>)
    ensures
        last_index(env, name) matches Some(i) ==> i < env.len() && env[i as int].0 == name,
    decreases env.len(),
{
    if env.len() > 0 && env.last().0 != name {
        lemma_last_index_bound(env.drop_last(), name);
    }
}

pub struct Environment {
    pub values: Vec<(String, Value)>,
}

pub open spec fn binding_view(b: (String, Value)) -> (Seq<char>, ValueModel) {
    (b.0@, b.1@)
}

impl View for Environment {
    type V = Bindings;

    open spec fn view(&self) -> Bindings {
        self.values@.map_values(|b: (String, Value)| binding_view(b))
    }
}

impl Default for Environment {
    fn default() -> (r: Environment)
        ensures
            r@ == Seq::<(Seq<char>, ValueModel)>::empty(),
    {
        let r = Environment { values: Vec::new() };
        assert(r@ =~= Seq::<(Seq<char>, ValueModel)>::empty());
        r
    }
}

impl Environment {
    /// The position of the last binding of `name`.
    pub fn find(&self, name: &String) -> (r: Option<usize>)
        ensures
            r matches Some(i) ==> last_index(self@, name@) == Some(i as nat),
            r is None ==> last_index(self@, name@) is None,
    {
        let mut i = self.values.len();
        assert(self@.take(i as int) =~= self@);
        while i > 0
            invariant
                i <= self.values.len(),
                last_index(self@, name@) == last_index(self@.take(i as int), name@),
            decreases i,
        {
            assert(self@.take(i as int).drop_last() =~= self@.take(i - 1));
            if self.values[i - 1].0.eq(name) {
                return Some(i - 1);
            }
            i = i - 1;
        }
        None
    }

    /// The value bound last to the token's name.
    pub fn get(&self, name: &Token) -> (r: Result<Value, Error>)
        ensures
            match lookup(self@, name.lexeme@) {
                Some(v) => r matches Ok(x) && x@ == v,
                None => r matches Err(e) && e@ == runtime(undefined_text(name.lexeme@)),
            },
    {
        proof {
            lemma_last_index_bound(self@, name.lexeme@);
        }
        match self.find(&name.lexeme) {
            Some(i) => Ok(self.values[i].1.duplicate()),
            None => Err(crate::interpreter::undefined_error(&name.lexeme)),
        }
    }

    pub fn define(&mut self, name: String, value: Value)
        ensures
            final(self)@ == defined(old(self)@, name@, value@),
    {
        self.values.push((name, value));
        assert(self@ =~= defined(old(self)@, name@, value@));
    }

    /// Gives `value` to the last binding of `name`; an error where there is none.
    pub fn assign(&mut self, name: &String, value: Value) -> (r: Result<(), Error>)
        ensures
            match assigned(old(self)@, name@, value@) {
                Some(env) => r is Ok && final(self)@ == env,
                None => r matches Err(e) && e@ == runtime(undefined_text(name@)) && final(self)@ == old(self)@,
            },
    {
        proof {
            lemma_last_index_bound(self@, name@);
        }
        match self.find(name) {
            Some(i) => {
                self.values.set(i, (name.clone(), value));
                assert(self@ =~= assigned(old(self)@, name@, value@)->Some_0);
                Ok(())
            },
            None => Err(crate::interpreter::undefined_error(name)),
        }
    }

    /// Closes the scopes opened after the first `mark` bindings.
    pub fn truncate(&mut self, mark: usize)
        ensures
            final(self)@ == truncated(old(self)@, mark as nat),
    {
        self.values.truncate(mark);
        assert(self@ =~= truncated(old(self)@, mark as nat));
    }

    pub fn len(&self) -> (r: usize)
        ensures
            r == self@.len(),
    {
        self.values.len()
    }
}

} // verus!
