//! Nested scopes of named bindings.
use vstd::prelude::*;
use vstd::string::StringExecFns;

use crate::ast::RuntimeError;
use crate::names::{bindings_map, find_last, lemma_bindings_push, lemma_bindings_update};
use crate::values::Value;

verus! {

/// A variable's value and whether it may be assigned.
#[derive(Debug)]
pub struct Binding {
    pub value: Value,
    pub mutable: bool,
}

impl Clone for Binding {
    fn clone(&self) -> (r: Self)
        ensures
            r == *self,
    {
        Binding { value: self.value.clone(), mutable: self.mutable }
    }
}

/// A scope: its own bindings and the scope that encloses it.
#[derive(Debug)]
pub struct Env {
    vars: Vec<(String, Binding)>,
    parent: Option<Box<Env>>,
}

/// The binding that a name has in a chain of scopes, innermost first: that of the first
/// scope that binds it.
pub open spec fn lookup(scopes: Seq<Map<Seq<char>, Binding>>, name: Seq<char>) -> Option<Binding>
    decreases scopes.len(),
{
    if scopes.len() == 0 {
        None
    } else if scopes[0].contains_key(name) {
        Some(scopes[0][name])
    } else {
        lookup(scopes.drop_first(), name)
    }
}

/// The chain with the binding of `name` in the first scope that binds it replaced.
pub open spec fn rebind(scopes: Seq<Map<Seq<char>, Binding>>, name: Seq<char>, b: Binding) -> Seq<
    Map<Seq<char>, Binding>,
>
    decreases scopes.len(),
{
    if scopes.len() == 0 {
        scopes
    } else if scopes[0].contains_key(name) {
        scopes.update(0, scopes[0].insert(name, b))
    } else {
        seq![scopes[0]] + rebind(scopes.drop_first(), name, b)
    }
}

impl Env {
    /// The scopes of the chain, innermost first.
    pub closed spec fn scopes(&self) -> Seq<Map<Seq<char>, Binding>>
        decreases self,
    {
        seq![bindings_map(self.vars@)] + match self.parent {
            Some(p) => p.scopes(),
            None => Seq::empty(),
        }
    }

    /// A chain always has an innermost scope.
    pub proof fn law_has_scope(&self)
        ensures
            self.scopes().len() >= 1,
    {
    }

    /// A chain of one empty scope.
    pub fn new() -> (e: Self)
        ensures
            e.scopes() == seq![Map::<Seq<char>, Binding>::empty()],
    {
        let e = Env { vars: Vec::new(), parent: None };
        assert(bindings_map(e.vars@) =~= Map::empty());
        assert(e.scopes() =~= seq![Map::<Seq<char>, Binding>::empty()]);
        e
    }

    /// An empty scope inside `parent`.
    pub fn with_parent(parent: Env) -> (e: Self)
        ensures
            e.scopes() == seq![Map::<Seq<char>, Binding>::empty()] + parent.scopes(),
    {
        let e = Env { vars: Vec::new(), parent: Some(Box::new(parent)) };
        assert(bindings_map(e.vars@) =~= Map::empty());
        e
    }

    /// The value of `name` in the innermost scope that binds it.
    pub fn get(&self, name: &String) -> (r: Option<Value>)
        ensures
            r == match lookup(self.scopes(), name@) {
                Some(b) => Some(b.value),
                None => None::<Value>,
            },
        decreases self,
    {
        let ghost sc = self.scopes();
        assert(sc.drop_first() =~= match self.parent {
            Some(p) => p.scopes(),
            None => Seq::empty(),
        });
        assert(sc[0] == bindings_map(self.vars@));
        assert(sc.len() > 0);
        match find_last(&self.vars, name) {
            Some(i) => {
                assert(lookup(sc, name@) == Some(self.vars@[i as int].1));
                Some(self.vars[i].1.value.clone())
            },
            None => {
                assert(lookup(sc, name@) == lookup(sc.drop_first(), name@));
                match &self.parent {
                    Some(p) => p.get(name),
                    None => None,
                }
            },
        }
    }

    /// Assigns `value` to `name` in the innermost scope that binds it. Fails if no scope
    /// binds it, or if that binding may not be assigned.
    pub fn assign(&mut self, name: String, value: Value) -> (r: Result<(), RuntimeError>)
        ensures
            match lookup(old(self).scopes(), name@) {
                None => r == Err::<(), RuntimeError>(RuntimeError::UndefinedVariable(name))
                    && final(self).scopes() == old(self).scopes(),
                Some(b) => if b.mutable {
                    r is Ok && final(self).scopes() == rebind(
                        old(self).scopes(),
                        name@,
                        Binding { value, mutable: true },
                    )
                } else {
                    r == Err::<(), RuntimeError>(RuntimeError::AssignToConst(name))
                        && final(self).scopes() == old(self).scopes()
                },
            },
        decreases *old(self),
    {
        let ghost sc = self.scopes();
        assert(sc.drop_first() =~= match self.parent {
            Some(p) => p.scopes(),
            None => Seq::empty(),
        });
        assert(sc[0] == bindings_map(self.vars@));
        assert(sc.len() > 0);
        match find_last(&self.vars, &name) {
            Some(i) => {
                assert(lookup(sc, name@) == Some(self.vars@[i as int].1));
                if !self.vars[i].1.mutable {
                    return Err(RuntimeError::AssignToConst(name));
                }
                let ghost b = Binding { value, mutable: true };
                proof {
                    lemma_bindings_update(self.vars@, i as int, name, b);
                }
                self.vars.set(i, (name, Binding { value, mutable: true }));
                assert(self.scopes() =~= sc.update(0, sc[0].insert(name@, b)));
                Ok(())
            },
            None => {
                assert(lookup(sc, name@) == lookup(sc.drop_first(), name@));
                assert(rebind(sc, name@, Binding { value, mutable: true }) == seq![sc[0]] + rebind(
                    sc.drop_first(),
                    name@,
                    Binding { value, mutable: true },
                ));
                let parent = self.parent.take();
                match parent {
                    Some(mut p) => {
                        let r = p.assign(name, value);
                        self.parent = Some(p);
                        assert(self.scopes() =~= seq![sc[0]] + p.scopes());
                        r
                    },
                    None => Err(RuntimeError::UndefinedVariable(name)),
                }
            },
        }
    }

    /// Binds `name` in this scope. Fails if this scope already binds it.
    pub fn declare(&mut self, name: String, value: Value, mutable: bool) -> (r: Result<
        (),
        RuntimeError,
    >)
        ensures
            old(self).scopes()[0].contains_key(name@) ==> r == Err::<(), RuntimeError>(
                RuntimeError::AlreadyDeclared(name),
            ) && final(self).scopes() == old(self).scopes(),
            !old(self).scopes()[0].contains_key(name@) ==> r is Ok && final(self).scopes()
                == old(self).scopes().update(
                0,
                old(self).scopes()[0].insert(name@, Binding { value, mutable }),
            ),
    {
        let ghost sc = self.scopes();
        assert(sc[0] == bindings_map(self.vars@));
        match find_last(&self.vars, &name) {
            Some(_) => Err(RuntimeError::AlreadyDeclared(name)),
            None => {
                proof {
                    lemma_bindings_push(self.vars@, (name, Binding { value, mutable }));
                }
                self.vars.push((name, Binding { value, mutable }));
                assert(self.scopes() =~= sc.update(
                    0,
                    sc[0].insert(name@, Binding { value, mutable }),
                ));
                Ok(())
            },
        }
    }
}

/// A name declared in the innermost scope is found with the binding it was given.
pub proof fn law_lookup_after_declare(
    scopes: Seq<Map<Seq<char>, Binding>>,
    name: Seq<char>,
    b: Binding,
)
    requires
        scopes.len() > 0,
    ensures
        lookup(scopes.update(0, scopes[0].insert(name, b)), name) == Some(b),
{
}

/// Declaring a name leaves every other name as it was.
pub proof fn law_declare_keeps_others(
    scopes: Seq<Map<Seq<char>, Binding>>,
    name: Seq<char>,
    other: Seq<char>,
    b: Binding,
)
    requires
        scopes.len() > 0,
        other != name,
    ensures
        lookup(scopes.update(0, scopes[0].insert(name, b)), other) == lookup(scopes, other),
{
    assert(scopes.update(0, scopes[0].insert(name, b)).drop_first() =~= scopes.drop_first());
}

/// After an assignment, a name is found with the assigned binding, and every other name
/// as it was.
pub proof fn law_lookup_after_rebind(
    scopes: Seq<Map<Seq<char>, Binding>>,
    name: Seq<char>,
    other: Seq<char>,
    b: Binding,
)
    requires
        lookup(scopes, name) is Some,
    ensures
        lookup(rebind(scopes, name, b), name) == Some(b),
        other != name ==> lookup(rebind(scopes, name, b), other) == lookup(scopes, other),
    decreases scopes.len(),
{
    if scopes.len() > 0 {
        if scopes[0].contains_key(name) {
            assert(rebind(scopes, name, b).drop_first() =~= scopes.drop_first());
        } else {
            law_lookup_after_rebind(scopes.drop_first(), name, other, b);
            let r = rebind(scopes, name, b);
            assert(r[0] == scopes[0]);
            assert(r.drop_first() =~= rebind(scopes.drop_first(), name, b));
        }
    }
}

/// Registering host functions by name.
pub trait NativeImpl {
    fn native_fn(&mut self, name: &str, func: u64) -> Result<(), RuntimeError>;
}

impl NativeImpl for Env {
    /// Binds `name`, not assignable, to the host function with handle `func`.
    fn native_fn(&mut self, name: &str, func: u64) -> (r: Result<(), RuntimeError>)
        ensures
            old(self).scopes()[0].contains_key(name@) ==> r is Err && final(self).scopes()
                == old(self).scopes(),
            !old(self).scopes()[0].contains_key(name@) ==> r is Ok && final(self).scopes()
                == old(self).scopes().update(
                0,
                old(self).scopes()[0].insert(
                    name@,
                    Binding { value: Value::NativeFuncion(func), mutable: false },
                ),
            ),
    {
        self.declare(String::from_str(name), Value::NativeFuncion(func), false)
    }
}

} // verus!
