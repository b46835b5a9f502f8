//! Scopes held in an arena: a scope names its enclosing scope by index, so
//! closures and call frames can share scopes and see each other's writes.

use vstd::prelude::*;
use std::rc::Rc;
use crate::ast::{Function, names_view};
use crate::semantics::{
    ScopeV, define_var, find, get_var, assign_var, set_slot, slot_in, slot_of,
};
use crate::value::{ErrorKind, ErrorKindV, Value, ValueV, kind_view, value_view, values_view};

verus! {

/// One scope: its bindings as parallel lists of names and values, and the
/// scope that encloses it.
pub struct Scope {
    pub names: Vec<String>,
    pub values: Vec<Value>,
    pub enclosing: Option<usize>,
}

pub open spec fn scope_view(sc: Scope) -> ScopeV {
    ScopeV {
        names: names_view(sc.names@),
        values: values_view(sc.values@),
        enclosing: match sc.enclosing {
            Some(p) => Some(p as nat),
            None => None,
        },
    }
}

pub open spec fn scopes_view(v: Seq<Scope>) -> Seq<ScopeV> {
    v.map_values(|sc: Scope| scope_view(sc))
}

proof fn lemma_empty_scope_view()
    ensures
        names_view(Seq::<String>::empty()) == Seq::<Seq<char>>::empty(),
        values_view(Seq::<Value>::empty()) == Seq::<ValueV>::empty(),
{
    assert(names_view(Seq::<String>::empty()) =~= Seq::<Seq<char>>::empty());
    assert(values_view(Seq::<Value>::empty()) =~= Seq::<ValueV>::empty());
}

/// All scopes of a run; the first is the global scope.
pub struct Environment {
    pub scopes: Vec<Scope>,
}

impl Environment {
    pub open spec fn view(&self) -> Seq<ScopeV> {
        scopes_view(self.scopes@)
    }

    /// Each scope has as many values as names.
    pub open spec fn wf(&self) -> bool {
        forall|i: int|
            0 <= i < self.scopes@.len() ==> #[trigger] self.scopes@[i].names@.len()
                == self.scopes@[i].values@.len()
    }

    /// An environment with only an empty global scope.
    pub fn new() -> (r: Environment)
        ensures
            r.wf(),
            r.view() == seq![ScopeV { names: Seq::empty(), values: Seq::empty(), enclosing: None }],
    {
        let mut scopes: Vec<Scope> = Vec::new();
        scopes.push(Scope { names: Vec::new(), values: Vec::new(), enclosing: None });
        let r = Environment { scopes };
        proof {
            lemma_empty_scope_view();
        }
        assert(r.view() =~= seq![
            ScopeV { names: Seq::empty(), values: Seq::empty(), enclosing: None },
        ]);
        r
    }

    fn take(&mut self, t: usize) -> (r: Scope)
        requires
            t < old(self).scopes@.len(),
        ensures
            r == old(self).scopes@[t as int],
            final(self).scopes@.len() == old(self).scopes@.len(),
            forall|j: int|
                0 <= j < old(self).scopes@.len() && j != t ==> final(self).scopes@[j] == old(
                    self,
                ).scopes@[j],
    {
        self.scopes.push(Scope { names: Vec::new(), values: Vec::new(), enclosing: None });
        self.scopes.swap_remove(t)
    }

    fn put(&mut self, t: usize, sc: Scope)
        requires
            t < old(self).scopes@.len(),
        ensures
            final(self).scopes@ == old(self).scopes@.update(t as int, sc),
    {
        let ghost before = self.scopes@;
        self.scopes.push(sc);
        let _ = self.scopes.swap_remove(t);
        assert(self.scopes@ =~= before.update(t as int, sc));
    }

    /// A new empty scope enclosed by `parent`; its index.
    pub fn with_enclosing(&mut self, parent: usize) -> (r: usize)
        requires
            old(self).wf(),
        ensures
            final(self).wf(),
            r == old(self).scopes@.len(),
            final(self).scopes@.len() == old(self).scopes@.len() + 1,
            final(self).view() == old(self).view().push(
                ScopeV { names: Seq::empty(), values: Seq::empty(), enclosing: Some(parent as nat) },
            ),
    {
        let r = self.scopes.len();
        let ghost before = self.scopes@;
        self.scopes.push(Scope { names: Vec::new(), values: Vec::new(), enclosing: Some(parent) });
        proof {
            lemma_empty_scope_view();
        }
        assert(self.view() =~= scopes_view(before).push(
            ScopeV { names: Seq::empty(), values: Seq::empty(), enclosing: Some(parent as nat) },
        ));
        r
    }

    /// A new scope binding `params` to `args`, enclosed by `parent`; its index.
    pub fn open_call(&mut self, f: &Rc<Function>, parent: usize, args: Vec<Value>) -> (r: usize)
        requires
            old(self).wf(),
            f.params@.len() == args@.len(),
        ensures
            final(self).wf(),
            r == old(self).scopes@.len(),
            final(self).scopes@.len() == old(self).scopes@.len() + 1,
            final(self).view() == old(self).view().push(
                ScopeV {
                    names: names_view(f.params@),
                    values: values_view(args@),
                    enclosing: Some(parent as nat),
                },
            ),
    {
        let r = self.scopes.len();
        let ghost before = self.scopes@;
        let mut names: Vec<String> = Vec::new();
        let mut i: usize = 0;
        while i < f.params.len()
            invariant
                0 <= i <= f.params@.len(),
                names@.len() == i,
                forall|j: int| 0 <= j < i ==> names@[j]@ == f.params@[j]@,
            decreases f.params.len() - i,
        {
            names.push(f.params[i].clone());
            i = i + 1;
        }
        assert(names_view(names@) =~= names_view(f.params@));
        self.scopes.push(Scope { names, values: args, enclosing: Some(parent) });
        assert(self.view() =~= scopes_view(before).push(
            ScopeV {
                names: names_view(f.params@),
                values: values_view(args@),
                enclosing: Some(parent as nat),
            },
        ));
        r
    }

    /// The last slot of scope `t` that binds `name`.
    fn slot(&self, t: usize, name: &String) -> (r: Option<usize>)
        requires
            t < self.scopes@.len(),
        ensures
            r is Some <==> slot_in(self.view()[t as int], name@) is Some,
            r is Some ==> slot_in(self.view()[t as int], name@) == Some(r->Some_0 as int)
                && r->Some_0 < self.scopes@[t as int].names@.len(),
    {
        let names = &self.scopes[t].names;
        let ghost nv = self.view()[t as int].names;
        assert(nv == names_view(names@));
        let mut k = names.len();
        while k > 0
            invariant
                k <= names@.len(),
                t < self.scopes@.len(),
                names == self.scopes@[t as int].names,
                nv == self.view()[t as int].names,
                nv == names_view(names@),
                slot_of(nv, name@, nv.len() as int) == slot_of(nv, name@, k as int),
            decreases k,
        {
            if names[k - 1] == *name {
                return Some(k - 1);
            }
            k = k - 1;
        }
        None
    }

    /// The scope and slot that `name` denotes from scope `s`.
    pub fn find(&self, s: usize, name: &String) -> (r: Option<(usize, usize)>)
        requires
            self.wf(),
        ensures
            r is Some <==> find(self.view(), s as int, name@) is Some,
            r is Some ==> find(self.view(), s as int, name@) == Some(
                (r->Some_0.0 as int, r->Some_0.1 as int),
            ) && r->Some_0.0 < self.scopes@.len() && r->Some_0.1 < self.scopes@[r->Some_0.0 as int].values@.len(),
    {
        assert(self.view().len() == self.scopes@.len());
        if s >= self.scopes.len() {
            return None;
        }
        let mut cur = s;
        loop
            invariant
                self.wf(),
                cur < self.scopes@.len(),
                find(self.view(), s as int, name@) == find(self.view(), cur as int, name@),
            decreases cur,
        {
            assert(self.scopes@[cur as int].names@.len() == self.scopes@[cur as int].values@.len());
            assert(self.view().len() == self.scopes@.len());
            match self.slot(cur, name) {
                Some(i) => {
                    assert(slot_in(self.view()[cur as int], name@) == Some(i as int));
                    assert(find(self.view(), cur as int, name@) == Some((cur as int, i as int)));
                    return Some((cur, i));
                },
                None => match self.scopes[cur].enclosing {
                    Some(p) => {
                        if p < cur {
                            cur = p;
                        } else {
                            return None;
                        }
                    },
                    None => {
                        return None;
                    },
                },
            }
        }
    }

    /// The value `name` has from scope `s`.
    pub fn get(&self, s: usize, name: &String) -> (r: Option<Value>)
        requires
            self.wf(),
        ensures
            match get_var(self.view(), s as int, name@) {
                Some(v) => r is Some && value_view(r->Some_0) == v,
                None => r is None,
            },
    {
        match self.find(s, name) {
            Some((t, i)) => {
                assert(self.view()[t as int].values[i as int] == value_view(self.scopes@[t as int].values@[i as int]));
                Some(self.scopes[t].values[i].copy())
            },
            None => None,
        }
    }

    fn set_value(&mut self, t: usize, i: usize, v: Value)
        requires
            old(self).wf(),
            t < old(self).scopes@.len(),
            i < old(self).scopes@[t as int].values@.len(),
        ensures
            final(self).wf(),
            final(self).scopes@.len() == old(self).scopes@.len(),
            final(self).view() == set_slot(old(self).view(), t as int, i as int, value_view(v)),
    {
        let ghost before = self.scopes@;
        let ghost vv = value_view(v);
        let mut sc = self.take(t);
        sc.values.set(i, v);
        assert(values_view(sc.values@) =~= values_view(before[t as int].values@).update(i as int, vv));
        self.put(t, sc);
        assert(self.scopes@ =~= before.update(t as int, sc));
        assert(self.view() =~= set_slot(scopes_view(before), t as int, i as int, vv));
    }

    /// Binds `name` to `v` in scope `s` itself.
    pub fn define(&mut self, s: usize, name: String, v: Value)
        requires
            old(self).wf(),
        ensures
            final(self).wf(),
            final(self).scopes@.len() == old(self).scopes@.len(),
            final(self).view() == define_var(old(self).view(), s as int, name@, value_view(v)),
    {
        if s >= self.scopes.len() {
            return;
        }
        match self.slot(s, &name) {
            Some(i) => self.set_value(s, i, v),
            None => {
                let ghost before = self.scopes@;
                let ghost nv = name@;
                let ghost vv = value_view(v);
                let mut sc = self.take(s);
                sc.names.push(name);
                sc.values.push(v);
                assert(names_view(sc.names@) =~= names_view(before[s as int].names@).push(nv));
                assert(values_view(sc.values@) =~= values_view(before[s as int].values@).push(vv));
                self.put(s, sc);
                assert(self.scopes@ =~= before.update(s as int, sc));
                assert(self.view() =~= define_var(scopes_view(before), s as int, nv, vv));
            },
        }
    }

    /// Rebinds `name` in the nearest scope from `s` that binds it; an
    /// error if none does.
    pub fn assign(&mut self, s: usize, name: &String, v: Value) -> (r: Result<(), ErrorKind>)
        requires
            old(self).wf(),
        ensures
            final(self).wf(),
            final(self).scopes@.len() == old(self).scopes@.len(),
            match assign_var(old(self).view(), s as int, name@, value_view(v)) {
                Some(scopes) => r is Ok && final(self).view() == scopes,
                None => r is Err && final(self).view() == old(self).view() && kind_view(r->Err_0)
                    == ErrorKindV::UndefinedVariable(name@),
            },
    {
        match self.find(s, name) {
            Some((t, i)) => {
                self.set_value(t, i, v);
                Ok(())
            },
            None => Err(ErrorKind::UndefinedVariable(name.clone())),
        }
    }
}

} // verus!
