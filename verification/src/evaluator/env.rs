//! Environments: an arena of scopes that functions refer to by index.

use vstd::prelude::*;
use crate::evaluator::semantics::{
    bind, bind_all, define, fresh_env, local_index, lookup, EnvView, ScopeView,
};
use crate::builtins::{builtin_output, builtin_value, result_view};
use crate::value::{bindings_view, Binding, BindingView, Builtin, RuntimeError};

verus! {

/// One scope: its bindings and the index of the scope that encloses it.
#[derive(Debug)]
pub struct Scope {
    pub local: Vec<(String, Binding)>,
    pub enclosing: Option<usize>,
}

/// The environment of the evaluator. It owns every scope, so that a
/// function can share the scope it was made in with whoever runs later,
/// and it owns the output buffer.
#[derive(Debug)]
pub struct Env {
    scopes: Vec<Scope>,
    stdout: String,
    depth_limit: usize,
}

/// The view of a list of bindings.
pub open spec fn locals_view(s: Seq<(String, Binding)>) -> Seq<(Seq<char>, BindingView)> {
    Seq::new(s.len(), |i: int| (s[i].0@, s[i].1@))
}

/// The view of an optional index.
pub open spec fn index_view(i: Option<usize>) -> Option<int> {
    match i {
        Some(i) => Some(i as int),
        None => None,
    }
}

impl View for Scope {
    type V = ScopeView;

    open spec fn view(&self) -> ScopeView {
        ScopeView { local: locals_view(self.local@), enclosing: index_view(self.enclosing) }
    }
}

/// The views of a list of scopes.
pub open spec fn scopes_view(s: Seq<Scope>) -> Seq<ScopeView> {
    Seq::new(s.len(), |i: int| s[i]@)
}

impl View for Env {
    type V = EnvView;

    closed spec fn view(&self) -> EnvView {
        EnvView { scopes: scopes_view(self.scopes@), stdout: self.stdout@ }
    }
}

/// The position of the binding of `name`, or the number of bindings where
/// the name is not bound.
pub fn find_local(local: &Vec<(String, Binding)>, name: &String) -> (i: usize)
    ensures
        i == local_index(locals_view(local@), name@, 0),
        i <= local.len(),
{
    let ghost views = locals_view(local@);
    let mut i: usize = 0;
    while i < local.len()
        invariant
            0 <= i <= local.len(),
            views == locals_view(local@),
            local_index(views, name@, i as int) == local_index(views, name@, 0),
        decreases local.len() - i,
    {
        assert(views[i as int].0 == local@[i as int].0@);
        if local[i].0 == *name {
            return i;
        }
        i += 1;
    }
    i
}

/// Binds `name` to `value`.
pub fn bind_local(local: &mut Vec<(String, Binding)>, name: String, value: Binding)
    ensures
        locals_view(final(local)@) == bind(locals_view(old(local)@), name@, value@),
{
    let i: usize = find_local(local, &name);
    let ghost before = local@;
    if i < local.len() {
        local.set(i, (name, value));
        assert(locals_view(local@) =~= locals_view(before).update(i as int, (name@, value@)));
    } else {
        local.push((name, value));
        assert(locals_view(local@) =~= locals_view(before).push((name@, value@)));
    }
}

/// A copy of a list of bindings.
pub fn duplicate_locals(local: &Vec<(String, Binding)>) -> (r: Vec<(String, Binding)>)
    ensures
        locals_view(r@) == locals_view(local@),
{
    let mut r: Vec<(String, Binding)> = Vec::new();
    let mut i: usize = 0;
    while i < local.len()
        invariant
            0 <= i <= local.len(),
            r.len() == i,
            forall|j: int| 0 <= j < i ==> r@[j].0@ == local@[j].0@ && r@[j].1@ == local@[j].1@,
        decreases local.len() - i,
    {
        let name = local[i].0.clone();
        let value = local[i].1.duplicate();
        r.push((name, value));
        i += 1;
    }
    assert(locals_view(r@) =~= locals_view(local@));
    r
}

impl Env {
    /// The environment has its outermost scope.
    pub closed spec fn wf(&self) -> bool {
        self.scopes.len() >= 1
    }

    /// The deepest nesting that an evaluation may reach.
    pub closed spec fn limit(&self) -> nat {
        self.depth_limit as nat
    }

    /// A fresh environment, whose evaluations may nest 2000 deep.
    pub fn new() -> (env: Self)
        ensures
            env.wf(),
            env@ == fresh_env(),
            env.limit() == 2000,
    {
        let mut scopes: Vec<Scope> = Vec::new();
        scopes.push(Scope { local: Vec::new(), enclosing: None });
        let env = Self { scopes, stdout: String::new(), depth_limit: 2000 };
        assert(locals_view(env.scopes@[0].local@) =~= Seq::empty());
        assert(env@.scopes =~= fresh_env().scopes);
        env
    }

    /// Sets the deepest nesting that an evaluation may reach.
    pub fn set_depth_limit(&mut self, limit: usize)
        ensures
            final(self)@ == old(self)@,
            final(self).wf() == old(self).wf(),
            final(self).limit() == limit,
    {
        self.depth_limit = limit;
    }

    /// The deepest nesting that an evaluation may reach.
    pub fn depth_limit(&self) -> (d: usize)
        ensures
            d == self.limit(),
    {
        self.depth_limit
    }

    /// The output written so far.
    pub fn get_stdout(&self) -> (s: String)
        ensures
            s@ == self@.stdout,
    {
        self.stdout.clone()
    }

    /// The number of scopes.
    pub fn len(&self) -> (n: usize)
        ensures
            n == self@.scopes.len(),
    {
        self.scopes.len()
    }

    /// The value of `name` in a scope.
    pub fn lookup(&self, scope: usize, name: &String) -> (r: Option<Binding>)
        ensures
            match lookup(self@, scope as int, name@) {
                Some(v) => r is Some && r.unwrap()@ == v,
                None => r is None,
            },
    {
        let mut s: usize = scope;
        loop
            invariant
                lookup(self@, s as int, name@) == lookup(self@, scope as int, name@),
            decreases s,
        {
            if s >= self.scopes.len() {
                return None;
            }
            let current = &self.scopes[s];
            assert(self@.scopes[s as int] == current@);
            let i: usize = find_local(&current.local, name);
            if i < current.local.len() {
                assert(locals_view(current.local@)[i as int].1 == current.local@[i as int].1@);
                return Some(current.local[i].1.duplicate());
            }
            match current.enclosing {
                Some(outer) => {
                    if outer < s {
                        s = outer;
                    } else {
                        return None;
                    }
                },
                None => {
                    return None;
                },
            }
        }
    }

    /// The value of `name` in the outermost scope.
    pub fn get(&self, name: &str) -> (r: Option<Binding>)
        ensures
            match lookup(self@, 0, name@) {
                Some(v) => r is Some && r.unwrap()@ == v,
                None => r is None,
            },
    {
        let owned = name.to_owned();
        self.lookup(0, &owned)
    }

    /// Binds `name` to `value` in a scope.
    pub fn define(&mut self, scope: usize, name: String, value: Binding)
        ensures
            final(self)@ == define(old(self)@, scope as int, name@, value@),
            final(self).wf() == old(self).wf(),
            final(self).limit() == old(self).limit(),
    {
        if scope < self.scopes.len() {
            let ghost before = self.scopes@;
            bind_local(&mut self.scopes[scope].local, name, value);
            assert(self@.scopes =~= define(old(self)@, scope as int, name@, value@).scopes);
        }
    }

    /// Runs a builtin on `args`, with the output buffer of the environment.
    pub fn call_builtin(&mut self, builtin: Builtin, args: &Vec<Binding>) -> (r: Result<
        Binding,
        RuntimeError,
    >)
        ensures
            result_view(r) == builtin_value(builtin, bindings_view(args@)),
            final(self)@ == (EnvView {
                stdout: builtin_output(builtin, bindings_view(args@), old(self)@.stdout),
                ..old(self)@
            }),
            final(self).wf() == old(self).wf(),
            final(self).limit() == old(self).limit(),
    {
        builtin.eval(args, &mut self.stdout)
    }

    /// Makes the scope of a call: it starts with the bindings of scope
    /// `made_in`, binds `names` to `values`, and is enclosed by `caller`.
    /// Returns its index.
    pub fn enter(
        &mut self,
        made_in: usize,
        names: &Vec<String>,
        values: Vec<Binding>,
        caller: usize,
    ) -> (id: usize)
        requires
            made_in < old(self)@.scopes.len(),
            names.len() == values.len(),
        ensures
            id == old(self)@.scopes.len(),
            final(self)@ == (EnvView {
                scopes: old(self)@.scopes.push(
                    ScopeView {
                        local: bind_all(
                            old(self)@.scopes[made_in as int].local,
                            crate::parser::types::names_view(names@),
                            crate::value::bindings_view(values@),
                            0,
                        ),
                        enclosing: Some(caller as int),
                    },
                ),
                ..old(self)@
            }),
            old(self).wf() ==> final(self).wf(),
            final(self).limit() == old(self).limit(),
    {
        let mut local = duplicate_locals(&self.scopes[made_in].local);
        let ghost start = locals_view(local@);
        let ghost name_views = crate::parser::types::names_view(names@);
        let ghost value_views = crate::value::bindings_view(values@);
        let mut values = values;
        // The values are moved, not copied: turned around once, they come
        // off the end in the order of the parameters.
        let mut reversed: Vec<Binding> = Vec::new();
        while values.len() > 0
            invariant
                reversed.len() + values.len() == names.len(),
                forall|j: int|
                    0 <= j < values.len() ==> #[trigger] values@[j]@ == value_views[j],
                forall|j: int|
                    0 <= j < reversed.len() ==> #[trigger] reversed@[j]@ == value_views[names.len()
                        - 1 - j],
            decreases values.len(),
        {
            let v = values.pop().unwrap();
            reversed.push(v);
        }
        let mut k: usize = 0;
        while k < names.len()
            invariant
                0 <= k <= names.len(),
                reversed.len() == names.len() - k,
                name_views == crate::parser::types::names_view(names@),
                value_views.len() == names.len(),
                forall|j: int|
                    0 <= j < reversed.len() ==> #[trigger] reversed@[j]@ == value_views[names.len()
                        - 1 - j],
                bind_all(locals_view(local@), name_views, value_views, k as int) == bind_all(
                    start,
                    name_views,
                    value_views,
                    0,
                ),
            decreases names.len() - k,
        {
            let v = reversed.pop().unwrap();
            assert(v@ == value_views[k as int]);
            assert(name_views[k as int] == names@[k as int]@);
            bind_local(&mut local, names[k].clone(), v);
            k += 1;
        }
        let id: usize = self.scopes.len();
        self.scopes.push(Scope { local, enclosing: Some(caller) });
        assert(self@.scopes =~= old(self)@.scopes.push(
            ScopeView {
                local: bind_all(
                    old(self)@.scopes[made_in as int].local,
                    name_views,
                    value_views,
                    0,
                ),
                enclosing: Some(caller as int),
            },
        ));
        id
    }
}

impl Default for Env {
    fn default() -> (env: Self)
        ensures
            env.wf(),
            env@ == fresh_env(),
            env.limit() == 2000,
    {
        Env::new()
    }
}

} // verus!
