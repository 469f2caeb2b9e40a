//! What a program means to the evaluator, as functions of the tree and the
//! environment.

use vstd::prelude::*;
use crate::builtins::{builtin_of, builtin_output, builtin_value};
use crate::lexer::tokens::TokenView;
use crate::operators::{
    bool_value, hash_insert, infix_value, int_value, is_truthy, prefix_value, InfixOp, PrefixOp,
};
use crate::parser::types::ExprView;
use crate::value::{BindingView, PrimitiveView, RuntimeError};

verus! {

/// One scope: its bindings, in the order in which the names were first
/// bound, and the scope that encloses it.
pub struct ScopeView {
    pub local: Seq<(Seq<char>, BindingView)>,
    pub enclosing: Option<int>,
}

/// The environment: every scope that was ever made, by its index, and the
/// output written so far. Scope 0 is the outermost.
pub struct EnvView {
    pub scopes: Seq<ScopeView>,
    pub stdout: Seq<char>,
}

/// The outcome of an evaluation: a value or an error, and the environment
/// afterwards.
pub type Evaluated = (Result<BindingView, RuntimeError>, EnvView);

/// The position of the first binding of `name` at or behind `i`, or the
/// number of bindings where there is none.
pub open spec fn local_index(local: Seq<(Seq<char>, BindingView)>, name: Seq<char>, i: int) -> int
    decreases local.len() - i,
{
    if 0 <= i < local.len() {
        if local[i].0 == name {
            i
        } else {
            local_index(local, name, i + 1)
        }
    } else {
        local.len() as int
    }
}

/// The bindings with `name` bound to `value`: in place of the old value
/// where the name was bound, else as a new last binding.
pub open spec fn bind(local: Seq<(Seq<char>, BindingView)>, name: Seq<char>, value: BindingView) -> Seq<
    (Seq<char>, BindingView),
> {
    let i = local_index(local, name, 0);
    if 0 <= i < local.len() {
        local.update(i, (name, value))
    } else {
        local.push((name, value))
    }
}

/// The bindings with the names from `i` on bound to the values at the same
/// positions.
pub open spec fn bind_all(
    local: Seq<(Seq<char>, BindingView)>,
    names: Seq<Seq<char>>,
    values: Seq<BindingView>,
    i: int,
) -> Seq<(Seq<char>, BindingView)>
    decreases names.len() - i,
{
    if 0 <= i < names.len() && i < values.len() {
        bind_all(bind(local, names[i], values[i]), names, values, i + 1)
    } else {
        local
    }
}

/// The value of a name in a scope: its binding there, else its value in
/// the enclosing scope.
pub open spec fn lookup(env: EnvView, scope: int, name: Seq<char>) -> Option<BindingView>
    decreases scope,
{
    if 0 <= scope < env.scopes.len() {
        let local = env.scopes[scope].local;
        let i = local_index(local, name, 0);
        if 0 <= i < local.len() {
            Some(local[i].1)
        } else {
            match env.scopes[scope].enclosing {
                Some(outer) => if 0 <= outer < scope {
                    lookup(env, outer, name)
                } else {
                    None
                },
                None => None,
            }
        }
    } else {
        None
    }
}

/// The environment with `name` bound to `value` in a scope.
pub open spec fn define(env: EnvView, scope: int, name: Seq<char>, value: BindingView) -> EnvView {
    if 0 <= scope < env.scopes.len() {
        EnvView {
            scopes: env.scopes.update(
                scope,
                ScopeView { local: bind(env.scopes[scope].local, name, value), ..env.scopes[scope] },
            ),
            ..env
        }
    } else {
        env
    }
}

/// The operator that a token is in prefix position.
pub open spec fn prefix_op_of(t: TokenView) -> Option<PrefixOp> {
    match t {
        TokenView::Bang => Some(PrefixOp::Not),
        TokenView::Minus => Some(PrefixOp::Negate),
        _ => None,
    }
}

/// The operator that a token is in infix position.
pub open spec fn infix_op_of(t: TokenView) -> Option<InfixOp> {
    match t {
        TokenView::Plus => Some(InfixOp::Add),
        TokenView::Minus => Some(InfixOp::Sub),
        TokenView::Star => Some(InfixOp::Mul),
        TokenView::Slash => Some(InfixOp::Div),
        TokenView::Percent => Some(InfixOp::Mod),
        TokenView::Eq => Some(InfixOp::Eq),
        TokenView::Neq => Some(InfixOp::Neq),
        TokenView::Lt => Some(InfixOp::Lt),
        TokenView::Gt => Some(InfixOp::Gt),
        TokenView::LBracket => Some(InfixOp::Index),
        _ => None,
    }
}

/// A value that is on its way out of a function arrives: the wrapper is
/// taken off.
pub open spec fn unwrap_return(r: Result<BindingView, RuntimeError>) -> Result<
    BindingView,
    RuntimeError,
> {
    match r {
        Ok(BindingView::Return(v)) => Ok(*v),
        _ => r,
    }
}

/// What an identifier evaluates to: its value in the environment, else the
/// builtin of that name.
pub open spec fn resolve(env: EnvView, scope: int, name: Seq<char>) -> Result<
    BindingView,
    RuntimeError,
> {
    match lookup(env, scope, name) {
        Some(v) => Ok(v),
        None => match builtin_of(name) {
            Some(b) => Ok(BindingView::Builtin(b)),
            None => Err(RuntimeError::UndefinedVariable),
        },
    }
}

/// What an expression evaluates to in a scope, nested at most `depth`
/// deep.
///
/// Literals are themselves. A prefix or infix operator is applied to the
/// values of its operands, the left one first. A conditional runs its
/// consequence where the condition counts as true, else its alternative,
/// and is null without one. A function literal is a function over the
/// scope. A call evaluates the callee, then the arguments from left to
/// right. `let` binds the name in the scope and yields the value. `return`
/// wraps the value for the way out.
pub open spec fn eval_expr(e: ExprView, env: EnvView, scope: int, depth: nat) -> Evaluated
    decreases depth, 0nat,
{
    if depth == 0 {
        (Err(RuntimeError::DepthLimit), env)
    } else {
        let d = (depth - 1) as nat;
        match e {
            ExprView::Int(i) => (Ok(int_value(i)), env),
            ExprView::Bool(b) => (Ok(bool_value(b)), env),
            ExprView::String(s) => (Ok(BindingView::Primitive(PrimitiveView::String_(s))), env),
            ExprView::Identifier(name) => (resolve(env, scope, name), env),
            ExprView::Prefix { token, right } => match prefix_op_of(token) {
                None => (Err(RuntimeError::TypeError), env),
                Some(op) => {
                    let (r, env1) = eval_expr(*right, env, scope, d);
                    match r {
                        Err(e) => (Err(e), env1),
                        Ok(v) => (prefix_value(op, v), env1),
                    }
                },
            },
            ExprView::Infix { left, token, right } => {
                let (l, env1) = eval_expr(*left, env, scope, d);
                match l {
                    Err(e) => (Err(e), env1),
                    Ok(lv) => {
                        let (r, env2) = eval_expr(*right, env1, scope, d);
                        match r {
                            Err(e) => (Err(e), env2),
                            Ok(rv) => match infix_op_of(token) {
                                None => (Err(RuntimeError::TypeError), env2),
                                Some(op) => (infix_value(op, lv, rv), env2),
                            },
                        }
                    },
                }
            },
            ExprView::If { condition, consequence, alternative } => {
                let (c, env1) = eval_expr(*condition, env, scope, d);
                match c {
                    Err(e) => (Err(e), env1),
                    Ok(cv) => if is_truthy(cv) {
                        eval_block(consequence, 0, BindingView::Null, env1, scope, d)
                    } else {
                        match alternative {
                            Some(alt) => eval_block(alt, 0, BindingView::Null, env1, scope, d),
                            None => (Ok(BindingView::Null), env1),
                        }
                    },
                }
            },
            ExprView::Fn(f) => (Ok(BindingView::Fn(scope as nat, f)), env),
            ExprView::Call { callee, args } => {
                let (c, env1) = eval_expr(*callee, env, scope, d);
                match c {
                    Err(e) => (Err(e), env1),
                    Ok(cv) => {
                        let (a, env2) = eval_list(args, 0, Seq::empty(), env1, scope, d);
                        match a {
                            Err(e) => (Err(e), env2),
                            Ok(values) => apply(cv, values, env2, scope, d),
                        }
                    },
                }
            },
            ExprView::Let { name, value } => {
                let (r, env1) = eval_expr(*value, env, scope, d);
                match r {
                    Err(e) => (Err(e), env1),
                    Ok(v) => (Ok(v), define(env1, scope, name, v)),
                }
            },
            ExprView::Return(value) => {
                let (r, env1) = eval_expr(*value, env, scope, d);
                match r {
                    Err(e) => (Err(e), env1),
                    Ok(v) => (Ok(BindingView::Return(Box::new(v))), env1),
                }
            },
            ExprView::Array(items) => {
                let (r, env1) = eval_list(items, 0, Seq::empty(), env, scope, d);
                match r {
                    Err(e) => (Err(e), env1),
                    Ok(values) => (Ok(BindingView::Array(values)), env1),
                }
            },
            ExprView::Hash(pairs) => {
                let (r, env1) = eval_pairs(pairs, 0, Seq::empty(), env, scope, d);
                match r {
                    Err(e) => (Err(e), env1),
                    Ok(entries) => (Ok(BindingView::Hash(entries)), env1),
                }
            },
        }
    }
}

/// What the statements from `i` on evaluate to, `last` being the value of
/// the statement before: the value of the last statement, or of the first
/// one that is on its way out of a function, still wrapped.
pub open spec fn eval_block(
    stmts: Seq<ExprView>,
    i: int,
    last: BindingView,
    env: EnvView,
    scope: int,
    depth: nat,
) -> Evaluated
    decreases depth, 1 + stmts.len() - i,
{
    if 0 <= i < stmts.len() {
        let (r, env1) = eval_expr(stmts[i], env, scope, depth);
        match r {
            Err(e) => (Err(e), env1),
            Ok(v) => if v is Return {
                (Ok(v), env1)
            } else {
                eval_block(stmts, i + 1, v, env1, scope, depth)
            },
        }
    } else {
        (Ok(last), env)
    }
}

/// The values of the expressions from `i` on, behind those in `acc`.
pub open spec fn eval_list(
    items: Seq<ExprView>,
    i: int,
    acc: Seq<BindingView>,
    env: EnvView,
    scope: int,
    depth: nat,
) -> (Result<Seq<BindingView>, RuntimeError>, EnvView)
    decreases depth, 1 + items.len() - i,
{
    if 0 <= i < items.len() {
        let (r, env1) = eval_expr(items[i], env, scope, depth);
        match r {
            Err(e) => (Err(e), env1),
            Ok(v) => eval_list(items, i + 1, acc.push(v), env1, scope, depth),
        }
    } else {
        (Ok(acc), env)
    }
}

/// The hash of the pairs from `i` on, put into `acc` in that order. Of
/// each pair the key is evaluated first. A key must be an integer, a
/// string or a boolean.
pub open spec fn eval_pairs(
    pairs: Seq<(ExprView, ExprView)>,
    i: int,
    acc: Seq<(PrimitiveView, BindingView)>,
    env: EnvView,
    scope: int,
    depth: nat,
) -> (Result<Seq<(PrimitiveView, BindingView)>, RuntimeError>, EnvView)
    decreases depth, 1 + pairs.len() - i,
{
    if 0 <= i < pairs.len() {
        let (k, env1) = eval_expr(pairs[i].0, env, scope, depth);
        match k {
            Err(e) => (Err(e), env1),
            Ok(key) => {
                let (v, env2) = eval_expr(pairs[i].1, env1, scope, depth);
                match v {
                    Err(e) => (Err(e), env2),
                    Ok(value) => match key {
                        BindingView::Primitive(PrimitiveView::Fn(_)) => (
                            Err(RuntimeError::BadKey),
                            env2,
                        ),
                        BindingView::Primitive(p) => eval_pairs(
                            pairs,
                            i + 1,
                            hash_insert(acc, p, value),
                            env2,
                            scope,
                            depth,
                        ),
                        _ => (Err(RuntimeError::BadKey), env2),
                    },
                }
            },
        }
    } else {
        (Ok(acc), env)
    }
}

/// What a call yields. A function runs its body in a new scope, which
/// starts with the bindings of the scope that the function was made in,
/// binds the parameters to the arguments, and is enclosed by the scope of
/// the caller; a value on its way out of the body arrives. A builtin runs
/// on the arguments.
pub open spec fn apply(
    callee: BindingView,
    args: Seq<BindingView>,
    env: EnvView,
    scope: int,
    depth: nat,
) -> Evaluated
    decreases depth, 0nat,
{
    match callee {
        BindingView::Fn(made_in, f) => if made_in >= env.scopes.len() {
            (Err(RuntimeError::BadEnvironment), env)
        } else if f.args.len() != args.len() {
            (Err(RuntimeError::ArityMismatch), env)
        } else if depth == 0 {
            (Err(RuntimeError::DepthLimit), env)
        } else {
            let local = bind_all(env.scopes[made_in as int].local, f.args, args, 0);
            let inner = ScopeView { local, enclosing: Some(scope) };
            let env1 = EnvView { scopes: env.scopes.push(inner), ..env };
            let (r, env2) = eval_block(
                f.body,
                0,
                BindingView::Null,
                env1,
                env.scopes.len() as int,
                (depth - 1) as nat,
            );
            (unwrap_return(r), env2)
        },
        BindingView::Builtin(b) => (
            builtin_value(b, args),
            EnvView { stdout: builtin_output(b, args, env.stdout), ..env },
        ),
        _ => (Err(RuntimeError::NotCallable), env),
    }
}

/// What a program evaluates to in the outermost scope: the value of its
/// last statement, or the value that a `return` of the top level gave.
pub open spec fn eval_program(stmts: Seq<ExprView>, env: EnvView, depth: nat) -> Evaluated {
    let (r, env1) = eval_block(stmts, 0, BindingView::Null, env, 0, depth);
    (unwrap_return(r), env1)
}

/// A fresh environment: one empty scope and no output.
pub open spec fn fresh_env() -> EnvView {
    EnvView {
        scopes: seq![ScopeView { local: Seq::empty(), enclosing: None }],
        stdout: Seq::empty(),
    }
}

/// An index is the position of the first binding of that name, or the
/// number of bindings.
pub proof fn lemma_local_index(local: Seq<(Seq<char>, BindingView)>, name: Seq<char>, i: int)
    requires
        0 <= i <= local.len(),
    ensures
        i <= local_index(local, name, i) <= local.len(),
        local_index(local, name, i) < local.len() ==> local[local_index(local, name, i)].0
            == name,
        forall|j: int| i <= j < local_index(local, name, i) ==> local[j].0 != name,
    decreases local.len() - i,
{
    if i < local.len() && local[i].0 != name {
        lemma_local_index(local, name, i + 1);
    }
}

proof fn lemma_bound_is_found(
    local: Seq<(Seq<char>, BindingView)>,
    name: Seq<char>,
    value: BindingView,
    i: int,
)
    requires
        0 <= i <= local_index(local, name, 0),
    ensures
        local_index(bind(local, name, value), name, i) == local_index(local, name, 0),
        local_index(local, name, 0) < bind(local, name, value).len(),
        bind(local, name, value)[local_index(local, name, 0)] == (name, value),
    decreases local_index(local, name, 0) - i,
{
    lemma_local_index(local, name, 0);
    let k = local_index(local, name, 0);
    let after = bind(local, name, value);
    if i < k {
        assert(local[i].0 != name);
        assert(after[i] == local[i]);
        lemma_bound_is_found(local, name, value, i + 1);
    } else {
        assert(after[k] == (name, value));
    }
}

proof fn lemma_others_stay(
    local: Seq<(Seq<char>, BindingView)>,
    name: Seq<char>,
    value: BindingView,
    other: Seq<char>,
    i: int,
)
    requires
        other != name,
        0 <= i <= local.len(),
    ensures
        local_index(bind(local, name, value), other, i) == (if local_index(local, other, i)
            < local.len() {
            local_index(local, other, i)
        } else {
            bind(local, name, value).len() as int
        }),
        local_index(local, other, i) < local.len() ==> bind(local, name, value)[local_index(
            local,
            other,
            i,
        )] == local[local_index(local, other, i)],
    decreases local.len() - i,
{
    lemma_local_index(local, name, 0);
    let after = bind(local, name, value);
    let k = local_index(local, name, 0);
    if i < local.len() {
        if local[i].0 == other {
            assert(i != k);
            assert(after[i] == local[i]);
        } else {
            assert(after[i].0 != other);
            lemma_others_stay(local, name, value, other, i + 1);
        }
    } else {
        if k < local.len() {
            assert(after.len() == local.len());
        } else {
            assert(after[i] == (name, value));
            assert(local_index(after, other, i + 1) == after.len());
        }
    }
}

/// Where two environments hold the same scopes up to `scope`, a name
/// stands for the same in both.
pub proof fn lemma_lookup_below(env1: EnvView, env2: EnvView, scope: int, name: Seq<char>)
    requires
        0 <= scope < env1.scopes.len(),
        scope < env2.scopes.len(),
        forall|j: int| 0 <= j <= scope ==> env1.scopes[j] == env2.scopes[j],
    ensures
        lookup(env1, scope, name) == lookup(env2, scope, name),
    decreases scope,
{
    match env1.scopes[scope].enclosing {
        Some(outer) => {
            if 0 <= outer < scope {
                lemma_lookup_below(env1, env2, outer, name);
            }
        },
        None => {},
    }
}

/// A name that was bound in a scope stands there for what it was bound
/// to, and every other name for what it stood for before.
pub proof fn lemma_lookup_after_define(
    env: EnvView,
    scope: int,
    name: Seq<char>,
    value: BindingView,
    other: Seq<char>,
)
    requires
        0 <= scope < env.scopes.len(),
    ensures
        lookup(define(env, scope, name, value), scope, other) == (if other == name {
            Some(value)
        } else {
            lookup(env, scope, other)
        }),
{
    let local = env.scopes[scope].local;
    let after = define(env, scope, name, value);
    assert(after.scopes[scope].local == bind(local, name, value));
    lemma_local_index(local, name, 0);
    lemma_local_index(local, other, 0);
    if other == name {
        lemma_bound_is_found(local, name, value, 0);
    } else {
        lemma_others_stay(local, name, value, other, 0);
        match env.scopes[scope].enclosing {
            Some(outer) => {
                if 0 <= outer < scope {
                    lemma_lookup_below(env, after, outer, other);
                }
            },
            None => {},
        }
    }
}

} // verus!
