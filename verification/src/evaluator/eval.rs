//! The evaluator.

use vstd::prelude::*;
use crate::builtins::result_view;
use crate::evaluator::env::Env;
use crate::evaluator::semantics::{
    apply, eval_block, eval_expr, eval_list, eval_pairs, eval_program, infix_op_of, prefix_op_of,
    resolve, unwrap_return, EnvView, Evaluated,
};
use crate::lexer::tokens::Token;
use crate::operators::{apply_infix, apply_prefix, insert_entry, truthy, InfixOp, PrefixOp};
use crate::parser::types::{exprs_view, pairs_view, Block, Expr, Program};
use crate::value::{
    bindings_view, entries_view, lemma_bindings_view_push, Binding, BindingView, Builtin, Primitive,
    RuntimeError,
};

verus! {

broadcast use {crate::value::group_value_views, crate::parser::types::group_expr_views};

/// Something that can be evaluated in an environment.
pub trait Evaluation {
    /// What evaluating means: the value or error and the environment
    /// afterwards, as a function of the environment before and of the
    /// deepest nesting allowed.
    spec fn meaning(&self, env: EnvView, depth: nat) -> Evaluated;

    /// Evaluates in the outermost scope of `env`.
    fn eval(&self, env: &mut Env) -> (r: Result<Binding, RuntimeError>)
        requires
            old(env).wf(),
        ensures
            final(env).wf(),
            final(env).limit() == old(env).limit(),
            (result_view(r), final(env)@) == self.meaning(old(env)@, old(env).limit()),
    ;
}

/// The operator that a token is in prefix position.
pub fn prefix_op(t: &Token) -> (r: Option<PrefixOp>)
    ensures
        r == prefix_op_of(t@),
{
    match t {
        Token::Bang => Some(PrefixOp::Not),
        Token::Minus => Some(PrefixOp::Negate),
        _ => None,
    }
}

/// The operator that a token is in infix position.
pub fn infix_op(t: &Token) -> (r: Option<InfixOp>)
    ensures
        r == infix_op_of(t@),
{
    match t {
        Token::Plus => Some(InfixOp::Add),
        Token::Minus => Some(InfixOp::Sub),
        Token::Star => Some(InfixOp::Mul),
        Token::Slash => Some(InfixOp::Div),
        Token::Percent => Some(InfixOp::Mod),
        Token::Eq => Some(InfixOp::Eq),
        Token::Neq => Some(InfixOp::Neq),
        Token::Lt => Some(InfixOp::Lt),
        Token::Gt => Some(InfixOp::Gt),
        Token::LBracket => Some(InfixOp::Index),
        _ => None,
    }
}

fn arrive(r: Result<Binding, RuntimeError>) -> (out: Result<Binding, RuntimeError>)
    ensures
        result_view(out) == unwrap_return(result_view(r)),
{
    match r {
        Ok(Binding::Return(v)) => Ok(*v),
        other => other,
    }
}

fn resolve_name(env: &Env, scope: usize, name: &String) -> (r: Result<Binding, RuntimeError>)
    ensures
        result_view(r) == resolve(env@, scope as int, name@),
{
    match env.lookup(scope, name) {
        Some(v) => Ok(v),
        None => match Builtin::from_str(name.as_str()) {
            Some(b) => Ok(Binding::Builtin(b)),
            None => Err(RuntimeError::UndefinedVariable),
        },
    }
}

/// Evaluates an expression in a scope, nested at most `depth` deep.
pub fn evaluate(e: &Expr, env: &mut Env, scope: usize, depth: usize) -> (r: Result<
    Binding,
    RuntimeError,
>)
    requires
        old(env).wf(),
    ensures
        final(env).wf(),
        final(env).limit() == old(env).limit(),
        (result_view(r), final(env)@) == eval_expr(e@, old(env)@, scope as int, depth as nat),
    decreases depth, 0nat,
{
    if depth == 0 {
        return Err(RuntimeError::DepthLimit);
    }
    let d: usize = depth - 1;
    match e {
        Expr::Int(i) => Ok(Binding::Primitive(Primitive::Int(*i))),
        Expr::Bool(b) => Ok(Binding::Primitive(Primitive::Bool(*b))),
        Expr::String(s) => Ok(Binding::Primitive(Primitive::String_(s.clone()))),
        Expr::Identifier(name) => resolve_name(env, scope, name),
        Expr::Prefix(p) => {
            match prefix_op(&p.token) {
                None => Err(RuntimeError::TypeError),
                Some(op) => {
                    let v = evaluate(&p.right, env, scope, d)?;
                    apply_prefix(op, &v)
                },
            }
        },
        Expr::Infix(i) => {
            let l = evaluate(&i.left, env, scope, d)?;
            let r = evaluate(&i.right, env, scope, d)?;
            match infix_op(&i.token) {
                None => Err(RuntimeError::TypeError),
                Some(op) => apply_infix(op, &l, &r),
            }
        },
        Expr::If(i) => {
            let c = evaluate(&i.condition, env, scope, d)?;
            if truthy(&c) {
                evaluate_block(&i.consequence.0, env, scope, d)
            } else {
                match &i.alternative {
                    Some(alt) => evaluate_block(&alt.0, env, scope, d),
                    None => Ok(Binding::Null),
                }
            }
        },
        Expr::Fn(f) => Ok(Binding::Fn(scope, f.clone())),
        Expr::Call(c) => {
            let callee = evaluate(&c.expr, env, scope, d)?;
            let args = evaluate_list(&c.args, env, scope, d)?;
            call_value(callee, args, env, scope, d)
        },
        Expr::Let(l) => {
            let v = evaluate(&l.value, env, scope, d)?;
            env.define(scope, l.name.clone(), v.duplicate());
            Ok(v)
        },
        Expr::Return(value) => {
            let v = evaluate(value, env, scope, d)?;
            Ok(Binding::Return(Box::new(v)))
        },
        Expr::Array(items) => {
            let values = evaluate_list(items, env, scope, d)?;
            Ok(Binding::Array(values))
        },
        Expr::Hash(pairs) => {
            let entries = evaluate_pairs(pairs, env, scope, d)?;
            Ok(Binding::Hash(entries))
        },
    }
}

/// Evaluates the statements of a block in a scope. A value on its way out
/// of a function ends the block and stays wrapped.
pub fn evaluate_block(stmts: &Vec<Expr>, env: &mut Env, scope: usize, depth: usize) -> (r: Result<
    Binding,
    RuntimeError,
>)
    requires
        old(env).wf(),
    ensures
        final(env).wf(),
        final(env).limit() == old(env).limit(),
        (result_view(r), final(env)@) == eval_block(
            exprs_view(stmts@),
            0,
            BindingView::Null,
            old(env)@,
            scope as int,
            depth as nat,
        ),
    decreases depth, 1 + stmts.len(),
{
    let ghost views = exprs_view(stmts@);
    let ghost goal = eval_block(views, 0, BindingView::Null, env@, scope as int, depth as nat);
    let mut last = Binding::Null;
    let mut i: usize = 0;
    while i < stmts.len()
        invariant
            0 <= i <= stmts.len(),
            env.wf(),
            env.limit() == old(env).limit(),
            views == exprs_view(stmts@),
            goal == eval_block(
                views,
                0,
                BindingView::Null,
                old(env)@,
                scope as int,
                depth as nat,
            ),
            eval_block(views, i as int, last@, env@, scope as int, depth as nat) == goal,
        decreases stmts.len() - i,
    {
        let v = match evaluate(&stmts[i], env, scope, depth) {
            Ok(v) => v,
            Err(e) => {
                return Err(e);
            },
        };
        if let Binding::Return(_) = &v {
            return Ok(v);
        }
        last = v;
        i += 1;
    }
    Ok(last)
}

/// Evaluates expressions from left to right.
pub fn evaluate_list(items: &Vec<Expr>, env: &mut Env, scope: usize, depth: usize) -> (r: Result<
    Vec<Binding>,
    RuntimeError,
>)
    requires
        old(env).wf(),
    ensures
        final(env).wf(),
        final(env).limit() == old(env).limit(),
        match eval_list(
            exprs_view(items@),
            0,
            Seq::empty(),
            old(env)@,
            scope as int,
            depth as nat,
        ) {
            (Ok(values), after) => r is Ok && bindings_view(r.unwrap()@) == values && final(env)@
                == after,
            (Err(e), after) => r == Err::<Vec<Binding>, RuntimeError>(e) && final(env)@ == after,
        },
    decreases depth, 1 + items.len(),
{
    let ghost views = exprs_view(items@);
    let ghost goal = eval_list(views, 0, Seq::empty(), env@, scope as int, depth as nat);
    let mut values: Vec<Binding> = Vec::new();
    let mut i: usize = 0;
    assert(bindings_view(values@) =~= Seq::empty());
    while i < items.len()
        invariant
            0 <= i <= items.len(),
            env.wf(),
            env.limit() == old(env).limit(),
            views == exprs_view(items@),
            goal == eval_list(views, 0, Seq::empty(), old(env)@, scope as int, depth as nat),
            eval_list(views, i as int, bindings_view(values@), env@, scope as int, depth as nat)
                == goal,
        decreases items.len() - i,
    {
        let v = match evaluate(&items[i], env, scope, depth) {
            Ok(v) => v,
            Err(e) => {
                return Err(e);
            },
        };
        proof {
            lemma_bindings_view_push(values@, v);
        }
        values.push(v);
        i += 1;
    }
    Ok(values)
}

/// Evaluates the pairs of a hash literal from left to right, of each pair
/// the key first.
pub fn evaluate_pairs(pairs: &Vec<(Expr, Expr)>, env: &mut Env, scope: usize, depth: usize) -> (r:
    Result<Vec<(Primitive, Binding)>, RuntimeError>)
    requires
        old(env).wf(),
    ensures
        final(env).wf(),
        final(env).limit() == old(env).limit(),
        match eval_pairs(
            pairs_view(pairs@),
            0,
            Seq::empty(),
            old(env)@,
            scope as int,
            depth as nat,
        ) {
            (Ok(entries), after) => r is Ok && entries_view(r.unwrap()@) == entries && final(env)@
                == after,
            (Err(e), after) => r == Err::<Vec<(Primitive, Binding)>, RuntimeError>(e)
                && final(env)@ == after,
        },
    decreases depth, 1 + pairs.len(),
{
    let ghost views = pairs_view(pairs@);
    let ghost goal = eval_pairs(views, 0, Seq::empty(), env@, scope as int, depth as nat);
    let mut entries: Vec<(Primitive, Binding)> = Vec::new();
    let mut i: usize = 0;
    assert(entries_view(entries@) =~= Seq::empty());
    while i < pairs.len()
        invariant
            0 <= i <= pairs.len(),
            env.wf(),
            env.limit() == old(env).limit(),
            views == pairs_view(pairs@),
            goal == eval_pairs(views, 0, Seq::empty(), old(env)@, scope as int, depth as nat),
            eval_pairs(views, i as int, entries_view(entries@), env@, scope as int, depth as nat)
                == goal,
        decreases pairs.len() - i,
    {
        let key = match evaluate(&pairs[i].0, env, scope, depth) {
            Ok(v) => v,
            Err(e) => {
                return Err(e);
            },
        };
        let value = match evaluate(&pairs[i].1, env, scope, depth) {
            Ok(v) => v,
            Err(e) => {
                return Err(e);
            },
        };
        match key {
            Binding::Primitive(Primitive::Fn(_)) => {
                return Err(RuntimeError::BadKey);
            },
            Binding::Primitive(p) => {
                insert_entry(&mut entries, p, value);
            },
            _ => {
                return Err(RuntimeError::BadKey);
            },
        }
        i += 1;
    }
    Ok(entries)
}

/// Calls a value on arguments from a scope.
pub fn call_value(
    callee: Binding,
    args: Vec<Binding>,
    env: &mut Env,
    scope: usize,
    depth: usize,
) -> (r: Result<Binding, RuntimeError>)
    requires
        old(env).wf(),
    ensures
        final(env).wf(),
        final(env).limit() == old(env).limit(),
        (result_view(r), final(env)@) == apply(
            callee@,
            bindings_view(args@),
            old(env)@,
            scope as int,
            depth as nat,
        ),
    decreases depth, 0nat,
{
    match callee {
        Binding::Fn(made_in, f) => {
            if made_in >= env.len() {
                return Err(RuntimeError::BadEnvironment);
            }
            if f.args.len() != args.len() {
                return Err(RuntimeError::ArityMismatch);
            }
            if depth == 0 {
                return Err(RuntimeError::DepthLimit);
            }
            let inner: usize = env.enter(made_in, &f.args, args, scope);
            let r = evaluate_block(&f.body.0, env, inner, depth - 1);
            arrive(r)
        },
        Binding::Builtin(b) => env.call_builtin(b, &args),
        _ => Err(RuntimeError::NotCallable),
    }
}

impl Evaluation for Expr {
    open spec fn meaning(&self, env: EnvView, depth: nat) -> Evaluated {
        eval_expr(self@, env, 0, depth)
    }

    fn eval(&self, env: &mut Env) -> (r: Result<Binding, RuntimeError>) {
        let depth: usize = env.depth_limit();
        evaluate(self, env, 0, depth)
    }
}

impl Evaluation for Vec<Expr> {
    open spec fn meaning(&self, env: EnvView, depth: nat) -> Evaluated {
        eval_block(exprs_view(self@), 0, BindingView::Null, env, 0, depth)
    }

    fn eval(&self, env: &mut Env) -> (r: Result<Binding, RuntimeError>) {
        let depth: usize = env.depth_limit();
        evaluate_block(self, env, 0, depth)
    }
}

impl Evaluation for Block {
    open spec fn meaning(&self, env: EnvView, depth: nat) -> Evaluated {
        eval_block(self@, 0, BindingView::Null, env, 0, depth)
    }

    fn eval(&self, env: &mut Env) -> (r: Result<Binding, RuntimeError>) {
        let depth: usize = env.depth_limit();
        evaluate_block(&self.0, env, 0, depth)
    }
}

impl Evaluation for Program {
    open spec fn meaning(&self, env: EnvView, depth: nat) -> Evaluated {
        eval_program(self@, env, depth)
    }

    fn eval(&self, env: &mut Env) -> (r: Result<Binding, RuntimeError>) {
        let depth: usize = env.depth_limit();
        let r = evaluate_block(&self.statements, env, 0, depth);
        arrive(r)
    }
}

} // verus!
