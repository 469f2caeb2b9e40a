//! Where the two backends agree: on expressions that are made of literals,
//! names of globals, operators, array and hash literals and calls of
//! builtins, the machine computes from the compiled code what the
//! evaluator computes from the tree, and writes what the evaluator writes.

use vstd::prelude::*;
use crate::builtins::{builtin_index, builtin_of, builtin_output, builtin_value};
use crate::evaluator::semantics::{
    apply, eval_expr, eval_list, eval_pairs, infix_op_of, lookup, prefix_op_of, EnvView,
};
use crate::lexer::tokens::TokenView;
use crate::operators::{bool_value, hash_insert, infix_value, prefix_value, InfixOp};
use crate::parser::types::ExprView;
use crate::value::{BindingView, PrimitiveView, RuntimeError};
use crate::vm::decoding::{
    lemma_fetch, lemma_run_after_steps, lemma_steps_split, narrow_operand, offset, steps,
    well_formed, wide_operand,
};
use crate::vm::lowering::{
    add_constant, compile_expr, compile_list, compile_pairs, current, emit, emit_constant,
    infix_operation, main_closure, narrow, plain, prefix_operation, wide, ContextView,
};
use crate::vm::symbols::{
    find, resolve as resolve_symbol, SymbolScope, SymbolTableView, SymbolView,
};
use crate::vm::semantics::{
    binary, call, collect_entries, execute, halted, push_value, run_from, started, step, top, valid,
    with_ip, FrameView, MachineView, STACK_SIZE,
};
use crate::vm::types::{encode_all, lemma_wide_round_trip, InstructionView, Op};

verus! {

/// The global that a name stands for in the outermost table, where the
/// name is the name of no builtin.
pub open spec fn global_of(t: SymbolTableView, name: Seq<char>) -> Option<SymbolView> {
    if builtin_of(name) is None && t.outer is None {
        match find(t.symbols, name) {
            Some(s) => if s.scope == SymbolScope::Global && s.index < STACK_SIZE {
                Some(s)
            } else {
                None
            },
            None => None,
        }
    } else {
        None
    }
}

/// Whether the expression is made of literals, globals, prefix and infix
/// operators, array and hash literals and calls of builtins by their
/// names. The operands of `>` hold no call: the machine computes the right
/// one first.
pub open spec fn simple(e: ExprView, t: SymbolTableView) -> bool
    decreases e, 0nat,
{
    match e {
        ExprView::Int(_) => true,
        ExprView::Bool(_) => true,
        ExprView::String(_) => true,
        ExprView::Prefix { token, right } => prefix_operation(token) is Some && simple(*right, t),
        ExprView::Infix { left, token, right } => simple(*left, t) && simple(*right, t) && (
        infix_operation(token) is Some || (token is Gt && silent(*left, t) && silent(*right, t))),
        ExprView::Array(items) => simple_list(items, t),
        ExprView::Call { callee, args } => (match *callee {
            ExprView::Identifier(name) => builtin_of(name) is Some,
            _ => false,
        }) && simple_list(args, t),
        ExprView::Identifier(name) => global_of(t, name) is Some,
        ExprView::Hash(pairs) => simple_pairs(pairs, t),
        _ => false,
    }
}

/// Whether the key and the value of each pair are simple.
pub open spec fn simple_pairs(pairs: Seq<(ExprView, ExprView)>, t: SymbolTableView) -> bool
    decreases pairs, 0nat,
{
    forall|i: int|
        0 <= i < pairs.len() ==> simple((#[trigger] pairs[i]).0, t) && simple(pairs[i].1, t)
}

/// Whether the expression holds no call.
pub open spec fn silent(e: ExprView, t: SymbolTableView) -> bool
    decreases e, 0nat,
{
    match e {
        ExprView::Int(_) => true,
        ExprView::Bool(_) => true,
        ExprView::String(_) => true,
        ExprView::Prefix { token, right } => silent(*right, t),
        ExprView::Infix { left, token, right } => silent(*left, t) && silent(*right, t),
        ExprView::Array(items) => silent_list(items, t),
        ExprView::Identifier(name) => global_of(t, name) is Some,
        ExprView::Hash(pairs) => silent_pairs(pairs, t),
        _ => false,
    }
}

/// Whether no key and no value of the pairs holds a call.
pub open spec fn silent_pairs(pairs: Seq<(ExprView, ExprView)>, t: SymbolTableView) -> bool
    decreases pairs, 0nat,
{
    forall|i: int|
        0 <= i < pairs.len() ==> silent((#[trigger] pairs[i]).0, t) && silent(pairs[i].1, t)
}

/// Whether none of the expressions holds a call.
pub open spec fn silent_list(items: Seq<ExprView>, t: SymbolTableView) -> bool
    decreases items, 0nat,
{
    forall|i: int| 0 <= i < items.len() ==> silent(#[trigger] items[i], t)
}

/// The builtin that the callee of a simple call names.
pub open spec fn callee_builtin(callee: ExprView) -> crate::value::Builtin {
    builtin_of(callee->Identifier_0)->Some_0
}

/// Whether each of the expressions is simple.
pub open spec fn simple_list(items: Seq<ExprView>, t: SymbolTableView) -> bool
    decreases items, 0nat,
{
    forall|i: int| 0 <= i < items.len() ==> simple(#[trigger] items[i], t)
}

/// The constants that compiling a simple expression adds to the pool.
pub open spec fn pool(e: ExprView) -> Seq<PrimitiveView>
    decreases e, 0nat,
{
    match e {
        ExprView::Int(i) => seq![PrimitiveView::Int(i)],
        ExprView::String(s) => seq![PrimitiveView::String_(s)],
        ExprView::Prefix { token, right } => pool(*right),
        ExprView::Infix { left, token, right } => if token is Gt {
            pool(*right) + pool(*left)
        } else {
            pool(*left) + pool(*right)
        },
        ExprView::Array(items) => pool_list(items, 0),
        ExprView::Call { callee, args } => pool_list(args, 0),
        ExprView::Hash(pairs) => pool_pairs(pairs, 0),
        _ => Seq::empty(),
    }
}

/// The constants that compiling the pairs from `i` on adds.
pub open spec fn pool_pairs(pairs: Seq<(ExprView, ExprView)>, i: int) -> Seq<PrimitiveView>
    decreases pairs, pairs.len() - i,
{
    if 0 <= i < pairs.len() {
        pool(pairs[i].0) + pool(pairs[i].1) + pool_pairs(pairs, i + 1)
    } else {
        Seq::empty()
    }
}

/// The constants that compiling the expressions from `i` on adds.
pub open spec fn pool_list(items: Seq<ExprView>, i: int) -> Seq<PrimitiveView>
    decreases items, items.len() - i,
{
    if 0 <= i < items.len() {
        pool(items[i]) + pool_list(items, i + 1)
    } else {
        Seq::empty()
    }
}

/// The instructions that compiling a simple expression emits, where the
/// pool holds `base` constants before.
pub open spec fn code(e: ExprView, base: int, t: SymbolTableView) -> Seq<InstructionView>
    decreases e, 0nat,
{
    match e {
        ExprView::Int(_) => seq![wide(Op::Constant, base as u16)],
        ExprView::String(_) => seq![wide(Op::Constant, base as u16)],
        ExprView::Bool(b) => seq![plain(if b {
            Op::True
        } else {
            Op::False
        })],
        ExprView::Prefix { token, right } => code(*right, base, t).push(
            plain(prefix_operation(token)->Some_0),
        ),
        ExprView::Infix { left, token, right } => if token is Gt {
            (code(*right, base, t) + code(*left, base + pool(*right).len(), t)).push(plain(Op::Lt))
        } else {
            (code(*left, base, t) + code(*right, base + pool(*left).len(), t)).push(
                plain(infix_operation(token)->Some_0),
            )
        },
        ExprView::Array(items) => code_list(items, 0, base, t).push(
            wide(Op::Array, items.len() as u16),
        ),
        ExprView::Call { callee, args } => (seq![
            narrow(Op::GetBuiltin, builtin_index(callee_builtin(*callee))),
        ] + code_list(args, 0, base, t)).push(narrow(Op::Call, args.len() as u8)),
        ExprView::Identifier(name) => seq![wide(Op::GetGlobal, global_of(t, name)->Some_0.index)],
        ExprView::Hash(pairs) => code_pairs(pairs, 0, base, t).push(
            wide(Op::Hash, pairs.len() as u16),
        ),
        _ => Seq::empty(),
    }
}

/// The instructions that compiling the pairs from `i` on emits: of each
/// pair the code of the key, then the code of the value.
pub open spec fn code_pairs(
    pairs: Seq<(ExprView, ExprView)>,
    i: int,
    base: int,
    t: SymbolTableView,
) -> Seq<InstructionView>
    decreases pairs, pairs.len() - i,
{
    if 0 <= i < pairs.len() {
        let behind_key = base + pool(pairs[i].0).len();
        code(pairs[i].0, base, t) + code(pairs[i].1, behind_key, t) + code_pairs(
            pairs,
            i + 1,
            behind_key + pool(pairs[i].1).len(),
            t,
        )
    } else {
        Seq::empty()
    }
}

/// The instructions that compiling the expressions from `i` on emits.
pub open spec fn code_list(items: Seq<ExprView>, i: int, base: int, t: SymbolTableView) -> Seq<InstructionView>
    decreases items, items.len() - i,
{
    if 0 <= i < items.len() {
        code(items[i], base, t) + code_list(items, i + 1, base + pool(items[i]).len(), t)
    } else {
        Seq::empty()
    }
}

/// Whether every call in the expression has at most 255 arguments.
pub open spec fn fits(e: ExprView) -> bool
    decreases e, 0nat,
{
    match e {
        ExprView::Prefix { token, right } => fits(*right),
        ExprView::Infix { left, token, right } => fits(*left) && fits(*right),
        ExprView::Array(items) => fits_list(items),
        ExprView::Call { callee, args } => args.len() <= u8::MAX && fits_list(args),
        ExprView::Hash(pairs) => pairs.len() <= u16::MAX && fits_pairs(pairs),
        _ => true,
    }
}

/// Whether every call in the pairs has at most 255 arguments.
pub open spec fn fits_pairs(pairs: Seq<(ExprView, ExprView)>) -> bool
    decreases pairs, 0nat,
{
    forall|i: int| 0 <= i < pairs.len() ==> fits((#[trigger] pairs[i]).0) && fits(pairs[i].1)
}

/// Whether every call in the expressions has at most 255 arguments.
pub open spec fn fits_list(items: Seq<ExprView>) -> bool
    decreases items, 0nat,
{
    forall|i: int| 0 <= i < items.len() ==> fits(#[trigger] items[i])
}

/// The context with more instructions in the current scope and more
/// constants.
pub open spec fn appended(
    ctx: ContextView,
    is: Seq<InstructionView>,
    constants: Seq<PrimitiveView>,
) -> ContextView {
    ContextView {
        scopes: ctx.scopes.update(ctx.scopes.len() - 1, current(ctx) + is),
        constants: ctx.constants + constants,
        ..ctx
    }
}

pub proof fn lemma_appended_twice(
    ctx: ContextView,
    a: Seq<InstructionView>,
    p: Seq<PrimitiveView>,
    b: Seq<InstructionView>,
    q: Seq<PrimitiveView>,
)
    requires
        ctx.scopes.len() > 0,
    ensures
        appended(appended(ctx, a, p), b, q) == appended(ctx, a + b, p + q),
{
    let one = appended(ctx, a, p);
    assert(current(one) + b =~= current(ctx) + (a + b));
    assert(one.scopes.update(one.scopes.len() - 1, current(one) + b) =~= ctx.scopes.update(
        ctx.scopes.len() - 1,
        current(ctx) + (a + b),
    ));
    assert(one.constants + q =~= ctx.constants + (p + q));
}

pub proof fn lemma_emit_appends(ctx: ContextView, i: InstructionView)
    ensures
        emit(ctx, i) matches Ok(after) ==> ctx.scopes.len() > 0 && after == appended(
            ctx,
            seq![i],
            Seq::empty(),
        ),
{
    if emit(ctx, i) is Ok {
        assert(current(ctx).push(i) =~= current(ctx) + seq![i]);
        assert(ctx.constants + Seq::<PrimitiveView>::empty() =~= ctx.constants);
    }
}

proof fn lemma_constant_appends(ctx: ContextView, p: PrimitiveView)
    ensures
        emit_constant(ctx, p) matches Ok(after) ==> ctx.scopes.len() > 0 && after == appended(
            ctx,
            seq![wide(Op::Constant, ctx.constants.len() as u16)],
            seq![p],
        ) && ctx.constants.len() + 1 <= 65536,
{
    match add_constant(ctx, p) {
        Ok((ix, ctx1)) => {
            lemma_emit_appends(ctx1, wide(Op::Constant, ix));
            if emit(ctx1, wide(Op::Constant, ix)) is Ok {
                let after = emit(ctx1, wide(Op::Constant, ix))->Ok_0;
                assert(ctx.constants.push(p) =~= ctx.constants + seq![p]);
                assert(ctx1.constants + Seq::<PrimitiveView>::empty() =~= ctx.constants + seq![p]);
                assert(after.scopes =~= appended(
                    ctx,
                    seq![wide(Op::Constant, ix)],
                    seq![p],
                ).scopes);
            }
        },
        Err(_) => {},
    }
}

/// Compiling a simple expression appends its instructions to the current
/// scope and its constants to the pool, and changes nothing else.
pub proof fn lemma_compile_appends(e: ExprView, ctx: ContextView, t: SymbolTableView)
    requires
        simple(e, t),
        ctx.symbols == t,
    ensures
        compile_expr(e, ctx) matches Ok(after) ==> ctx.scopes.len() > 0 && after == appended(
            ctx,
            code(e, ctx.constants.len() as int, t),
            pool(e),
        ) && (pool(e).len() > 0 ==> ctx.constants.len() + pool(e).len() <= 65536) && fits(e),
    decreases e, 1nat,
{
    let base = ctx.constants.len() as int;
    match e {
        ExprView::Int(i) => {
            lemma_constant_appends(ctx, PrimitiveView::Int(i));
        },
        ExprView::String(s) => {
            lemma_constant_appends(ctx, PrimitiveView::String_(s));
        },
        ExprView::Bool(b) => {
            lemma_emit_appends(ctx, plain(if b {
                Op::True
            } else {
                Op::False
            }));
        },
        ExprView::Prefix { token, right } => {
            lemma_compile_appends(*right, ctx, t);
            match compile_expr(*right, ctx) {
                Ok(ctx1) => {
                    let op = prefix_operation(token)->Some_0;
                    lemma_emit_appends(ctx1, plain(op));
                    lemma_appended_twice(
                        ctx,
                        code(*right, base, t),
                        pool(*right),
                        seq![plain(op)],
                        Seq::empty(),
                    );
                    assert(code(*right, base, t) + seq![plain(op)] =~= code(e, base, t));
                    assert(pool(*right) + Seq::<PrimitiveView>::empty() =~= pool(e));
                },
                Err(_) => {},
            }
        },
        ExprView::Infix { left, token, right } => {
            if token is Gt {
                lemma_compile_pair_appends(e, *right, *left, Op::Lt, ctx, t);
                let cr = code(*right, base, t);
                let cl = code(*left, base + pool(*right).len(), t);
                assert(cr + cl + seq![plain(Op::Lt)] =~= code(e, base, t));
            } else {
                let op = infix_operation(token)->Some_0;
                lemma_compile_pair_appends(e, *left, *right, op, ctx, t);
                let cl = code(*left, base, t);
                let cr = code(*right, base + pool(*left).len(), t);
                assert(cl + cr + seq![plain(op)] =~= code(e, base, t));
            }
        },
        ExprView::Hash(pairs) => {
            lemma_compile_entries_appends(pairs, 0, ctx, t);
            match compile_pairs(pairs, 0, ctx) {
                Ok(ctx1) => {
                    if pairs.len() <= u16::MAX && emit(
                        ctx1,
                        wide(Op::Hash, pairs.len() as u16),
                    ) is Ok {
                        let i = wide(Op::Hash, pairs.len() as u16);
                        lemma_emit_appends(ctx1, i);
                        lemma_appended_twice(
                            ctx,
                            code_pairs(pairs, 0, base, t),
                            pool_pairs(pairs, 0),
                            seq![i],
                            Seq::empty(),
                        );
                        assert(code_pairs(pairs, 0, base, t) + seq![i] =~= code(e, base, t));
                        assert(pool_pairs(pairs, 0) + Seq::<PrimitiveView>::empty() =~= pool(e));
                        assert(fits_pairs(pairs));
                    }
                },
                Err(_) => {},
            }
        },
        ExprView::Array(items) => {
            lemma_compile_list_appends(items, 0, ctx, t);
            match compile_list(items, 0, ctx) {
                Ok(ctx1) => {
                    if items.len() <= u16::MAX && emit(
                        ctx1,
                        wide(Op::Array, items.len() as u16),
                    ) is Ok {
                        let i = wide(Op::Array, items.len() as u16);
                        lemma_emit_appends(ctx1, i);
                        lemma_appended_twice(
                            ctx,
                            code_list(items, 0, base, t),
                            pool_list(items, 0),
                            seq![i],
                            Seq::empty(),
                        );
                        assert(code_list(items, 0, base, t) + seq![i] =~= code(e, base, t));
                        assert(pool_list(items, 0) + Seq::<PrimitiveView>::empty() =~= pool(e));
                        assert(fits_list(items));
                    }
                },
                Err(_) => {},
            }
        },
        ExprView::Call { callee, args } => {
            let b = callee_builtin(*callee);
            let get = narrow(Op::GetBuiltin, builtin_index(b));
            lemma_emit_appends(ctx, get);
            assert(compile_expr(*callee, ctx) == emit(ctx, get)) by {
                let name = callee->Identifier_0;
                let symbol = SymbolView {
                    name,
                    index: builtin_index(b) as u16,
                    scope: SymbolScope::Builtin,
                };
                assert(resolve_symbol(ctx.symbols, name) == (
                    Ok::<Option<SymbolView>, crate::vm::symbols::CompileError>(Some(symbol)),
                    ctx.symbols,
                ));
                assert(ContextView { symbols: ctx.symbols, ..ctx } == ctx);
            }
            match compile_expr(*callee, ctx) {
                Ok(ctx1) => {
                    lemma_compile_list_appends(args, 0, ctx1, t);
                    match compile_list(args, 0, ctx1) {
                        Ok(ctx2) => {
                            if args.len() <= u8::MAX && emit(
                                ctx2,
                                narrow(Op::Call, args.len() as u8),
                            ) is Ok {
                                let i = narrow(Op::Call, args.len() as u8);
                                assert(fits_list(args));
                                lemma_emit_appends(ctx2, i);
                                lemma_appended_twice(
                                    ctx,
                                    seq![get],
                                    Seq::empty(),
                                    code_list(args, 0, base, t),
                                    pool_list(args, 0),
                                );
                                lemma_appended_twice(
                                    ctx,
                                    seq![get] + code_list(args, 0, base, t),
                                    Seq::empty() + pool_list(args, 0),
                                    seq![i],
                                    Seq::empty(),
                                );
                                assert(seq![get] + code_list(args, 0, base, t) + seq![i] =~= code(
                                    e,
                                    base, t,
                                ));
                                assert(Seq::<PrimitiveView>::empty() + pool_list(args, 0)
                                    + Seq::<PrimitiveView>::empty() =~= pool(e));
                            }
                        },
                        Err(_) => {},
                    }
                },
                Err(_) => {},
            }
        },
        ExprView::Identifier(name) => {
            let symbol = global_of(t, name)->Some_0;
            let get = wide(Op::GetGlobal, symbol.index);
            lemma_emit_appends(ctx, get);
            assert(resolve_symbol(ctx.symbols, name) == (
                Ok::<Option<SymbolView>, crate::vm::symbols::CompileError>(Some(symbol)),
                ctx.symbols,
            ));
            assert(ContextView { symbols: ctx.symbols, ..ctx } == ctx);
            assert(compile_expr(e, ctx) == emit(ctx, get));
        },
        _ => {},
    }
}

proof fn lemma_compile_pair_appends(
    e: ExprView,
    first: ExprView,
    second: ExprView,
    op: Op,
    ctx: ContextView,
    t: SymbolTableView,
)
    requires
        e is Infix,
        (first == *e->Infix_left && second == *e->Infix_right) || (first == *e->Infix_right
            && second == *e->Infix_left),
        simple(first, t),
        simple(second, t),
        ctx.symbols == t,
    ensures
        (match compile_expr(first, ctx) {
            Err(e) => Err(e),
            Ok(ctx1) => match compile_expr(second, ctx1) {
                Err(e) => Err(e),
                Ok(ctx2) => emit(ctx2, plain(op)),
            },
        }) matches Ok(after) ==> ctx.scopes.len() > 0 && after == appended(
            ctx,
            code(first, ctx.constants.len() as int, t) + code(
                second,
                (ctx.constants.len() + pool(first).len()) as int, t,
            ) + seq![plain(op)],
            pool(first) + pool(second),
        ) && (pool(first).len() + pool(second).len() > 0 ==> ctx.constants.len() + pool(
            first,
        ).len() + pool(second).len() <= 65536) && fits(first) && fits(second),
    decreases e, 0nat,
{
    let base = ctx.constants.len() as int;
    lemma_compile_appends(first, ctx, t);
    match compile_expr(first, ctx) {
        Ok(ctx1) => {
            lemma_compile_appends(second, ctx1, t);
            match compile_expr(second, ctx1) {
                Ok(ctx2) => {
                    let cf = code(first, base, t);
                    let cs = code(second, base + pool(first).len(), t);
                    lemma_emit_appends(ctx2, plain(op));
                    lemma_appended_twice(ctx, cf, pool(first), cs, pool(second));
                    lemma_appended_twice(
                        ctx,
                        cf + cs,
                        pool(first) + pool(second),
                        seq![plain(op)],
                        Seq::empty(),
                    );
                    assert(pool(first) + pool(second) + Seq::<PrimitiveView>::empty() =~= pool(
                        first,
                    ) + pool(second));
                },
                Err(_) => {},
            }
        },
        Err(_) => {},
    }
}

proof fn lemma_compile_entries_appends(
    pairs: Seq<(ExprView, ExprView)>,
    i: int,
    ctx: ContextView,
    t: SymbolTableView,
)
    requires
        simple_pairs(pairs, t),
        ctx.symbols == t,
        0 <= i <= pairs.len(),
    ensures
        compile_pairs(pairs, i, ctx) matches Ok(after) ==> (i < pairs.len() ==> ctx.scopes.len()
            > 0) && (ctx.scopes.len() > 0 ==> after == appended(
            ctx,
            code_pairs(pairs, i, ctx.constants.len() as int, t),
            pool_pairs(pairs, i),
        )) && (ctx.scopes.len() == 0 ==> after == ctx) && (pool_pairs(pairs, i).len() > 0
            ==> ctx.constants.len() + pool_pairs(pairs, i).len() <= 65536) && (forall|k: int|
            i <= k < pairs.len() ==> fits((#[trigger] pairs[k]).0) && fits(pairs[k].1)),
    decreases pairs, pairs.len() - i,
{
    let base = ctx.constants.len() as int;
    if i < pairs.len() {
        let key = pairs[i].0;
        let value = pairs[i].1;
        lemma_compile_appends(key, ctx, t);
        match compile_expr(key, ctx) {
            Ok(ctx1) => {
                lemma_compile_appends(value, ctx1, t);
                match compile_expr(value, ctx1) {
                    Ok(ctx2) => {
                        let ck = code(key, base, t);
                        let cv = code(value, base + pool(key).len(), t);
                        lemma_appended_twice(ctx, ck, pool(key), cv, pool(value));
                        lemma_compile_entries_appends(pairs, i + 1, ctx2, t);
                        match compile_pairs(pairs, i + 1, ctx2) {
                            Ok(ctx3) => {
                                lemma_appended_twice(
                                    ctx,
                                    ck + cv,
                                    pool(key) + pool(value),
                                    code_pairs(
                                        pairs,
                                        i + 1,
                                        base + pool(key).len() + pool(value).len(),
                                        t,
                                    ),
                                    pool_pairs(pairs, i + 1),
                                );
                            },
                            Err(_) => {},
                        }
                    },
                    Err(_) => {},
                }
            },
            Err(_) => {},
        }
    } else {
        if ctx.scopes.len() > 0 {
            assert(current(ctx) + Seq::<InstructionView>::empty() =~= current(ctx));
            assert(ctx.constants + Seq::<PrimitiveView>::empty() =~= ctx.constants);
            assert(ctx.scopes.update(ctx.scopes.len() - 1, current(ctx)) =~= ctx.scopes);
        }
    }
}

pub proof fn lemma_compile_list_appends(
    items: Seq<ExprView>,
    i: int,
    ctx: ContextView,
    t: SymbolTableView,
)
    requires
        simple_list(items, t),
        ctx.symbols == t,
        0 <= i <= items.len(),
    ensures
        compile_list(items, i, ctx) matches Ok(after) ==> (i < items.len() ==> ctx.scopes.len()
            > 0) && (ctx.scopes.len() > 0 ==> after == appended(
            ctx,
            code_list(items, i, ctx.constants.len() as int, t),
            pool_list(items, i),
        )) && (ctx.scopes.len() == 0 ==> after == ctx) && (pool_list(items, i).len() > 0
            ==> ctx.constants.len() + pool_list(items, i).len() <= 65536) && (forall|k: int|
            i <= k < items.len() ==> fits(#[trigger] items[k])),
    decreases items, items.len() - i,
{
    let base = ctx.constants.len() as int;
    if i < items.len() {
        lemma_compile_appends(items[i], ctx, t);
        match compile_expr(items[i], ctx) {
            Ok(ctx1) => {
                lemma_compile_list_appends(items, i + 1, ctx1, t);
                match compile_list(items, i + 1, ctx1) {
                    Ok(ctx2) => {
                        lemma_appended_twice(
                            ctx,
                            code(items[i], base, t),
                            pool(items[i]),
                            code_list(items, i + 1, base + pool(items[i]).len(), t),
                            pool_list(items, i + 1),
                        );
                    },
                    Err(_) => {},
                }
            },
            Err(_) => {},
        }
    } else {
        if ctx.scopes.len() > 0 {
            assert(current(ctx) + Seq::<InstructionView>::empty() =~= current(ctx));
            assert(ctx.constants + Seq::<PrimitiveView>::empty() =~= ctx.constants);
            assert(ctx.scopes.update(ctx.scopes.len() - 1, current(ctx)) =~= ctx.scopes);
        }
    }
}

/// No scope up the chain binds the name of a builtin.
pub open spec fn unshadowed(env: EnvView, scope: int) -> bool {
    forall|name: Seq<char>|
        builtin_of(name) is Some ==> (#[trigger] lookup(env, scope, name)) is None
}

/// What a name is bound to depends on the scopes alone.
pub proof fn lemma_lookup_scopes(env1: EnvView, env2: EnvView, scope: int, name: Seq<char>)
    requires
        env1.scopes == env2.scopes,
    ensures
        lookup(env1, scope, name) == lookup(env2, scope, name),
    decreases scope,
{
    if 0 <= scope < env1.scopes.len() {
        match env1.scopes[scope].enclosing {
            Some(outer) => {
                if 0 <= outer < scope {
                    lemma_lookup_scopes(env1, env2, outer, name);
                }
            },
            None => {},
        }
    }
}

pub proof fn lemma_unshadowed_kept(env1: EnvView, env2: EnvView, scope: int)
    requires
        env1.scopes == env2.scopes,
        unshadowed(env1, scope),
    ensures
        unshadowed(env2, scope),
{
    assert forall|name: Seq<char>| builtin_of(name) is Some implies (#[trigger] lookup(
        env2,
        scope,
        name,
    )) is None by {
        lemma_lookup_scopes(env1, env2, scope, name);
        assert(lookup(env1, scope, name) is None);
    }
}

/// Evaluating an expression without a call leaves the environment as it
/// is.
pub proof fn lemma_silent_is_pure(e: ExprView, env: EnvView, scope: int, depth: nat, t: SymbolTableView)
    requires
        silent(e, t),
    ensures
        eval_expr(e, env, scope, depth).1 == env,
    decreases e, 1nat,
{
    if depth > 0 {
        let d = (depth - 1) as nat;
        match e {
            ExprView::Prefix { token, right } => {
                lemma_silent_is_pure(*right, env, scope, d, t);
            },
            ExprView::Infix { left, token, right } => {
                lemma_silent_is_pure(*left, env, scope, d, t);
                lemma_silent_is_pure(*right, env, scope, d, t);
            },
            ExprView::Array(items) => {
                lemma_silent_list_is_pure(items, 0, Seq::empty(), env, scope, d, t);
            },
            ExprView::Hash(pairs) => {
                lemma_silent_entries_are_pure(pairs, 0, Seq::empty(), env, scope, d, t);
            },
            _ => {},
        }
    }
}

proof fn lemma_silent_entries_are_pure(
    pairs: Seq<(ExprView, ExprView)>,
    i: int,
    acc: Seq<(PrimitiveView, BindingView)>,
    env: EnvView,
    scope: int,
    depth: nat,
    t: SymbolTableView,
)
    requires
        silent_pairs(pairs, t),
        0 <= i <= pairs.len(),
    ensures
        eval_pairs(pairs, i, acc, env, scope, depth).1 == env,
    decreases pairs, pairs.len() - i,
{
    if i < pairs.len() {
        let key = pairs[i].0;
        let value = pairs[i].1;
        lemma_silent_is_pure(key, env, scope, depth, t);
        lemma_silent_is_pure(value, env, scope, depth, t);
        match (eval_expr(key, env, scope, depth).0, eval_expr(value, env, scope, depth).0) {
            (Ok(BindingView::Primitive(k)), Ok(v)) => {
                if !(k is Fn) {
                    lemma_silent_entries_are_pure(
                        pairs,
                        i + 1,
                        hash_insert(acc, k, v),
                        env,
                        scope,
                        depth,
                        t,
                    );
                }
            },
            _ => {},
        }
    }
}

proof fn lemma_silent_list_is_pure(
    items: Seq<ExprView>,
    i: int,
    acc: Seq<BindingView>,
    env: EnvView,
    scope: int,
    depth: nat,
    t: SymbolTableView,
)
    requires
        silent_list(items, t),
        0 <= i <= items.len(),
    ensures
        eval_list(items, i, acc, env, scope, depth).1 == env,
    decreases items, items.len() - i,
{
    if i < items.len() {
        lemma_silent_is_pure(items[i], env, scope, depth, t);
        match eval_expr(items[i], env, scope, depth).0 {
            Ok(v) => {
                lemma_silent_list_is_pure(items, i + 1, acc.push(v), env, scope, depth, t);
            },
            Err(_) => {},
        }
    }
}

/// Evaluating a simple expression changes nothing but the output.
pub proof fn lemma_scopes_kept(e: ExprView, env: EnvView, scope: int, depth: nat, t: SymbolTableView)
    requires
        simple(e, t),
        unshadowed(env, scope),
    ensures
        eval_expr(e, env, scope, depth).1.scopes == env.scopes,
        unshadowed(eval_expr(e, env, scope, depth).1, scope),
    decreases e, 1nat,
{
    if depth > 0 {
        let d = (depth - 1) as nat;
        match e {
            ExprView::Prefix { token, right } => {
                lemma_scopes_kept(*right, env, scope, d, t);
            },
            ExprView::Infix { left, token, right } => {
                lemma_scopes_kept(*left, env, scope, d, t);
                lemma_scopes_kept(*right, eval_expr(*left, env, scope, d).1, scope, d, t);
            },
            ExprView::Array(items) => {
                lemma_list_scopes_kept(items, 0, Seq::empty(), env, scope, d, t);
            },
            ExprView::Call { callee, args } => {
                lemma_call_scopes_kept(e, env, scope, depth, t);
            },
            ExprView::Hash(pairs) => {
                lemma_entries_scopes_kept(pairs, 0, Seq::empty(), env, scope, d, t);
            },
            _ => {},
        }
    }
    lemma_unshadowed_kept(env, eval_expr(e, env, scope, depth).1, scope);
}

proof fn lemma_entries_scopes_kept(
    pairs: Seq<(ExprView, ExprView)>,
    i: int,
    acc: Seq<(PrimitiveView, BindingView)>,
    env: EnvView,
    scope: int,
    depth: nat,
    t: SymbolTableView,
)
    requires
        simple_pairs(pairs, t),
        0 <= i <= pairs.len(),
        unshadowed(env, scope),
    ensures
        eval_pairs(pairs, i, acc, env, scope, depth).1.scopes == env.scopes,
    decreases pairs, pairs.len() - i,
{
    if i < pairs.len() {
        let key = pairs[i].0;
        let value = pairs[i].1;
        lemma_scopes_kept(key, env, scope, depth, t);
        let env1 = eval_expr(key, env, scope, depth).1;
        lemma_scopes_kept(value, env1, scope, depth, t);
        let env2 = eval_expr(value, env1, scope, depth).1;
        match (eval_expr(key, env, scope, depth).0, eval_expr(value, env1, scope, depth).0) {
            (Ok(BindingView::Primitive(k)), Ok(v)) => {
                if !(k is Fn) {
                    lemma_entries_scopes_kept(
                        pairs,
                        i + 1,
                        hash_insert(acc, k, v),
                        env2,
                        scope,
                        depth,
                        t,
                    );
                }
            },
            _ => {},
        }
    }
}

proof fn lemma_call_scopes_kept(e: ExprView, env: EnvView, scope: int, depth: nat, t: SymbolTableView)
    requires
        simple(e, t),
        e is Call,
        unshadowed(env, scope),
        depth > 0,
    ensures
        eval_expr(e, env, scope, depth).1.scopes == env.scopes,
    decreases e, 0nat,
{
    let d = (depth - 1) as nat;
    match e {
        ExprView::Call { callee, args } => {
            let name = callee->Identifier_0;
            assert(lookup(env, scope, name) is None);
            let (c, env1) = eval_expr(*callee, env, scope, d);
            assert(env1 == env);
            lemma_list_scopes_kept(args, 0, Seq::empty(), env, scope, d, t);
            if c is Ok {
                assert(c == Ok::<BindingView, RuntimeError>(
                    BindingView::Builtin(callee_builtin(*callee)),
                ));
                let (a, env2) = eval_list(args, 0, Seq::empty(), env1, scope, d);
                if a is Ok {
                    assert(eval_expr(e, env, scope, depth) == apply(
                        c->Ok_0,
                        a->Ok_0,
                        env2,
                        scope,
                        d,
                    ));
                }
            }
        },
        _ => {},
    }
}

pub proof fn lemma_list_scopes_kept(
    items: Seq<ExprView>,
    i: int,
    acc: Seq<BindingView>,
    env: EnvView,
    scope: int,
    depth: nat,
    t: SymbolTableView,
)
    requires
        simple_list(items, t),
        0 <= i <= items.len(),
        unshadowed(env, scope),
    ensures
        eval_list(items, i, acc, env, scope, depth).1.scopes == env.scopes,
    decreases items, items.len() - i,
{
    if i < items.len() {
        lemma_scopes_kept(items[i], env, scope, depth, t);
        match eval_expr(items[i], env, scope, depth).0 {
            Ok(v) => {
                lemma_list_scopes_kept(
                    items,
                    i + 1,
                    acc.push(v),
                    eval_expr(items[i], env, scope, depth).1,
                    scope,
                    depth, t,
                );
            },
            Err(_) => {},
        }
    }
}

/// The globals of the machine hold what the environment binds: every name
/// that stands for a global is bound to the value in the slot of that
/// global.
pub open spec fn mirrors(
    env: EnvView,
    scope: int,
    t: SymbolTableView,
    globals: Seq<BindingView>,
) -> bool {
    forall|name: Seq<char>|
        global_of(t, name) is Some ==> (#[trigger] lookup(env, scope, name)) == Some(
            globals[global_of(t, name)->Some_0.index as int],
        )
}

/// What changes nothing but the output leaves the globals mirrored.
pub proof fn lemma_mirrors_kept(
    env1: EnvView,
    env2: EnvView,
    scope: int,
    t: SymbolTableView,
    globals: Seq<BindingView>,
)
    requires
        env1.scopes == env2.scopes,
        mirrors(env1, scope, t, globals),
    ensures
        mirrors(env2, scope, t, globals),
{
    assert forall|name: Seq<char>| global_of(t, name) is Some implies (#[trigger] lookup(
        env2,
        scope,
        name,
    )) == Some(globals[global_of(t, name)->Some_0.index as int]) by {
        lemma_lookup_scopes(env1, env2, scope, name);
        assert(lookup(env1, scope, name) == Some(
            globals[global_of(t, name)->Some_0.index as int],
        ));
    }
}

/// The machine `m` is `m0` with `n` more values on the stack and the
/// running frame at `ip`. What was written may differ.
pub open spec fn grown(m0: MachineView, m: MachineView, n: int, ip: int) -> bool {
    &&& m.sp == m0.sp + n
    &&& m.stack.len() == m0.stack.len()
    &&& forall|i: int| 0 <= i < m0.sp ==> m.stack[i] == m0.stack[i]
    &&& m.globals == m0.globals
    &&& m.frames == m0.frames.update(m0.frames.len() - 1, FrameView { ip, ..top(m0) })
}

/// The machine `m` is `m0` with `v` pushed and the running frame at `ip`.
pub open spec fn pushed(m0: MachineView, m: MachineView, v: BindingView, ip: int) -> bool {
    grown(m0, m, 1, ip) && m.stack[m0.sp] == v
}

/// The running frame of the machine runs the instructions `js` and stands
/// at the instruction at index `a`.
pub open spec fn ready(m: MachineView, js: Seq<InstructionView>, a: int) -> bool {
    &&& valid(m)
    &&& m.frames.len() > 0
    &&& top(m).closure.fn_.body == encode_all(js)
    &&& top(m).ip == offset(js, a)
    &&& 0 <= a < js.len()
}

/// One step that pushes a value.
pub proof fn lemma_step_push(
    m: MachineView,
    js: Seq<InstructionView>,
    a: int,
    constants: Seq<PrimitiveView>,
    v: BindingView,
)
    requires
        ready(m, js, a),
        well_formed(js[a]),
        m.sp < STACK_SIZE,
        execute(
            with_ip(m, offset(js, a + 1)),
            constants,
            js[a].op,
            wide_operand(js[a]),
            narrow_operand(js[a]),
        ) == push_value(with_ip(m, offset(js, a + 1)), v),
    ensures
        steps(m, constants, 1) matches Ok(after) && pushed(m, after, v, offset(js, a + 1))
            && valid(after) && after.stdout == m.stdout,
{
    lemma_fetch(top(m), js, a);
    let after = step(m, constants)->Ok_0;
    assert(steps(after, constants, 0) == Ok::<MachineView, RuntimeError>(after));
}

/// The infix operation that an operation of the machine applies.
pub open spec fn applies(op: Op) -> Option<InfixOp> {
    match op {
        Op::Add => Some(InfixOp::Add),
        Op::Sub => Some(InfixOp::Sub),
        Op::Mul => Some(InfixOp::Mul),
        Op::Div => Some(InfixOp::Div),
        Op::Mod => Some(InfixOp::Mod),
        Op::Eq => Some(InfixOp::Eq),
        Op::Neq => Some(InfixOp::Neq),
        Op::Lt => Some(InfixOp::Lt),
        Op::Index => Some(InfixOp::Index),
        _ => None,
    }
}

/// The compiler emits for an infix token the operation of the machine
/// that applies what the evaluator applies for that token.
pub proof fn lemma_same_operator(t: TokenView)
    requires
        infix_operation(t) is Some,
    ensures
        applies(infix_operation(t)->Some_0) == infix_op_of(t),
        infix_op_of(t) is Some,
{
}

/// `a > b` is `b < a`.
pub proof fn lemma_greater_is_less_swapped(left: BindingView, right: BindingView)
    ensures
        infix_value(InfixOp::Gt, left, right) is Ok ==> infix_value(InfixOp::Lt, right, left)
            == infix_value(InfixOp::Gt, left, right),
{
}

/// One step that applies an infix operator to the two topmost values.
proof fn lemma_step_binary(
    m0: MachineView,
    m: MachineView,
    js: Seq<InstructionView>,
    a: int,
    constants: Seq<PrimitiveView>,
    op: Op,
    left: BindingView,
    right: BindingView,
    v: BindingView,
)
    requires
        valid(m0),
        m0.frames.len() > 0,
        grown(m0, m, 2, offset(js, a)),
        ready(m, js, a),
        m.stack[m0.sp] == left,
        m.stack[m0.sp + 1] == right,
        js[a] == plain(op),
        applies(op) is Some,
        infix_value(applies(op)->Some_0, left, right) == Ok::<BindingView, RuntimeError>(v),
    ensures
        steps(m, constants, 1) matches Ok(after) && pushed(m0, after, v, offset(js, a + 1))
            && valid(after) && after.stdout == m.stdout,
{
    reveal(execute);
    lemma_fetch(top(m), js, a);
    let next = offset(js, a + 1);
    let m1 = with_ip(m, next);
    assert(execute(m1, constants, op, 0, 0) == binary(m1, applies(op)->Some_0));
    let after = step(m, constants)->Ok_0;
    assert(steps(after, constants, 0) == Ok::<MachineView, RuntimeError>(after));
    assert(after.frames =~= m0.frames.update(
        m0.frames.len() - 1,
        FrameView { ip: next, ..top(m0) },
    ));
}

/// One step that applies a prefix operator to the topmost value.
proof fn lemma_step_unary(
    m0: MachineView,
    m: MachineView,
    js: Seq<InstructionView>,
    a: int,
    constants: Seq<PrimitiveView>,
    t: TokenView,
    x: BindingView,
    v: BindingView,
)
    requires
        valid(m0),
        m0.frames.len() > 0,
        pushed(m0, m, x, offset(js, a)),
        ready(m, js, a),
        prefix_operation(t) is Some,
        js[a] == plain(prefix_operation(t)->Some_0),
        prefix_op_of(t) is Some,
        prefix_value(prefix_op_of(t)->Some_0, x) == Ok::<BindingView, RuntimeError>(v),
    ensures
        steps(m, constants, 1) matches Ok(after) && pushed(m0, after, v, offset(js, a + 1))
            && valid(after) && after.stdout == m.stdout,
{
    reveal(execute);
    lemma_fetch(top(m), js, a);
    let next = offset(js, a + 1);
    let after = step(m, constants)->Ok_0;
    assert(steps(after, constants, 0) == Ok::<MachineView, RuntimeError>(after));
    assert(after.frames =~= m0.frames.update(
        m0.frames.len() - 1,
        FrameView { ip: next, ..top(m0) },
    ));
}

/// One step that makes an array of the topmost values.
proof fn lemma_step_array(
    m0: MachineView,
    m: MachineView,
    js: Seq<InstructionView>,
    a: int,
    constants: Seq<PrimitiveView>,
    values: Seq<BindingView>,
)
    requires
        valid(m0),
        m0.frames.len() > 0,
        m0.sp < STACK_SIZE,
        values.len() <= u16::MAX,
        grown(m0, m, values.len() as int, offset(js, a)),
        ready(m, js, a),
        m.stack.subrange(m0.sp, m0.sp + values.len()) == values,
        js[a] == wide(Op::Array, values.len() as u16),
    ensures
        steps(m, constants, 1) matches Ok(after) && pushed(
            m0,
            after,
            BindingView::Array(values),
            offset(js, a + 1),
        ) && valid(after) && after.stdout == m.stdout,
{
    reveal(execute);
    lemma_fetch(top(m), js, a);
    lemma_wide_round_trip(values.len() as u16);
    let next = offset(js, a + 1);
    let after = step(m, constants)->Ok_0;
    assert(steps(after, constants, 0) == Ok::<MachineView, RuntimeError>(after));
    assert(after.frames =~= m0.frames.update(
        m0.frames.len() - 1,
        FrameView { ip: next, ..top(m0) },
    ));
}

/// One step that makes a hash of the topmost values.
proof fn lemma_step_hash(
    m0: MachineView,
    m: MachineView,
    js: Seq<InstructionView>,
    a: int,
    constants: Seq<PrimitiveView>,
    n: int,
    entries: Seq<(PrimitiveView, BindingView)>,
)
    requires
        valid(m0),
        m0.frames.len() > 0,
        m0.sp < STACK_SIZE,
        0 <= n <= u16::MAX,
        grown(m0, m, 2 * n, offset(js, a)),
        ready(m, js, a),
        collect_entries(m.stack.subrange(m0.sp, m0.sp + 2 * n), 0, Seq::empty()) == Ok::<
            Seq<(PrimitiveView, BindingView)>,
            RuntimeError,
        >(entries),
        js[a] == wide(Op::Hash, n as u16),
    ensures
        steps(m, constants, 1) matches Ok(after) && pushed(
            m0,
            after,
            BindingView::Hash(entries),
            offset(js, a + 1),
        ) && valid(after) && after.stdout == m.stdout,
{
    reveal(execute);
    lemma_fetch(top(m), js, a);
    lemma_wide_round_trip(n as u16);
    let next = offset(js, a + 1);
    let after = step(m, constants)->Ok_0;
    assert(steps(after, constants, 0) == Ok::<MachineView, RuntimeError>(after));
    assert(after.frames =~= m0.frames.update(
        m0.frames.len() - 1,
        FrameView { ip: next, ..top(m0) },
    ));
}

/// The entries of values with one more key and value behind them are the
/// entries of the values with that key and value put in.
proof fn lemma_collect_more(
    values: Seq<BindingView>,
    j: int,
    acc: Seq<(PrimitiveView, BindingView)>,
    key: PrimitiveView,
    value: BindingView,
)
    requires
        0 <= j <= values.len(),
        (values.len() - j) % 2 == 0,
        !(key is Fn),
    ensures
        collect_entries(values.push(BindingView::Primitive(key)).push(value), j, acc) == (
        match collect_entries(values, j, acc) {
            Err(e) => Err(e),
            Ok(entries) => Ok(hash_insert(entries, key, value)),
        }),
    decreases values.len() - j,
{
    let more = values.push(BindingView::Primitive(key)).push(value);
    if j < values.len() {
        assert(more[j] == values[j]);
        assert(more[j + 1] == values[j + 1]);
        match values[j] {
            BindingView::Primitive(PrimitiveView::Fn(_)) => {},
            BindingView::Primitive(k) => {
                lemma_collect_more(values, j + 2, hash_insert(acc, k, values[j + 1]), key, value);
            },
            _ => {},
        }
    } else {
        assert(more[j] == BindingView::Primitive(key));
        assert(more[j + 1] == value);
        assert(collect_entries(more, j + 2, hash_insert(acc, key, value)) == Ok::<
            Seq<(PrimitiveView, BindingView)>,
            RuntimeError,
        >(hash_insert(acc, key, value)));
    }
}

/// One step that calls a builtin on the topmost values.
proof fn lemma_step_call(
    m0: MachineView,
    m: MachineView,
    js: Seq<InstructionView>,
    a: int,
    constants: Seq<PrimitiveView>,
    b: crate::value::Builtin,
    values: Seq<BindingView>,
    v: BindingView,
)
    requires
        valid(m0),
        m0.frames.len() > 0,
        m0.sp < STACK_SIZE,
        values.len() <= u8::MAX,
        grown(m0, m, 1 + values.len() as int, offset(js, a)),
        ready(m, js, a),
        m.stack[m0.sp] == BindingView::Builtin(b),
        m.stack.subrange(m0.sp + 1, m0.sp + 1 + values.len()) == values,
        js[a] == narrow(Op::Call, values.len() as u8),
        builtin_value(b, values) == Ok::<BindingView, RuntimeError>(v),
    ensures
        steps(m, constants, 1) matches Ok(after) && pushed(m0, after, v, offset(js, a + 1))
            && valid(after) && after.stdout == builtin_output(b, values, m.stdout),
{
    reveal(execute);
    lemma_fetch(top(m), js, a);
    let next = offset(js, a + 1);
    let m1 = with_ip(m, next);
    assert(execute(m1, constants, Op::Call, 0, values.len() as u8) == call(
        m1,
        values.len() as u8,
    ));
    let after = step(m, constants)->Ok_0;
    assert(steps(after, constants, 0) == Ok::<MachineView, RuntimeError>(after));
    assert(after.frames =~= m0.frames.update(
        m0.frames.len() - 1,
        FrameView { ip: next, ..top(m0) },
    ));
}

/// The code of a simple expression is not empty.
pub proof fn lemma_code_not_empty(e: ExprView, base: int, t: SymbolTableView)
    requires
        simple(e, t),
    ensures
        code(e, base, t).len() > 0,
{
}

/// The code of a list holds an instruction for each expression at least.
proof fn lemma_code_list_len(items: Seq<ExprView>, i: int, base: int, t: SymbolTableView)
    requires
        simple_list(items, t),
        0 <= i <= items.len(),
    ensures
        code_list(items, i, base, t).len() >= items.len() - i,
    decreases items.len() - i,
{
    if i < items.len() {
        lemma_code_not_empty(items[i], base, t);
        lemma_code_list_len(items, i + 1, base + pool(items[i]).len(), t);
    }
}

/// A part of a part of a sequence is a part of the sequence.
pub proof fn lemma_part<T>(s: Seq<T>, a: int, whole: Seq<T>, from: int, part: Seq<T>)
    requires
        0 <= a,
        a + whole.len() <= s.len(),
        s.subrange(a, a + whole.len()) == whole,
        0 <= from,
        from + part.len() <= whole.len(),
        whole.subrange(from, from + part.len()) == part,
    ensures
        s.subrange(a + from, a + from + part.len()) == part,
{
    assert forall|i: int| 0 <= i < part.len() implies s.subrange(
        a + from,
        a + from + part.len(),
    )[i] == part[i] by {
        assert(s.subrange(a, a + whole.len())[from + i] == whole[from + i]);
        assert(whole.subrange(from, from + part.len())[i] == part[i]);
    }
    assert(s.subrange(a + from, a + from + part.len()) =~= part);
}

/// The instructions `c` stand in `js` at index `a`, and the constants `p`
/// stand in the pool at index `base`, where 16 bits can address them.
pub open spec fn placed(
    c: Seq<InstructionView>,
    p: Seq<PrimitiveView>,
    js: Seq<InstructionView>,
    a: int,
    constants: Seq<PrimitiveView>,
    base: int,
) -> bool {
    &&& 0 <= a
    &&& a + c.len() <= js.len()
    &&& js.subrange(a, a + c.len()) == c
    &&& 0 <= base
    &&& base + p.len() <= constants.len()
    &&& p.len() > 0 ==> base + p.len() <= 65536
    &&& constants.subrange(base, base + p.len()) == p
}

/// Where instructions and constants are placed, their parts are placed.
pub proof fn lemma_placed_part(
    c: Seq<InstructionView>,
    p: Seq<PrimitiveView>,
    js: Seq<InstructionView>,
    a: int,
    constants: Seq<PrimitiveView>,
    base: int,
    from_c: int,
    part_c: Seq<InstructionView>,
    from_p: int,
    part_p: Seq<PrimitiveView>,
)
    requires
        placed(c, p, js, a, constants, base),
        0 <= from_c,
        from_c + part_c.len() <= c.len(),
        c.subrange(from_c, from_c + part_c.len()) == part_c,
        0 <= from_p,
        from_p + part_p.len() <= p.len(),
        p.subrange(from_p, from_p + part_p.len()) == part_p,
    ensures
        placed(part_c, part_p, js, a + from_c, constants, base + from_p),
{
    lemma_part(js, a, c, from_c, part_c);
    lemma_part(constants, base, p, from_p, part_p);
}

/// The machine runs the code of a simple expression: where the evaluator
/// yields a value, the machine pushes that value, stands behind the code,
/// and has written what the evaluator has written.
pub proof fn lemma_runs(
    e: ExprView,
    m: MachineView,
    js: Seq<InstructionView>,
    a: int,
    constants: Seq<PrimitiveView>,
    base: int,
    env: EnvView,
    scope: int,
    depth: nat,
    t: SymbolTableView,
)
    requires
        simple(e, t),
        fits(e),
        unshadowed(env, scope),
        mirrors(env, scope, t, m.globals),
        placed(code(e, base, t), pool(e), js, a, constants, base),
        valid(m),
        m.frames.len() > 0,
        top(m).closure.fn_.body == encode_all(js),
        top(m).ip == offset(js, a),
        eval_expr(e, env, scope, depth).0 is Ok,
        m.stdout == env.stdout,
        m.sp + code(e, base, t).len() <= STACK_SIZE,
    ensures
        steps(m, constants, code(e, base, t).len()) matches Ok(after) && pushed(
            m,
            after,
            eval_expr(e, env, scope, depth).0->Ok_0,
            offset(js, a + code(e, base, t).len()),
        ) && valid(after) && after.stdout == eval_expr(e, env, scope, depth).1.stdout,
    decreases e, 1nat,
{
    let c = code(e, base, t);
    lemma_code_not_empty(e, base, t);
    assert(js[a] == js.subrange(a, a + c.len())[0]);
    match e {
        ExprView::Int(i) => {
            assert(constants[base] == constants.subrange(base, base + pool(e).len())[0]);
            lemma_runs_constant(m, js, a, constants, base, PrimitiveView::Int(i));
        },
        ExprView::String(s) => {
            assert(constants[base] == constants.subrange(base, base + pool(e).len())[0]);
            lemma_runs_constant(m, js, a, constants, base, PrimitiveView::String_(s));
        },
        ExprView::Bool(b) => {
            reveal(execute);
            lemma_step_push(m, js, a, constants, bool_value(b));
        },
        ExprView::Prefix { .. } => {
            lemma_runs_prefix(e, m, js, a, constants, base, env, scope, depth, t);
        },
        ExprView::Infix { token, .. } => {
            if token is Gt {
                lemma_runs_greater(e, m, js, a, constants, base, env, scope, depth, t);
            } else {
                lemma_runs_infix(e, m, js, a, constants, base, env, scope, depth, t);
            }
        },
        ExprView::Array(_) => {
            lemma_runs_array(e, m, js, a, constants, base, env, scope, depth, t);
        },
        ExprView::Hash(_) => {
            lemma_runs_hash(e, m, js, a, constants, base, env, scope, depth, t);
        },
        ExprView::Call { .. } => {
            lemma_runs_call(e, m, js, a, constants, base, env, scope, depth, t);
        },
        ExprView::Identifier(name) => {
            let symbol = global_of(t, name)->Some_0;
            assert(lookup(env, scope, name) == Some(m.globals[symbol.index as int]));
            reveal(execute);
            lemma_wide_round_trip(symbol.index);
            lemma_step_push(m, js, a, constants, m.globals[symbol.index as int]);
        },
        _ => {},
    }
}

proof fn lemma_runs_constant(
    m: MachineView,
    js: Seq<InstructionView>,
    a: int,
    constants: Seq<PrimitiveView>,
    base: int,
    p: PrimitiveView,
)
    requires
        ready(m, js, a),
        js[a] == wide(Op::Constant, base as u16),
        0 <= base < 65536,
        base < constants.len(),
        constants[base] == p,
        m.sp < STACK_SIZE,
    ensures
        steps(m, constants, 1) matches Ok(after) && pushed(
            m,
            after,
            BindingView::Primitive(p),
            offset(js, a + 1),
        ) && valid(after) && after.stdout == m.stdout,
{
    reveal(execute);
    lemma_wide_round_trip(base as u16);
    lemma_step_push(m, js, a, constants, BindingView::Primitive(p));
}

proof fn lemma_runs_prefix(
    e: ExprView,
    m: MachineView,
    js: Seq<InstructionView>,
    a: int,
    constants: Seq<PrimitiveView>,
    base: int,
    env: EnvView,
    scope: int,
    depth: nat,
    t: SymbolTableView,
)
    requires
        simple(e, t),
        fits(e),
        unshadowed(env, scope),
        mirrors(env, scope, t, m.globals),
        placed(code(e, base, t), pool(e), js, a, constants, base),
        valid(m),
        m.frames.len() > 0,
        top(m).closure.fn_.body == encode_all(js),
        top(m).ip == offset(js, a),
        eval_expr(e, env, scope, depth).0 is Ok,
        m.stdout == env.stdout,
        m.sp + code(e, base, t).len() <= STACK_SIZE,
        e is Prefix,
    ensures
        steps(m, constants, code(e, base, t).len()) matches Ok(after) && pushed(
            m,
            after,
            eval_expr(e, env, scope, depth).0->Ok_0,
            offset(js, a + code(e, base, t).len()),
        ) && valid(after) && after.stdout == eval_expr(e, env, scope, depth).1.stdout,
    decreases e, 0nat,
{
    let c = code(e, base, t);
    let v = eval_expr(e, env, scope, depth).0->Ok_0;
    let d = (depth - 1) as nat;
    match e {
        ExprView::Prefix { token, right } => {
            let cr = code(*right, base, t);
            assert(c.subrange(0, cr.len() as int) =~= cr);
            assert(pool(e).subrange(0, pool(*right).len() as int) =~= pool(*right));
            lemma_placed_part(c, pool(e), js, a, constants, base, 0, cr, 0, pool(*right));
            assert(js[a + cr.len()] == js.subrange(a, a + c.len())[cr.len() as int]);
            lemma_runs(*right, m, js, a, constants, base, env, scope, d, t);
            let m1 = steps(m, constants, cr.len())->Ok_0;
            let x = eval_expr(*right, env, scope, d).0->Ok_0;
            lemma_step_unary(m, m1, js, a + cr.len(), constants, token, x, v);
            lemma_steps_split(m, constants, cr.len(), 1);
        },
        _ => {},
    }
}

proof fn lemma_runs_infix(
    e: ExprView,
    m: MachineView,
    js: Seq<InstructionView>,
    a: int,
    constants: Seq<PrimitiveView>,
    base: int,
    env: EnvView,
    scope: int,
    depth: nat,
    t: SymbolTableView,
)
    requires
        simple(e, t),
        fits(e),
        unshadowed(env, scope),
        mirrors(env, scope, t, m.globals),
        placed(code(e, base, t), pool(e), js, a, constants, base),
        valid(m),
        m.frames.len() > 0,
        top(m).closure.fn_.body == encode_all(js),
        top(m).ip == offset(js, a),
        eval_expr(e, env, scope, depth).0 is Ok,
        m.stdout == env.stdout,
        m.sp + code(e, base, t).len() <= STACK_SIZE,
        e is Infix,
        !(e->Infix_token is Gt),
    ensures
        steps(m, constants, code(e, base, t).len()) matches Ok(after) && pushed(
            m,
            after,
            eval_expr(e, env, scope, depth).0->Ok_0,
            offset(js, a + code(e, base, t).len()),
        ) && valid(after) && after.stdout == eval_expr(e, env, scope, depth).1.stdout,
    decreases e, 0nat,
{
    let c = code(e, base, t);
    let v = eval_expr(e, env, scope, depth).0->Ok_0;
    let d = (depth - 1) as nat;
    match e {
        ExprView::Infix { left, token, right } => {
            let cl = code(*left, base, t);
            let pl = pool(*left);
            let cr = code(*right, base + pl.len(), t);
            let pr = pool(*right);
            assert(c.subrange(0, cl.len() as int) =~= cl);
            assert(c.subrange(cl.len() as int, (cl.len() + cr.len()) as int) =~= cr);
            assert(pool(e).subrange(0, pl.len() as int) =~= pl);
            assert(pool(e).subrange(pl.len() as int, (pl.len() + pr.len()) as int) =~= pr);
            lemma_placed_part(c, pool(e), js, a, constants, base, 0, cl, 0, pl);
            lemma_placed_part(
                c,
                pool(e),
                js,
                a,
                constants,
                base,
                cl.len() as int,
                cr,
                pl.len() as int,
                pr,
            );
            assert(js[a + cl.len() + cr.len()] == js.subrange(a, a + c.len())[(cl.len()
                + cr.len()) as int]);
            lemma_scopes_kept(*left, env, scope, d, t);
            lemma_code_not_empty(*left, base, t);
            lemma_code_not_empty(*right, base + pl.len(), t);
            lemma_runs(*left, m, js, a, constants, base, env, scope, d, t);
            let m1 = steps(m, constants, cl.len())->Ok_0;
            let lv = eval_expr(*left, env, scope, d).0->Ok_0;
            let env1 = eval_expr(*left, env, scope, d).1;
            lemma_mirrors_kept(env, env1, scope, t, m.globals);
            lemma_runs(*right, m1, js, a + cl.len(), constants, base + pl.len(), env1, scope, d, t);
            let m2 = steps(m1, constants, cr.len())->Ok_0;
            let rv = eval_expr(*right, env1, scope, d).0->Ok_0;
            let ip2 = offset(js, a + cl.len() + cr.len());
            assert(m2.frames =~= m.frames.update(
                m.frames.len() - 1,
                FrameView { ip: ip2, ..top(m) },
            ));
            lemma_same_operator(token);
            lemma_step_binary(
                m,
                m2,
                js,
                a + cl.len() + cr.len(),
                constants,
                infix_operation(token)->Some_0,
                lv,
                rv,
                v,
            );
            lemma_steps_split(m1, constants, cr.len(), 1);
            lemma_steps_split(m, constants, cl.len(), (cr.len() + 1) as nat);
        },
        _ => {},
    }
}

proof fn lemma_runs_greater(
    e: ExprView,
    m: MachineView,
    js: Seq<InstructionView>,
    a: int,
    constants: Seq<PrimitiveView>,
    base: int,
    env: EnvView,
    scope: int,
    depth: nat,
    t: SymbolTableView,
)
    requires
        simple(e, t),
        fits(e),
        unshadowed(env, scope),
        mirrors(env, scope, t, m.globals),
        placed(code(e, base, t), pool(e), js, a, constants, base),
        valid(m),
        m.frames.len() > 0,
        top(m).closure.fn_.body == encode_all(js),
        top(m).ip == offset(js, a),
        eval_expr(e, env, scope, depth).0 is Ok,
        m.stdout == env.stdout,
        m.sp + code(e, base, t).len() <= STACK_SIZE,
        e is Infix,
        e->Infix_token is Gt,
    ensures
        steps(m, constants, code(e, base, t).len()) matches Ok(after) && pushed(
            m,
            after,
            eval_expr(e, env, scope, depth).0->Ok_0,
            offset(js, a + code(e, base, t).len()),
        ) && valid(after) && after.stdout == eval_expr(e, env, scope, depth).1.stdout,
    decreases e, 0nat,
{
    let c = code(e, base, t);
    let v = eval_expr(e, env, scope, depth).0->Ok_0;
    let d = (depth - 1) as nat;
    match e {
        ExprView::Infix { left, token, right } => {
            let cr = code(*right, base, t);
            let pr = pool(*right);
            let cl = code(*left, base + pr.len(), t);
            let pl = pool(*left);
            assert(c.subrange(0, cr.len() as int) =~= cr);
            assert(c.subrange(cr.len() as int, (cr.len() + cl.len()) as int) =~= cl);
            assert(pool(e).subrange(0, pr.len() as int) =~= pr);
            assert(pool(e).subrange(pr.len() as int, (pr.len() + pl.len()) as int) =~= pl);
            lemma_placed_part(c, pool(e), js, a, constants, base, 0, cr, 0, pr);
            lemma_placed_part(
                c,
                pool(e),
                js,
                a,
                constants,
                base,
                cr.len() as int,
                cl,
                pr.len() as int,
                pl,
            );
            assert(js[a + cr.len() + cl.len()] == js.subrange(a, a + c.len())[(cr.len()
                + cl.len()) as int]);
            lemma_silent_is_pure(*left, env, scope, d, t);
            lemma_silent_is_pure(*right, env, scope, d, t);
            lemma_code_not_empty(*left, base + pr.len(), t);
            lemma_code_not_empty(*right, base, t);
            let lv = eval_expr(*left, env, scope, d).0->Ok_0;
            let rv = eval_expr(*right, env, scope, d).0->Ok_0;
            lemma_runs(*right, m, js, a, constants, base, env, scope, d, t);
            let m1 = steps(m, constants, cr.len())->Ok_0;
            lemma_runs(*left, m1, js, a + cr.len(), constants, base + pr.len(), env, scope, d, t);
            let m2 = steps(m1, constants, cl.len())->Ok_0;
            let ip2 = offset(js, a + cr.len() + cl.len());
            assert(m2.frames =~= m.frames.update(
                m.frames.len() - 1,
                FrameView { ip: ip2, ..top(m) },
            ));
            lemma_greater_is_less_swapped(lv, rv);
            lemma_step_binary(m, m2, js, a + cr.len() + cl.len(), constants, Op::Lt, rv, lv, v);
            lemma_steps_split(m1, constants, cl.len(), 1);
            lemma_steps_split(m, constants, cr.len(), (cl.len() + 1) as nat);
        },
        _ => {},
    }
}

proof fn lemma_runs_array(
    e: ExprView,
    m: MachineView,
    js: Seq<InstructionView>,
    a: int,
    constants: Seq<PrimitiveView>,
    base: int,
    env: EnvView,
    scope: int,
    depth: nat,
    t: SymbolTableView,
)
    requires
        simple(e, t),
        fits(e),
        unshadowed(env, scope),
        mirrors(env, scope, t, m.globals),
        placed(code(e, base, t), pool(e), js, a, constants, base),
        valid(m),
        m.frames.len() > 0,
        top(m).closure.fn_.body == encode_all(js),
        top(m).ip == offset(js, a),
        eval_expr(e, env, scope, depth).0 is Ok,
        m.stdout == env.stdout,
        m.sp + code(e, base, t).len() <= STACK_SIZE,
        e is Array,
    ensures
        steps(m, constants, code(e, base, t).len()) matches Ok(after) && pushed(
            m,
            after,
            eval_expr(e, env, scope, depth).0->Ok_0,
            offset(js, a + code(e, base, t).len()),
        ) && valid(after) && after.stdout == eval_expr(e, env, scope, depth).1.stdout,
    decreases e, 0nat,
{
    let c = code(e, base, t);
    let d = (depth - 1) as nat;
    match e {
        ExprView::Array(items) => {
            let cl = code_list(items, 0, base, t);
            lemma_code_list_len(items, 0, base, t);
            assert(c.subrange(0, cl.len() as int) =~= cl);
            assert(pool(e).subrange(0, pool(e).len() as int) =~= pool_list(items, 0));
            lemma_placed_part(c, pool(e), js, a, constants, base, 0, cl, 0, pool_list(items, 0));
            assert(js[a + cl.len()] == js.subrange(a, a + c.len())[cl.len() as int]);
            assert(m.frames =~= m.frames.update(
                m.frames.len() - 1,
                FrameView { ip: offset(js, a), ..top(m) },
            ));
            assert(m.stack.subrange(m.sp, m.sp + 0) =~= Seq::<BindingView>::empty());
            assert(fits_list(items));
            lemma_runs_list(items, 0, m, m, js, a, constants, base, env, scope, d, Seq::empty(), t);
            let mk = steps(m, constants, cl.len())->Ok_0;
            let values = eval_list(items, 0, Seq::empty(), env, scope, d).0->Ok_0;
            lemma_step_array(m, mk, js, a + cl.len(), constants, values);
            lemma_steps_split(m, constants, cl.len(), 1);
        },
        _ => {},
    }
}

proof fn lemma_runs_call(
    e: ExprView,
    m: MachineView,
    js: Seq<InstructionView>,
    a: int,
    constants: Seq<PrimitiveView>,
    base: int,
    env: EnvView,
    scope: int,
    depth: nat,
    t: SymbolTableView,
)
    requires
        simple(e, t),
        fits(e),
        unshadowed(env, scope),
        mirrors(env, scope, t, m.globals),
        placed(code(e, base, t), pool(e), js, a, constants, base),
        valid(m),
        m.frames.len() > 0,
        top(m).closure.fn_.body == encode_all(js),
        top(m).ip == offset(js, a),
        eval_expr(e, env, scope, depth).0 is Ok,
        m.stdout == env.stdout,
        m.sp + code(e, base, t).len() <= STACK_SIZE,
        e is Call,
    ensures
        steps(m, constants, code(e, base, t).len()) matches Ok(after) && pushed(
            m,
            after,
            eval_expr(e, env, scope, depth).0->Ok_0,
            offset(js, a + code(e, base, t).len()),
        ) && valid(after) && after.stdout == eval_expr(e, env, scope, depth).1.stdout,
    decreases e, 0nat,
{
    let c = code(e, base, t);
    let v = eval_expr(e, env, scope, depth).0->Ok_0;
    let d = (depth - 1) as nat;
    match e {
        ExprView::Call { callee, args } => {
            let b = callee_builtin(*callee);
            let name = callee->Identifier_0;
            let cl = code_list(args, 0, base, t);
            lemma_code_list_len(args, 0, base, t);
            assert(c.subrange(1, 1 + cl.len() as int) =~= cl);
            assert(pool(e).subrange(0, pool(e).len() as int) =~= pool_list(args, 0));
            lemma_placed_part(c, pool(e), js, a, constants, base, 1, cl, 0, pool_list(args, 0));
            assert(js[a + 1 + cl.len()] == js.subrange(a, a + c.len())[1 + cl.len() as int]);
            assert(lookup(env, scope, name) is None);
            assert(eval_expr(*callee, env, scope, d) == (
                Ok::<BindingView, RuntimeError>(BindingView::Builtin(b)),
                env,
            ));
            assert(fits_list(args));
            assert(js[a] == js.subrange(a, a + c.len())[0]);
            assert(c[0] == narrow(Op::GetBuiltin, builtin_index(b)));
            reveal(execute);
            lemma_step_push(m, js, a, constants, BindingView::Builtin(b));
            let m1 = steps(m, constants, 1)->Ok_0;
            assert(m1.frames =~= m1.frames.update(
                m1.frames.len() - 1,
                FrameView { ip: offset(js, a + 1), ..top(m1) },
            ));
            assert(m1.stack.subrange(m1.sp, m1.sp + 0) =~= Seq::<BindingView>::empty());
            lemma_runs_list(
                args,
                0,
                m1,
                m1,
                js,
                a + 1,
                constants,
                base,
                env,
                scope,
                d,
                Seq::empty(), t,
            );
            let mk = steps(m1, constants, cl.len())->Ok_0;
            let values = eval_list(args, 0, Seq::empty(), env, scope, d).0->Ok_0;
            let env2 = eval_list(args, 0, Seq::empty(), env, scope, d).1;
            let ipk = offset(js, a + 1 + cl.len());
            assert(mk.frames =~= m.frames.update(
                m.frames.len() - 1,
                FrameView { ip: ipk, ..top(m) },
            ));
            assert(eval_expr(e, env, scope, depth) == apply(
                BindingView::Builtin(b),
                values,
                env2,
                scope,
                d,
            ));
            lemma_step_call(m, mk, js, a + 1 + cl.len(), constants, b, values, v);
            lemma_steps_split(m1, constants, cl.len(), 1);
            lemma_steps_split(m, constants, 1, (cl.len() + 1) as nat);
        },
        _ => {},
    }
}

proof fn lemma_runs_hash(
    e: ExprView,
    m: MachineView,
    js: Seq<InstructionView>,
    a: int,
    constants: Seq<PrimitiveView>,
    base: int,
    env: EnvView,
    scope: int,
    depth: nat,
    t: SymbolTableView,
)
    requires
        simple(e, t),
        fits(e),
        unshadowed(env, scope),
        mirrors(env, scope, t, m.globals),
        placed(code(e, base, t), pool(e), js, a, constants, base),
        valid(m),
        m.frames.len() > 0,
        top(m).closure.fn_.body == encode_all(js),
        top(m).ip == offset(js, a),
        eval_expr(e, env, scope, depth).0 is Ok,
        m.stdout == env.stdout,
        m.sp + code(e, base, t).len() <= STACK_SIZE,
        e is Hash,
    ensures
        steps(m, constants, code(e, base, t).len()) matches Ok(after) && pushed(
            m,
            after,
            eval_expr(e, env, scope, depth).0->Ok_0,
            offset(js, a + code(e, base, t).len()),
        ) && valid(after) && after.stdout == eval_expr(e, env, scope, depth).1.stdout,
    decreases e, 0nat,
{
    let c = code(e, base, t);
    let d = (depth - 1) as nat;
    match e {
        ExprView::Hash(pairs) => {
            let cl = code_pairs(pairs, 0, base, t);
            let none = Seq::<(PrimitiveView, BindingView)>::empty();
            assert(c.subrange(0, cl.len() as int) =~= cl);
            assert(pool(e).subrange(0, pool(e).len() as int) =~= pool_pairs(pairs, 0));
            lemma_placed_part(c, pool(e), js, a, constants, base, 0, cl, 0, pool_pairs(pairs, 0));
            assert(js[a + cl.len()] == js.subrange(a, a + c.len())[cl.len() as int]);
            assert(m.frames =~= m.frames.update(
                m.frames.len() - 1,
                FrameView { ip: offset(js, a), ..top(m) },
            ));
            assert(m.stack.subrange(m.sp, m.sp + 0) =~= Seq::<BindingView>::empty());
            assert(fits_pairs(pairs));
            assert(simple_pairs(pairs, t));
            lemma_runs_entries(pairs, 0, m, m, js, a, constants, base, env, scope, d, none, t);
            let mk = steps(m, constants, cl.len())->Ok_0;
            let entries = eval_pairs(pairs, 0, none, env, scope, d).0->Ok_0;
            lemma_step_hash(m, mk, js, a + cl.len(), constants, pairs.len() as int, entries);
            lemma_steps_split(m, constants, cl.len(), 1);
        },
        _ => {},
    }
}

/// The machine runs the code of the pairs from `i` on: it pushes of each
/// pair the key and the value, and the values on the stack make the
/// entries that the evaluator yields.
proof fn lemma_runs_entries(
    pairs: Seq<(ExprView, ExprView)>,
    i: int,
    m0: MachineView,
    m: MachineView,
    js: Seq<InstructionView>,
    a: int,
    constants: Seq<PrimitiveView>,
    base: int,
    env: EnvView,
    scope: int,
    depth: nat,
    acc: Seq<(PrimitiveView, BindingView)>,
    t: SymbolTableView,
)
    requires
        simple_pairs(pairs, t),
        fits_pairs(pairs),
        unshadowed(env, scope),
        mirrors(env, scope, t, m0.globals),
        0 <= i <= pairs.len(),
        valid(m0),
        m0.frames.len() > 0,
        valid(m),
        grown(m0, m, 2 * i, offset(js, a)),
        collect_entries(m.stack.subrange(m0.sp, m0.sp + 2 * i), 0, Seq::empty()) == Ok::<
            Seq<(PrimitiveView, BindingView)>,
            RuntimeError,
        >(acc),
        top(m0).closure.fn_.body == encode_all(js),
        placed(code_pairs(pairs, i, base, t), pool_pairs(pairs, i), js, a, constants, base),
        eval_pairs(pairs, i, acc, env, scope, depth).0 is Ok,
        m.stdout == env.stdout,
        m.sp + code_pairs(pairs, i, base, t).len() <= STACK_SIZE,
    ensures
        steps(m, constants, code_pairs(pairs, i, base, t).len()) matches Ok(after) && grown(
            m0,
            after,
            2 * (pairs.len() as int),
            offset(js, a + code_pairs(pairs, i, base, t).len()),
        ) && collect_entries(
            after.stack.subrange(m0.sp, m0.sp + 2 * pairs.len()),
            0,
            Seq::empty(),
        ) == Ok::<Seq<(PrimitiveView, BindingView)>, RuntimeError>(
            eval_pairs(pairs, i, acc, env, scope, depth).0->Ok_0,
        ) && valid(after) && after.stdout == eval_pairs(pairs, i, acc, env, scope, depth).1.stdout,
    decreases pairs, pairs.len() - i,
{
    if i < pairs.len() {
        let key = pairs[i].0;
        let value = pairs[i].1;
        let ck = code(key, base, t);
        let pk = pool(key);
        let cv = code(value, base + pk.len(), t);
        let pv = pool(value);
        let rest = code_pairs(pairs, i + 1, base + pk.len() + pv.len(), t);
        let prest = pool_pairs(pairs, i + 1);
        let all = code_pairs(pairs, i, base, t);
        let whole = pool_pairs(pairs, i);
        let n1 = ck.len() as int;
        let n2 = n1 + cv.len();
        let q1 = pk.len() as int;
        let q2 = q1 + pv.len();
        assert(all.subrange(0, n1) =~= ck);
        assert(all.subrange(n1, n2) =~= cv);
        assert(all.subrange(n2, n2 + rest.len()) =~= rest);
        assert(whole.subrange(0, q1) =~= pk);
        assert(whole.subrange(q1, q2) =~= pv);
        assert(whole.subrange(q2, q2 + prest.len()) =~= prest);
        lemma_placed_part(all, whole, js, a, constants, base, 0, ck, 0, pk);
        lemma_placed_part(all, whole, js, a, constants, base, n1, cv, q1, pv);
        lemma_placed_part(all, whole, js, a, constants, base, n2, rest, q2, prest);
        lemma_scopes_kept(key, env, scope, depth, t);
        lemma_code_not_empty(key, base, t);
        lemma_runs(key, m, js, a, constants, base, env, scope, depth, t);
        let m1 = steps(m, constants, ck.len())->Ok_0;
        let kv = eval_expr(key, env, scope, depth).0->Ok_0;
        let env1 = eval_expr(key, env, scope, depth).1;
        lemma_mirrors_kept(env, env1, scope, t, m0.globals);
        lemma_scopes_kept(value, env1, scope, depth, t);
        lemma_code_not_empty(value, base + q1, t);
        lemma_runs(value, m1, js, a + n1, constants, base + q1, env1, scope, depth, t);
        let m2 = steps(m1, constants, cv.len())->Ok_0;
        let vv = eval_expr(value, env1, scope, depth).0->Ok_0;
        let env2 = eval_expr(value, env1, scope, depth).1;
        lemma_mirrors_kept(env1, env2, scope, t, m0.globals);
        lemma_steps_split(m, constants, ck.len(), cv.len());
        let k = kv->Primitive_0;
        assert(kv is Primitive && !(k is Fn));
        let before = m.stack.subrange(m0.sp, m0.sp + 2 * i);
        let now = m2.stack.subrange(m0.sp, m0.sp + 2 * i + 2);
        assert(now =~= before.push(kv).push(vv)) by {
            assert forall|j: int| 0 <= j < 2 * i + 2 implies now[j] == before.push(kv).push(
                vv,
            )[j] by {
                if j < 2 * i {
                    assert(before[j] == m.stack[m0.sp + j]);
                    assert(m1.stack[m0.sp + j] == m.stack[m0.sp + j]);
                    assert(m2.stack[m0.sp + j] == m1.stack[m0.sp + j]);
                } else if j == 2 * i {
                    assert(m2.stack[m.sp] == m1.stack[m.sp]);
                }
            }
        }
        lemma_collect_more(before, 0, Seq::empty(), k, vv);
        assert(m2.frames =~= m0.frames.update(
            m0.frames.len() - 1,
            FrameView { ip: offset(js, a + n2), ..top(m0) },
        ));
        lemma_runs_entries(
            pairs,
            i + 1,
            m0,
            m2,
            js,
            a + n2,
            constants,
            base + q2,
            env2,
            scope,
            depth,
            hash_insert(acc, k, vv),
            t,
        );
        lemma_steps_split(m, constants, (ck.len() + cv.len()) as nat, rest.len());
    } else {
        assert(m.stack.subrange(m0.sp, m0.sp + 2 * pairs.len()) == m.stack.subrange(
            m0.sp,
            m0.sp + 2 * i,
        ));
    }
}

/// The machine runs the code of the expressions from `i` on: it pushes
/// their values one above the other.
proof fn lemma_runs_list(
    items: Seq<ExprView>,
    i: int,
    m0: MachineView,
    m: MachineView,
    js: Seq<InstructionView>,
    a: int,
    constants: Seq<PrimitiveView>,
    base: int,
    env: EnvView,
    scope: int,
    depth: nat,
    acc: Seq<BindingView>,
    t: SymbolTableView,
)
    requires
        simple_list(items, t),
        fits_list(items),
        unshadowed(env, scope),
        mirrors(env, scope, t, m0.globals),
        0 <= i <= items.len(),
        valid(m0),
        m0.frames.len() > 0,
        valid(m),
        grown(m0, m, i, offset(js, a)),
        acc.len() == i,
        m.stack.subrange(m0.sp, m0.sp + i) == acc,
        top(m0).closure.fn_.body == encode_all(js),
        placed(code_list(items, i, base, t), pool_list(items, i), js, a, constants, base),
        eval_list(items, i, acc, env, scope, depth).0 is Ok,
        m.stdout == env.stdout,
        m.sp + code_list(items, i, base, t).len() <= STACK_SIZE,
    ensures
        steps(m, constants, code_list(items, i, base, t).len()) matches Ok(after) && grown(
            m0,
            after,
            items.len() as int,
            offset(js, a + code_list(items, i, base, t).len()),
        ) && after.stack.subrange(m0.sp, m0.sp + items.len()) == eval_list(
            items,
            i,
            acc,
            env,
            scope,
            depth,
        ).0->Ok_0 && valid(after) && eval_list(items, i, acc, env, scope, depth).0->Ok_0.len()
            == items.len() && after.stdout == eval_list(items, i, acc, env, scope, depth).1.stdout,
    decreases items, items.len() - i,
{
    if i < items.len() {
        let e = items[i];
        let c = code(e, base, t);
        let p = pool(e);
        let rest = code_list(items, i + 1, base + p.len(), t);
        let prest = pool_list(items, i + 1);
        let all = code_list(items, i, base, t);
        assert(all.subrange(0, c.len() as int) =~= c);
        assert(all.subrange(c.len() as int, (c.len() + rest.len()) as int) =~= rest);
        assert(pool_list(items, i).subrange(0, p.len() as int) =~= p);
        assert(pool_list(items, i).subrange(p.len() as int, (p.len() + prest.len()) as int) =~= prest);
        lemma_placed_part(all, pool_list(items, i), js, a, constants, base, 0, c, 0, p);
        lemma_placed_part(
            all,
            pool_list(items, i),
            js,
            a,
            constants,
            base,
            c.len() as int,
            rest,
            p.len() as int,
            prest,
        );
        lemma_scopes_kept(e, env, scope, depth, t);
        lemma_code_not_empty(e, base, t);
        lemma_runs(e, m, js, a, constants, base, env, scope, depth, t);
        let m1 = steps(m, constants, c.len())->Ok_0;
        let v = eval_expr(e, env, scope, depth).0->Ok_0;
        let env1 = eval_expr(e, env, scope, depth).1;
        lemma_mirrors_kept(env, env1, scope, t, m0.globals);
        let ip1 = offset(js, a + c.len());
        assert(m1.frames =~= m0.frames.update(
            m0.frames.len() - 1,
            FrameView { ip: ip1, ..top(m0) },
        ));
        assert(m1.stack.subrange(m0.sp, m0.sp + i + 1) =~= acc.push(v)) by {
            assert forall|k: int| 0 <= k < i + 1 implies m1.stack.subrange(
                m0.sp,
                m0.sp + i + 1,
            )[k] == acc.push(v)[k] by {
                if k < i {
                    assert(m.stack.subrange(m0.sp, m0.sp + i)[k] == acc[k]);
                }
            }
        }
        lemma_runs_list(
            items,
            i + 1,
            m0,
            m1,
            js,
            a + c.len(),
            constants,
            base + p.len(),
            env1,
            scope,
            depth,
            acc.push(v), t,
        );
        lemma_steps_split(m, constants, c.len(), rest.len());
    } else {
        assert(m.stack.subrange(m0.sp, m0.sp + items.len()) == acc);
    }
}

/// The two backends agree on simple expressions. Let the evaluator yield
/// a value for the expression, in an environment that binds the name of no
/// builtin and binds every global of the compiler's table to what the
/// machine holds for it. Let the expression compile into a context whose
/// current scope holds no instructions, and let a machine whose stack is
/// empty, and which has written what the environment holds as written,
/// run the main closure of that context for as many steps as the code has
/// instructions at least. Then the machine halts without an error, with
/// that value as the only one on its stack, and has written what the
/// evaluator has written.
pub proof fn lemma_simple_expressions_agree(
    e: ExprView,
    env: EnvView,
    scope: int,
    depth: nat,
    ctx: ContextView,
    m: MachineView,
    limit: nat,
)
    requires
        simple(e, ctx.symbols),
        unshadowed(env, scope),
        mirrors(env, scope, ctx.symbols, m.globals),
        eval_expr(e, env, scope, depth).0 is Ok,
        ctx.scopes.len() > 0,
        current(ctx).len() == 0,
        compile_expr(e, ctx) is Ok,
        valid(m),
        m.sp == 0,
        m.stdout == env.stdout,
        limit >= current(compile_expr(e, ctx)->Ok_0).len(),
        current(compile_expr(e, ctx)->Ok_0).len() <= STACK_SIZE,
    ensures
        eval_expr(e, env, scope, depth).1.scopes == env.scopes,
        ({
            let compiled = compile_expr(e, ctx)->Ok_0;
            run_from(started(m, main_closure(compiled)), compiled.constants, limit) matches Ok(
                end,
            ) && end.sp == 1 && end.stack[0] == eval_expr(e, env, scope, depth).0->Ok_0
                && end.stdout == eval_expr(e, env, scope, depth).1.stdout && end.globals
                == m.globals
        }),
{
    let t = ctx.symbols;
    let compiled = compile_expr(e, ctx)->Ok_0;
    let base = ctx.constants.len() as int;
    let c = code(e, base, t);
    lemma_scopes_kept(e, env, scope, depth, t);
    lemma_compile_appends(e, ctx, t);
    assert(current(compiled) =~= c);
    assert(compiled.constants.subrange(base, base + pool(e).len()) =~= pool(e));
    let start = started(m, main_closure(compiled));
    assert(c.subrange(0, 0) =~= Seq::<InstructionView>::empty());
    assert(offset(c, 0) == 0);
    assert(c.subrange(0, c.len() as int) =~= c);
    lemma_runs(e, start, c, 0, compiled.constants, base, env, scope, depth, t);
    let end = steps(start, compiled.constants, c.len())->Ok_0;
    lemma_run_after_steps(start, compiled.constants, c.len(), limit);
    assert(halted(end));
}

} // verus!
