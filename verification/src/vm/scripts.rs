//! Scripts: programs whose statements are simple expressions or
//! conditionals over them, or bind a global to the value of one. What
//! compiling a script emits.

use vstd::prelude::*;
use crate::builtins::{builtin_of, builtin_value};
use crate::evaluator::semantics::{
    apply, bind, eval_expr, eval_list, eval_pairs, infix_op_of, lookup, EnvView,
};
use crate::operators::{hash_insert, infix_value, InfixOp};
use crate::parser::types::ExprView;
use crate::value::{BindingView, Builtin, PrimitiveView, RuntimeError};
use crate::vm::agreement::{
    appended, callee_builtin, code, code_list, code_pairs, fits, global_of, lemma_appended_twice,
    lemma_compile_appends, lemma_emit_appends, lemma_mirrors_kept, lemma_scopes_kept, mirrors, pool,
    silent, silent_list, silent_pairs, simple, simple_list, simple_pairs, unshadowed,
};
use crate::vm::decoding::{lemma_encode_all_concat, offset};
use crate::vm::lowering::{
    code_size, compile_block, compile_expr, compile_if, current, emit, patch, plain, strip_pop,
    wide, ContextView, CODE_LIMIT,
};
use crate::vm::semantics::STACK_SIZE;
use crate::vm::symbols::{define, find, lemma_find_after_put, SymbolTableView};
use crate::vm::types::{InstructionView, Op};

verus! {

/// Whether the value is no value on its way out of a function, and holds
/// none.
pub open spec fn tame(v: BindingView) -> bool
    decreases v,
{
    match v {
        BindingView::Return(_) => false,
        BindingView::Array(a) => forall|i: int| 0 <= i < a.len() ==> tame(#[trigger] a[i]),
        BindingView::Hash(h) => forall|i: int| 0 <= i < h.len() ==> tame((#[trigger] h[i]).1),
        _ => true,
    }
}

/// Whether each of the values is tame.
pub open spec fn tame_all(values: Seq<BindingView>) -> bool {
    forall|i: int| 0 <= i < values.len() ==> tame(#[trigger] values[i])
}

/// Whether the value of every global is tame.
pub open spec fn tame_globals(t: SymbolTableView, globals: Seq<BindingView>) -> bool {
    forall|name: Seq<char>|
        (#[trigger] global_of(t, name)) is Some ==> tame(
            globals[global_of(t, name)->Some_0.index as int],
        )
}

proof fn lemma_tame_infix(op: InfixOp, l: BindingView, r: BindingView)
    requires
        tame(l),
        tame(r),
    ensures
        infix_value(op, l, r) matches Ok(v) ==> tame(v),
{
    match (l, r) {
        (BindingView::Array(a), BindingView::Primitive(PrimitiveView::Int(i))) => {
            if op == InfixOp::Index && 0 <= i < a.len() {
                assert(tame(a[i as int]));
            }
        },
        (BindingView::Hash(h), BindingView::Primitive(k)) => {
            if op == InfixOp::Index {
                let i = crate::operators::entry_index(h, k, 0);
                if 0 <= i < h.len() {
                    assert(tame(h[i].1));
                }
            }
        },
        _ => {},
    }
}

proof fn lemma_tame_builtin(b: Builtin, args: Seq<BindingView>)
    requires
        tame_all(args),
    ensures
        builtin_value(b, args) matches Ok(v) ==> tame(v),
{
    match builtin_value(b, args) {
        Ok(v) => {
            match b {
                Builtin::First => {
                    assert(tame(args[0]));
                    let a = args[0]->Array_0;
                    assert(tame(a[0]));
                },
                Builtin::Last => {
                    assert(tame(args[0]));
                    let a = args[0]->Array_0;
                    assert(tame(a[a.len() - 1]));
                },
                Builtin::Rest => {
                    assert(tame(args[0]));
                    let a = args[0]->Array_0;
                    if a.len() > 0 {
                        let rest = a.subrange(1, a.len() as int);
                        assert forall|i: int| 0 <= i < rest.len() implies tame(
                            #[trigger] rest[i],
                        ) by {
                            assert(rest[i] == a[i + 1]);
                            assert(tame(a[i + 1]));
                        }
                    }
                },
                Builtin::Push => {
                    assert(tame(args[0]));
                    assert(tame(args[1]));
                    let a = args[0]->Array_0;
                    let longer = a.push(args[1]);
                    assert forall|i: int| 0 <= i < longer.len() implies tame(
                        #[trigger] longer[i],
                    ) by {
                        if i < a.len() {
                            assert(longer[i] == a[i]);
                            assert(tame(a[i]));
                        }
                    }
                },
                _ => {},
            }
        },
        Err(_) => {},
    }
}

/// The value of a simple expression is tame, where the values of the
/// globals are.
pub proof fn lemma_tame(
    e: ExprView,
    env: EnvView,
    scope: int,
    depth: nat,
    t: SymbolTableView,
    globals: Seq<BindingView>,
)
    requires
        simple(e, t),
        unshadowed(env, scope),
        mirrors(env, scope, t, globals),
        tame_globals(t, globals),
    ensures
        eval_expr(e, env, scope, depth).0 matches Ok(v) ==> tame(v),
    decreases e, 1nat,
{
    if depth > 0 && eval_expr(e, env, scope, depth).0 is Ok {
        let d = (depth - 1) as nat;
        match e {
            ExprView::Identifier(name) => {
                assert(global_of(t, name) is Some);
                assert(lookup(env, scope, name) == Some(
                    globals[global_of(t, name)->Some_0.index as int],
                ));
            },
            ExprView::Infix { left, token, right } => {
                lemma_tame(*left, env, scope, d, t, globals);
                lemma_scopes_kept(*left, env, scope, d, t);
                let env1 = eval_expr(*left, env, scope, d).1;
                lemma_mirrors_kept(env, env1, scope, t, globals);
                lemma_tame(*right, env1, scope, d, t, globals);
                let l = eval_expr(*left, env, scope, d).0->Ok_0;
                let r = eval_expr(*right, env1, scope, d).0->Ok_0;
                match infix_op_of(token) {
                    Some(op) => {
                        lemma_tame_infix(op, l, r);
                    },
                    None => {},
                }
            },
            ExprView::Array(items) => {
                assert(tame_all(Seq::<BindingView>::empty()));
                lemma_tame_list(items, 0, Seq::empty(), env, scope, d, t, globals);
                let values = eval_list(items, 0, Seq::empty(), env, scope, d).0->Ok_0;
                assert(eval_list(items, 0, Seq::empty(), env, scope, d).0 is Ok);
                assert(tame_all(values));
            },
            ExprView::Call { callee, args } => {
                let name = callee->Identifier_0;
                let b = callee_builtin(*callee);
                assert(lookup(env, scope, name) is None);
                assert(eval_expr(*callee, env, scope, d) == (
                    Ok::<BindingView, RuntimeError>(BindingView::Builtin(b)),
                    env,
                ));
                assert(tame_all(Seq::<BindingView>::empty()));
                lemma_tame_list(args, 0, Seq::empty(), env, scope, d, t, globals);
                let listed = eval_list(args, 0, Seq::empty(), env, scope, d);
                assert(listed.0 is Ok);
                let values = listed.0->Ok_0;
                assert(eval_expr(e, env, scope, depth) == apply(
                    BindingView::Builtin(b),
                    values,
                    listed.1,
                    scope,
                    d,
                ));
                lemma_tame_builtin(b, values);
            },
            ExprView::Hash(pairs) => {
                lemma_tame_pairs(pairs, 0, Seq::empty(), env, scope, d, t, globals);
                assert(eval_pairs(pairs, 0, Seq::empty(), env, scope, d).0 is Ok);
            },
            _ => {},
        }
    }
}

/// Whether the value of each entry is tame.
pub open spec fn tame_entries(entries: Seq<(PrimitiveView, BindingView)>) -> bool {
    forall|i: int| 0 <= i < entries.len() ==> tame((#[trigger] entries[i]).1)
}

proof fn lemma_tame_pairs(
    pairs: Seq<(ExprView, ExprView)>,
    i: int,
    acc: Seq<(PrimitiveView, BindingView)>,
    env: EnvView,
    scope: int,
    depth: nat,
    t: SymbolTableView,
    globals: Seq<BindingView>,
)
    requires
        simple_pairs(pairs, t),
        unshadowed(env, scope),
        mirrors(env, scope, t, globals),
        tame_globals(t, globals),
        0 <= i <= pairs.len(),
        tame_entries(acc),
    ensures
        eval_pairs(pairs, i, acc, env, scope, depth).0 matches Ok(entries) ==> tame_entries(
            entries,
        ),
    decreases pairs, pairs.len() - i,
{
    if i < pairs.len() {
        let key = pairs[i].0;
        let value = pairs[i].1;
        lemma_scopes_kept(key, env, scope, depth, t);
        let env1 = eval_expr(key, env, scope, depth).1;
        lemma_mirrors_kept(env, env1, scope, t, globals);
        lemma_tame(value, env1, scope, depth, t, globals);
        lemma_scopes_kept(value, env1, scope, depth, t);
        let env2 = eval_expr(value, env1, scope, depth).1;
        lemma_mirrors_kept(env1, env2, scope, t, globals);
        match (eval_expr(key, env, scope, depth).0, eval_expr(value, env1, scope, depth).0) {
            (Ok(BindingView::Primitive(k)), Ok(v)) => {
                if !(k is Fn) {
                    let more = hash_insert(acc, k, v);
                    assert forall|j: int| 0 <= j < more.len() implies tame(
                        (#[trigger] more[j]).1,
                    ) by {
                        if j < acc.len() && more[j] != (k, v) {
                            assert(more[j] == acc[j]);
                        }
                    }
                    lemma_tame_pairs(pairs, i + 1, more, env2, scope, depth, t, globals);
                }
            },
            _ => {},
        }
    }
}


proof fn lemma_tame_list(
    items: Seq<ExprView>,
    i: int,
    acc: Seq<BindingView>,
    env: EnvView,
    scope: int,
    depth: nat,
    t: SymbolTableView,
    globals: Seq<BindingView>,
)
    requires
        simple_list(items, t),
        unshadowed(env, scope),
        mirrors(env, scope, t, globals),
        tame_globals(t, globals),
        0 <= i <= items.len(),
        tame_all(acc),
    ensures
        eval_list(items, i, acc, env, scope, depth).0 matches Ok(values) ==> tame_all(values),
    decreases items, items.len() - i,
{
    if i < items.len() {
        lemma_tame(items[i], env, scope, depth, t, globals);
        lemma_scopes_kept(items[i], env, scope, depth, t);
        match eval_expr(items[i], env, scope, depth).0 {
            Ok(v) => {
                let env1 = eval_expr(items[i], env, scope, depth).1;
                lemma_mirrors_kept(env, env1, scope, t, globals);
                assert forall|k: int| 0 <= k < acc.push(v).len() implies tame(
                    #[trigger] acc.push(v)[k],
                ) by {
                    if k < acc.len() {
                        assert(acc.push(v)[k] == acc[k]);
                    }
                }
                lemma_tame_list(items, i + 1, acc.push(v), env1, scope, depth, t, globals);
            },
            Err(_) => {},
        }
    }
}

/// Whether the expression is simple, or a conditional whose condition is
/// simple and whose branches hold at least one statement, each of them
/// such an expression again.
pub open spec fn forked(e: ExprView, t: SymbolTableView) -> bool
    decreases e, 0nat,
{
    match e {
        ExprView::If { condition, consequence, alternative } => simple(*condition, t)
            && consequence.len() > 0 && forked_list(consequence, t) && (match alternative {
            Some(alt) => alt.len() > 0 && forked_list(alt, t),
            None => true,
        }),
        _ => simple(e, t),
    }
}

/// Whether each of the expressions is simple or such a conditional.
pub open spec fn forked_list(items: Seq<ExprView>, t: SymbolTableView) -> bool
    decreases items, 0nat,
{
    forall|i: int| 0 <= i < items.len() ==> forked(#[trigger] items[i], t)
}

/// Whether the expression does not mention the name.
pub open spec fn free_of(e: ExprView, name: Seq<char>) -> bool
    decreases e, 0nat,
{
    match e {
        ExprView::Identifier(n) => n != name,
        ExprView::Prefix { token, right } => free_of(*right, name),
        ExprView::Infix { left, token, right } => free_of(*left, name) && free_of(*right, name),
        ExprView::Array(items) => free_of_list(items, name),
        ExprView::Call { callee, args } => free_of_list(args, name),
        ExprView::Hash(pairs) => free_of_pairs(pairs, name),
        ExprView::If { condition, consequence, alternative } => free_of(*condition, name)
            && free_of_list(consequence, name) && (match alternative {
            Some(alt) => free_of_list(alt, name),
            None => true,
        }),
        _ => true,
    }
}

/// Whether none of the expressions mentions the name.
pub open spec fn free_of_list(items: Seq<ExprView>, name: Seq<char>) -> bool
    decreases items, 0nat,
{
    forall|i: int| 0 <= i < items.len() ==> free_of(#[trigger] items[i], name)
}

/// Whether no key and no value of the pairs mentions the name.
pub open spec fn free_of_pairs(pairs: Seq<(ExprView, ExprView)>, name: Seq<char>) -> bool
    decreases pairs, 0nat,
{
    forall|i: int|
        0 <= i < pairs.len() ==> free_of((#[trigger] pairs[i]).0, name) && free_of(
            pairs[i].1,
            name,
        )
}

/// Whether no call in the expression has more than 255 arguments.
pub open spec fn fork_fits(e: ExprView) -> bool
    decreases e, 0nat,
{
    match e {
        ExprView::If { condition, consequence, alternative } => fits(*condition)
            && fork_fits_list(consequence) && (match alternative {
            Some(alt) => fork_fits_list(alt),
            None => true,
        }),
        _ => fits(e),
    }
}

/// Whether no call in the expressions has more than 255 arguments.
pub open spec fn fork_fits_list(items: Seq<ExprView>) -> bool
    decreases items, 0nat,
{
    forall|i: int| 0 <= i < items.len() ==> fork_fits(#[trigger] items[i])
}

/// Whether no call in the statement has more than 255 arguments.
pub open spec fn statement_fits(s: ExprView) -> bool {
    match s {
        ExprView::Let { name, value } => fork_fits(*value),
        _ => fork_fits(s),
    }
}

/// The table with a name defined as the next global.
pub open spec fn defined(t: SymbolTableView, name: Seq<char>) -> SymbolTableView {
    define(t, name)->Ok_0.1
}

/// Whether the statement is a simple expression or a conditional over
/// such, or binds a name that is the name of no builtin, and that the
/// table has room for, to the value of one that does not mention that
/// name.
pub open spec fn plain_statement(s: ExprView, t: SymbolTableView) -> bool {
    match s {
        ExprView::Let { name, value } => builtin_of(name) is None && define(t, name) is Ok
            && forked(*value, t) && free_of(*value, name),
        _ => forked(s, t),
    }
}

/// The table behind a statement.
pub open spec fn table_behind(s: ExprView, t: SymbolTableView) -> SymbolTableView {
    match s {
        ExprView::Let { name, value } => defined(t, name),
        _ => t,
    }
}

/// Whether the statements from `i` on are plain, each in the table behind
/// the one before.
pub open spec fn plain_from(stmts: Seq<ExprView>, i: int, t: SymbolTableView) -> bool
    decreases stmts.len() - i,
{
    if 0 <= i < stmts.len() {
        plain_statement(stmts[i], t) && plain_from(stmts, i + 1, table_behind(stmts[i], t))
    } else {
        true
    }
}

/// The table behind the statements from `i` on.
pub open spec fn table_at_end(stmts: Seq<ExprView>, i: int, t: SymbolTableView) -> SymbolTableView
    decreases stmts.len() - i,
{
    if 0 <= i < stmts.len() {
        table_at_end(stmts, i + 1, table_behind(stmts[i], t))
    } else {
        t
    }
}

/// The constants that compiling a simple expression or a conditional
/// adds.
pub open spec fn fork_pool(e: ExprView) -> Seq<PrimitiveView>
    decreases e, 0nat,
{
    match e {
        ExprView::If { condition, consequence, alternative } => pool(*condition) + block_pool(
            consequence,
            0,
        ) + (match alternative {
            Some(alt) => block_pool(alt, 0),
            None => Seq::empty(),
        }),
        _ => pool(e),
    }
}

/// The constants that compiling a statement adds.
pub open spec fn statement_pool(s: ExprView) -> Seq<PrimitiveView>
    decreases s, 1nat,
{
    match s {
        ExprView::Let { name, value } => fork_pool(*value),
        _ => fork_pool(s),
    }
}

/// The constants that compiling the statements from `i` on adds.
pub open spec fn block_pool(stmts: Seq<ExprView>, i: int) -> Seq<PrimitiveView>
    decreases stmts, stmts.len() - i,
{
    if 0 <= i < stmts.len() {
        statement_pool(stmts[i]) + block_pool(stmts, i + 1)
    } else {
        Seq::empty()
    }
}

/// The instructions that compiling a simple expression or a conditional
/// emits at the byte offset `at` of a function. A conditional becomes the
/// code of its condition, a jump to the alternative where the condition
/// fails, the consequence, a jump behind the alternative, and the
/// alternative, or `Null` where there is none; each branch leaves the
/// value of its last statement on the stack.
pub open spec fn fork_code(e: ExprView, base: int, t: SymbolTableView, at: int) -> Seq<
    InstructionView,
>
    decreases e, 0nat,
{
    match e {
        ExprView::If { condition, consequence, alternative } => {
            let test = code(*condition, base, t);
            let base1 = base + pool(*condition).len();
            let at1 = at + code_size(test) + 3;
            let first = script_code(consequence, 0, base1, t, at1, true);
            let base2 = base1 + block_pool(consequence, 0).len();
            let at2 = at1 + code_size(first) + 3;
            let second = match alternative {
                Some(alt) => script_code(alt, 0, base2, t, at2, true),
                None => seq![plain(Op::Null)],
            };
            let end = at2 + code_size(second);
            test.push(wide(Op::JmpIfFalse, at2 as u16)) + first.push(wide(Op::Jmp, end as u16))
                + second
        },
        _ => code(e, base, t),
    }
}

/// The instructions that compiling a statement emits at the byte offset
/// `at` of a function.
pub open spec fn statement_code(s: ExprView, base: int, t: SymbolTableView, at: int) -> Seq<
    InstructionView,
>
    decreases s, 1nat,
{
    match s {
        ExprView::Let { name, value } => fork_code(*value, base, t, at).push(
            wide(Op::SetGlobal, t.num_definitions),
        ),
        _ => fork_code(s, base, t, at),
    }
}

/// The instructions that compiling the statements from `i` on emits at
/// the byte offset `at` of a function: the code of each statement, and
/// `Pop` behind it. With `keep`, the `Pop` behind the last statement is
/// left out, and its value stays on the stack.
pub open spec fn script_code(
    stmts: Seq<ExprView>,
    i: int,
    base: int,
    t: SymbolTableView,
    at: int,
    keep: bool,
) -> Seq<InstructionView>
    decreases stmts, stmts.len() - i,
{
    if 0 <= i < stmts.len() {
        let head = statement_code(stmts[i], base, t, at);
        if keep && i == stmts.len() - 1 {
            head
        } else {
            head.push(plain(Op::Pop)) + script_code(
                stmts,
                i + 1,
                base + statement_pool(stmts[i]).len(),
                table_behind(stmts[i], t),
                at + code_size(head) + 1,
                keep,
            )
        }
    } else {
        Seq::empty()
    }
}

/// Every symbol of the table has an index below the number of
/// definitions, and the table is the outermost one.
pub open spec fn tidy(t: SymbolTableView) -> bool {
    &&& t.outer is None
    &&& forall|name: Seq<char>|
        (#[trigger] find(t.symbols, name)) matches Some(s) ==> s.index < t.num_definitions
}

/// The environment, the table and the globals of the machine belong
/// together.
pub open spec fn in_step(env: EnvView, t: SymbolTableView, globals: Seq<BindingView>) -> bool {
    &&& env.scopes.len() > 0
    &&& tidy(t)
    &&& unshadowed(env, 0)
    &&& mirrors(env, 0, t, globals)
    &&& tame_globals(t, globals)
    &&& globals.len() == STACK_SIZE
}

/// Statements without a `let` leave the table as it is.
pub proof fn lemma_forked_is_plain(stmts: Seq<ExprView>, i: int, t: SymbolTableView)
    requires
        forked_list(stmts, t),
        0 <= i <= stmts.len(),
    ensures
        plain_from(stmts, i, t),
        table_at_end(stmts, i, t) == t,
    decreases stmts.len() - i,
{
    if i < stmts.len() {
        assert(forked(stmts[i], t));
        lemma_forked_is_plain(stmts, i + 1, t);
    }
}

/// The code with the last `Pop` is the code without it and a `Pop`.
pub proof fn lemma_script_code(
    stmts: Seq<ExprView>,
    i: int,
    base: int,
    t: SymbolTableView,
    at: int,
)
    requires
        0 <= i < stmts.len(),
    ensures
        script_code(stmts, i, base, t, at, false) == script_code(stmts, i, base, t, at, true).push(
            plain(Op::Pop),
        ),
    decreases stmts.len() - i,
{
    let s = statement_code(stmts[i], base, t, at);
    let head = s.push(plain(Op::Pop));
    let next = base + statement_pool(stmts[i]).len();
    let t1 = table_behind(stmts[i], t);
    let at1 = at + code_size(s) + 1;
    if i < stmts.len() - 1 {
        lemma_script_code(stmts, i + 1, next, t1, at1);
        assert(head + script_code(stmts, i + 1, next, t1, at1, true).push(plain(Op::Pop)) =~= (
        head + script_code(stmts, i + 1, next, t1, at1, true)).push(plain(Op::Pop)));
    } else {
        assert(script_code(stmts, i + 1, next, t1, at1, false) =~= Seq::<
            InstructionView,
        >::empty());
        assert(head + Seq::<InstructionView>::empty() =~= head);
    }
}

/// Defining a name changes what no other name stands for.
proof fn lemma_global_of_defined(t: SymbolTableView, name: Seq<char>, other: Seq<char>)
    requires
        define(t, name) is Ok,
        t.outer is None,
        other != name,
    ensures
        global_of(defined(t, name), other) == global_of(t, other),
{
    lemma_find_after_put(t.symbols, define(t, name)->Ok_0.0, other);
}

/// An expression that does not mention a name is compiled alike before
/// and after the name is defined.
proof fn lemma_code_free(e: ExprView, base: int, t: SymbolTableView, name: Seq<char>)
    requires
        simple(e, t),
        free_of(e, name),
        define(t, name) is Ok,
        t.outer is None,
    ensures
        simple(e, defined(t, name)),
        code(e, base, defined(t, name)) == code(e, base, t),
        silent(e, t) ==> silent(e, defined(t, name)),
    decreases e, 1nat,
{
    let t1 = defined(t, name);
    match e {
        ExprView::Identifier(n) => {
            lemma_global_of_defined(t, name, n);
        },
        ExprView::Prefix { token, right } => {
            lemma_code_free(*right, base, t, name);
        },
        ExprView::Infix { left, token, right } => {
            lemma_code_free(*left, base, t, name);
            lemma_code_free(*right, base, t, name);
            lemma_code_free(*left, base + pool(*right).len(), t, name);
            lemma_code_free(*right, base + pool(*left).len(), t, name);
        },
        ExprView::Array(items) => {
            assert(simple_list(items, t));
            assert(free_of_list(items, name));
            lemma_code_free_list(items, 0, base, t, name);
            assert forall|i: int| 0 <= i < items.len() implies simple(#[trigger] items[i], t1) by {
                assert(simple(items[i], t));
                assert(free_of(items[i], name));
                lemma_code_free(items[i], base, t, name);
            }
            assert(simple_list(items, t1));
            if silent(e, t) {
                assert(silent_list(items, t));
                assert forall|i: int| 0 <= i < items.len() implies silent(
                    #[trigger] items[i],
                    t1,
                ) by {
                    assert(simple(items[i], t));
                    assert(free_of(items[i], name));
                    assert(silent(items[i], t));
                    lemma_code_free(items[i], base, t, name);
                }
                assert(silent_list(items, t1));
            }
        },
        ExprView::Call { callee, args } => {
            assert(simple_list(args, t));
            assert(free_of_list(args, name));
            lemma_code_free_list(args, 0, base, t, name);
            assert forall|i: int| 0 <= i < args.len() implies simple(#[trigger] args[i], t1) by {
                assert(simple(args[i], t));
                assert(free_of(args[i], name));
                lemma_code_free(args[i], base, t, name);
            }
            assert(simple_list(args, t1));
        },
        ExprView::Hash(pairs) => {
            assert(simple_pairs(pairs, t));
            assert(free_of_pairs(pairs, name));
            lemma_code_free_pairs(pairs, 0, base, t, name);
            assert forall|i: int| 0 <= i < pairs.len() implies simple(
                (#[trigger] pairs[i]).0,
                t1,
            ) && simple(pairs[i].1, t1) by {
                assert(simple(pairs[i].0, t) && simple(pairs[i].1, t));
                assert(free_of(pairs[i].0, name) && free_of(pairs[i].1, name));
                lemma_code_free(pairs[i].0, base, t, name);
                lemma_code_free(pairs[i].1, base, t, name);
            }
            assert(simple_pairs(pairs, t1));
            if silent(e, t) {
                assert(silent_pairs(pairs, t));
                assert forall|i: int| 0 <= i < pairs.len() implies silent(
                    (#[trigger] pairs[i]).0,
                    t1,
                ) && silent(pairs[i].1, t1) by {
                    assert(simple(pairs[i].0, t) && simple(pairs[i].1, t));
                    assert(free_of(pairs[i].0, name) && free_of(pairs[i].1, name));
                    assert(silent(pairs[i].0, t) && silent(pairs[i].1, t));
                    lemma_code_free(pairs[i].0, base, t, name);
                    lemma_code_free(pairs[i].1, base, t, name);
                }
                assert(silent_pairs(pairs, t1));
            }
        },
        _ => {},
    }
}

proof fn lemma_code_free_pairs(
    pairs: Seq<(ExprView, ExprView)>,
    i: int,
    base: int,
    t: SymbolTableView,
    name: Seq<char>,
)
    requires
        simple_pairs(pairs, t),
        free_of_pairs(pairs, name),
        define(t, name) is Ok,
        t.outer is None,
        0 <= i <= pairs.len(),
    ensures
        code_pairs(pairs, i, base, defined(t, name)) == code_pairs(pairs, i, base, t),
    decreases pairs, pairs.len() - i,
{
    if i < pairs.len() {
        let key = pairs[i].0;
        let value = pairs[i].1;
        let behind_key = base + pool(key).len();
        lemma_code_free(key, base, t, name);
        lemma_code_free(value, behind_key, t, name);
        lemma_code_free_pairs(pairs, i + 1, behind_key + pool(value).len(), t, name);
    }
}

proof fn lemma_code_free_list(
    items: Seq<ExprView>,
    i: int,
    base: int,
    t: SymbolTableView,
    name: Seq<char>,
)
    requires
        simple_list(items, t),
        free_of_list(items, name),
        define(t, name) is Ok,
        t.outer is None,
        0 <= i <= items.len(),
    ensures
        code_list(items, i, base, defined(t, name)) == code_list(items, i, base, t),
    decreases items, items.len() - i,
{
    if i < items.len() {
        lemma_code_free(items[i], base, t, name);
        lemma_code_free_list(items, i + 1, base + pool(items[i]).len(), t, name);
    }
}

/// A simple expression or conditional that does not mention a name is
/// compiled alike before and after the name is defined.
proof fn lemma_fork_free(e: ExprView, base: int, t: SymbolTableView, at: int, name: Seq<char>)
    requires
        forked(e, t),
        free_of(e, name),
        define(t, name) is Ok,
        t.outer is None,
    ensures
        forked(e, defined(t, name)),
        fork_code(e, base, defined(t, name), at) == fork_code(e, base, t, at),
    decreases e, 0nat,
{
    let t1 = defined(t, name);
    match e {
        ExprView::If { condition, consequence, alternative } => {
            lemma_code_free(*condition, base, t, name);
            let test = code(*condition, base, t);
            let base1 = base + pool(*condition).len();
            let at1 = at + code_size(test) + 3;
            lemma_script_free(consequence, 0, base1, t, at1, true, name);
            let first = script_code(consequence, 0, base1, t, at1, true);
            let base2 = base1 + block_pool(consequence, 0).len();
            let at2 = at1 + code_size(first) + 3;
            match alternative {
                Some(alt) => {
                    lemma_script_free(alt, 0, base2, t, at2, true, name);
                },
                None => {},
            }
        },
        _ => {
            lemma_code_free(e, base, t, name);
        },
    }
}

proof fn lemma_script_free(
    stmts: Seq<ExprView>,
    i: int,
    base: int,
    t: SymbolTableView,
    at: int,
    keep: bool,
    name: Seq<char>,
)
    requires
        forked_list(stmts, t),
        free_of_list(stmts, name),
        define(t, name) is Ok,
        t.outer is None,
        0 <= i <= stmts.len(),
    ensures
        forked_list(stmts, defined(t, name)),
        script_code(stmts, i, base, defined(t, name), at, keep) == script_code(
            stmts,
            i,
            base,
            t,
            at,
            keep,
        ),
    decreases stmts, stmts.len() - i,
{
    let t1 = defined(t, name);
    assert forall|k: int| 0 <= k < stmts.len() implies forked(#[trigger] stmts[k], t1) by {
        assert(forked(stmts[k], t));
        assert(free_of(stmts[k], name));
        lemma_fork_free(stmts[k], base, t, at, name);
    }
    if i < stmts.len() {
        let s = stmts[i];
        assert(forked(s, t));
        assert(free_of(s, name));
        lemma_fork_free(s, base, t, at, name);
        let head = statement_code(s, base, t, at);
        assert(!(s is Let));
        assert(head == fork_code(s, base, t, at));
        assert(statement_code(s, base, t1, at) == fork_code(s, base, t1, at));
        assert(table_behind(s, t) == t && table_behind(s, t1) == t1);
        lemma_script_free(
            stmts,
            i + 1,
            base + statement_pool(s).len(),
            t,
            at + code_size(head) + 1,
            keep,
            name,
        );
    }
}

/// The context with another table.
pub open spec fn with_table(ctx: ContextView, t: SymbolTableView) -> ContextView {
    ContextView { symbols: t, ..ctx }
}

/// The size of two lists of instructions, one behind the other.
pub proof fn lemma_size_concat(a: Seq<InstructionView>, b: Seq<InstructionView>)
    ensures
        code_size(a + b) == code_size(a) + code_size(b),
{
    lemma_encode_all_concat(a, b);
}

/// The size of a list with one more instruction that has a wide operand.
pub proof fn lemma_size_wide(is: Seq<InstructionView>, op: Op, x: u16)
    ensures
        code_size(is.push(wide(op, x))) == code_size(is) + 3,
{
    assert(is.push(wide(op, x)).drop_last() =~= is);
}

/// The size of a list with one more instruction that has no operand.
pub proof fn lemma_size_plain(is: Seq<InstructionView>, op: Op)
    ensures
        code_size(is.push(plain(op))) == code_size(is) + 1,
{
    assert(is.push(plain(op)).drop_last() =~= is);
}

/// Removing the last `Pop` from what was appended.
proof fn lemma_strip_appends(ctx: ContextView, is: Seq<InstructionView>, p: Seq<PrimitiveView>)
    requires
        ctx.scopes.len() > 0,
    ensures
        strip_pop(appended(ctx, is.push(plain(Op::Pop)), p)) == appended(ctx, is, p),
{
    let one = appended(ctx, is.push(plain(Op::Pop)), p);
    assert((current(ctx) + is.push(plain(Op::Pop))).drop_last() =~= current(ctx) + is);
    assert(one.scopes.update(one.scopes.len() - 1, current(ctx) + is) =~= ctx.scopes.update(
        ctx.scopes.len() - 1,
        current(ctx) + is,
    ));
}

/// Replacing an instruction of what was appended.
proof fn lemma_patch_appends(
    ctx: ContextView,
    is: Seq<InstructionView>,
    p: Seq<PrimitiveView>,
    k: int,
    i: InstructionView,
)
    requires
        ctx.scopes.len() > 0,
        0 <= k < is.len(),
    ensures
        patch(appended(ctx, is, p), current(ctx).len() + k, i) matches Ok(after) ==> after
            == appended(ctx, is.update(k, i), p) && code_size(current(ctx) + is.update(k, i))
            <= CODE_LIMIT,
{
    let one = appended(ctx, is, p);
    assert((current(ctx) + is).update(current(ctx).len() + k, i) =~= current(ctx) + is.update(
        k,
        i,
    ));
    assert(one.scopes.update(one.scopes.len() - 1, current(ctx) + is.update(k, i))
        =~= ctx.scopes.update(ctx.scopes.len() - 1, current(ctx) + is.update(k, i)));
}

/// Compiling a simple expression or a conditional over such appends its
/// instructions to the current scope and its constants to the pool, and
/// changes nothing else.
pub proof fn lemma_compile_fork(e: ExprView, ctx: ContextView)
    requires
        forked(e, ctx.symbols),
        ctx.symbols.outer is None,
    ensures
        compile_expr(e, ctx) matches Ok(after) ==> ctx.scopes.len() > 0 && after == appended(
            ctx,
            fork_code(e, ctx.constants.len() as int, ctx.symbols, code_size(current(ctx)) as int),
            fork_pool(e),
        ) && (fork_pool(e).len() > 0 ==> ctx.constants.len() + fork_pool(e).len() <= 65536)
            && fork_fits(e),
    decreases e, 0nat,
{
    let t = ctx.symbols;
    let base = ctx.constants.len() as int;
    let at = code_size(current(ctx)) as int;
    match e {
        ExprView::If { condition, consequence, alternative } => {
            if compile_expr(e, ctx) is Ok {
                lemma_compile_if(e, ctx);
            }
        },
        _ => {
            lemma_compile_appends(e, ctx, t);
        },
    }
}

proof fn lemma_compile_if(e: ExprView, ctx: ContextView)
    requires
        e is If,
        forked(e, ctx.symbols),
        ctx.symbols.outer is None,
        compile_expr(e, ctx) is Ok,
    ensures
        ctx.scopes.len() > 0,
        compile_expr(e, ctx)->Ok_0 == appended(
            ctx,
            fork_code(e, ctx.constants.len() as int, ctx.symbols, code_size(current(ctx)) as int),
            fork_pool(e),
        ),
        fork_pool(e).len() > 0 ==> ctx.constants.len() + fork_pool(e).len() <= 65536,
        fork_fits(e),
    decreases e, 0nat, 0nat,
{
    let t = ctx.symbols;
    let base = ctx.constants.len() as int;
    let at = code_size(current(ctx)) as int;
    let condition = e->If_condition;
    let consequence = e->If_consequence;
    let alternative = e->If_alternative;
    let test = code(*condition, base, t);
    let pc = pool(*condition);
    let base1 = base + pc.len();
    let at1 = at + code_size(test) + 3;
    let first = script_code(consequence, 0, base1, t, at1, true);
    let p1 = block_pool(consequence, 0);
    let base2 = base1 + p1.len();
    let at2 = at1 + code_size(first) + 3;
    let jf0 = wide(Op::JmpIfFalse, 0);
    let jmp0 = wide(Op::Jmp, 0);
    let jf = wide(Op::JmpIfFalse, at2 as u16);
    let none = Seq::<PrimitiveView>::empty();

    assert(compile_expr(e, ctx) == compile_if(e, ctx));
    assert(compile_expr(*condition, ctx) is Ok);
    lemma_compile_appends(*condition, ctx, t);
    let ctx1 = compile_expr(*condition, ctx)->Ok_0;
    assert(emit(ctx1, jf0) is Ok);
    lemma_emit_appends(ctx1, jf0);
    let ctx2 = emit(ctx1, jf0)->Ok_0;
    lemma_appended_twice(ctx, test, pc, seq![jf0], none);
    assert(test + seq![jf0] =~= test.push(jf0));
    assert(pc + none =~= pc);
    assert(ctx2 == appended(ctx, test.push(jf0), pc));
    lemma_size_concat(current(ctx), test.push(jf0));
    lemma_size_wide(test, Op::JmpIfFalse, 0);
    assert(code_size(current(ctx2)) == at1);

    lemma_forked_is_plain(consequence, 0, t);
    assert(compile_block(consequence, 0, ctx2) is Ok);
    lemma_compile_script(consequence, 0, ctx2);
    let ctx3 = compile_block(consequence, 0, ctx2)->Ok_0;
    lemma_script_code(consequence, 0, base1, t, at1);
    assert(with_table(ctx2, t) == ctx2);
    lemma_appended_twice(ctx, test.push(jf0), pc, first.push(plain(Op::Pop)), p1);
    assert(test.push(jf0) + first.push(plain(Op::Pop)) =~= (test.push(jf0) + first).push(
        plain(Op::Pop),
    ));
    lemma_strip_appends(ctx, test.push(jf0) + first, pc + p1);
    let ctx3s = strip_pop(ctx3);
    assert(ctx3s == appended(ctx, test.push(jf0) + first, pc + p1));
    assert(emit(ctx3s, jmp0) is Ok);
    lemma_emit_appends(ctx3s, jmp0);
    let ctx4 = emit(ctx3s, jmp0)->Ok_0;
    lemma_appended_twice(ctx, test.push(jf0) + first, pc + p1, seq![jmp0], none);
    let s4 = test.push(jf0) + first.push(jmp0);
    assert((test.push(jf0) + first) + seq![jmp0] =~= s4);
    assert((pc + p1) + none =~= pc + p1);
    assert(ctx4 == appended(ctx, s4, pc + p1));
    lemma_size_concat(current(ctx), s4);
    lemma_size_concat(test.push(jf0), first.push(jmp0));
    lemma_size_wide(first, Op::Jmp, 0);
    assert(code_size(current(ctx4)) == at2);
    assert(current(ctx2).len() - 1 == current(ctx).len() + test.len());
    assert(patch(ctx4, current(ctx2).len() - 1, jf) is Ok);
    lemma_patch_appends(ctx, s4, pc + p1, test.len() as int, jf);
    let ctx5 = patch(ctx4, current(ctx2).len() - 1, jf)->Ok_0;
    let s5 = test.push(jf) + first.push(jmp0);
    assert(s4.update(test.len() as int, jf) =~= s5);
    assert(ctx5 == appended(ctx, s5, pc + p1));
    lemma_size_concat(current(ctx), s5);
    lemma_size_concat(test.push(jf), first.push(jmp0));
    lemma_size_wide(test, Op::JmpIfFalse, at2 as u16);
    assert(code_size(current(ctx5)) == at2);

    let second = match alternative {
        Some(alt) => script_code(alt, 0, base2, t, at2, true),
        None => seq![plain(Op::Null)],
    };
    let p2 = match alternative {
        Some(alt) => block_pool(alt, 0),
        None => none,
    };
    let ctx7 = match alternative {
        Some(alt) => strip_pop(compile_block(alt, 0, ctx5)->Ok_0),
        None => emit(ctx5, plain(Op::Null))->Ok_0,
    };
    match alternative {
        Some(alt) => {
            lemma_forked_is_plain(alt, 0, t);
            lemma_compile_script(alt, 0, ctx5);
            lemma_script_code(alt, 0, base2, t, at2);
            assert(with_table(ctx5, t) == ctx5);
            lemma_appended_twice(ctx, s5, pc + p1, second.push(plain(Op::Pop)), p2);
            assert(s5 + second.push(plain(Op::Pop)) =~= (s5 + second).push(plain(Op::Pop)));
            lemma_strip_appends(ctx, s5 + second, pc + p1 + p2);
            assert forall|k: int| 0 <= k < alt.len() implies fork_fits(#[trigger] alt[k]) by {
                assert(statement_fits(alt[k]));
                assert(forked(alt[k], t));
            }
        },
        None => {
            lemma_emit_appends(ctx5, plain(Op::Null));
            lemma_appended_twice(ctx, s5, pc + p1, seq![plain(Op::Null)], none);
            assert((pc + p1) + none =~= pc + p1 + p2);
        },
    }
    assert(ctx7 == appended(ctx, s5 + second, pc + p1 + p2));
    lemma_size_concat(current(ctx), s5 + second);
    lemma_size_concat(s5, second);
    let end = at2 + code_size(second);
    assert(code_size(current(ctx7)) == end);
    let jmp = wide(Op::Jmp, end as u16);
    assert(current(ctx4).len() - 1 == current(ctx).len() + test.len() + 1 + first.len());
    let spot = (test.len() + 1 + first.len()) as int;
    lemma_patch_appends(ctx, s5 + second, pc + p1 + p2, spot, jmp);
    assert((s5 + second).update(spot, jmp) =~= test.push(jf)
        + first.push(jmp) + second);
    assert(fork_pool(e) == pc + p1 + p2);
    assert(fork_code(e, base, t, at) == test.push(jf) + first.push(jmp) + second);
    assert forall|k: int| 0 <= k < consequence.len() implies fork_fits(
        #[trigger] consequence[k],
    ) by {
        assert(statement_fits(consequence[k]));
        assert(forked(consequence[k], t));
    }
}

/// Compiling a plain statement appends its instructions to the current
/// scope and its constants to the pool, and leaves the table behind it.
pub proof fn lemma_compile_statement(s: ExprView, ctx: ContextView)
    requires
        plain_statement(s, ctx.symbols),
        ctx.symbols.outer is None,
    ensures
        compile_expr(s, ctx) matches Ok(after) ==> ctx.scopes.len() > 0 && after == appended(
            with_table(ctx, table_behind(s, ctx.symbols)),
            statement_code(
                s,
                ctx.constants.len() as int,
                ctx.symbols,
                code_size(current(ctx)) as int,
            ),
            statement_pool(s),
        ) && (statement_pool(s).len() > 0 ==> ctx.constants.len() + statement_pool(s).len()
            <= 65536) && statement_fits(s),
    decreases s, 1nat,
{
    let t = ctx.symbols;
    let base = ctx.constants.len() as int;
    let at = code_size(current(ctx)) as int;
    match s {
        ExprView::Let { name, value } => {
            let t1 = defined(t, name);
            let ctx0 = with_table(ctx, t1);
            lemma_fork_free(*value, base, t, at, name);
            lemma_compile_fork(*value, ctx0);
            match compile_expr(*value, ctx0) {
                Ok(ctx1) => {
                    let i = wide(Op::SetGlobal, t.num_definitions);
                    let c = fork_code(*value, base, t, at);
                    lemma_emit_appends(ctx1, i);
                    lemma_appended_twice(ctx0, c, fork_pool(*value), seq![i], Seq::empty());
                    assert(c + seq![i] =~= c.push(i));
                    assert(fork_pool(*value) + Seq::<PrimitiveView>::empty() =~= fork_pool(
                        *value,
                    ));
                },
                Err(_) => {},
            }
        },
        _ => {
            lemma_compile_fork(s, ctx);
        },
    }
}

/// Compiling plain statements appends their instructions to the current
/// scope and their constants to the pool, and leaves the table behind
/// them.
pub proof fn lemma_compile_script(stmts: Seq<ExprView>, i: int, ctx: ContextView)
    requires
        plain_from(stmts, i, ctx.symbols),
        ctx.symbols.outer is None,
        0 <= i <= stmts.len(),
    ensures
        compile_block(stmts, i, ctx) matches Ok(after) ==> (i < stmts.len() ==> ctx.scopes.len()
            > 0) && (ctx.scopes.len() > 0 ==> after == appended(
            with_table(ctx, table_at_end(stmts, i, ctx.symbols)),
            script_code(
                stmts,
                i,
                ctx.constants.len() as int,
                ctx.symbols,
                code_size(current(ctx)) as int,
                false,
            ),
            block_pool(stmts, i),
        )) && (block_pool(stmts, i).len() > 0 ==> ctx.constants.len() + block_pool(
            stmts,
            i,
        ).len() <= 65536) && (forall|k: int|
            i <= k < stmts.len() ==> statement_fits(#[trigger] stmts[k])) && (code_size(
            current(ctx),
        ) <= CODE_LIMIT ==> code_size(current(after)) <= CODE_LIMIT),
    decreases stmts, stmts.len() - i,
{
    let base = ctx.constants.len() as int;
    let at = code_size(current(ctx)) as int;
    let t = ctx.symbols;
    if i < stmts.len() {
        let s = stmts[i];
        let t1 = table_behind(s, t);
        lemma_compile_statement(s, ctx);
        match compile_expr(s, ctx) {
            Ok(ctx1) => {
                lemma_emit_appends(ctx1, plain(Op::Pop));
                match emit(ctx1, plain(Op::Pop)) {
                    Ok(ctx2) => {
                        let c = statement_code(s, base, t, at);
                        let p = statement_pool(s);
                        lemma_appended_twice(
                            with_table(ctx, t1),
                            c,
                            p,
                            seq![plain(Op::Pop)],
                            Seq::empty(),
                        );
                        assert(c + seq![plain(Op::Pop)] =~= c.push(plain(Op::Pop)));
                        assert(p + Seq::<PrimitiveView>::empty() =~= p);
                        assert(ctx2.symbols == t1);
                        assert(t1.outer is None);
                        lemma_size_concat(current(ctx), c.push(plain(Op::Pop)));
                        lemma_size_plain(c, Op::Pop);
                        lemma_size_plain(current(ctx1), Op::Pop);
                        assert(code_size(current(ctx2)) == at + code_size(c) + 1);
                        lemma_compile_script(stmts, i + 1, ctx2);
                        match compile_block(stmts, i + 1, ctx2) {
                            Ok(ctx3) => {
                                let t2 = table_at_end(stmts, i + 1, t1);
                                lemma_appended_twice(
                                    with_table(ctx, t2),
                                    c.push(plain(Op::Pop)),
                                    p,
                                    script_code(
                                        stmts,
                                        i + 1,
                                        base + p.len(),
                                        t1,
                                        at + code_size(c) + 1,
                                        false,
                                    ),
                                    block_pool(stmts, i + 1),
                                );
                                assert(with_table(ctx2, t2) == appended(
                                    with_table(ctx, t2),
                                    c.push(plain(Op::Pop)),
                                    p,
                                ));
                            },
                            Err(_) => {},
                        }
                    },
                    Err(_) => {},
                }
            },
            Err(_) => {},
        }
    } else {
        if ctx.scopes.len() > 0 {
            assert(current(ctx) + Seq::<InstructionView>::empty() =~= current(ctx));
            assert(ctx.constants + Seq::<PrimitiveView>::empty() =~= ctx.constants);
            assert(ctx.scopes.update(ctx.scopes.len() - 1, current(ctx)) =~= ctx.scopes);
        }
    }
}

} // verus!
