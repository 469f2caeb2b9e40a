//! The two backends agree on scripts: the machine, running the code of a
//! script, writes what the evaluator writes and ends with its value.

use vstd::prelude::*;
use crate::builtins::builtin_of;
use crate::evaluator::semantics::{
    define as bind_in, eval_block, eval_expr, eval_program, fresh_env,
    lemma_lookup_after_define, lookup, EnvView,
};
use crate::operators::is_truthy;
use crate::parser::types::ExprView;
use crate::value::{BindingView, PrimitiveView, RuntimeError};
use crate::vm::agreement::{
    code, global_of, lemma_code_not_empty, lemma_mirrors_kept, lemma_placed_part, lemma_runs,
    lemma_scopes_kept, placed, pool, pushed, ready,
};
use crate::vm::compiler::lemma_code_size_prefix;
use crate::vm::decoding::{
    lemma_fetch, lemma_run_after_steps, lemma_steps_split, offset, steps,
};
use crate::vm::lowering::{
    code_size, compile_block, current, main_closure, plain, strip_pop, wide, ContextView,
    CODE_LIMIT,
};
use crate::vm::scripts::{
    block_pool, defined, fork_code, fork_fits, fork_pool, forked, in_step, lemma_compile_script,
    lemma_forked_is_plain, lemma_script_code, lemma_size_concat, lemma_size_plain, lemma_size_wide,
    lemma_tame, plain_from, plain_statement, script_code, statement_code, statement_fits,
    statement_pool, table_at_end, table_behind, tame,
};
use crate::vm::semantics::{
    execute, fresh, halted, run_from, started, step, top, valid, FrameView, MachineView,
    STACK_SIZE,
};
use crate::vm::symbols::{define, empty_table, find, lemma_find_after_put, SymbolTableView};
use crate::vm::types::{encode_all, lemma_wide_round_trip, InstructionView, Op};

verus! {

/// The machine `m` is `m0` with `n` more values on the stack and the
/// running frame at `ip`; the globals may differ.
pub open spec fn stacked(m0: MachineView, m: MachineView, n: int, ip: int) -> bool {
    &&& m.sp == m0.sp + n
    &&& m.stack.len() == m0.stack.len()
    &&& forall|i: int| 0 <= i < m0.sp && i < m.sp ==> m.stack[i] == m0.stack[i]
    &&& m.frames == m0.frames.update(m0.frames.len() - 1, FrameView { ip, ..top(m0) })
}

/// One change of the stack behind another.
proof fn lemma_stacked_twice(
    m0: MachineView,
    m1: MachineView,
    m2: MachineView,
    n1: int,
    ip1: int,
    n2: int,
    ip2: int,
)
    requires
        m0.frames.len() > 0,
        stacked(m0, m1, n1, ip1),
        stacked(m1, m2, n2, ip2),
        n1 >= 0,
    ensures
        stacked(m0, m2, n1 + n2, ip2),
{
    assert(m2.frames =~= m0.frames.update(m0.frames.len() - 1, FrameView { ip: ip2, ..top(m0) }));
}

/// One step that drops the topmost value.
proof fn lemma_step_pop(
    m: MachineView,
    js: Seq<InstructionView>,
    a: int,
    constants: Seq<PrimitiveView>,
)
    requires
        ready(m, js, a),
        js[a] == plain(Op::Pop),
        m.sp > 0,
    ensures
        steps(m, constants, 1) matches Ok(after) && stacked(m, after, -1, offset(js, a + 1))
            && valid(after) && after.stdout == m.stdout && after.globals == m.globals,
{
    reveal(execute);
    lemma_fetch(top(m), js, a);
    let after = step(m, constants)->Ok_0;
    assert(steps(after, constants, 0) == Ok::<MachineView, RuntimeError>(after));
}

/// One step that pushes null.
proof fn lemma_step_null(
    m: MachineView,
    js: Seq<InstructionView>,
    a: int,
    constants: Seq<PrimitiveView>,
)
    requires
        ready(m, js, a),
        js[a] == plain(Op::Null),
        m.sp < STACK_SIZE,
    ensures
        steps(m, constants, 1) matches Ok(after) && stacked(m, after, 1, offset(js, a + 1))
            && after.stack[m.sp] == BindingView::Null && valid(after) && after.stdout
            == m.stdout && after.globals == m.globals,
{
    reveal(execute);
    lemma_fetch(top(m), js, a);
    let after = step(m, constants)->Ok_0;
    assert(steps(after, constants, 0) == Ok::<MachineView, RuntimeError>(after));
}

/// One step that stores the topmost value into a global.
proof fn lemma_step_store(
    m: MachineView,
    js: Seq<InstructionView>,
    a: int,
    constants: Seq<PrimitiveView>,
    n: u16,
)
    requires
        ready(m, js, a),
        js[a] == wide(Op::SetGlobal, n),
        m.sp > 0,
        n < STACK_SIZE,
    ensures
        steps(m, constants, 1) matches Ok(after) && stacked(m, after, 0, offset(js, a + 1))
            && valid(after) && after.stdout == m.stdout && after.stack == m.stack
            && after.globals == m.globals.update(n as int, m.stack[m.sp - 1]),
{
    reveal(execute);
    lemma_wide_round_trip(n);
    lemma_fetch(top(m), js, a);
    let after = step(m, constants)->Ok_0;
    assert(steps(after, constants, 0) == Ok::<MachineView, RuntimeError>(after));
}

/// One step that pops a value and jumps where it does not count as true.
proof fn lemma_step_branch(
    m: MachineView,
    js: Seq<InstructionView>,
    a: int,
    constants: Seq<PrimitiveView>,
    target: u16,
)
    requires
        ready(m, js, a),
        js[a] == wide(Op::JmpIfFalse, target),
        m.sp > 0,
    ensures
        steps(m, constants, 1) matches Ok(after) && stacked(
            m,
            after,
            -1,
            if is_truthy(m.stack[m.sp - 1]) {
                offset(js, a + 1)
            } else {
                target as int
            },
        ) && valid(after) && after.stdout == m.stdout && after.globals == m.globals,
{
    reveal(execute);
    lemma_wide_round_trip(target);
    lemma_fetch(top(m), js, a);
    let after = step(m, constants)->Ok_0;
    assert(steps(after, constants, 0) == Ok::<MachineView, RuntimeError>(after));
    let ip = if is_truthy(m.stack[m.sp - 1]) {
        offset(js, a + 1)
    } else {
        target as int
    };
    assert(after.frames =~= m.frames.update(m.frames.len() - 1, FrameView { ip, ..top(m) }));
}

/// One step that jumps.
proof fn lemma_step_jump(
    m: MachineView,
    js: Seq<InstructionView>,
    a: int,
    constants: Seq<PrimitiveView>,
    target: u16,
)
    requires
        ready(m, js, a),
        js[a] == wide(Op::Jmp, target),
    ensures
        steps(m, constants, 1) matches Ok(after) && stacked(m, after, 0, target as int)
            && valid(after) && after.stdout == m.stdout && after.globals == m.globals
            && after.stack == m.stack,
{
    reveal(execute);
    lemma_wide_round_trip(target);
    lemma_fetch(top(m), js, a);
    let after = step(m, constants)->Ok_0;
    assert(steps(after, constants, 0) == Ok::<MachineView, RuntimeError>(after));
    assert(after.frames =~= m.frames.update(
        m.frames.len() - 1,
        FrameView { ip: target as int, ..top(m) },
    ));
}

/// The offset of an instruction within code that stands at an index of a
/// function.
proof fn lemma_offset_part(js: Seq<InstructionView>, a: int, c: Seq<InstructionView>, n: int)
    requires
        0 <= a,
        a + c.len() <= js.len(),
        js.subrange(a, a + c.len()) == c,
        0 <= n <= c.len(),
    ensures
        offset(js, a + n) == offset(js, a) + code_size(c.subrange(0, n)),
        offset(js, a + n) <= code_size(js),
{
    assert(js.subrange(0, a + n) =~= js.subrange(0, a) + c.subrange(0, n)) by {
        assert forall|k: int| 0 <= k < n implies js[a + k] == c[k] by {
            assert(js.subrange(a, a + c.len())[k] == js[a + k]);
        }
    }
    lemma_size_concat(js.subrange(0, a), c.subrange(0, n));
    lemma_code_size_prefix(js, a + n);
}

/// Binding a global to a tame value keeps the environment, the table and
/// the globals in step.
proof fn lemma_in_step_after_let(
    env: EnvView,
    t: SymbolTableView,
    globals: Seq<BindingView>,
    name: Seq<char>,
    v: BindingView,
)
    requires
        in_step(env, t, globals),
        builtin_of(name) is None,
        define(t, name) is Ok,
        tame(v),
    ensures
        in_step(
            bind_in(env, 0, name, v),
            defined(t, name),
            globals.update(t.num_definitions as int, v),
        ),
{
    let env1 = bind_in(env, 0, name, v);
    let t1 = defined(t, name);
    let n = t.num_definitions;
    let globals1 = globals.update(n as int, v);
    let s = define(t, name)->Ok_0.0;
    assert forall|other: Seq<char>| (#[trigger] find(t1.symbols, other)) is Some implies find(
        t1.symbols,
        other,
    )->Some_0.index < t1.num_definitions by {
        lemma_find_after_put(t.symbols, s, other);
        if other != name {
            assert(find(t.symbols, other) is Some);
        }
    }
    assert forall|other: Seq<char>| builtin_of(other) is Some implies (#[trigger] lookup(
        env1,
        0,
        other,
    )) is None by {
        lemma_lookup_after_define(env, 0, name, v, other);
        assert(lookup(env, 0, other) is None);
    }
    assert forall|other: Seq<char>| global_of(t1, other) is Some implies (#[trigger] lookup(
        env1,
        0,
        other,
    )) == Some(globals1[global_of(t1, other)->Some_0.index as int]) by {
        lemma_lookup_after_define(env, 0, name, v, other);
        lemma_find_after_put(t.symbols, s, other);
        if other != name {
            assert(global_of(t, other) == global_of(t1, other));
            assert(find(t.symbols, other) is Some);
            assert(lookup(env, 0, other) == Some(
                globals[global_of(t, other)->Some_0.index as int],
            ));
        }
    }
    assert forall|other: Seq<char>| (#[trigger] global_of(t1, other)) is Some implies tame(
        globals1[global_of(t1, other)->Some_0.index as int],
    ) by {
        lemma_find_after_put(t.symbols, s, other);
        if other != name {
            assert(global_of(t, other) == global_of(t1, other));
            assert(find(t.symbols, other) is Some);
        }
    }
}

/// Where the parts of the code of a conditional stand in a function.
proof fn lemma_if_layout(
    e: ExprView,
    js: Seq<InstructionView>,
    a: int,
    constants: Seq<PrimitiveView>,
    base: int,
    t: SymbolTableView,
    at: int,
)
    requires
        e is If,
        forked(e, t),
        placed(fork_code(e, base, t, at), fork_pool(e), js, a, constants, base),
        at == offset(js, a),
        code_size(js) <= CODE_LIMIT,
    ensures
        ({
            let condition = e->If_condition;
            let consequence = e->If_consequence;
            let alternative = e->If_alternative;
            let test = code(*condition, base, t);
            let pc = pool(*condition);
            let base1 = base + pc.len();
            let at1 = at + code_size(test) + 3;
            let first = script_code(consequence, 0, base1, t, at1, true);
            let p1 = block_pool(consequence, 0);
            let base2 = base1 + p1.len();
            let at2 = at1 + code_size(first) + 3;
            let second = match alternative {
                Some(alt) => script_code(alt, 0, base2, t, at2, true),
                None => seq![plain(Op::Null)],
            };
            let p2 = match alternative {
                Some(alt) => block_pool(alt, 0),
                None => Seq::empty(),
            };
            let end = at2 + code_size(second);
            let a1 = a + test.len() + 1;
            let a2 = a1 + first.len() + 1;
            &&& fork_code(e, base, t, at).len() == test.len() + 1 + first.len() + 1 + second.len()
            &&& placed(test, pc, js, a, constants, base)
            &&& js[a + test.len()] == wide(Op::JmpIfFalse, at2 as u16)
            &&& placed(first, p1, js, a1, constants, base1)
            &&& js[a1 + first.len()] == wide(Op::Jmp, end as u16)
            &&& placed(second, p2, js, a2, constants, base2)
            &&& offset(js, a1) == at1
            &&& offset(js, a2) == at2
            &&& offset(js, a + fork_code(e, base, t, at).len()) == end
            &&& 0 <= at2 <= u16::MAX
            &&& 0 <= end <= u16::MAX
        }),
{
    let condition = e->If_condition;
    let consequence = e->If_consequence;
    let alternative = e->If_alternative;
    let test = code(*condition, base, t);
    let pc = pool(*condition);
    let base1 = base + pc.len();
    let at1 = at + code_size(test) + 3;
    let first = script_code(consequence, 0, base1, t, at1, true);
    let p1 = block_pool(consequence, 0);
    let base2 = base1 + p1.len();
    let at2 = at1 + code_size(first) + 3;
    let second = match alternative {
        Some(alt) => script_code(alt, 0, base2, t, at2, true),
        None => seq![plain(Op::Null)],
    };
    let p2 = match alternative {
        Some(alt) => block_pool(alt, 0),
        None => Seq::<PrimitiveView>::empty(),
    };
    let end = at2 + code_size(second);
    let a1 = a + test.len() + 1;
    let a2 = a1 + first.len() + 1;
    let jf = wide(Op::JmpIfFalse, at2 as u16);
    let jmp = wide(Op::Jmp, end as u16);
    let c = fork_code(e, base, t, at);
    let p = fork_pool(e);
    assert(c == test.push(jf) + first.push(jmp) + second);
    assert(p == pc + p1 + p2);
    let n1 = (test.len() + 1) as int;
    let n2 = (n1 + first.len() + 1) as int;
    assert(c.subrange(0, test.len() as int) =~= test);
    assert(c.subrange(n1, n1 + first.len()) =~= first);
    assert(c.subrange(n2, n2 + second.len()) =~= second);
    let q1 = pc.len() as int;
    let q2 = q1 + p1.len();
    assert(p.subrange(0, q1) =~= pc);
    assert(p.subrange(q1, q1 + p1.len()) =~= p1);
    assert(p.subrange(q2, q2 + p2.len()) =~= p2);
    lemma_placed_part(c, p, js, a, constants, base, 0, test, 0, pc);
    lemma_placed_part(c, p, js, a, constants, base, n1, first, q1, p1);
    lemma_placed_part(c, p, js, a, constants, base, n2, second, q2, p2);
    assert(js[a + test.len()] == js.subrange(a, a + c.len())[test.len() as int]);
    assert(js[a1 + first.len()] == js.subrange(a, a + c.len())[n1 + first.len()]);
    assert(c.subrange(0, n1) =~= test.push(jf));
    assert(c.subrange(0, n2) =~= test.push(jf) + first.push(jmp));
    assert(c.subrange(0, c.len() as int) =~= c);
    lemma_offset_part(js, a, c, n1);
    lemma_offset_part(js, a, c, n2);
    lemma_offset_part(js, a, c, c.len() as int);
    lemma_size_wide(test, Op::JmpIfFalse, at2 as u16);
    lemma_size_wide(first, Op::Jmp, end as u16);
    lemma_size_concat(test.push(jf), first.push(jmp));
    lemma_size_concat(test.push(jf) + first.push(jmp), second);
}

/// Whether the machine stands ready to run, at the byte offset `at`, the
/// code that stands at the index `a` of the function `js`, and has
/// written what the environment holds as written.
pub open spec fn poised(
    m: MachineView,
    js: Seq<InstructionView>,
    a: int,
    at: int,
    env: EnvView,
    t: SymbolTableView,
) -> bool {
    &&& valid(m)
    &&& m.frames.len() > 0
    &&& top(m).closure.fn_.body == encode_all(js)
    &&& top(m).ip == offset(js, a)
    &&& at == offset(js, a)
    &&& code_size(js) <= CODE_LIMIT
    &&& m.stdout == env.stdout
    &&& in_step(env, t, m.globals)
}

/// Whether the machine `after` is `m` with `n` more values on the stack,
/// stands at the index `b` of the function `js`, and has written what the
/// environment holds as written.
pub open spec fn arrived(
    m: MachineView,
    after: MachineView,
    n: int,
    js: Seq<InstructionView>,
    b: int,
    env: EnvView,
    t: SymbolTableView,
) -> bool {
    &&& stacked(m, after, n, offset(js, b))
    &&& valid(after)
    &&& after.stdout == env.stdout
    &&& in_step(env, t, after.globals)
}

/// The machine runs the code of a simple expression or a conditional:
/// where the evaluator yields a value, the machine pushes that value,
/// stands behind the code, and has written what the evaluator has
/// written. The result is the number of steps that this takes.
pub proof fn lemma_runs_fork(
    e: ExprView,
    m: MachineView,
    js: Seq<InstructionView>,
    a: int,
    constants: Seq<PrimitiveView>,
    base: int,
    env: EnvView,
    depth: nat,
    t: SymbolTableView,
    at: int,
) -> (k: nat)
    requires
        forked(e, t),
        fork_fits(e),
        poised(m, js, a, at, env, t),
        placed(fork_code(e, base, t, at), fork_pool(e), js, a, constants, base),
        eval_expr(e, env, 0, depth).0 is Ok,
        m.sp + fork_code(e, base, t, at).len() <= STACK_SIZE,
    ensures
        k <= fork_code(e, base, t, at).len(),
        steps(m, constants, k) matches Ok(after) && arrived(
            m,
            after,
            1,
            js,
            a + fork_code(e, base, t, at).len(),
            eval_expr(e, env, 0, depth).1,
            t,
        ) && after.stack[m.sp] == eval_expr(e, env, 0, depth).0->Ok_0,
        tame(eval_expr(e, env, 0, depth).0->Ok_0),
    decreases e, 0nat,
{
    match e {
        ExprView::If { condition, consequence, alternative } => {
            let d = (depth - 1) as nat;
            let test = code(*condition, base, t);
            let base1 = base + pool(*condition).len();
            let at1 = at + code_size(test) + 3;
            let first = script_code(consequence, 0, base1, t, at1, true);
            let base2 = base1 + block_pool(consequence, 0).len();
            let at2 = at1 + code_size(first) + 3;
            let second = match alternative {
                Some(alt) => script_code(alt, 0, base2, t, at2, true),
                None => seq![plain(Op::Null)],
            };
            let end = at2 + code_size(second);
            let a1 = a + test.len() + 1;
            let a2 = a1 + first.len() + 1;
            let len = fork_code(e, base, t, at).len();
            lemma_if_layout(e, js, a, constants, base, t, at);
            lemma_code_not_empty(*condition, base, t);
            lemma_scopes_kept(*condition, env, 0, d, t);
            lemma_runs(*condition, m, js, a, constants, base, env, 0, d, t);
            let m1 = steps(m, constants, test.len())->Ok_0;
            let cv = eval_expr(*condition, env, 0, d).0->Ok_0;
            let env1 = eval_expr(*condition, env, 0, d).1;
            lemma_mirrors_kept(env, env1, 0, t, m.globals);
            lemma_step_branch(m1, js, a + test.len(), constants, at2 as u16);
            let m2 = steps(m1, constants, 1)->Ok_0;
            lemma_steps_split(m, constants, test.len(), 1);
            let n1 = (test.len() + 1) as nat;
            assert(steps(m, constants, n1) == Ok::<MachineView, RuntimeError>(m2));
            if is_truthy(cv) {
                lemma_stacked_twice(m, m1, m2, 1, offset(js, a + test.len()), -1, at1);
                lemma_forked_is_plain(consequence, 0, t);
                assert forall|k: int| 0 <= k < consequence.len() implies statement_fits(
                    #[trigger] consequence[k],
                ) by {
                    assert(fork_fits(consequence[k]));
                    assert(forked(consequence[k], t));
                }
                let k2 = lemma_runs_script(
                    consequence,
                    0,
                    m2,
                    js,
                    a1,
                    constants,
                    base1,
                    env1,
                    d,
                    BindingView::Null,
                    t,
                    at1,
                    true,
                );
                let m3 = steps(m2, constants, k2)->Ok_0;
                let v = eval_block(consequence, 0, BindingView::Null, env1, 0, d).0->Ok_0;
                lemma_steps_split(m, constants, n1, k2);
                lemma_stacked_twice(m, m2, m3, 0, at1, 1, offset(js, a1 + first.len()));
                lemma_step_jump(m3, js, a1 + first.len(), constants, end as u16);
                let m4 = steps(m3, constants, 1)->Ok_0;
                lemma_steps_split(m, constants, n1 + k2, 1);
                lemma_stacked_twice(m, m3, m4, 1, offset(js, a1 + first.len()), 0, end);
                (n1 + k2 + 1) as nat
            } else {
                lemma_stacked_twice(m, m1, m2, 1, offset(js, a + test.len()), -1, at2);
                match alternative {
                    Some(alt) => {
                        lemma_forked_is_plain(alt, 0, t);
                        assert forall|k: int| 0 <= k < alt.len() implies statement_fits(
                            #[trigger] alt[k],
                        ) by {
                            assert(fork_fits(alt[k]));
                            assert(forked(alt[k], t));
                        }
                        let k2 = lemma_runs_script(
                            alt,
                            0,
                            m2,
                            js,
                            a2,
                            constants,
                            base2,
                            env1,
                            d,
                            BindingView::Null,
                            t,
                            at2,
                            true,
                        );
                        let m3 = steps(m2, constants, k2)->Ok_0;
                        lemma_steps_split(m, constants, n1, k2);
                        lemma_stacked_twice(m, m2, m3, 0, at2, 1, end);
                        (n1 + k2) as nat
                    },
                    None => {
                        lemma_step_null(m2, js, a2, constants);
                        let m3 = steps(m2, constants, 1)->Ok_0;
                        lemma_steps_split(m, constants, n1, 1);
                        lemma_stacked_twice(m, m2, m3, 0, at2, 1, end);
                        (n1 + 1) as nat
                    },
                }
            }
        },
        _ => {
            lemma_code_not_empty(e, base, t);
            lemma_scopes_kept(e, env, 0, depth, t);
            lemma_tame(e, env, 0, depth, t, m.globals);
            lemma_runs(e, m, js, a, constants, base, env, 0, depth, t);
            lemma_mirrors_kept(env, eval_expr(e, env, 0, depth).1, 0, t, m.globals);
            code(e, base, t).len()
        },
    }
}

/// The machine runs the code of a plain statement: where the evaluator
/// yields a value, the machine pushes that value, stands behind the code,
/// has written what the evaluator has written, and its globals are in
/// step with the environment behind the statement. The result is the
/// number of steps that this takes.
pub proof fn lemma_runs_statement(
    s: ExprView,
    m: MachineView,
    js: Seq<InstructionView>,
    a: int,
    constants: Seq<PrimitiveView>,
    base: int,
    env: EnvView,
    depth: nat,
    t: SymbolTableView,
    at: int,
) -> (k: nat)
    requires
        plain_statement(s, t),
        statement_fits(s),
        poised(m, js, a, at, env, t),
        placed(statement_code(s, base, t, at), statement_pool(s), js, a, constants, base),
        eval_expr(s, env, 0, depth).0 is Ok,
        m.sp + statement_code(s, base, t, at).len() <= STACK_SIZE,
    ensures
        k <= statement_code(s, base, t, at).len(),
        steps(m, constants, k) matches Ok(after) && arrived(
            m,
            after,
            1,
            js,
            a + statement_code(s, base, t, at).len(),
            eval_expr(s, env, 0, depth).1,
            table_behind(s, t),
        ) && after.stack[m.sp] == eval_expr(s, env, 0, depth).0->Ok_0,
        tame(eval_expr(s, env, 0, depth).0->Ok_0),
    decreases s, 1nat,
{
    match s {
        ExprView::Let { name, value } => {
            let d = (depth - 1) as nat;
            let c = fork_code(*value, base, t, at);
            let p = fork_pool(*value);
            let all = statement_code(s, base, t, at);
            let n = t.num_definitions;
            assert(all.subrange(0, c.len() as int) =~= c);
            assert(p.subrange(0, p.len() as int) =~= p);
            lemma_placed_part(all, p, js, a, constants, base, 0, c, 0, p);
            assert(js[a + c.len()] == js.subrange(a, a + all.len())[c.len() as int]);
            let k1 = lemma_runs_fork(*value, m, js, a, constants, base, env, d, t, at);
            let m1 = steps(m, constants, k1)->Ok_0;
            let v = eval_expr(*value, env, 0, d).0->Ok_0;
            let env1 = eval_expr(*value, env, 0, d).1;
            lemma_step_store(m1, js, a + c.len(), constants, n);
            let m2 = steps(m1, constants, 1)->Ok_0;
            lemma_steps_split(m, constants, k1, 1);
            lemma_stacked_twice(
                m,
                m1,
                m2,
                1,
                offset(js, a + c.len()),
                0,
                offset(js, a + all.len()),
            );
            lemma_in_step_after_let(env1, t, m1.globals, name, v);
            (k1 + 1) as nat
        },
        _ => lemma_runs_fork(s, m, js, a, constants, base, env, depth, t, at),
    }
}

/// The machine runs the code of plain statements: it writes what the
/// evaluator writes, and stands behind the code. With `keep` it has
/// pushed the value of the last statement; without, it leaves the stack
/// as it is. The result is the number of steps that this takes.
pub proof fn lemma_runs_script(
    stmts: Seq<ExprView>,
    i: int,
    m: MachineView,
    js: Seq<InstructionView>,
    a: int,
    constants: Seq<PrimitiveView>,
    base: int,
    env: EnvView,
    depth: nat,
    last: BindingView,
    t: SymbolTableView,
    at: int,
    keep: bool,
) -> (k: nat)
    requires
        plain_from(stmts, i, t),
        forall|j: int| i <= j < stmts.len() ==> statement_fits(#[trigger] stmts[j]),
        0 <= i <= stmts.len(),
        keep ==> i < stmts.len(),
        tame(last),
        poised(m, js, a, at, env, t),
        placed(
            script_code(stmts, i, base, t, at, keep),
            block_pool(stmts, i),
            js,
            a,
            constants,
            base,
        ),
        eval_block(stmts, i, last, env, 0, depth).0 is Ok,
        m.sp + script_code(stmts, i, base, t, at, keep).len() <= STACK_SIZE,
    ensures
        k <= script_code(stmts, i, base, t, at, keep).len(),
        steps(m, constants, k) matches Ok(after) && arrived(
            m,
            after,
            if keep {
                1
            } else {
                0
            },
            js,
            a + script_code(stmts, i, base, t, at, keep).len(),
            eval_block(stmts, i, last, env, 0, depth).1,
            table_at_end(stmts, i, t),
        ) && (keep ==> after.stack[m.sp] == eval_block(stmts, i, last, env, 0, depth).0->Ok_0),
        tame(eval_block(stmts, i, last, env, 0, depth).0->Ok_0),
    decreases stmts, stmts.len() - i,
{
    if i < stmts.len() {
        let s = stmts[i];
        let c = statement_code(s, base, t, at);
        let p = statement_pool(s);
        let t1 = table_behind(s, t);
        let all = script_code(stmts, i, base, t, at, keep);
        let whole = block_pool(stmts, i);
        let prest = block_pool(stmts, i + 1);
        assert(all.subrange(0, c.len() as int) =~= c);
        assert(whole.subrange(0, p.len() as int) =~= p);
        lemma_placed_part(all, whole, js, a, constants, base, 0, c, 0, p);
        let k1 = lemma_runs_statement(s, m, js, a, constants, base, env, depth, t, at);
        let m1 = steps(m, constants, k1)->Ok_0;
        let v = eval_expr(s, env, 0, depth).0->Ok_0;
        let env1 = eval_expr(s, env, 0, depth).1;
        if keep && i == stmts.len() - 1 {
            k1
        } else {
            let head = c.push(plain(Op::Pop));
            let at1 = at + code_size(c) + 1;
            let rest = script_code(stmts, i + 1, base + p.len(), t1, at1, keep);
            assert(all.subrange(head.len() as int, (head.len() + rest.len()) as int) =~= rest);
            assert(whole.subrange(p.len() as int, (p.len() + prest.len()) as int) =~= prest);
            lemma_placed_part(
                all,
                whole,
                js,
                a,
                constants,
                base,
                head.len() as int,
                rest,
                p.len() as int,
                prest,
            );
            assert(js[a + c.len()] == js.subrange(a, a + all.len())[c.len() as int]);
            assert(all.subrange(0, head.len() as int) =~= head);
            lemma_offset_part(js, a, all, head.len() as int);
            lemma_size_plain(c, Op::Pop);
            lemma_step_pop(m1, js, a + c.len(), constants);
            let m2 = steps(m1, constants, 1)->Ok_0;
            lemma_steps_split(m, constants, k1, 1);
            lemma_stacked_twice(m, m1, m2, 1, offset(js, a + c.len()), -1, at1);
            let k2 = lemma_runs_script(
                stmts,
                i + 1,
                m2,
                js,
                a + head.len(),
                constants,
                base + p.len(),
                env1,
                depth,
                v,
                t1,
                at1,
                keep,
            );
            let after = steps(m2, constants, k2)->Ok_0;
            lemma_steps_split(m, constants, (k1 + 1) as nat, k2);
            lemma_stacked_twice(
                m,
                m2,
                after,
                0,
                at1,
                if keep {
                    1
                } else {
                    0
                },
                offset(js, a + all.len()),
            );
            (k1 + 1 + k2) as nat
        }
    } else {
        assert(m.frames =~= m.frames.update(
            m.frames.len() - 1,
            FrameView { ip: offset(js, a), ..top(m) },
        ));
        0
    }
}

/// Whether the statements of a program are plain in a table, each in the
/// table behind the one before.
pub open spec fn script(stmts: Seq<ExprView>, t: SymbolTableView) -> bool {
    plain_from(stmts, 0, t)
}

/// A fresh environment, an empty table and the globals of a fresh machine
/// are in step.
pub proof fn lemma_fresh_in_step()
    ensures
        in_step(fresh_env(), empty_table(), fresh().globals),
{
    let env = fresh_env();
    assert forall|name: Seq<char>| (#[trigger] lookup(env, 0, name)) is None by {
        assert(env.scopes[0].local.len() == 0);
    }
    assert forall|name: Seq<char>| (#[trigger] find(empty_table().symbols, name)) is None by {
        assert(empty_table().symbols.len() == 0);
    }
    assert forall|name: Seq<char>| (#[trigger] global_of(empty_table(), name)) is None by {
        assert(find(empty_table().symbols, name) is None);
    }
}

/// The two backends agree on what a script writes. Let the statements of
/// a program be plain, and let the evaluator run the program without an
/// error, in an environment that is in step with the table of the
/// compiler and the globals of the machine. Let the program compile into
/// a context whose current scope holds no instructions, and let a machine
/// whose stack is empty, and which has written what the environment holds
/// as written, run the main closure of that context for as many steps as
/// the code has instructions at least. Then the machine halts without an
/// error, with an empty stack, and has written what the evaluator has
/// written; and the environment, the table and the globals are in step
/// again, so that the same holds of the next program of a session.
pub proof fn lemma_scripts_write_the_same(
    stmts: Seq<ExprView>,
    env: EnvView,
    depth: nat,
    ctx: ContextView,
    m: MachineView,
    limit: nat,
)
    requires
        script(stmts, ctx.symbols),
        in_step(env, ctx.symbols, m.globals),
        eval_program(stmts, env, depth).0 is Ok,
        ctx.scopes.len() > 0,
        current(ctx).len() == 0,
        compile_block(stmts, 0, ctx) is Ok,
        valid(m),
        m.sp == 0,
        m.stdout == env.stdout,
        limit >= current(compile_block(stmts, 0, ctx)->Ok_0).len(),
        current(compile_block(stmts, 0, ctx)->Ok_0).len() <= STACK_SIZE,
    ensures
        ({
            let compiled = compile_block(stmts, 0, ctx)->Ok_0;
            run_from(started(m, main_closure(compiled)), compiled.constants, limit) matches Ok(
                end,
            ) && end.sp == 0 && end.stdout == eval_program(stmts, env, depth).1.stdout && in_step(
                eval_program(stmts, env, depth).1,
                compiled.symbols,
                end.globals,
            )
        }),
{
    let compiled = compile_block(stmts, 0, ctx)->Ok_0;
    let base = ctx.constants.len() as int;
    let t = ctx.symbols;
    let c = script_code(stmts, 0, base, t, 0, false);
    lemma_compile_script(stmts, 0, ctx);
    assert(current(compiled) =~= c);
    assert(compiled.constants.subrange(base, base + block_pool(stmts, 0).len()) =~= block_pool(
        stmts,
        0,
    ));
    let start = started(m, main_closure(compiled));
    assert(c.subrange(0, 0) =~= Seq::<InstructionView>::empty());
    assert(offset(c, 0) == 0);
    assert(c.subrange(0, c.len() as int) =~= c);
    let k = lemma_runs_script(
        stmts,
        0,
        start,
        c,
        0,
        compiled.constants,
        base,
        env,
        depth,
        BindingView::Null,
        t,
        0,
        false,
    );
    let end = steps(start, compiled.constants, k)->Ok_0;
    lemma_run_after_steps(start, compiled.constants, k, limit);
    assert(halted(end));
}

/// The two backends agree on the value of a script. As before, but the
/// last `Pop` is removed from the compiled code, and the program has a
/// statement. Then the machine halts with the value of the program as the
/// only one on its stack.
pub proof fn lemma_scripts_yield_the_same(
    stmts: Seq<ExprView>,
    env: EnvView,
    depth: nat,
    ctx: ContextView,
    m: MachineView,
    limit: nat,
)
    requires
        script(stmts, ctx.symbols),
        stmts.len() > 0,
        in_step(env, ctx.symbols, m.globals),
        eval_program(stmts, env, depth).0 is Ok,
        ctx.scopes.len() > 0,
        current(ctx).len() == 0,
        compile_block(stmts, 0, ctx) is Ok,
        valid(m),
        m.sp == 0,
        m.stdout == env.stdout,
        limit >= current(compile_block(stmts, 0, ctx)->Ok_0).len(),
        current(compile_block(stmts, 0, ctx)->Ok_0).len() <= STACK_SIZE,
    ensures
        ({
            let compiled = strip_pop(compile_block(stmts, 0, ctx)->Ok_0);
            run_from(started(m, main_closure(compiled)), compiled.constants, limit) matches Ok(
                end,
            ) && end.sp == 1 && end.stack[0] == eval_program(stmts, env, depth).0->Ok_0
                && end.stdout == eval_program(stmts, env, depth).1.stdout && in_step(
                eval_program(stmts, env, depth).1,
                compiled.symbols,
                end.globals,
            )
        }),
{
    let whole = compile_block(stmts, 0, ctx)->Ok_0;
    let compiled = strip_pop(whole);
    let base = ctx.constants.len() as int;
    let t = ctx.symbols;
    let c = script_code(stmts, 0, base, t, 0, true);
    lemma_compile_script(stmts, 0, ctx);
    lemma_script_code(stmts, 0, base, t, 0);
    assert(current(whole) =~= c.push(plain(Op::Pop)));
    assert(c.push(plain(Op::Pop)).drop_last() =~= c);
    assert(current(compiled) =~= c);
    lemma_size_plain(c, Op::Pop);
    assert(compiled.constants.subrange(base, base + block_pool(stmts, 0).len()) =~= block_pool(
        stmts,
        0,
    ));
    let start = started(m, main_closure(compiled));
    assert(c.subrange(0, 0) =~= Seq::<InstructionView>::empty());
    assert(offset(c, 0) == 0);
    assert(c.subrange(0, c.len() as int) =~= c);
    let k = lemma_runs_script(
        stmts,
        0,
        start,
        c,
        0,
        compiled.constants,
        base,
        env,
        depth,
        BindingView::Null,
        t,
        0,
        true,
    );
    let end = steps(start, compiled.constants, k)->Ok_0;
    lemma_run_after_steps(start, compiled.constants, k, limit);
    assert(halted(end));
}

} // verus!
