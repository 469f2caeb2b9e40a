//! Whole runs: a program through one backend from a fresh start, and one
//! entry of a session through a backend that keeps its state.

use vstd::prelude::*;
use crate::builtins::display;
use crate::evaluator::env::Env;
use crate::evaluator::eval::Evaluation;
use crate::evaluator::semantics::{eval_program, fresh_env};
use crate::parser::grammar::parse;
use crate::parser::parse::{parse_text, Error};
use crate::parser::types::{ExprView, Program};
use crate::value::{BindingView, RuntimeError};
use crate::vm::compiler::{Compilation, CompiledContext};
use crate::vm::lowering::{
    compile_block, current, fresh_context, main_closure, strip_pop, with_current, ContextView,
};
use crate::vm::machine::Machine;
use crate::vm::running::{lemma_fresh_in_step, lemma_scripts_write_the_same, script};
use crate::vm::semantics::{fresh, run_from, started, MachineView, STACK_SIZE};
use crate::vm::symbols::{empty_table, CompileError};

verus! {

broadcast use {crate::value::group_value_views, crate::parser::types::group_expr_views};

/// Why a run gave no result.
#[derive(Debug, Clone, Copy, PartialEq, Eq, Structural)]
pub enum Failure {
    /// The program does not compile.
    Compile(CompileError),
    /// The program failed while it ran.
    Run(RuntimeError),
    /// The machine was left with more than one value on its stack.
    Residue,
}

/// What one run of a program gave: what the program wrote and, where the
/// run failed, why.
#[derive(Debug)]
pub struct Report {
    pub output: String,
    pub failure: Option<Failure>,
}

/// A report as a mathematical value.
pub struct ReportView {
    pub output: Seq<char>,
    pub failure: Option<Failure>,
}

impl View for Report {
    type V = ReportView;

    open spec fn view(&self) -> ReportView {
        ReportView { output: self.output@, failure: self.failure }
    }
}

/// The deepest nesting that an evaluation from a fresh start may reach.
pub open spec fn fresh_depth() -> nat {
    2000
}

/// The most steps that a run of a fresh machine may take.
pub open spec fn fresh_steps() -> nat {
    u64::MAX as nat
}

/// What the evaluator reports of a program that it runs in a fresh
/// environment.
pub open spec fn eval_report(stmts: Seq<ExprView>) -> ReportView {
    let (r, env) = eval_program(stmts, fresh_env(), fresh_depth());
    ReportView {
        output: env.stdout,
        failure: match r {
            Ok(_) => None,
            Err(e) => Some(Failure::Run(e)),
        },
    }
}

/// What the bytecode backend reports of a program that it compiles into a
/// fresh context and runs on a fresh machine.
pub open spec fn bytecode_report(stmts: Seq<ExprView>) -> ReportView {
    match compile_block(stmts, 0, fresh_context()) {
        Err(e) => ReportView { output: Seq::empty(), failure: Some(Failure::Compile(e)) },
        Ok(c) => match run_from(started(fresh(), main_closure(c)), c.constants, fresh_steps()) {
            Ok(end) => ReportView { output: end.stdout, failure: None },
            Err((e, out)) => ReportView { output: out, failure: Some(Failure::Run(e)) },
        },
    }
}

/// Parses a text: the program that it is, or what is wrong with it.
pub fn generate_program(text: Vec<u8>) -> (r: Result<Program, Error>)
    ensures
        match parse(text@) {
            Ok(stmts) => r is Ok && r->Ok_0@ == stmts,
            Err(e) => r is Err && r->Err_0@ == e,
        },
{
    parse_text(text)
}

/// Runs a program on the evaluator, in a fresh environment.
pub fn eval_engine(program: &Program) -> (r: Report)
    ensures
        r@ == eval_report(program@),
{
    let mut env = Env::default();
    let outcome = program.eval(&mut env);
    let failure = match outcome {
        Ok(_) => None,
        Err(e) => Some(Failure::Run(e)),
    };
    Report { output: env.get_stdout(), failure }
}

/// Compiles a program into a fresh context and runs it on a fresh
/// machine.
pub fn bytecode_engine(program: &Program) -> (r: Report)
    ensures
        r@ == bytecode_report(program@),
{
    let mut ctx = CompiledContext::default();
    let mut machine = Machine::default();
    match program.compile(&mut ctx) {
        Err(e) => Report { output: String::new(), failure: Some(Failure::Compile(e)) },
        Ok(()) => {
            let closure = ctx.make_main_closure();
            let constants = ctx.get_constants();
            let failure = match machine.run(constants, closure) {
                Ok(()) => None,
                Err(e) => Some(Failure::Run(e)),
            };
            Report { output: machine.get_stdout(), failure }
        },
    }
}

/// The two engines agree on scripts. Where the evaluator runs a script
/// without an error, and the script compiles into no more instructions
/// than the stack has slots, the bytecode backend reports what the
/// evaluator reports.
pub proof fn lemma_engines_agree(stmts: Seq<ExprView>)
    requires
        script(stmts, empty_table()),
        eval_report(stmts).failure is None,
        compile_block(stmts, 0, fresh_context()) is Ok,
        current(compile_block(stmts, 0, fresh_context())->Ok_0).len() <= STACK_SIZE,
    ensures
        bytecode_report(stmts) == eval_report(stmts),
{
    lemma_fresh_in_step();
    lemma_scripts_write_the_same(
        stmts,
        fresh_env(),
        fresh_depth(),
        fresh_context(),
        fresh(),
        fresh_steps(),
    );
}

/// What one entry of a session on the evaluator gives: the text of the
/// value of the program, and the environment behind it.
pub fn run_eval(program: &Program, env: &mut Env) -> (r: Result<String, RuntimeError>)
    requires
        old(env).wf(),
    ensures
        final(env).wf(),
        final(env).limit() == old(env).limit(),
        final(env)@ == eval_program(program@, old(env)@, old(env).limit()).1,
        match eval_program(program@, old(env)@, old(env).limit()).0 {
            Ok(v) => r is Ok && r->Ok_0@ == display(v),
            Err(e) => r is Err && r->Err_0 == e,
        },
{
    match program.eval(env) {
        Ok(value) => Ok(value.to_string()),
        Err(e) => Err(e),
    }
}

/// What one entry of a session on the bytecode backend gives, and the
/// context and the machine behind it. The instructions of the entry
/// before are dropped, the program is compiled without the last `Pop`, and
/// the machine runs it; the result is the text of the value that is left,
/// or of null where none is. Where the program does not compile, the
/// session starts anew; where the run fails or leaves more than one value,
/// the machine starts anew.
pub open spec fn session_step(
    stmts: Seq<ExprView>,
    ctx: ContextView,
    m: MachineView,
    limit: nat,
) -> (Result<Seq<char>, Failure>, ContextView, MachineView) {
    match compile_block(stmts, 0, with_current(ctx, Seq::empty())) {
        Err(e) => (Err(Failure::Compile(e)), fresh_context(), fresh()),
        Ok(c) => {
            let c1 = strip_pop(c);
            match run_from(started(m, main_closure(c1)), c1.constants, limit) {
                Err((e, _)) => (Err(Failure::Run(e)), c1, fresh()),
                Ok(end) => if end.sp > 1 {
                    (Err(Failure::Residue), c1, fresh())
                } else {
                    (
                        Ok(
                            display(
                                if end.sp == 0 {
                                    BindingView::Null
                                } else {
                                    end.stack[0]
                                },
                            ),
                        ),
                        c1,
                        MachineView { sp: 0, ..end },
                    )
                },
            }
        },
    }
}

/// Runs one entry of a session on the bytecode backend.
pub fn run_vm(program: &Program, machine: &mut Machine, ctx: &mut CompiledContext) -> (r: Result<
    String,
    Failure,
>)
    requires
        old(machine).wf(),
        old(ctx).wf(),
    ensures
        final(machine).wf(),
        final(ctx).wf(),
        final(machine).limit() == old(machine).limit(),
        ({
            let (text, c, m) = session_step(
                program@,
                old(ctx)@,
                old(machine)@,
                old(machine).limit(),
            );
            &&& final(ctx)@ == c
            &&& final(machine)@ == m
            &&& match text {
                Ok(s) => r is Ok && r->Ok_0@ == s,
                Err(f) => r is Err && r->Err_0 == f,
            }
        }),
{
    let limit = machine.step_limit();
    ctx.clear_instructions();
    match program.compile(ctx) {
        Err(e) => {
            *ctx = CompiledContext::default();
            *machine = Machine::default();
            machine.set_step_limit(limit);
            Err(Failure::Compile(e))
        },
        Ok(()) => {
            ctx.remove_last_pop();
            let closure = ctx.make_main_closure();
            let constants = ctx.get_constants();
            match machine.run(constants, closure) {
                Err(e) => {
                    *machine = Machine::default();
                    machine.set_step_limit(limit);
                    Err(Failure::Run(e))
                },
                Ok(()) => {
                    if machine.depth() > 1 {
                        *machine = Machine::default();
                        machine.set_step_limit(limit);
                        Err(Failure::Residue)
                    } else {
                        Ok(machine.get_last_expr().to_string())
                    }
                },
            }
        },
    }
}

} // verus!
