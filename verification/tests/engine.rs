use monkey::engine::{
    bytecode_engine, eval_engine, generate_program, run_eval, run_vm, Failure,
};
use monkey::evaluator::Env;
use monkey::lexer::Token;
use monkey::parser::Error;
use monkey::value::RuntimeError;
use monkey::vm::symbols::CompileError;
use monkey::vm::{CompiledContext, Machine};

fn program(text: &str) -> monkey::parser::Program {
    generate_program(text.as_bytes().to_vec()).unwrap()
}

#[test]
fn engines_report_what_a_program_writes() {
    let p = program("let x = 2; puts(x * 21); puts(\"done\")");
    let a = eval_engine(&p);
    let b = bytecode_engine(&p);
    assert_eq!(a.output, "42\ndone\n");
    assert_eq!(a.failure, None);
    assert_eq!(b.output, "42\ndone\n");
    assert_eq!(b.failure, None);
}

#[test]
fn engines_keep_the_output_before_an_error() {
    let p = program("puts(1); [1, 2][5]; puts(2)");
    let a = eval_engine(&p);
    let b = bytecode_engine(&p);
    assert_eq!(a.output, "1\n");
    assert_eq!(a.failure, Some(Failure::Run(RuntimeError::BadIndex)));
    assert_eq!(b.output, "1\n");
    assert_eq!(b.failure, Some(Failure::Run(RuntimeError::BadIndex)));
}

#[test]
fn bytecode_engine_reports_what_does_not_compile() {
    let p = program("puts(1); nowhere");
    let b = bytecode_engine(&p);
    assert_eq!(b.output, "");
    assert_eq!(b.failure, Some(Failure::Compile(CompileError::UndefinedVariable)));
    let a = eval_engine(&p);
    assert_eq!(a.output, "1\n");
    assert_eq!(a.failure, Some(Failure::Run(RuntimeError::UndefinedVariable)));
}

#[test]
fn generate_program_reports_what_is_wrong() {
    assert_eq!(
        generate_program(b"let x 2".to_vec()).err(),
        Some(Error::ExpectedToken(Token::Assign))
    );
    assert_eq!(generate_program(b"1 +".to_vec()).err(), Some(Error::BadPrefix));
    assert_eq!(generate_program(b"1 + 2".to_vec()).unwrap().to_string(), "(1+2); ");
}

#[test]
fn a_session_on_the_evaluator_keeps_its_bindings() {
    let mut env = Env::default();
    assert_eq!(run_eval(&program("let a = [1, 2]"), &mut env), Ok("[1, 2]".to_string()));
    assert_eq!(run_eval(&program("push(a, 3)"), &mut env), Ok("[1, 2, 3]".to_string()));
    assert_eq!(run_eval(&program("a[7]"), &mut env), Err(RuntimeError::BadIndex));
    assert_eq!(run_eval(&program("len(a)"), &mut env), Ok("2".to_string()));
}

#[test]
fn a_session_on_the_machine_keeps_its_globals() {
    let mut machine = Machine::default();
    let mut ctx = CompiledContext::default();
    assert_eq!(run_vm(&program("let a = [1, 2]"), &mut machine, &mut ctx), Ok("[1, 2]".to_string()));
    assert_eq!(run_vm(&program("push(a, 3)"), &mut machine, &mut ctx), Ok("[1, 2, 3]".to_string()));
    assert_eq!(run_vm(&program("let twice = fn(x) { x * 2 }; twice(len(a))"), &mut machine, &mut ctx), Ok("4".to_string()));
    assert_eq!(run_vm(&program(""), &mut machine, &mut ctx), Ok("null".to_string()));
}

#[test]
fn a_session_on_the_machine_starts_anew_after_a_failure() {
    let mut machine = Machine::default();
    let mut ctx = CompiledContext::default();
    machine.set_step_limit(1000);
    assert_eq!(run_vm(&program("let a = 1"), &mut machine, &mut ctx), Ok("1".to_string()));
    assert_eq!(
        run_vm(&program("a[0]"), &mut machine, &mut ctx),
        Err(Failure::Run(RuntimeError::TypeError))
    );
    assert_eq!(machine.step_limit(), 1000);
    assert_eq!(machine.depth(), 0);
    assert_eq!(
        run_vm(&program("b"), &mut machine, &mut ctx),
        Err(Failure::Compile(CompileError::UndefinedVariable))
    );
    assert_eq!(
        run_vm(&program("a"), &mut machine, &mut ctx),
        Err(Failure::Compile(CompileError::UndefinedVariable))
    );
    assert_eq!(run_vm(&program("1 + 1"), &mut machine, &mut ctx), Ok("2".to_string()));
}
