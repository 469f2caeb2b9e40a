use monkey::lexer::Lexer;
use monkey::parser::{Expr, Parser, Program};
use monkey::value::RuntimeError;
use monkey::vm::symbols::{CompileError, SymbolScope, SymbolTable};
use monkey::vm::{
    Binding, Closure, Compilation, CompiledContext, CompiledFn, Instruction, Machine, Op, Primitive,
};

fn parse(text: &str) -> Program {
    let lexer = Lexer::new(text.as_bytes().to_vec());
    let mut parser = Parser::new(lexer);
    parser.program().unwrap()
}

fn compile(text: &str) -> CompiledContext {
    let mut ctx = CompiledContext::default();
    parse(text).compile(&mut ctx).unwrap();
    ctx
}

fn bytes_of(instructions: Vec<Instruction>) -> Vec<u8> {
    let mut out = Vec::new();
    for i in instructions {
        out.extend(i.bytes());
    }
    out
}

fn run_in(machine: &mut Machine, ctx: &mut CompiledContext, text: &str) -> Result<Binding, RuntimeError> {
    ctx.clear_instructions();
    parse(text).compile(ctx).unwrap();
    ctx.remove_last_pop();
    machine.run(ctx.get_constants(), ctx.make_main_closure())?;
    if machine.depth() > 1 {
        panic!("more than one value left on the stack");
    }
    Ok(machine.get_last_expr())
}

fn run(text: &str) -> Result<Binding, RuntimeError> {
    let mut machine = Machine::default();
    let mut ctx = CompiledContext::default();
    run_in(&mut machine, &mut ctx, text)
}

fn output(text: &str) -> String {
    let mut ctx = compile(text);
    let mut machine = Machine::default();
    machine.run(ctx.get_constants(), ctx.make_main_closure()).unwrap();
    machine.get_stdout()
}

fn raw(body: Vec<u8>, constants: Vec<Primitive>) -> (Result<(), RuntimeError>, Machine) {
    let mut machine = Machine::default();
    let closure = Closure::new(CompiledFn { body, num_locals: 0, num_args: 0 }, vec![]);
    let r = machine.run(constants, closure);
    (r, machine)
}

fn num(i: i64) -> Binding {
    Binding::Primitive(Primitive::Int(i))
}

#[test]
fn instruction_bytes_are_big_endian() {
    assert_eq!(Instruction::new(Op::Add).bytes(), vec![0x02]);
    assert_eq!(Instruction::new_u16(Op::Constant, 0x1234).bytes(), vec![0x00, 0x12, 0x34]);
    assert_eq!(Instruction::new_u16(Op::Jmp, 65535).bytes(), vec![0x0D, 0xFF, 0xFF]);
    assert_eq!(Instruction::new_u8(Op::Call, 3).bytes(), vec![0x16, 3]);
    assert_eq!(Instruction::new_u16_u8(Op::Closure, 258, 7).bytes(), vec![0x1B, 1, 2, 7]);
    assert_eq!(Instruction::new(Op::Add).len(), 1);
    assert_eq!(Instruction::new_u16(Op::Constant, 1).len(), 3);
    assert_eq!(Instruction::new_u8(Op::Call, 1).len(), 2);
    assert_eq!(Instruction::new_u16_u8(Op::Closure, 1, 1).len(), 4);
}

#[test]
fn opcode_bytes_round_trip() {
    for b in 0u8..=0x1E {
        let op = Op::from_byte(b).unwrap();
        assert_eq!(op.byte(), b);
    }
    assert_eq!(Op::from_byte(0x1F), None);
    assert_eq!(Op::from_byte(0xFF), None);
    assert_eq!(Op::from_byte(0x00), Some(Op::Constant));
    assert_eq!(Op::from_byte(0x1E), Some(Op::Mod));
    assert_eq!(Op::from_byte(0x15), Some(Op::ReturnVal));
}

#[test]
fn instruction_listing() {
    assert_eq!(Instruction::new(Op::Add).to_string(), "ADD");
    assert_eq!(Instruction::new_u16(Op::Constant, 513).to_string(), "CONSTANT 513");
    assert_eq!(Instruction::new_u16(Op::JmpIfFalse, 7).to_string(), "JMP_FALSE 7");
    assert_eq!(Instruction::new_u8(Op::Call, 2).to_string(), "CALL 2");
    assert_eq!(Instruction::new_u16_u8(Op::Closure, 300, 2).to_string(), "CLOSURE 300 2");
    assert_eq!(Instruction::new(Op::CurrentClosure).to_string(), "CURRENT_CLOSURE");
    let ctx = compile("1 + 2");
    let lines = ctx.listing();
    assert_eq!(
        lines,
        vec![
            (0, "CONSTANT 0".to_string()),
            (3, "CONSTANT 1".to_string()),
            (6, "ADD".to_string()),
            (7, "POP".to_string()),
        ]
    );
}

#[test]
fn compile_arithmetic() {
    let ctx = compile("1 + 2 * 3");
    assert_eq!(
        ctx.to_bytes(),
        bytes_of(vec![
            Instruction::new_u16(Op::Constant, 0),
            Instruction::new_u16(Op::Constant, 1),
            Instruction::new_u16(Op::Constant, 2),
            Instruction::new(Op::Mul),
            Instruction::new(Op::Add),
            Instruction::new(Op::Pop),
        ])
    );
    assert_eq!(
        ctx.get_constants(),
        vec![Primitive::Int(1), Primitive::Int(2), Primitive::Int(3)]
    );
}

#[test]
fn compile_greater_than_as_swapped_less_than() {
    assert_eq!(
        compile("1 > 2").to_bytes(),
        bytes_of(vec![
            Instruction::new_u16(Op::Constant, 0),
            Instruction::new_u16(Op::Constant, 1),
            Instruction::new(Op::Lt),
            Instruction::new(Op::Pop),
        ])
    );
    assert_eq!(compile("1 > 2").get_constants(), vec![Primitive::Int(2), Primitive::Int(1)]);
    assert_eq!(compile("1 < 2").get_constants(), vec![Primitive::Int(1), Primitive::Int(2)]);
}

#[test]
fn compile_literals_and_prefix() {
    assert_eq!(
        compile("true; false; !true; -1; \"s\"").to_bytes(),
        bytes_of(vec![
            Instruction::new(Op::True),
            Instruction::new(Op::Pop),
            Instruction::new(Op::False),
            Instruction::new(Op::Pop),
            Instruction::new(Op::True),
            Instruction::new(Op::Bang),
            Instruction::new(Op::Pop),
            Instruction::new_u16(Op::Constant, 0),
            Instruction::new(Op::Minus),
            Instruction::new(Op::Pop),
            Instruction::new_u16(Op::Constant, 1),
            Instruction::new(Op::Pop),
        ])
    );
}

#[test]
fn compile_conditional_patches_its_jumps() {
    assert_eq!(
        compile("if (true) { 10 } else { 20 }; 30").to_bytes(),
        bytes_of(vec![
            Instruction::new(Op::True),
            Instruction::new_u16(Op::JmpIfFalse, 10),
            Instruction::new_u16(Op::Constant, 0),
            Instruction::new_u16(Op::Jmp, 13),
            Instruction::new_u16(Op::Constant, 1),
            Instruction::new(Op::Pop),
            Instruction::new_u16(Op::Constant, 2),
            Instruction::new(Op::Pop),
        ])
    );
    assert_eq!(
        compile("if (true) { 10 }").to_bytes(),
        bytes_of(vec![
            Instruction::new(Op::True),
            Instruction::new_u16(Op::JmpIfFalse, 10),
            Instruction::new_u16(Op::Constant, 0),
            Instruction::new_u16(Op::Jmp, 11),
            Instruction::new(Op::Null),
            Instruction::new(Op::Pop),
        ])
    );
}

#[test]
fn compile_globals_and_collections() {
    assert_eq!(
        compile("let a = 1; let b = a; [a, b]; {a: b}; a[b]; return a").to_bytes(),
        bytes_of(vec![
            Instruction::new_u16(Op::Constant, 0),
            Instruction::new_u16(Op::SetGlobal, 0),
            Instruction::new(Op::Pop),
            Instruction::new_u16(Op::GetGlobal, 0),
            Instruction::new_u16(Op::SetGlobal, 1),
            Instruction::new(Op::Pop),
            Instruction::new_u16(Op::GetGlobal, 0),
            Instruction::new_u16(Op::GetGlobal, 1),
            Instruction::new_u16(Op::Array, 2),
            Instruction::new(Op::Pop),
            Instruction::new_u16(Op::GetGlobal, 0),
            Instruction::new_u16(Op::GetGlobal, 1),
            Instruction::new_u16(Op::Hash, 1),
            Instruction::new(Op::Pop),
            Instruction::new_u16(Op::GetGlobal, 0),
            Instruction::new_u16(Op::GetGlobal, 1),
            Instruction::new(Op::Index),
            Instruction::new(Op::Pop),
            Instruction::new_u16(Op::GetGlobal, 0),
            Instruction::new(Op::ReturnVal),
        ])
    );
}

#[test]
fn compile_function_with_locals_and_builtin() {
    let mut ctx = compile("let f = fn(a, b) { let c = a + b; len(c) }; f(1, 2)");
    let constants = ctx.get_constants();
    assert_eq!(
        constants[0],
        Primitive::Fn(CompiledFn {
            body: bytes_of(vec![
                Instruction::new_u16(Op::GetLocal, 0),
                Instruction::new_u16(Op::GetLocal, 1),
                Instruction::new(Op::Add),
                Instruction::new_u16(Op::SetLocal, 2),
                Instruction::new(Op::Pop),
                Instruction::new_u8(Op::GetBuiltin, 0),
                Instruction::new_u16(Op::GetLocal, 2),
                Instruction::new_u8(Op::Call, 1),
                Instruction::new(Op::ReturnVal),
            ]),
            num_locals: 3,
            num_args: 2,
        })
    );
    assert_eq!(
        ctx.to_bytes(),
        bytes_of(vec![
            Instruction::new_u16_u8(Op::Closure, 0, 0),
            Instruction::new_u16(Op::SetGlobal, 0),
            Instruction::new(Op::Pop),
            Instruction::new_u16(Op::GetGlobal, 0),
            Instruction::new_u16(Op::Constant, 1),
            Instruction::new_u16(Op::Constant, 2),
            Instruction::new_u8(Op::Call, 2),
            Instruction::new(Op::Pop),
        ])
    );
    let main = ctx.make_main_closure();
    assert_eq!(main.fn_.num_locals, 1);
    assert_eq!(main.fn_.num_args, 0);
    assert_eq!(main.free.len(), 0);
    assert_eq!(main.fn_.body, ctx.to_bytes());
}

#[test]
fn compile_empty_function_returns() {
    let ctx = compile("fn() {}");
    assert_eq!(
        ctx.get_constants()[0],
        Primitive::Fn(CompiledFn {
            body: bytes_of(vec![Instruction::new(Op::Return)]),
            num_locals: 0,
            num_args: 0,
        })
    );
}

#[test]
fn compile_self_reference_uses_current_closure() {
    let ctx = compile("let countdown = fn(x) { countdown(x - 1) };");
    assert_eq!(
        ctx.get_constants()[1],
        Primitive::Fn(CompiledFn {
            body: bytes_of(vec![
                Instruction::new(Op::CurrentClosure),
                Instruction::new_u16(Op::GetLocal, 0),
                Instruction::new_u16(Op::Constant, 0),
                Instruction::new(Op::Sub),
                Instruction::new_u8(Op::Call, 1),
                Instruction::new(Op::ReturnVal),
            ]),
            num_locals: 1,
            num_args: 1,
        })
    );
}

#[test]
fn compile_free_variables_through_three_levels() {
    let ctx = compile("fn(a) { fn(b) { fn(c) { a + b + c } } }");
    let constants = ctx.get_constants();
    assert_eq!(
        constants[0],
        Primitive::Fn(CompiledFn {
            body: bytes_of(vec![
                Instruction::new_u8(Op::GetFree, 0),
                Instruction::new_u8(Op::GetFree, 1),
                Instruction::new(Op::Add),
                Instruction::new_u16(Op::GetLocal, 0),
                Instruction::new(Op::Add),
                Instruction::new(Op::ReturnVal),
            ]),
            num_locals: 1,
            num_args: 1,
        })
    );
    assert_eq!(
        constants[1],
        Primitive::Fn(CompiledFn {
            body: bytes_of(vec![
                Instruction::new_u8(Op::GetFree, 0),
                Instruction::new_u16(Op::GetLocal, 0),
                Instruction::new_u16_u8(Op::Closure, 0, 2),
                Instruction::new(Op::ReturnVal),
            ]),
            num_locals: 1,
            num_args: 1,
        })
    );
    assert_eq!(
        constants[2],
        Primitive::Fn(CompiledFn {
            body: bytes_of(vec![
                Instruction::new_u16(Op::GetLocal, 0),
                Instruction::new_u16_u8(Op::Closure, 1, 1),
                Instruction::new(Op::ReturnVal),
            ]),
            num_locals: 1,
            num_args: 1,
        })
    );
}

#[test]
fn compile_errors() {
    let mut ctx = CompiledContext::default();
    assert_eq!(parse("x").compile(&mut ctx), Err(CompileError::UndefinedVariable));
    let mut ctx = CompiledContext::default();
    assert_eq!(
        parse("fn() { y }").compile(&mut ctx),
        Err(CompileError::UndefinedVariable)
    );
    let mut ctx = CompiledContext::default();
    let bad = Expr::Infix(Box::new(monkey::parser::Infix {
        left: std::rc::Rc::new(Expr::Int(1)),
        token: monkey::lexer::Token::Comma,
        right: Expr::Int(2),
    }));
    assert_eq!(bad.compile(&mut ctx), Err(CompileError::InvalidOperator));
    let mut ctx = CompiledContext::default();
    let bad = Expr::Prefix(Box::new(monkey::parser::Prefix {
        token: monkey::lexer::Token::Plus,
        right: Expr::Int(2),
    }));
    assert_eq!(bad.compile(&mut ctx), Err(CompileError::InvalidOperator));
    let mut ctx = CompiledContext::default();
    let mut args = Vec::new();
    for _ in 0..256 {
        args.push(Expr::Int(0));
    }
    let call = Expr::Call(monkey::parser::Call { expr: std::rc::Rc::new(Expr::Int(0)), args });
    assert_eq!(call.compile(&mut ctx), Err(CompileError::OperandTooLarge));
    let mut ctx = CompiledContext::default();
    let mut items = Vec::new();
    for _ in 0..30000 {
        items.push(Expr::Bool(true));
    }
    let mut outer = Vec::new();
    outer.push(Expr::Array(items));
    for _ in 0..40000 {
        outer.push(Expr::Bool(true));
    }
    assert_eq!(Expr::Array(outer).compile(&mut ctx), Err(CompileError::CodeTooLarge));
}

#[test]
fn compile_rejects_too_many_constants() {
    let mut ctx = CompiledContext::default();
    let mut chunk = Vec::new();
    for i in 0..16000 {
        chunk.push(Expr::Int(i));
    }
    let program = Program { statements: chunk };
    for _ in 0..4 {
        ctx.clear_instructions();
        assert_eq!(program.compile(&mut ctx), Ok(()));
    }
    ctx.clear_instructions();
    assert_eq!(program.compile(&mut ctx), Err(CompileError::TooManyConstants));
}

#[test]
fn symbol_table_scopes() {
    let mut global = SymbolTable::outermost();
    let a = global.define("a".to_string()).unwrap();
    assert_eq!((a.index, a.scope), (0, SymbolScope::Global));
    let b = global.define("b".to_string()).unwrap();
    assert_eq!((b.index, b.scope), (1, SymbolScope::Global));
    let mut first = SymbolTable::new(global);
    let c = first.define("c".to_string()).unwrap();
    assert_eq!((c.index, c.scope), (0, SymbolScope::Local));
    first.define_fn("me".to_string());
    let mut second = SymbolTable::new(first);
    let d = second.define("d".to_string()).unwrap();
    assert_eq!((d.index, d.scope), (0, SymbolScope::Local));
    let r = second.resolve("a").unwrap().unwrap();
    assert_eq!((r.index, r.scope), (0, SymbolScope::Global));
    let r = second.resolve("c").unwrap().unwrap();
    assert_eq!((r.index, r.scope), (0, SymbolScope::Free));
    let r = second.resolve("c").unwrap().unwrap();
    assert_eq!((r.index, r.scope), (0, SymbolScope::Free));
    let r = second.resolve("me").unwrap().unwrap();
    assert_eq!((r.index, r.scope), (1, SymbolScope::Free));
    let r = second.resolve("d").unwrap().unwrap();
    assert_eq!((r.index, r.scope), (0, SymbolScope::Local));
    let r = second.resolve("len").unwrap().unwrap();
    assert_eq!((r.index, r.scope), (0, SymbolScope::Builtin));
    let r = second.resolve("puts").unwrap().unwrap();
    assert_eq!((r.index, r.scope), (5, SymbolScope::Builtin));
    assert!(second.resolve("nothing").unwrap().is_none());
    let free = second.free_symbols();
    assert_eq!(free.len(), 2);
    assert_eq!((free[0].name.as_str(), free[0].scope), ("c", SymbolScope::Local));
    assert_eq!((free[1].name.as_str(), free[1].scope), ("me", SymbolScope::Function));
    assert_eq!(second.num_definitions(), 1);
    let mut back = second.into_outer();
    let r = back.resolve("me").unwrap().unwrap();
    assert_eq!(r.scope, SymbolScope::Function);
    assert_eq!(back.num_definitions(), 1);
}

#[test]
fn symbol_table_rejects_too_many_definitions() {
    let mut t = SymbolTable::outermost();
    for i in 0..65535u32 {
        assert!(t.define(format!("v{}", i % 7)).is_ok());
    }
    assert_eq!(t.define("x".to_string()).err(), Some(CompileError::TooManyDefinitions));
    assert_eq!(t.num_definitions(), 65535);
}

#[test]
fn run_arithmetic_and_comparison() {
    assert_eq!(run("1 + 2 * 3"), Ok(num(7)));
    assert_eq!(run("7 / 2 + 7 % 3 - 1"), Ok(num(3)));
    assert_eq!(run("1 < 2").unwrap().to_string(), "true");
    assert_eq!(run("1 > 2").unwrap().to_string(), "false");
    assert_eq!(run("1 == 1").unwrap().to_string(), "true");
    assert_eq!(run("1 != 1").unwrap().to_string(), "false");
    assert_eq!(run("-0 == 0").unwrap().to_string(), "true");
    assert_eq!(run("!true").unwrap().to_string(), "false");
    assert_eq!(run("!0").unwrap().to_string(), "true");
    assert_eq!(run("\"a\" + \"b\" == \"ab\"").unwrap().to_string(), "true");
    assert_eq!(run("true != false").unwrap().to_string(), "true");
}

#[test]
fn run_errors() {
    assert_eq!(run("1 / 0"), Err(RuntimeError::DivisionByZero));
    assert_eq!(run("1 % 0"), Err(RuntimeError::DivisionByZero));
    assert_eq!(run("9223372036854775807 + 1"), Err(RuntimeError::Overflow));
    assert_eq!(run("1 + true"), Err(RuntimeError::TypeError));
    assert_eq!(run("-true"), Err(RuntimeError::TypeError));
    assert_eq!(run("!\"s\""), Err(RuntimeError::TypeError));
    assert_eq!(run("[1][1]"), Err(RuntimeError::BadIndex));
    assert_eq!(run("[1][-1]"), Err(RuntimeError::BadIndex));
    assert_eq!(run("{1: 2}[3]"), Err(RuntimeError::MissingKey));
    assert_eq!(run("{[1]: 2}"), Err(RuntimeError::BadKey));
    assert_eq!(run("1(2)"), Err(RuntimeError::NotCallable));
    assert_eq!(run("fn(x) { x }()"), Err(RuntimeError::ArityMismatch));
    assert_eq!(run("first([])"), Err(RuntimeError::EmptyArray));
    assert_eq!(run("last([])"), Err(RuntimeError::EmptyArray));
    assert_eq!(run("len(1)"), Err(RuntimeError::TypeError));
    assert_eq!(run("len()"), Err(RuntimeError::ArityMismatch));
    assert_eq!(run("return 1"), Err(RuntimeError::StackUnderflow));
    let mut ctx = compile("if (true) { }");
    let mut machine = Machine::default();
    assert_eq!(
        machine.run(ctx.get_constants(), ctx.make_main_closure()),
        Err(RuntimeError::StackUnderflow)
    );
}

#[test]
fn run_conditionals() {
    assert_eq!(run("if (true) { 1 } else { 2 }"), Ok(num(1)));
    assert_eq!(run("if (false) { 1 } else { 2 }"), Ok(num(2)));
    assert_eq!(run("if (false) { 1 }"), Ok(Binding::Null));
    assert_eq!(run("if (0) { 1 } else { 2 }"), Ok(num(1)));
    assert_eq!(run("if (\"s\") { 1 } else { 2 }"), Ok(num(2)));
    assert_eq!(run("if (if (false) { 1 }) { 1 } else { 2 }"), Ok(num(2)));
}

#[test]
fn run_globals_and_let() {
    assert_eq!(run("let x = 5"), Ok(num(5)));
    assert_eq!(run("let x = 5; let y = x + 1; y * 2"), Ok(num(12)));
    assert_eq!(run("let x = 1; let x = 2; x"), Ok(num(2)));
}

#[test]
fn run_functions_locals_and_closures() {
    assert_eq!(run("fn(x) { x + 1 }(2)"), Ok(num(3)));
    assert_eq!(run("fn() {}()"), Ok(Binding::Null));
    assert_eq!(run("let f = fn(a, b) { let c = a * b; let d = c + 1; d - a }; f(3, 4)"), Ok(num(10)));
    assert_eq!(run("let f = fn(x) { return x; 99 }; f(1)"), Ok(num(1)));
    assert_eq!(run("let f = fn(x) { if (x) { return 1; } 2 }; f(true) + f(false)"), Ok(num(3)));
    assert_eq!(run("let make = fn(x){ fn(y){ x+y } }; make(3)(4)"), Ok(num(7)));
    assert_eq!(
        run("let f = fn(a){ fn(b){ fn(c){ a*100 + b*10 + c } } }; f(1)(2)(3)"),
        Ok(num(123))
    );
    assert_eq!(
        run("let fact = fn(n) { if (n < 2) { 1 } else { n * fact(n - 1) } }; fact(10)"),
        Ok(num(3628800))
    );
    assert_eq!(
        run("let outer = fn() { let inner = fn(n) { if (n == 0) { 0 } else { inner(n - 1) } }; inner(3) }; outer()"),
        Ok(num(0))
    );
}

#[test]
fn run_collections_and_builtins() {
    assert_eq!(run("[1, 2 + 3, \"a\"]").unwrap().to_string(), "[1, 5, a]");
    assert_eq!(run("[]").unwrap().to_string(), "[]");
    assert_eq!(run("{}").unwrap().to_string(), "{  }");
    assert_eq!(run("{1: 1, 2: 2, 1: 3}").unwrap().to_string(), "{ 1: 3, 2: 2 }");
    assert_eq!(run("[1, 2, 3][2]"), Ok(num(3)));
    assert_eq!(run("{\"a\": 1, true: 2}[true]"), Ok(num(2)));
    assert_eq!(run("len(\"hello\") + len([1, 2])"), Ok(num(7)));
    assert_eq!(run("first([7, 8]) * 10 + last([7, 8])"), Ok(num(78)));
    assert_eq!(run("rest([7, 8, 9])").unwrap().to_string(), "[8, 9]");
    assert_eq!(run("rest([])").unwrap().to_string(), "[]");
    assert_eq!(run("let a = [1]; let b = push(a,2); len(a)"), Ok(num(1)));
    assert_eq!(run("let a = [1]; push(a, 2)").unwrap().to_string(), "[1, 2]");
    assert_eq!(run("puts").unwrap().to_string(), "puts");
    assert_eq!(run("fn() {}").unwrap().to_string(), "<function>");
}

#[test]
fn run_puts() {
    assert_eq!(output("puts(1+2*3);"), "7\n");
    assert_eq!(output("puts()"), "\n");
    assert_eq!(output("puts(1, \"two\", [3], true)"), "1\ntwo\n[3]\ntrue\n");
    assert_eq!(output("let f = fn(a, b) { 0 }; f(puts(1), puts(2)); puts(puts(3), 4)"), "1\n2\n3\nnull\n4\n");
}

#[test]
fn session_keeps_globals_and_constants() {
    let mut machine = Machine::default();
    let mut ctx = CompiledContext::default();
    assert_eq!(run_in(&mut machine, &mut ctx, "let x = 40;"), Ok(num(40)));
    assert_eq!(run_in(&mut machine, &mut ctx, "let add = fn(a) { a + x };"), Ok(function(&ctx, 1)));
    assert_eq!(run_in(&mut machine, &mut ctx, "add(2)"), Ok(num(42)));
    assert_eq!(ctx.get_constants().len(), 3);
    assert_eq!(run_in(&mut machine, &mut ctx, "puts(x); x"), Ok(num(40)));
    assert_eq!(machine.get_stdout(), "40\n");
}

fn function(ctx: &CompiledContext, at: usize) -> Binding {
    match &ctx.get_constants()[at] {
        Primitive::Fn(code) => Binding::Closure(Closure::new(code.duplicate(), vec![])),
        other => panic!("not a function: {:?}", other),
    }
}

#[test]
fn output_is_kept_when_a_later_step_fails_in_the_machine() {
    let mut ctx = compile("puts(1); puts(2); 1 / 0; puts(3)");
    let mut machine = Machine::default();
    assert_eq!(
        machine.run(ctx.get_constants(), ctx.make_main_closure()),
        Err(RuntimeError::DivisionByZero)
    );
    assert_eq!(machine.get_stdout(), "1\n2\n");
}

#[test]
fn step_limit_stops_runaway_loops() {
    let mut ctx = compile("let f = fn(n) { f(n + 1) }; f(0)");
    let mut machine = Machine::default();
    assert_eq!(
        machine.run(ctx.get_constants(), ctx.make_main_closure()),
        Err(RuntimeError::StackOverflow)
    );
    let body = bytes_of(vec![Instruction::new_u16(Op::Jmp, 0)]);
    let mut machine = Machine::default();
    machine.set_step_limit(1000);
    let closure = Closure::new(CompiledFn { body, num_locals: 0, num_args: 0 }, vec![]);
    assert_eq!(machine.run(vec![], closure), Err(RuntimeError::StepLimit));
    let mut machine = Machine::default();
    machine.set_step_limit(3);
    let mut ctx = compile("1 + 2");
    assert_eq!(
        machine.run(ctx.get_constants(), ctx.make_main_closure()),
        Err(RuntimeError::StepLimit)
    );
    machine.set_step_limit(4);
    assert_eq!(machine.run(ctx.get_constants(), ctx.make_main_closure()), Ok(()));
}

#[test]
fn bad_bytecode_is_an_error() {
    assert_eq!(raw(vec![0x1F], vec![]).0, Err(RuntimeError::BadOpcode));
    assert_eq!(raw(vec![0xFF], vec![]).0, Err(RuntimeError::BadOpcode));
    assert_eq!(raw(vec![0x00, 0x00], vec![]).0, Err(RuntimeError::BadOpcode));
    assert_eq!(raw(vec![0x1B, 0x00, 0x00], vec![]).0, Err(RuntimeError::BadOpcode));
    assert_eq!(raw(vec![0x00, 0x00, 0x00], vec![]).0, Err(RuntimeError::BadOperand));
    assert_eq!(raw(vec![0x01], vec![]).0, Err(RuntimeError::StackUnderflow));
    assert_eq!(raw(vec![0x02], vec![]).0, Err(RuntimeError::StackUnderflow));
    assert_eq!(raw(vec![0x10, 0x00, 0x00], vec![]).0, Err(RuntimeError::StackUnderflow));
    assert_eq!(raw(vec![0x11, 0xFF, 0xFF], vec![]).0, Err(RuntimeError::BadOperand));
    assert_eq!(raw(vec![0x19, 0xFF, 0xFF], vec![]).0, Err(RuntimeError::BadOperand));
    assert_eq!(raw(vec![0x1A, 0x06], vec![]).0, Err(RuntimeError::BadOperand));
    assert_eq!(raw(vec![0x1C, 0x00], vec![]).0, Err(RuntimeError::BadOperand));
    assert_eq!(raw(vec![0x17], vec![]).0, Err(RuntimeError::StackUnderflow));
    assert_eq!(raw(vec![0x16, 0x00], vec![]).0, Err(RuntimeError::StackUnderflow));
    assert_eq!(raw(vec![0x12, 0x00, 0x01], vec![]).0, Err(RuntimeError::StackUnderflow));
    assert_eq!(
        raw(vec![0x1B, 0x00, 0x00, 0x00], vec![Primitive::Int(1)]).0,
        Err(RuntimeError::TypeError)
    );
    assert_eq!(raw(vec![0x0D, 0xFF, 0xFF], vec![]).0, Ok(()));
    assert_eq!(raw(vec![], vec![]).0, Ok(()));
}

#[test]
fn stack_overflow_is_an_error() {
    let mut body = Vec::new();
    for _ in 0..65536 {
        body.push(0x0F);
    }
    let (r, machine) = raw(body, vec![]);
    assert_eq!(r, Err(RuntimeError::StackOverflow));
    assert_eq!(machine.depth(), 65535);
    let mut body = Vec::new();
    for _ in 0..65535 {
        body.push(0x0F);
    }
    let (r, machine) = raw(body, vec![]);
    assert_eq!(r, Ok(()));
    assert_eq!(machine.depth(), 65535);
}

#[test]
fn get_last_expr_reads_the_residual_value() {
    let mut machine = Machine::default();
    assert_eq!(machine.get_last_expr(), Binding::Null);
    let closure = Closure::new(
        CompiledFn { body: vec![0x06], num_locals: 0, num_args: 0 },
        vec![],
    );
    machine.run(vec![], closure).unwrap();
    assert_eq!(machine.depth(), 1);
    assert_eq!(machine.get_last_expr(), Binding::Primitive(Primitive::Bool(true)));
    assert_eq!(machine.depth(), 0);
}
