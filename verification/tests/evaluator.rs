use monkey::evaluator::{Binding, Builtin, Env, Evaluation, Primitive};
use monkey::lexer::Lexer;
use monkey::parser::{Block, Expr, Parser};
use monkey::value::RuntimeError;

fn eval_in(env: &mut Env, text: &str) -> Result<Binding, RuntimeError> {
    let lexer = Lexer::new(text.as_bytes().to_vec());
    let mut parser = Parser::new(lexer);
    let program = parser.program().unwrap();
    program.eval(env)
}

fn eval(text: &str) -> Result<Binding, RuntimeError> {
    let mut env = Env::default();
    eval_in(&mut env, text)
}

fn shown(text: &str) -> String {
    eval(text).unwrap().to_string()
}

fn output(text: &str) -> String {
    let mut env = Env::default();
    eval_in(&mut env, text).unwrap();
    env.get_stdout()
}

fn num(i: i64) -> Binding {
    Binding::Primitive(Primitive::Int(i))
}

#[test]
fn closure_test() {
    let input = "
    let counter = fn(x) {\
        if (x > a) {\
            return true;\
        } else {\
         let foobar = x;
         counter(x+1);\
        }\
    };
    counter(1);
    ";
    let lexer = Lexer::new(input.as_bytes().to_vec());
    let mut parser = Parser::new(lexer);
    let program = parser.program().unwrap();
    let mut env = Env::default();
    let binding = program.eval(&mut env);
    // `a` is bound nowhere, so the comparison in the body cannot be made.
    assert!(matches!(binding, Err(RuntimeError::UndefinedVariable)));
}

#[test]
fn nested_fn_test() {
    let input = "
    let new_adder = fn(x) {return fn(y){x + y}; };
    let add_5 = new_adder(5);
    add_5(10);
    ";
    let lexer = Lexer::new(input.as_bytes().to_vec());
    let mut parser = Parser::new(lexer);
    let mut env = Env::default();
    let program = parser.program().unwrap().eval(&mut env);
    assert!(matches!(program, Ok(Binding::Primitive(Primitive::Int(15)))));
}

#[test]
fn counter_reaches_its_bound() {
    let input = "
    let a = 3;
    let counter = fn(x) {
        if (x > a) {
            return true;
        } else {
            let foobar = x;
            counter(x+1);
        }
    };
    counter(1);
    ";
    assert_eq!(eval(input), Ok(Binding::Primitive(Primitive::Bool(true))));
}

#[test]
fn literals_evaluate_to_themselves() {
    assert_eq!(eval("5"), Ok(num(5)));
    assert_eq!(eval("true"), Ok(Binding::Primitive(Primitive::Bool(true))));
    assert_eq!(eval("\"abc\""), Ok(Binding::Primitive(Primitive::String_("abc".to_string()))));
    assert_eq!(eval(""), Ok(Binding::Null));
}

#[test]
fn integer_arithmetic() {
    assert_eq!(eval("1 + 2 * 3"), Ok(num(7)));
    assert_eq!(eval("10 - 4 - 3"), Ok(num(3)));
    assert_eq!(eval("7 / 2"), Ok(num(3)));
    assert_eq!(eval("-7 / 2"), Ok(num(-3)));
    assert_eq!(eval("7 % 3"), Ok(num(1)));
    assert_eq!(eval("-7 % 3"), Ok(num(-1)));
    assert_eq!(eval("7 % -3"), Ok(num(1)));
    assert_eq!(eval("(1 + 2) * -3"), Ok(num(-9)));
    assert_eq!(shown("1 < 2"), "true");
    assert_eq!(shown("2 < 1"), "false");
    assert_eq!(shown("2 > 1"), "true");
    assert_eq!(shown("1 == 1"), "true");
    assert_eq!(shown("1 != 1"), "false");
    assert_eq!(shown("-0 == 0"), "true");
}

#[test]
fn arithmetic_errors() {
    assert_eq!(eval("1 / 0"), Err(RuntimeError::DivisionByZero));
    assert_eq!(eval("1 % 0"), Err(RuntimeError::DivisionByZero));
    assert_eq!(eval("9223372036854775807 + 1"), Err(RuntimeError::Overflow));
    assert_eq!(eval("-9223372036854775807 - 2"), Err(RuntimeError::Overflow));
    assert_eq!(eval("9223372036854775807 * 2"), Err(RuntimeError::Overflow));
    assert_eq!(eval("(-9223372036854775807 - 1) / -1"), Err(RuntimeError::Overflow));
    assert_eq!(eval("-(-9223372036854775807 - 1)"), Err(RuntimeError::Overflow));
    assert_eq!(eval("-9223372036854775807 - 1"), Ok(num(i64::MIN)));
}

#[test]
fn booleans_and_strings() {
    assert_eq!(shown("true == true"), "true");
    assert_eq!(shown("true != false"), "true");
    assert_eq!(eval("true + false"), Err(RuntimeError::TypeError));
    assert_eq!(eval("true < false"), Err(RuntimeError::TypeError));
    assert_eq!(shown("\"ab\" + \"cd\""), "abcd");
    assert_eq!(shown("\"ab\" == \"ab\""), "true");
    assert_eq!(shown("\"ab\" != \"ab\""), "false");
    assert_eq!(shown("\"ab\" == \"ac\""), "false");
    assert_eq!(eval("\"a\" < \"b\""), Err(RuntimeError::TypeError));
    assert_eq!(eval("\"a\" - \"b\""), Err(RuntimeError::TypeError));
    assert_eq!(eval("1 + \"a\""), Err(RuntimeError::TypeError));
    assert_eq!(eval("1 == true"), Err(RuntimeError::TypeError));
}

#[test]
fn prefix_operators() {
    assert_eq!(shown("!true"), "false");
    assert_eq!(shown("!false"), "true");
    assert_eq!(shown("!0"), "true");
    assert_eq!(shown("!5"), "false");
    assert_eq!(eval("!\"a\""), Err(RuntimeError::TypeError));
    assert_eq!(eval("-5"), Ok(num(-5)));
    assert_eq!(eval("--5"), Ok(num(5)));
    assert_eq!(eval("-true"), Err(RuntimeError::TypeError));
}

#[test]
fn conditionals() {
    assert_eq!(eval("if (true) { 1 } else { 2 }"), Ok(num(1)));
    assert_eq!(eval("if (false) { 1 } else { 2 }"), Ok(num(2)));
    assert_eq!(eval("if (false) { 1 }"), Ok(Binding::Null));
    assert_eq!(eval("if (0) { 1 } else { 2 }"), Ok(num(1)));
    assert_eq!(eval("if (7) { 1 } else { 2 }"), Ok(num(1)));
    assert_eq!(eval("if (\"s\") { 1 } else { 2 }"), Ok(num(2)));
    assert_eq!(eval("if (if (false) { 1 }) { 1 } else { 2 }"), Ok(num(2)));
    assert_eq!(eval("if (true) { }"), Ok(Binding::Null));
}

#[test]
fn undefined_variable() {
    assert_eq!(eval("x"), Err(RuntimeError::UndefinedVariable));
    assert_eq!(eval("let f = fn() { y }; f()"), Err(RuntimeError::UndefinedVariable));
}

#[test]
fn let_yields_its_value_and_binds() {
    assert_eq!(eval("let x = 5"), Ok(num(5)));
    assert_eq!(eval("let x = 5; let y = x + 1; y * 2"), Ok(num(12)));
    assert_eq!(eval("let x = 1; let x = 2; x"), Ok(num(2)));
    let mut env = Env::default();
    eval_in(&mut env, "let x = 41;").unwrap();
    assert_eq!(env.get("x"), Some(num(41)));
    assert_eq!(env.get("y"), None);
    assert_eq!(eval_in(&mut env, "x + 1"), Ok(num(42)));
}

#[test]
fn names_shadow_builtins() {
    assert_eq!(eval("let len = 3; len"), Ok(num(3)));
    assert_eq!(eval("len"), Ok(Binding::Builtin(Builtin::Len)));
}

#[test]
fn functions_and_calls() {
    assert_eq!(eval("fn(x) { x + 1 }(2)"), Ok(num(3)));
    assert_eq!(eval("let add = fn(a, b) { a + b }; add(1, add(2, 3))"), Ok(num(6)));
    assert_eq!(eval("fn() {}()"), Ok(Binding::Null));
    assert_eq!(eval("let f = fn(x) { return x; 99 }; f(1)"), Ok(num(1)));
    assert_eq!(eval("let f = fn(x) { if (x) { return 1; } 2 }; f(true) + f(false)"), Ok(num(3)));
}

#[test]
fn arguments_are_evaluated_left_to_right() {
    assert_eq!(
        output("let f = fn(a, b) { 0 }; f(puts(1), puts(2)); puts(puts(3), 4)"),
        "1\n2\n3\nnull\n4\n"
    );
}

#[test]
fn arity_mismatch_and_non_callable() {
    assert_eq!(eval("fn(x) { x }()"), Err(RuntimeError::ArityMismatch));
    assert_eq!(eval("fn() { 1 }(1)"), Err(RuntimeError::ArityMismatch));
    assert_eq!(eval("1(2)"), Err(RuntimeError::NotCallable));
    assert_eq!(eval("\"f\"()"), Err(RuntimeError::NotCallable));
}

#[test]
fn return_unwinds_to_the_function() {
    assert_eq!(eval("return 5; 6"), Ok(num(5)));
    assert_eq!(eval("if (true) { return 1; } 2"), Ok(num(1)));
    assert_eq!(
        eval("let f = fn() { if (true) { if (true) { return 1; } } 2 }; f() + 10"),
        Ok(num(11))
    );
}

#[test]
fn closures_capture_their_scope() {
    assert_eq!(eval("let make = fn(x){ fn(y){ x+y } }; make(3)(4)"), Ok(num(7)));
    assert_eq!(
        eval("let f = fn(a){ fn(b){ fn(c){ a*100 + b*10 + c } } }; f(1)(2)(3)"),
        Ok(num(123))
    );
    assert_eq!(
        eval("let f = fn(x) { let g = fn() { y }; let y = x + 1; g() }; f(1)"),
        Ok(num(2))
    );
}

#[test]
fn recursion_sees_its_own_name() {
    assert_eq!(
        eval("let fact = fn(n) { if (n < 2) { 1 } else { n * fact(n - 1) } }; fact(10)"),
        Ok(num(3628800))
    );
}

#[test]
fn arrays_and_indexing() {
    assert_eq!(shown("[1, 2 + 3, \"a\", true]"), "[1, 5, a, true]");
    assert_eq!(shown("[]"), "[]");
    assert_eq!(eval("[1, 2, 3][0]"), Ok(num(1)));
    assert_eq!(eval("[1, 2, 3][2]"), Ok(num(3)));
    assert_eq!(eval("[1, 2, 3][3]"), Err(RuntimeError::BadIndex));
    assert_eq!(eval("[1, 2, 3][-1]"), Err(RuntimeError::BadIndex));
    assert_eq!(eval("[][0]"), Err(RuntimeError::BadIndex));
    assert_eq!(eval("[1][true]"), Err(RuntimeError::TypeError));
    assert_eq!(eval("[1] + 1"), Err(RuntimeError::TypeError));
    assert_eq!(eval("1[0]"), Err(RuntimeError::TypeError));
}

#[test]
fn hashes() {
    assert_eq!(eval("{\"a\": 1, \"b\": 2}[\"b\"]"), Ok(num(2)));
    assert_eq!(eval("{1: 10, true: 20, \"s\": 30}[true]"), Ok(num(20)));
    assert_eq!(eval("{1: 10}[2]"), Err(RuntimeError::MissingKey));
    assert_eq!(eval("{}[1]"), Err(RuntimeError::MissingKey));
    assert_eq!(eval("{1: 10}[\"1\"]"), Err(RuntimeError::MissingKey));
    assert_eq!(eval("{1: 10, 1: 20}[1]"), Ok(num(20)));
    assert_eq!(shown("{\"a\": 1, 2: [3]}"), "{ a: 1, 2: [3] }");
    assert_eq!(shown("{1: 1, 2: 2, 1: 3}"), "{ 1: 3, 2: 2 }");
    assert_eq!(shown("{}"), "{  }");
    assert_eq!(eval("{[1]: 2}"), Err(RuntimeError::BadKey));
    assert_eq!(eval("{fn() {}: 2}"), Err(RuntimeError::BadKey));
    assert_eq!(eval("{1: 2} + 1"), Err(RuntimeError::TypeError));
    assert_eq!(eval("{1: 2}[[1]]"), Err(RuntimeError::TypeError));
}

#[test]
fn builtin_len() {
    assert_eq!(eval("len(\"hello\")"), Ok(num(5)));
    assert_eq!(eval("len(\"\")"), Ok(num(0)));
    assert_eq!(eval("len([1, 2, 3])"), Ok(num(3)));
    assert_eq!(eval("len([])"), Ok(num(0)));
    assert_eq!(eval("len(1)"), Err(RuntimeError::TypeError));
    assert_eq!(eval("len({1: 2})"), Err(RuntimeError::TypeError));
    assert_eq!(eval("len()"), Err(RuntimeError::ArityMismatch));
    assert_eq!(eval("len([1], [2])"), Err(RuntimeError::ArityMismatch));
}

#[test]
fn builtin_first_last_rest() {
    assert_eq!(eval("first([7, 8, 9])"), Ok(num(7)));
    assert_eq!(eval("last([7, 8, 9])"), Ok(num(9)));
    assert_eq!(shown("rest([7, 8, 9])"), "[8, 9]");
    assert_eq!(shown("rest([7])"), "[]");
    assert_eq!(shown("rest([])"), "[]");
    assert_eq!(eval("first([])"), Err(RuntimeError::EmptyArray));
    assert_eq!(eval("last([])"), Err(RuntimeError::EmptyArray));
    assert_eq!(eval("first(1)"), Err(RuntimeError::TypeError));
    assert_eq!(eval("last(\"abc\")"), Err(RuntimeError::TypeError));
    assert_eq!(eval("rest(1)"), Err(RuntimeError::TypeError));
    assert_eq!(eval("first()"), Err(RuntimeError::ArityMismatch));
    assert_eq!(eval("rest([1], 2)"), Err(RuntimeError::ArityMismatch));
}

#[test]
fn builtin_push_does_not_mutate() {
    assert_eq!(eval("let a = [1]; let b = push(a,2); len(a)"), Ok(num(1)));
    assert_eq!(shown("let a = [1]; let b = push(a,2); b"), "[1, 2]");
    assert_eq!(shown("let a = [1]; let b = push(a,2); a"), "[1]");
    assert_eq!(shown("push([], [])"), "[[]]");
    assert_eq!(eval("push(1, 2)"), Err(RuntimeError::TypeError));
    assert_eq!(eval("push([1])"), Err(RuntimeError::ArityMismatch));
}

#[test]
fn builtin_puts() {
    assert_eq!(output("puts(1+2*3);"), "7\n");
    assert_eq!(output("puts()"), "\n");
    assert_eq!(output("puts(1, \"two\", [3], true)"), "1\ntwo\n[3]\ntrue\n");
    assert_eq!(output("puts(puts)"), "puts\n");
    assert_eq!(output("puts(fn(x) { x })"), "<function>\n");
    assert_eq!(output("puts(-12, 0)"), "-12\n0\n");
    assert_eq!(eval("puts(1)"), Ok(Binding::Null));
}

#[test]
fn output_is_kept_when_a_later_step_fails() {
    let mut env = Env::default();
    assert_eq!(eval_in(&mut env, "puts(1); puts(2); x; puts(3)"), Err(RuntimeError::UndefinedVariable));
    assert_eq!(env.get_stdout(), "1\n2\n");
    assert_eq!(eval_in(&mut env, "puts(4)"), Ok(Binding::Null));
    assert_eq!(env.get_stdout(), "1\n2\n4\n");
}

#[test]
fn depth_limit_stops_runaway_recursion() {
    let mut env = Env::default();
    assert_eq!(env.depth_limit(), 2000);
    env.set_depth_limit(400);
    assert_eq!(
        eval_in(&mut env, "let f = fn(n) { f(n + 1) }; f(0)"),
        Err(RuntimeError::DepthLimit)
    );
    env.set_depth_limit(3);
    assert_eq!(eval_in(&mut env, "1 + 2"), Ok(num(3)));
    assert_eq!(eval_in(&mut env, "1 + 2 + 3 + 4"), Err(RuntimeError::DepthLimit));
    env.set_depth_limit(0);
    assert_eq!(eval_in(&mut env, "1"), Err(RuntimeError::DepthLimit));
    assert_eq!(eval_in(&mut env, ""), Ok(Binding::Null));
}

#[test]
fn expressions_and_blocks_can_be_evaluated_alone() {
    let mut env = Env::default();
    assert_eq!(Expr::Int(3).eval(&mut env), Ok(num(3)));
    let block = Block(vec![Expr::Int(1), Expr::Return(Box::new(Expr::Int(2))), Expr::Int(3)]);
    assert_eq!(block.eval(&mut env), Ok(Binding::Return(Box::new(num(2)))));
    assert_eq!(block.0.eval(&mut env), Ok(Binding::Return(Box::new(num(2)))));
    assert_eq!(env.len(), 1);
}

#[test]
fn function_from_another_environment() {
    let mut env = Env::default();
    let node = match eval_in(&mut env, "fn(x) { x }") {
        Ok(Binding::Fn(_, node)) => node,
        other => panic!("not a function: {:?}", other),
    };
    let stray = Binding::Fn(7, node);
    assert_eq!(
        monkey::evaluator::eval::call_value(stray, vec![num(1)], &mut env, 0, 10),
        Err(RuntimeError::BadEnvironment)
    );
}
