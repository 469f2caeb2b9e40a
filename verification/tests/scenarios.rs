use monkey::evaluator::{Env, Evaluation};
use monkey::lexer::Lexer;
use monkey::parser::{Parser, Program};
use monkey::vm::{Compilation, CompiledContext, Machine};

fn parse(text: &str) -> Program {
    let lexer = Lexer::new(text.as_bytes().to_vec());
    let mut parser = Parser::new(lexer);
    parser.program().unwrap()
}

fn evaluated(text: &str) -> (String, String) {
    let mut env = Env::default();
    let value = parse(text).eval(&mut env).unwrap();
    (env.get_stdout(), value.to_string())
}

fn executed(text: &str) -> (String, String) {
    let mut ctx = CompiledContext::default();
    parse(text).compile(&mut ctx).unwrap();
    ctx.remove_last_pop();
    let mut machine = Machine::default();
    machine.run(ctx.get_constants(), ctx.make_main_closure()).unwrap();
    assert!(machine.depth() <= 1);
    let value = machine.get_last_expr();
    (machine.get_stdout(), value.to_string())
}

fn both(text: &str) -> (String, String) {
    let a = evaluated(text);
    let b = executed(text);
    assert_eq!(a, b, "the backends differ on {:?}", text);
    a
}

#[test]
fn closures_yield_seven_on_both_backends() {
    let (out, value) = both("let make = fn(x){ fn(y){ x+y } }; make(3)(4)");
    assert_eq!(value, "7");
    assert_eq!(out, "");
}

#[test]
fn push_is_non_mutating_on_both_backends() {
    let (_, value) = both("let a = [1]; let b = push(a,2); len(a)");
    assert_eq!(value, "1");
}

#[test]
fn puts_of_arithmetic() {
    assert_eq!(both("puts(1+2*3);").0, "7\n");
}

#[test]
fn fibonacci() {
    assert_eq!(
        both("let fib=fn(n){ if(n<2){1}else{fib(n-1)+fib(n-2)} }; puts(fib(10));").0,
        "89\n"
    );
}

#[test]
fn fizzbuzz_up_to_five() {
    let source = "
        let fizzbuzz = fn(i, n) {
            if (i > n) { return 0; }
            if (i % 15 == 0) {
                puts(\"fizzbuzz\");
            } else {
                if (i % 5 == 0) {
                    puts(\"buzz\");
                } else {
                    if (i % 3 == 0) { puts(\"fizz\"); } else { puts(i); }
                }
            }
            fizzbuzz(i + 1, n);
        };
        fizzbuzz(1, 5);";
    let out = both(source).0;
    let lines: Vec<&str> = out.lines().collect();
    assert_eq!(lines, vec!["1", "2", "fizz", "4", "buzz"]);
}

#[test]
fn fizzbuzz_counting_down() {
    let source = "
        let fizzbuzz = fn(n) {
            if (n == 1) { puts(1); return 0; }
            if (n % 15 == 0) { puts(\"fizzbuzz\"); return fizzbuzz(n-1); }
            if (n % 5 == 0) { puts(\"buzz\"); return fizzbuzz(n-1); }
            if (n % 3 == 0) { puts(\"fizz\"); return fizzbuzz(n-1); }
            puts(n);
            fizzbuzz(n-1);
        };
        fizzbuzz(15);";
    assert_eq!(
        both(source).0,
        "fizzbuzz\n14\n13\nfizz\n11\nbuzz\nfizz\n8\n7\nfizz\nbuzz\n4\nfizz\n2\n1\n"
    );
}

#[test]
fn higher_order_map() {
    let source = "let map=fn(a,f){ let it=fn(a,acc){ if(len(a)==0){acc}else{it(rest(a),push(acc,f(first(a))))} }; it(a,[]) }; puts(map([1,2,3], fn(x){x*2}));";
    assert_eq!(both(source).0, "[2, 4, 6]\n");
}

#[test]
fn hash_lookup() {
    assert_eq!(both("let h={\"a\":1,\"b\":2}; puts(h[\"a\"]+h[\"b\"]);").0, "3\n");
}

#[test]
fn closure_over_loop() {
    assert_eq!(
        both("let adder=fn(x){fn(y){x+y}}; let a5=adder(5); let a7=adder(7); puts(a5(1)); puts(a7(1));").0,
        "6\n8\n"
    );
}

#[test]
fn boundary_cases_agree() {
    assert_eq!(both("[]").1, "[]");
    assert_eq!(both("{}").1, "{  }");
    assert_eq!(both("if (false) { 1 }").1, "null");
    assert_eq!(both("-0 == 0").1, "true");
    assert_eq!(both("let a = [1, 2, 3]; a[len(a) - 1]").1, "3");
    assert_eq!(both("\"abc\" == \"abc\"").1, "true");
    assert_eq!(both("puts()").0, "\n");
}

#[test]
fn backends_agree_on_more_programs() {
    let sources = [
        "let x = 5; let y = x * 2; puts(x, y); y - x",
        "let f = fn(a, b) { let c = a + b; c * c }; f(1, 2)",
        "let twice = fn(f, x) { f(f(x)) }; twice(fn(n) { n + 3 }, 10)",
        "let h = {1: \"one\", true: [1, 2], \"k\": {2: 3}}; puts(h); h[\"k\"][2]",
        "puts(!true, !0, !5, -3, 7 % 4, 7 / 2, \"a\" + \"b\")",
        "let f = fn(n) { if (n == 0) { return \"done\"; } f(n - 1) }; f(20)",
        "let a = [1, 2, 3]; let b = push(rest(a), first(a)); puts(a, b, last(b)); len(b)",
        "let compose = fn(f, g) { fn(x) { g(f(x)) } }; compose(fn(x) { x + 1 }, fn(x) { x * 2 })(5)",
        "let counter = fn(start) { let step = fn(n) { if (n > start + 2) { n } else { step(n + 1) } }; step(start) }; counter(4)",
        "if (1 < 2) { puts(\"yes\") } else { puts(\"no\") }; 0",
    ];
    for source in sources {
        both(source);
    }
}

#[test]
fn fizzbuzz_of_a_hundred() {
    let source = "
        let fizzbuzz = fn(n) {
            if (n == 1) { puts(1); return 0; }
            if (n % 15 == 0) { puts(\"fizzbuzz\"); return fizzbuzz(n-1); }
            if (n % 5 == 0) { puts(\"buzz\"); return fizzbuzz(n-1); }
            if (n % 3 == 0) { puts(\"fizz\"); return fizzbuzz(n-1); }
            puts(n);
            fizzbuzz(n-1);
        };
        fizzbuzz(100);";
    let out = both(source).0;
    assert_eq!(out.lines().count(), 100);
    assert_eq!(out.lines().next(), Some("buzz"));
    assert_eq!(out.lines().last(), Some("1"));
}

#[test]
fn fibonacci_of_twenty() {
    assert_eq!(
        both("let fib = fn(n) { if (n < 2) { return 1; } else { return fib(n - 1) + fib(n - 2); } }; puts(fib(20));").0,
        "10946\n"
    );
}

#[test]
fn scripts_of_globals_and_conditionals_agree() {
    let (out, value) =
        both("let x = 2; let y = [x, x * 3]; if (y[1] > 5) { puts(\"big\"); y } else { puts(\"small\") }");
    assert_eq!(out, "big\n");
    assert_eq!(value, "[2, 6]");
    let (out, value) = both("let t = if (0) { 1 } else { 2 }; puts(t); t + 1");
    assert_eq!(out, "1\n");
    assert_eq!(value, "2");
    let (out, value) = both("let c = 3 < 2; if (c) { 10 }");
    assert_eq!(out, "");
    assert_eq!(value, "null");
    let (out, value) =
        both("if (true) { if (false) { puts(1) } else { puts(2); puts(3) }; 4 } else { 5 }");
    assert_eq!(out, "2\n3\n");
    assert_eq!(value, "4");
}

#[test]
fn hash_literals_agree() {
    let (out, value) = both("let h = {\"a\": 1, 2: true, \"a\": 3}; puts(h[\"a\"], h[2]); h[\"a\"] + 1");
    assert_eq!(out, "3\ntrue\n");
    assert_eq!(value, "4");
    let (out, value) = both("{1 + 1: [len(\"ab\")], false: {}}[2]");
    assert_eq!(out, "");
    assert_eq!(value, "[2]");
}
