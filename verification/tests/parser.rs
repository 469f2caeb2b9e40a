use monkey::lexer::{Keyword, Lexer, Token};
use monkey::parser::parse::parse_text;
use monkey::parser::{Block, Call, Error, Expr, Fn, If, Infix, Let, Parser, Prefix, Program};
use std::rc::Rc;

fn parse(text: &str) -> Result<Program, Error> {
    let lexer = Lexer::new(text.as_bytes().to_vec());
    let mut parser = Parser::new(lexer);
    parser.program()
}

fn first(text: &str) -> String {
    let program = parse(text).unwrap();
    assert_eq!(program.statements.len(), 1);
    program.statements[0].to_string()
}

fn ident(name: &str) -> Expr {
    Expr::Identifier(name.to_string())
}

fn infix(left: Expr, token: Token, right: Expr) -> Expr {
    Expr::Infix(Box::new(Infix { left: Rc::new(left), token, right }))
}

#[test]
fn test_let_valid() {
    let input = "
        let x = 1;\n\
        let the_third = x + lele;";
    let program = parse(input).unwrap();
    assert_eq!(program.statements.len(), 2);
    assert_eq!(
        program.statements[0],
        Expr::Let(Let { name: "x".to_string(), value: Box::new(Expr::Int(1)) })
    );
    assert_eq!(
        program.statements[1],
        Expr::Let(Let {
            name: "the_third".to_string(),
            value: Box::new(Expr::Infix(Box::new(Infix {
                left: Rc::new(Expr::Identifier("x".to_string())),
                token: Token::Plus,
                right: Expr::Identifier("lele".to_string())
            })))
        })
    );
}

#[test]
fn test_return_valid() {
    let input = "
        return 1;\n\
        return a;
        return 1+2;
        return true;";
    let program = parse(input).unwrap();
    assert_eq!(program.statements.len(), 4);
    assert_eq!(program.statements[0], Expr::Return(Box::new(Expr::Int(1))));
    assert_eq!(
        program.statements[1],
        Expr::Return(Box::new(Expr::Identifier("a".to_string())))
    );
    assert_eq!(
        program.statements[2],
        Expr::Return(Box::new(Expr::Infix(Box::new(Infix {
            left: Rc::new(Expr::Int(1)),
            token: Token::Plus,
            right: Expr::Int(2)
        }))))
    );
    assert_eq!(program.statements[3], Expr::Return(Box::new(Expr::Bool(true))));
}

#[test]
fn test_simple_prefix() {
    let input = "!foobar;
    -5";
    let program = parse(input).unwrap();
    assert_eq!(program.statements.len(), 2);
    assert_eq!(
        program.statements[0],
        Expr::Prefix(Box::new(Prefix {
            token: Token::Bang,
            right: Expr::Identifier("foobar".to_string())
        }))
    );
    assert_eq!(
        program.statements[1],
        Expr::Prefix(Box::new(Prefix { token: Token::Minus, right: Expr::Int(5) }))
    );
}

#[test]
fn test_order_of_operations() {
    let input = "x/y+z-1*5";
    let program = parse(input).unwrap();
    assert_eq!(program.statements.len(), 1);
    let string = format!("{}", program.statements[0].to_string());
    assert_eq!(string, "(((x/y)+z)-(1*5))");
}

#[test]
fn test_if_valid() {
    let input = "
        if (x < y) {
            return true;
        } else {
            return false;
        }
    ";
    let program = parse(input).unwrap();
    assert_eq!(program.statements.len(), 1);
    assert_eq!(
        program.statements[0],
        Expr::If(If {
            condition: Box::new(Expr::Infix(Box::new(Infix {
                left: Rc::new(Expr::Identifier("x".to_string())),
                token: Token::Lt,
                right: Expr::Identifier("y".to_string())
            }))),
            consequence: Block(vec![Expr::Return(Box::new(Expr::Bool(true)))]),
            alternative: Some(Block(vec![Expr::Return(Box::new(Expr::Bool(false)))]))
        })
    );
}

#[test]
fn test_fn_valid() {
    let input = "
        fn(x, y ){
            x + y;
        }

        fn() {
            return true;
        }
    ";
    let program = parse(input).unwrap();
    assert_eq!(program.statements.len(), 2);
    assert_eq!(
        program.statements[0],
        Expr::Fn(Rc::new(Fn {
            name: None,
            args: vec!["x".to_string(), "y".to_string()],
            body: Block(vec![Expr::Infix(Box::new(Infix {
                left: Rc::new(Expr::Identifier("x".to_string())),
                token: Token::Plus,
                right: Expr::Identifier("y".to_string())
            }))])
        }))
    );
    assert_eq!(
        program.statements[1],
        Expr::Fn(Rc::new(Fn {
            name: None,
            args: vec![],
            body: Block(vec![Expr::Return(Box::new(Expr::Bool(true)))])
        }))
    );
}

#[test]
fn tests_nested_fn_test() {
    let input = "
    let new_adder = fn(x) {fn(y){x + y};};
    ";
    let program = parse(input).unwrap();
    assert_eq!(program.statements.len(), 1);
    assert_eq!(
        program.statements[0],
        Expr::Let(Let {
            name: "new_adder".to_string(),
            value: Box::new(Expr::Fn(Rc::new(Fn {
                name: Some("new_adder".to_string()),
                args: vec!["x".to_string()],
                body: Block(vec![Expr::Fn(Rc::new(Fn {
                    name: None,
                    args: vec!["y".to_string()],
                    body: Block(vec![Expr::Infix(Box::new(Infix {
                        left: Rc::new(Expr::Identifier("x".to_string())),
                        token: Token::Plus,
                        right: Expr::Identifier("y".to_string())
                    }))])
                }))])
            })))
        })
    );
}

#[test]
fn test_array_valid() {
    let input = "
        let x = [1, 2, 3];
        let y = [x[0], x[1], x[2]];
    ";
    let program = parse(input).unwrap();
    assert_eq!(program.statements.len(), 2);
    assert_eq!(
        program.statements[0],
        Expr::Let(Let {
            name: "x".to_string(),
            value: Box::new(Expr::Array(vec![Expr::Int(1), Expr::Int(2), Expr::Int(3)]))
        })
    );
    assert_eq!(
        program.statements[1],
        Expr::Let(Let {
            name: "y".to_string(),
            value: Box::new(Expr::Array(vec![
                Expr::Infix(Box::new(Infix {
                    left: Rc::new(Expr::Identifier("x".to_string())),
                    token: Token::LBracket,
                    right: Expr::Int(0)
                })),
                Expr::Infix(Box::new(Infix {
                    left: Rc::new(Expr::Identifier("x".to_string())),
                    token: Token::LBracket,
                    right: Expr::Int(1)
                })),
                Expr::Infix(Box::new(Infix {
                    left: Rc::new(Expr::Identifier("x".to_string())),
                    token: Token::LBracket,
                    right: Expr::Int(2)
                }))
            ]))
        })
    );
}

#[test]
fn precedence_of_product_over_sum() {
    assert_eq!(first("a+b*c"), "(a+(b*c))");
    assert_eq!(first("a*b+c"), "((a*b)+c)");
    assert_eq!(first("a<b==c<d"), "((a<b)==(c<d))");
}

#[test]
fn operators_group_to_the_left() {
    assert_eq!(first("a-b-c"), "((a-b)-c)");
    assert_eq!(first("a/b*c%d"), "(((a/b)*c)%d)");
    assert_eq!(first("a==b!=c"), "((a==b)!=c)");
    assert_eq!(first("a<b>c"), "((a<b)>c)");
}

#[test]
fn prefix_binds_tighter_than_infix_and_looser_than_call() {
    assert_eq!(first("-a*b"), "((-a)*b)");
    assert_eq!(first("!a==b"), "((!a)==b)");
    assert_eq!(first("-f(x)"), "(-f(x))");
    assert_eq!(first("-a[0]"), "(-(a[0]))");
    assert_eq!(first("!-a"), "(!(-a))");
}

#[test]
fn grouping_overrides_precedence() {
    assert_eq!(first("(a+b)*c"), "((a+b)*c)");
    assert_eq!(first("a*(b+c)"), "(a*(b+c))");
    assert_eq!(first("((a))"), "a");
    assert_eq!(
        parse("(a+b)").unwrap().statements[0],
        infix(ident("a"), Token::Plus, ident("b"))
    );
}

#[test]
fn call_and_index_are_infix_operators() {
    assert_eq!(first("f(a, b+1)(c)"), "f(a, (b+1))(c)");
    assert_eq!(first("a[1][2]"), "((a[1])[2])");
    assert_eq!(first("a+f(b)[c]"), "(a+(f(b)[c]))");
    assert_eq!(
        parse("f()").unwrap().statements[0],
        Expr::Call(Call { expr: Rc::new(ident("f")), args: vec![] })
    );
    assert_eq!(
        parse("f(1,)").unwrap().statements[0],
        Expr::Call(Call { expr: Rc::new(ident("f")), args: vec![Expr::Int(1)] })
    );
}

#[test]
fn semicolons_are_optional() {
    let program = parse("let x = 1 let y = 2 x + y return x").unwrap();
    assert_eq!(program.statements.len(), 4);
    assert_eq!(
        program.statements[1],
        Expr::Let(Let { name: "y".to_string(), value: Box::new(Expr::Int(2)) })
    );
    assert_eq!(program.statements[3], Expr::Return(Box::new(ident("x"))));
    assert_eq!(parse("1;2;3;").unwrap().statements.len(), 3);
}

#[test]
fn program_ends_at_eof_token() {
    let program = parse("1; 2; \0 3; 4;").unwrap();
    assert_eq!(program.statements.len(), 2);
    assert_eq!(parse("").unwrap().statements.len(), 0);
    assert_eq!(parse("  \n ").unwrap().statements.len(), 0);
}

#[test]
fn let_names_a_function_literal() {
    let program = parse("let f = fn(n) { f(n) };").unwrap();
    match &program.statements[0] {
        Expr::Let(l) => match l.value.as_ref() {
            Expr::Fn(f) => {
                assert_eq!(f.name, Some("f".to_string()));
                assert_eq!(l.name, "f");
            }
            other => panic!("not a function: {:?}", other),
        },
        other => panic!("not a let: {:?}", other),
    }
    let program = parse("let g = (fn() { 1 });").unwrap();
    match &program.statements[0] {
        Expr::Let(l) => match l.value.as_ref() {
            Expr::Fn(f) => assert_eq!(f.name, Some("g".to_string())),
            other => panic!("not a function: {:?}", other),
        },
        other => panic!("not a let: {:?}", other),
    }
    let program = parse("let h = fn() { 1 }();").unwrap();
    match &program.statements[0] {
        Expr::Let(l) => match l.value.as_ref() {
            Expr::Call(c) => match c.expr.as_ref() {
                Expr::Fn(f) => assert_eq!(f.name, None),
                other => panic!("not a function: {:?}", other),
            },
            other => panic!("not a call: {:?}", other),
        },
        other => panic!("not a let: {:?}", other),
    }
}

#[test]
fn if_without_else() {
    assert_eq!(
        parse("if (a) { b }").unwrap().statements[0],
        Expr::If(If {
            condition: Box::new(ident("a")),
            consequence: Block(vec![ident("b")]),
            alternative: None
        })
    );
}

#[test]
fn empty_literals() {
    assert_eq!(parse("[]").unwrap().statements[0], Expr::Array(vec![]));
    assert_eq!(parse("{}").unwrap().statements[0], Expr::Hash(vec![]));
    assert_eq!(
        parse("fn() {}").unwrap().statements[0],
        Expr::Fn(Rc::new(Fn { name: None, args: vec![], body: Block(vec![]) }))
    );
}

#[test]
fn hash_literal_keeps_the_order_of_its_pairs() {
    assert_eq!(
        parse("{\"a\": 1, 2: true, false: x}").unwrap().statements[0],
        Expr::Hash(vec![
            (Expr::String("a".to_string()), Expr::Int(1)),
            (Expr::Int(2), Expr::Bool(true)),
            (Expr::Bool(false), ident("x")),
        ])
    );
}

#[test]
fn literals() {
    assert_eq!(parse("12").unwrap().statements[0], Expr::Int(12));
    assert_eq!(
        parse("9223372036854775807").unwrap().statements[0],
        Expr::Int(9223372036854775807)
    );
    assert_eq!(parse("true").unwrap().statements[0], Expr::Bool(true));
    assert_eq!(parse("false").unwrap().statements[0], Expr::Bool(false));
    assert_eq!(parse("\"hi\"").unwrap().statements[0], Expr::String("hi".to_string()));
}

#[test]
fn error_expected_token() {
    assert_eq!(parse("let 1 = 2").err(), Some(Error::ExpectedToken(Token::Ident("".to_string()))));
    assert_eq!(parse("let x 2").err(), Some(Error::ExpectedToken(Token::Assign)));
    assert_eq!(parse("(1 + 2").err(), Some(Error::ExpectedToken(Token::RParen)));
    assert_eq!(parse("if x { 1 }").err(), Some(Error::ExpectedToken(Token::LParen)));
    assert_eq!(parse("if (x) 1").err(), Some(Error::ExpectedToken(Token::LBrace)));
    assert_eq!(parse("if (x) { 1 ").err(), Some(Error::ExpectedToken(Token::RBrace)));
    assert_eq!(parse("fn x").err(), Some(Error::ExpectedToken(Token::LParen)));
    assert_eq!(parse("a[1").err(), Some(Error::ExpectedToken(Token::RBracket)));
    assert_eq!(parse("{1 2}").err(), Some(Error::ExpectedToken(Token::Colon)));
    assert_eq!(parse("f(1 \0").err(), Some(Error::BadCall));
    assert_eq!(parse("f(\0").err(), Some(Error::ExpectedToken(Token::RParen)));
    assert_eq!(parse("{1: 2").err(), Some(Error::NoToken));
}

#[test]
fn error_bad_prefix() {
    assert_eq!(parse("+").err(), Some(Error::BadPrefix));
    assert_eq!(parse("1 + ").err(), Some(Error::BadPrefix));
    assert_eq!(parse(")").err(), Some(Error::BadPrefix));
    assert_eq!(parse("let x = ;").err(), Some(Error::BadPrefix));
    assert_eq!(parse("\"open").err(), Some(Error::BadPrefix));
    assert_eq!(parse("#").err(), Some(Error::BadPrefix));
}

#[test]
fn error_bad_return() {
    assert_eq!(parse("return ;").err(), Some(Error::BadReturn));
    assert_eq!(parse("return").err(), Some(Error::BadReturn));
    assert_eq!(parse("return (1").err(), Some(Error::BadReturn));
}

#[test]
fn error_bad_int() {
    assert_eq!(parse("9223372036854775808").err(), Some(Error::BadInt));
    assert_eq!(parse("99999999999999999999999").err(), Some(Error::BadInt));
}

#[test]
fn error_bad_array() {
    assert_eq!(parse("[1 2]").err(), Some(Error::BadArray));
    assert_eq!(parse("[1, 2,]").err(), Some(Error::BadArray));
    assert_eq!(parse("[+]").err(), Some(Error::BadArray));
    assert_eq!(parse("[1").err(), Some(Error::NoToken));
}

#[test]
fn error_bad_call() {
    assert_eq!(parse("f(1 2)").err(), Some(Error::BadCall));
    assert_eq!(parse("f(+)").err(), Some(Error::BadCall));
    assert_eq!(parse("f(").err(), Some(Error::NoToken));
}

#[test]
fn error_bad_fn() {
    assert_eq!(parse("fn(1) {}").err(), Some(Error::BadFn));
    assert_eq!(parse("fn(a b) {}").err(), Some(Error::BadFn));
    assert_eq!(parse("fn(a,) {}").err(), Some(Error::BadFn));
    assert_eq!(parse("fn(a").err(), Some(Error::NoToken));
}

#[test]
fn error_bad_hash() {
    assert_eq!(parse("{1: 2 3: 4}").err(), Some(Error::BadHash));
    assert_eq!(parse("{1: 2,}").err(), Some(Error::BadHash));
}

#[test]
fn parser_next_if_helpers() {
    let lexer = Lexer::new("let x = ( ) { } [ ] : ; if else fn return".as_bytes().to_vec());
    let mut p = Parser::new(lexer);
    assert_eq!(p.next_if_assign().err(), Some(Error::ExpectedToken(Token::Assign)));
    assert_eq!(p.next_if_let().ok(), Some(Token::Keyword(Keyword::Let)));
    assert_eq!(p.peek().ok(), Some(&Token::Ident("x".to_string())));
    assert_eq!(p.next_if_ident().ok(), Some(Token::Ident("x".to_string())));
    assert_eq!(
        p.next_if_ident().err(),
        Some(Error::ExpectedToken(Token::Ident("".to_string())))
    );
    assert_eq!(p.next_if_assign().ok(), Some(Token::Assign));
    assert_eq!(p.next_if_lparen().ok(), Some(Token::LParen));
    assert_eq!(p.next_if_rparen().ok(), Some(Token::RParen));
    assert_eq!(p.next_if_lbrace().ok(), Some(Token::LBrace));
    assert_eq!(p.next_if_rbrace().ok(), Some(Token::RBrace));
    assert_eq!(p.next_if_lbracket().ok(), Some(Token::LBracket));
    assert_eq!(p.next_if_rbracket().ok(), Some(Token::RBracket));
    assert_eq!(p.next_if_colon().ok(), Some(Token::Colon));
    assert_eq!(p.next_if_semicolon().ok(), Some(Token::Semicolon));
    assert_eq!(p.next_if_if().ok(), Some(Token::Keyword(Keyword::If)));
    assert_eq!(p.next_if_else().ok(), Some(Token::Keyword(Keyword::Else)));
    assert_eq!(p.next_if_fn().ok(), Some(Token::Keyword(Keyword::Function)));
    assert_eq!(p.next_if_return().ok(), Some(Token::Keyword(Keyword::Return)));
    assert_eq!(p.peek().err(), Some(Error::NoToken));
    assert_eq!(
        p.next_if_return().err(),
        Some(Error::ExpectedToken(Token::Keyword(Keyword::Return)))
    );
}

#[test]
fn printed_program_parses_to_the_same_tree() {
    let sources = [
        "let f = fn(a, b) { if (a < b) { return a; } else { b } }; f(1, 2)[0];",
        "let h = {\"k\": [1, 2, -3], true: !false}; h[\"k\"][2] % 2 == 1",
        "fn() {}(); if (x) {}; [[], {}, \"\"]; -(1 + 2) * 3",
        "let make = fn(x) { fn(y) { x + y } }; make(3)(4);",
    ];
    for source in sources {
        let tree = parse(source).unwrap();
        let text = tree.to_string();
        let again = parse_text(text.into_bytes()).unwrap();
        assert_eq!(again, tree, "printed as {:?}", tree.to_string());
    }
}

#[test]
fn printing_formats() {
    assert_eq!(first("let x = 5"), "let x = 5");
    assert_eq!(first("return x"), "return x");
    assert_eq!(first("\"s\""), "\"s\"");
    assert_eq!(first("[1,2 , 3]"), "[1, 2, 3]");
    assert_eq!(first("{1:2,3:4}"), "{1: 2, 3: 4}");
    assert_eq!(first("fn(a,b){a;b}"), "fn(a, b) { a; b; }");
    assert_eq!(first("if(a){b}else{c}"), "if (a) { b; } else { c; }");
    assert_eq!(first("if(a){b}"), "if (a) { b; }");
    assert_eq!(first("a[b]"), "(a[b])");
    assert_eq!(first("-5"), "(-5)");
    assert_eq!(parse("1; 2").unwrap().to_string(), "1; 2; ");
    assert_eq!(Block(vec![Expr::Int(1)]).to_string(), "1; ");
}

#[test]
fn duplicate_gives_an_equal_tree() {
    let tree = parse("let f = fn(a) { if (a) { [a, {1: a}] } else { -a(1)[2] } };").unwrap();
    assert_eq!(tree.statements[0].duplicate(), tree.statements[0]);
}
