use monkey::lexer::Keyword::{Else, False, Function, If, Let, Return, True};
use monkey::lexer::{Keyword, Lexer, Token, Tokenizer};

fn tokens_of(text: &str) -> Vec<Token> {
    let mut lexer = Lexer::new(text.as_bytes().to_vec());
    let mut out = Vec::new();
    while let Some(t) = lexer.next() {
        out.push(t);
    }
    out
}

#[test]
fn simple_test() {
    let expected = vec![
        Token::Assign,
        Token::Plus,
        Token::LParen,
        Token::RParen,
        Token::LBrace,
        Token::RBrace,
        Token::Comma,
        Token::Semicolon,
        Token::Minus,
        Token::Star,
        Token::Lt,
        Token::Gt,
        Token::Slash,
        Token::Bang,
        Token::Eof,
    ];
    let output = tokens_of("=+(){},;-*<>/!\0");
    assert_eq!(output, expected);
}

#[test]
fn complex_expr_test() {
    let mut lexer = Lexer::new(
        "let five    = 5;\n\
         let ten = 10;\
         let add_5_under = fn(x, y){\n\
             x + y;\
         };\
         let result = add(five, ten);\
         !-/*5;
         5 < 10 > 5;\
         if (5 < 10) {\
             return true;\
         } else {\
             return false;\
         }\
         10 == 10;\
         10 != 9;\
         "
        .as_bytes()
        .to_vec(),
    );
    assert_eq!(lexer.next(), Some(Token::Keyword(Let)));
    assert_eq!(lexer.next(), Some(Token::Ident("five".to_string())));
    assert_eq!(lexer.next(), Some(Token::Assign));
    assert_eq!(lexer.next(), Some(Token::Int("5".to_string())));
    assert_eq!(lexer.next(), Some(Token::Semicolon));
    assert_eq!(lexer.next(), Some(Token::Keyword(Let)));
    assert_eq!(lexer.next(), Some(Token::Ident("ten".to_string())));
    assert_eq!(lexer.next(), Some(Token::Assign));
    assert_eq!(lexer.next(), Some(Token::Int("10".to_string())));
    assert_eq!(lexer.next(), Some(Token::Semicolon));
    assert_eq!(lexer.next(), Some(Token::Keyword(Let)));
    assert_eq!(lexer.next(), Some(Token::Ident("add_5_under".to_string())));
    assert_eq!(lexer.next(), Some(Token::Assign));
    assert_eq!(lexer.next(), Some(Token::Keyword(Function)));
    assert_eq!(lexer.next(), Some(Token::LParen));
    assert_eq!(lexer.next(), Some(Token::Ident("x".to_string())));
    assert_eq!(lexer.next(), Some(Token::Comma));
    assert_eq!(lexer.next(), Some(Token::Ident("y".to_string())));
    assert_eq!(lexer.next(), Some(Token::RParen));
    assert_eq!(lexer.next(), Some(Token::LBrace));
    assert_eq!(lexer.next(), Some(Token::Ident("x".to_string())));
    assert_eq!(lexer.next(), Some(Token::Plus));
    assert_eq!(lexer.next(), Some(Token::Ident("y".to_string())));
    assert_eq!(lexer.next(), Some(Token::Semicolon));
    assert_eq!(lexer.next(), Some(Token::RBrace));
    assert_eq!(lexer.next(), Some(Token::Semicolon));
    assert_eq!(lexer.next(), Some(Token::Keyword(Let)));
    assert_eq!(lexer.next(), Some(Token::Ident("result".to_string())));
    assert_eq!(lexer.next(), Some(Token::Assign));
    assert_eq!(lexer.next(), Some(Token::Ident("add".to_string())));
    assert_eq!(lexer.next(), Some(Token::LParen));
    assert_eq!(lexer.next(), Some(Token::Ident("five".to_string())));
    assert_eq!(lexer.next(), Some(Token::Comma));
    assert_eq!(lexer.next(), Some(Token::Ident("ten".to_string())));
    assert_eq!(lexer.next(), Some(Token::RParen));
    assert_eq!(lexer.next(), Some(Token::Semicolon));
    assert_eq!(lexer.next(), Some(Token::Bang));
    assert_eq!(lexer.next(), Some(Token::Minus));
    assert_eq!(lexer.next(), Some(Token::Slash));
    assert_eq!(lexer.next(), Some(Token::Star));
    assert_eq!(lexer.next(), Some(Token::Int("5".to_string())));
    assert_eq!(lexer.next(), Some(Token::Semicolon));
    assert_eq!(lexer.next(), Some(Token::Int("5".to_string())));
    assert_eq!(lexer.next(), Some(Token::Lt));
    assert_eq!(lexer.next(), Some(Token::Int("10".to_string())));
    assert_eq!(lexer.next(), Some(Token::Gt));
    assert_eq!(lexer.next(), Some(Token::Int("5".to_string())));
    assert_eq!(lexer.next(), Some(Token::Semicolon));
    assert_eq!(lexer.next(), Some(Token::Keyword(If)));
    assert_eq!(lexer.next(), Some(Token::LParen));
    assert_eq!(lexer.next(), Some(Token::Int("5".to_string())));
    assert_eq!(lexer.next(), Some(Token::Lt));
    assert_eq!(lexer.next(), Some(Token::Int("10".to_string())));
    assert_eq!(lexer.next(), Some(Token::RParen));
    assert_eq!(lexer.next(), Some(Token::LBrace));
    assert_eq!(lexer.next(), Some(Token::Keyword(Return)));
    assert_eq!(lexer.next(), Some(Token::Keyword(True)));
    assert_eq!(lexer.next(), Some(Token::Semicolon));
    assert_eq!(lexer.next(), Some(Token::RBrace));
    assert_eq!(lexer.next(), Some(Token::Keyword(Else)));
    assert_eq!(lexer.next(), Some(Token::LBrace));
    assert_eq!(lexer.next(), Some(Token::Keyword(Return)));
    assert_eq!(lexer.next(), Some(Token::Keyword(False)));
    assert_eq!(lexer.next(), Some(Token::Semicolon));
    assert_eq!(lexer.next(), Some(Token::RBrace));
    assert_eq!(lexer.next(), Some(Token::Int("10".to_string())));
    assert_eq!(lexer.next(), Some(Token::Eq));
    assert_eq!(lexer.next(), Some(Token::Int("10".to_string())));
    assert_eq!(lexer.next(), Some(Token::Semicolon));
    assert_eq!(lexer.next(), Some(Token::Int("10".to_string())));
    assert_eq!(lexer.next(), Some(Token::Neq));
    assert_eq!(lexer.next(), Some(Token::Int("9".to_string())));
    assert_eq!(lexer.next(), Some(Token::Semicolon));
    assert_eq!(lexer.next(), None);
}

#[test]
fn whitespace_is_skipped_between_tokens() {
    assert_eq!(
        tokens_of(" \t\r\n a \n\n b\t"),
        vec![Token::Ident("a".to_string()), Token::Ident("b".to_string())]
    );
    assert_eq!(tokens_of("   \n\t  "), vec![]);
    assert_eq!(tokens_of(""), vec![]);
}

#[test]
fn keywords_are_exact_matches() {
    assert_eq!(
        tokens_of("fn let if else true false return"),
        vec![
            Token::Keyword(Keyword::Function),
            Token::Keyword(Keyword::Let),
            Token::Keyword(Keyword::If),
            Token::Keyword(Keyword::Else),
            Token::Keyword(Keyword::True),
            Token::Keyword(Keyword::False),
            Token::Keyword(Keyword::Return),
        ]
    );
    assert_eq!(
        tokens_of("fns lets iff _if Return x1 a_b"),
        vec![
            Token::Ident("fns".to_string()),
            Token::Ident("lets".to_string()),
            Token::Ident("iff".to_string()),
            Token::Ident("_if".to_string()),
            Token::Ident("Return".to_string()),
            Token::Ident("x1".to_string()),
            Token::Ident("a_b".to_string()),
        ]
    );
}

#[test]
fn integers_are_runs_of_digits_without_range_check() {
    assert_eq!(
        tokens_of("0 007 99999999999999999999999999"),
        vec![
            Token::Int("0".to_string()),
            Token::Int("007".to_string()),
            Token::Int("99999999999999999999999999".to_string()),
        ]
    );
    assert_eq!(
        tokens_of("12ab"),
        vec![Token::Int("12".to_string()), Token::Ident("ab".to_string())]
    );
}

#[test]
fn strings_have_no_escapes() {
    assert_eq!(
        tokens_of("\"hello world\""),
        vec![Token::String("hello world".to_string())]
    );
    assert_eq!(tokens_of("\"\""), vec![Token::String("".to_string())]);
    assert_eq!(
        tokens_of("\"a\\\" b"),
        vec![Token::String("a\\".to_string()), Token::Ident("b".to_string())]
    );
}

#[test]
fn unterminated_string_is_illegal() {
    assert_eq!(tokens_of("\"abc"), vec![Token::Illegal]);
    assert_eq!(tokens_of("1 \"abc def"), vec![Token::Int("1".to_string()), Token::Illegal]);
}

#[test]
fn two_character_operators() {
    assert_eq!(
        tokens_of("== != = ! =! ==="),
        vec![
            Token::Eq,
            Token::Neq,
            Token::Assign,
            Token::Bang,
            Token::Assign,
            Token::Bang,
            Token::Eq,
            Token::Assign,
        ]
    );
}

#[test]
fn brackets_colon_and_percent() {
    assert_eq!(
        tokens_of("[ ] : %"),
        vec![Token::LBracket, Token::RBracket, Token::Colon, Token::Percent]
    );
}

#[test]
fn unrecognized_byte_is_one_illegal_token() {
    assert_eq!(
        tokens_of("a # b"),
        vec![Token::Ident("a".to_string()), Token::Illegal, Token::Ident("b".to_string())]
    );
    assert_eq!(tokens_of("@@"), vec![Token::Illegal, Token::Illegal]);
    let mut lexer = Lexer::new(vec![0xC3, 0xA9]);
    assert_eq!(lexer.next(), Some(Token::Illegal));
    assert_eq!(lexer.next(), Some(Token::Illegal));
    assert_eq!(lexer.next(), None);
}

#[test]
fn zero_byte_is_eof() {
    assert_eq!(tokens_of("a\0b"), vec![
        Token::Ident("a".to_string()),
        Token::Eof,
        Token::Ident("b".to_string())
    ]);
}

#[test]
fn peek_does_not_consume() {
    let mut lexer = Lexer::new("x + 1".as_bytes().to_vec());
    assert_eq!(lexer.peek(), Some(&Token::Ident("x".to_string())));
    assert_eq!(lexer.peek(), Some(&Token::Ident("x".to_string())));
    assert_eq!(lexer.next(), Some(Token::Ident("x".to_string())));
    assert_eq!(lexer.peek(), Some(&Token::Plus));
    assert_eq!(lexer.next(), Some(Token::Plus));
    assert_eq!(lexer.next(), Some(Token::Int("1".to_string())));
    assert_eq!(lexer.peek(), None);
    assert_eq!(lexer.next(), None);
    assert_eq!(lexer.next(), None);
}

#[test]
fn next_if_eq_takes_only_the_given_token() {
    let mut lexer = Lexer::new("let x".as_bytes().to_vec());
    assert_eq!(lexer.next_if_eq(&Token::Assign), None);
    assert_eq!(
        lexer.next_if_eq(&Token::Keyword(Keyword::Let)),
        Some(Token::Keyword(Keyword::Let))
    );
    assert_eq!(lexer.next_if_eq(&Token::Ident("y".to_string())), None);
    assert_eq!(
        lexer.next_if_eq(&Token::Ident("x".to_string())),
        Some(Token::Ident("x".to_string()))
    );
    assert_eq!(lexer.next_if_eq(&Token::Eof), None);
}

#[test]
fn next_if_takes_what_the_predicate_accepts() {
    let mut lexer = Lexer::new("7 +".as_bytes().to_vec());
    assert_eq!(lexer.next_if(|t| matches!(t, Token::Ident(_))), None);
    assert_eq!(
        lexer.next_if(|t| matches!(t, Token::Int(_))),
        Some(Token::Int("7".to_string()))
    );
    assert_eq!(lexer.next_if(|_| false), None);
    assert_eq!(lexer.next_if(|_| true), Some(Token::Plus));
    assert_eq!(lexer.next_if(|_| true), None);
}

#[test]
fn tokenizer_reads_tokens_in_order() {
    let mut t = Tokenizer::new("a=1".as_bytes().to_vec());
    assert_eq!(t.position(), 0);
    assert_eq!(t.next(), Some(Token::Ident("a".to_string())));
    assert_eq!(t.position(), 1);
    assert_eq!(t.next(), Some(Token::Assign));
    assert_eq!(t.next(), Some(Token::Int("1".to_string())));
    assert_eq!(t.position(), 3);
    assert_eq!(t.next(), None);
}

#[test]
fn token_text_and_equality() {
    assert_eq!(Token::Keyword(Keyword::Function).to_string(), "fn");
    assert_eq!(Token::Ident("abc".to_string()).to_string(), "abc");
    assert_eq!(Token::Int("12".to_string()).to_string(), "12");
    assert_eq!(Token::String("s".to_string()).to_string(), "'s'");
    assert_eq!(Token::Neq.to_string(), "!=");
    assert_eq!(Token::Eq.to_string(), "==");
    assert_eq!(Token::LBrace.to_string(), "{");
    assert_eq!(Token::Illegal.to_string(), "Illegal");
    assert_eq!(Token::Eof.to_string(), "");
    assert!(Token::Ident("a".to_string()).same(&Token::Ident("a".to_string())));
    assert!(!Token::Ident("a".to_string()).same(&Token::Ident("b".to_string())));
    assert!(!Token::Ident("a".to_string()).same(&Token::String("a".to_string())));
    assert!(Token::Plus.same(&Token::Plus));
    assert!(!Token::Plus.same(&Token::Minus));
    assert_eq!(Token::Int("5".to_string()).duplicate(), Token::Int("5".to_string()));
    assert_eq!(Keyword::from_str("return"), Some(Keyword::Return));
    assert_eq!(Keyword::from_str("returns"), None);
    assert_eq!(Keyword::Else.to_string(), "else");
}
