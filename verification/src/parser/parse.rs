//! The recursive-descent parser.

use vstd::prelude::*;
use std::rc::Rc;
use crate::lexer::base::Lexer;
use crate::lexer::scan::lemma_next_token_advances;
use crate::lexer::tokens::{Keyword, Token, TokenView};
use crate::parser::grammar::{
    advanced, expect, expect_ident, is_operator, lemma_take_is_next_token, named, parse, parse_args,
    parse_array, parse_block, parse_block_items, parse_call, parse_expr, parse_fn, parse_group,
    parse_hash, parse_if, parse_index, parse_infix, parse_items, parse_let, parse_operation,
    parse_pairs, parse_params, parse_prefix, parse_program, parse_return, parse_statement,
    precedence, skip_semicolon, take, ErrorView, Parsed, CALL_PRECEDENCE, INDEXER_PRECEDENCE,
    LOWEST_PRECEDENCE, PREFIX_PRECEDENCE,
};
use crate::parser::types::{
    duplicate_names, exprs_view, lemma_exprs_view_push, lemma_names_view_push,
    lemma_pairs_view_push, names_view, pairs_view, Block, Call, Expr, ExprView, Fn, FnView, If,
    Infix, Let, Prefix, Program,
};
use crate::text::parse_int;

verus! {

broadcast use crate::parser::types::group_expr_views;

/// What is wrong with a text that is no program.
#[derive(Debug, PartialEq)]
pub enum Error {
    /// Another token stands where this one must stand.
    ExpectedToken(Token),
    /// No expression starts with the next token.
    BadPrefix,
    /// The value of a `return` is no expression.
    BadReturn,
    /// An integer literal does not fit into 64 bits.
    BadInt,
    /// An array literal is malformed.
    BadArray,
    /// An operator is expected where the input ends.
    BadInfix,
    /// The arguments of a call are malformed.
    BadCall,
    /// The parameters of a function literal are malformed.
    BadFn,
    /// A hash literal is malformed.
    BadHash,
    /// The input ends within a list.
    NoToken,
}

impl View for Error {
    type V = ErrorView;

    open spec fn view(&self) -> ErrorView {
        match *self {
            Error::ExpectedToken(t) => ErrorView::ExpectedToken(t@),
            Error::BadPrefix => ErrorView::BadPrefix,
            Error::BadReturn => ErrorView::BadReturn,
            Error::BadInt => ErrorView::BadInt,
            Error::BadArray => ErrorView::BadArray,
            Error::BadInfix => ErrorView::BadInfix,
            Error::BadCall => ErrorView::BadCall,
            Error::BadFn => ErrorView::BadFn,
            Error::BadHash => ErrorView::BadHash,
            Error::NoToken => ErrorView::NoToken,
        }
    }
}

/// The outcome `r`, reached at position `at`, is what the grammar says.
pub open spec fn yields_token(r: Result<Token, Error>, at: int, s: Parsed<TokenView>) -> bool {
    match s {
        Ok((t, p)) => r is Ok && r->Ok_0@ == t && at == p,
        Err(e) => r is Err && r->Err_0@ == e,
    }
}

/// The same for an expression.
pub open spec fn yields_expr(r: Result<Expr, Error>, at: int, s: Parsed<ExprView>) -> bool {
    match s {
        Ok((e, p)) => r is Ok && r->Ok_0@ == e && at == p,
        Err(e) => r is Err && r->Err_0@ == e,
    }
}

/// The same for a list of expressions.
pub open spec fn yields_exprs(r: Result<Vec<Expr>, Error>, at: int, s: Parsed<Seq<ExprView>>) -> bool {
    match s {
        Ok((es, p)) => r is Ok && exprs_view(r->Ok_0@) == es && at == p,
        Err(e) => r is Err && r->Err_0@ == e,
    }
}

/// The same for a block.
pub open spec fn yields_block(r: Result<Block, Error>, at: int, s: Parsed<Seq<ExprView>>) -> bool {
    match s {
        Ok((es, p)) => r is Ok && r->Ok_0@ == es && at == p,
        Err(e) => r is Err && r->Err_0@ == e,
    }
}

/// The same for a list of names.
pub open spec fn yields_names(r: Result<Vec<String>, Error>, at: int, s: Parsed<Seq<Seq<char>>>) -> bool {
    match s {
        Ok((ns, p)) => r is Ok && names_view(r->Ok_0@) == ns && at == p,
        Err(e) => r is Err && r->Err_0@ == e,
    }
}

/// The same for a list of pairs.
pub open spec fn yields_pairs(
    r: Result<Vec<(Expr, Expr)>, Error>,
    at: int,
    s: Parsed<Seq<(ExprView, ExprView)>>,
) -> bool {
    match s {
        Ok((ps, p)) => r is Ok && pairs_view(r->Ok_0@) == ps && at == p,
        Err(e) => r is Err && r->Err_0@ == e,
    }
}

/// How tightly a token binds in infix position.
pub fn token_precedence(t: &Token) -> (p: u8)
    ensures
        p == precedence(t@),
{
    match t {
        Token::Eq | Token::Neq => 1,
        Token::Lt | Token::Gt => 2,
        Token::Plus | Token::Minus => 3,
        Token::Star | Token::Slash | Token::Percent => 4,
        Token::LParen => CALL_PRECEDENCE,
        Token::LBracket => INDEXER_PRECEDENCE,
        _ => 100,
    }
}

fn is_operator_token(t: &Token) -> (r: bool)
    ensures
        r == is_operator(t@),
{
    match t {
        Token::Plus | Token::Minus | Token::Star | Token::Slash | Token::Eq | Token::Neq
        | Token::Lt | Token::Gt | Token::Percent => true,
        _ => false,
    }
}

/// The function literal `f` with the name `name`.
fn rename(f: Rc<Fn>, name: String) -> (r: Fn)
    ensures
        r@ == (FnView { name: Some(name@), ..(*f)@ }),
{
    match Rc::try_unwrap(f) {
        Ok(own) => Fn { name: Some(name), args: own.args, body: own.body },
        Err(shared) => Fn {
            name: Some(name),
            args: duplicate_names(&shared.args),
            body: shared.body.duplicate(),
        },
    }
}

/// A function literal that is the value of a `let` gets the name.
fn name_value(name: &String, value: Expr) -> (r: Expr)
    ensures
        r@ == named(name@, value@),
{
    match value {
        Expr::Fn(f) => Expr::Fn(Rc::new(rename(f, name.clone()))),
        other => other,
    }
}

/// A parser over the tokens of a lexer.
pub struct Parser {
    tokens: Lexer,
}

impl Parser {
    /// The bytes that are being parsed.
    pub closed spec fn bytes(&self) -> Seq<u8> {
        self.tokens.bytes()
    }

    /// The position from which the next token will be read.
    pub closed spec fn offset(&self) -> int {
        self.tokens.offset()
    }

    /// The lexer is well formed.
    pub closed spec fn wf(&self) -> bool {
        self.tokens.wf()
    }

    /// The position lies within the input.
    pub proof fn lemma_offset_in_range(&self)
        requires
            self.wf(),
        ensures
            0 <= self.offset() <= self.bytes().len(),
    {
        self.tokens.lemma_offset_in_range();
    }

    /// A parser over the tokens of `tokens`.
    pub fn new(tokens: Lexer) -> (p: Self)
        requires
            tokens.wf(),
        ensures
            p.wf(),
            p.bytes() == tokens.bytes(),
            p.offset() == tokens.offset(),
    {
        Self { tokens }
    }

    /// A copy of the next token, which stays.
    fn look(&mut self) -> (r: Option<Token>)
        requires
            old(self).wf(),
        ensures
            final(self).wf(),
            final(self).bytes() == old(self).bytes(),
            final(self).offset() == old(self).offset(),
            0 <= final(self).offset() <= final(self).bytes().len(),
            match take(old(self).bytes(), old(self).offset()) {
                Some((t, _)) => r is Some && r->Some_0@ == t,
                None => r is None,
            },
    {
        proof {
            self.tokens.lemma_offset_in_range();
            lemma_take_is_next_token(self.bytes(), self.offset());
        }
        match self.tokens.peek() {
            Some(t) => Some(t.duplicate()),
            None => None,
        }
    }

    /// Takes the next token.
    fn advance(&mut self) -> (r: Option<Token>)
        requires
            old(self).wf(),
        ensures
            final(self).wf(),
            final(self).bytes() == old(self).bytes(),
            0 <= final(self).offset() <= final(self).bytes().len(),
            match take(old(self).bytes(), old(self).offset()) {
                Some((t, end)) => r is Some && r->Some_0@ == t && final(self).offset() == end,
                None => r is None && final(self).offset() == old(self).offset(),
            },
    {
        proof {
            self.tokens.lemma_offset_in_range();
            lemma_take_is_next_token(self.bytes(), self.offset());
            lemma_next_token_advances(self.bytes(), self.offset());
        }
        self.tokens.next()
    }

    /// Takes the next token, which must be `token`.
    fn accept(&mut self, token: Token) -> (r: Result<Token, Error>)
        requires
            old(self).wf(),
        ensures
            final(self).wf(),
            final(self).bytes() == old(self).bytes(),
            old(self).offset() <= final(self).offset() <= final(self).bytes().len(),
            r is Ok ==> advanced(old(self).bytes(), old(self).offset(), final(self).offset()),
            r is Err ==> final(self).offset() == old(self).offset(),
            yields_token(
                r,
                final(self).offset(),
                expect(old(self).bytes(), old(self).offset(), token@),
            ),
    {
        proof {
            self.tokens.lemma_offset_in_range();
            lemma_take_is_next_token(self.bytes(), self.offset());
            lemma_next_token_advances(self.bytes(), self.offset());
        }
        match self.tokens.next_if_eq(&token) {
            Some(t) => Ok(t),
            None => Err(Error::ExpectedToken(token)),
        }
    }

    /// Takes a semicolon where one is next.
    fn skip_semicolon(&mut self)
        requires
            old(self).wf(),
        ensures
            final(self).wf(),
            final(self).bytes() == old(self).bytes(),
            old(self).offset() <= final(self).offset() <= final(self).bytes().len(),
            final(self).offset() == skip_semicolon(old(self).bytes(), old(self).offset()),
    {
        let _ = self.accept(Token::Semicolon);
    }

    pub fn next_if_let(&mut self) -> (r: Result<Token, Error>)
        requires
            old(self).wf(),
        ensures
            final(self).wf(),
            final(self).bytes() == old(self).bytes(),
            yields_token(
                r,
                final(self).offset(),
                expect(old(self).bytes(), old(self).offset(), TokenView::Keyword(Keyword::Let)),
            ),
    {
        self.accept(Token::Keyword(Keyword::Let))
    }

    pub fn next_if_assign(&mut self) -> (r: Result<Token, Error>)
        requires
            old(self).wf(),
        ensures
            final(self).wf(),
            final(self).bytes() == old(self).bytes(),
            yields_token(
                r,
                final(self).offset(),
                expect(old(self).bytes(), old(self).offset(), TokenView::Assign),
            ),
    {
        self.accept(Token::Assign)
    }

    pub fn next_if_semicolon(&mut self) -> (r: Result<Token, Error>)
        requires
            old(self).wf(),
        ensures
            final(self).wf(),
            final(self).bytes() == old(self).bytes(),
            yields_token(
                r,
                final(self).offset(),
                expect(old(self).bytes(), old(self).offset(), TokenView::Semicolon),
            ),
    {
        self.accept(Token::Semicolon)
    }

    pub fn next_if_ident(&mut self) -> (r: Result<Token, Error>)
        requires
            old(self).wf(),
        ensures
            final(self).wf(),
            final(self).bytes() == old(self).bytes(),
            old(self).offset() <= final(self).offset() <= final(self).bytes().len(),
            r is Ok ==> advanced(old(self).bytes(), old(self).offset(), final(self).offset()),
            yields_token(
                r,
                final(self).offset(),
                expect_ident(old(self).bytes(), old(self).offset()),
            ),
    {
        match self.look() {
            Some(Token::Ident(_)) => {
                match self.advance() {
                    Some(t) => Ok(t),
                    None => Err(Error::ExpectedToken(Token::Ident(String::new()))),
                }
            },
            _ => Err(Error::ExpectedToken(Token::Ident(String::new()))),
        }
    }

    pub fn next_if_return(&mut self) -> (r: Result<Token, Error>)
        requires
            old(self).wf(),
        ensures
            final(self).wf(),
            final(self).bytes() == old(self).bytes(),
            yields_token(
                r,
                final(self).offset(),
                expect(
                    old(self).bytes(),
                    old(self).offset(),
                    TokenView::Keyword(Keyword::Return),
                ),
            ),
    {
        self.accept(Token::Keyword(Keyword::Return))
    }

    pub fn next_if_lparen(&mut self) -> (r: Result<Token, Error>)
        requires
            old(self).wf(),
        ensures
            final(self).wf(),
            final(self).bytes() == old(self).bytes(),
            yields_token(
                r,
                final(self).offset(),
                expect(old(self).bytes(), old(self).offset(), TokenView::LParen),
            ),
    {
        self.accept(Token::LParen)
    }

    pub fn next_if_rparen(&mut self) -> (r: Result<Token, Error>)
        requires
            old(self).wf(),
        ensures
            final(self).wf(),
            final(self).bytes() == old(self).bytes(),
            yields_token(
                r,
                final(self).offset(),
                expect(old(self).bytes(), old(self).offset(), TokenView::RParen),
            ),
    {
        self.accept(Token::RParen)
    }

    pub fn next_if_lbrace(&mut self) -> (r: Result<Token, Error>)
        requires
            old(self).wf(),
        ensures
            final(self).wf(),
            final(self).bytes() == old(self).bytes(),
            yields_token(
                r,
                final(self).offset(),
                expect(old(self).bytes(), old(self).offset(), TokenView::LBrace),
            ),
    {
        self.accept(Token::LBrace)
    }

    pub fn next_if_rbrace(&mut self) -> (r: Result<Token, Error>)
        requires
            old(self).wf(),
        ensures
            final(self).wf(),
            final(self).bytes() == old(self).bytes(),
            yields_token(
                r,
                final(self).offset(),
                expect(old(self).bytes(), old(self).offset(), TokenView::RBrace),
            ),
    {
        self.accept(Token::RBrace)
    }

    pub fn next_if_else(&mut self) -> (r: Result<Token, Error>)
        requires
            old(self).wf(),
        ensures
            final(self).wf(),
            final(self).bytes() == old(self).bytes(),
            yields_token(
                r,
                final(self).offset(),
                expect(old(self).bytes(), old(self).offset(), TokenView::Keyword(Keyword::Else)),
            ),
    {
        self.accept(Token::Keyword(Keyword::Else))
    }

    pub fn next_if_if(&mut self) -> (r: Result<Token, Error>)
        requires
            old(self).wf(),
        ensures
            final(self).wf(),
            final(self).bytes() == old(self).bytes(),
            yields_token(
                r,
                final(self).offset(),
                expect(old(self).bytes(), old(self).offset(), TokenView::Keyword(Keyword::If)),
            ),
    {
        self.accept(Token::Keyword(Keyword::If))
    }

    pub fn next_if_fn(&mut self) -> (r: Result<Token, Error>)
        requires
            old(self).wf(),
        ensures
            final(self).wf(),
            final(self).bytes() == old(self).bytes(),
            yields_token(
                r,
                final(self).offset(),
                expect(
                    old(self).bytes(),
                    old(self).offset(),
                    TokenView::Keyword(Keyword::Function),
                ),
            ),
    {
        self.accept(Token::Keyword(Keyword::Function))
    }

    pub fn next_if_lbracket(&mut self) -> (r: Result<Token, Error>)
        requires
            old(self).wf(),
        ensures
            final(self).wf(),
            final(self).bytes() == old(self).bytes(),
            yields_token(
                r,
                final(self).offset(),
                expect(old(self).bytes(), old(self).offset(), TokenView::LBracket),
            ),
    {
        self.accept(Token::LBracket)
    }

    pub fn next_if_rbracket(&mut self) -> (r: Result<Token, Error>)
        requires
            old(self).wf(),
        ensures
            final(self).wf(),
            final(self).bytes() == old(self).bytes(),
            yields_token(
                r,
                final(self).offset(),
                expect(old(self).bytes(), old(self).offset(), TokenView::RBracket),
            ),
    {
        self.accept(Token::RBracket)
    }

    pub fn next_if_colon(&mut self) -> (r: Result<Token, Error>)
        requires
            old(self).wf(),
        ensures
            final(self).wf(),
            final(self).bytes() == old(self).bytes(),
            yields_token(
                r,
                final(self).offset(),
                expect(old(self).bytes(), old(self).offset(), TokenView::Colon),
            ),
    {
        self.accept(Token::Colon)
    }

    /// Looks at the next token, which stays. Fails where the input ends.
    pub fn peek(&mut self) -> (r: Result<&Token, Error>)
        requires
            old(self).wf(),
        ensures
            final(self).wf(),
            final(self).bytes() == old(self).bytes(),
            final(self).offset() == old(self).offset(),
            match take(old(self).bytes(), old(self).offset()) {
                Some((t, _)) => r is Ok && r->Ok_0@ == t,
                None => r == Err::<&Token, Error>(Error::NoToken),
            },
    {
        proof {
            self.tokens.lemma_offset_in_range();
            lemma_take_is_next_token(self.bytes(), self.offset());
        }
        match self.tokens.peek() {
            Some(t) => Ok(t),
            None => Err(Error::NoToken),
        }
    }

    /// How tightly the next token binds in infix position.
    fn current_precedence(&mut self) -> (p: u8)
        requires
            old(self).wf(),
        ensures
            final(self).wf(),
            final(self).bytes() == old(self).bytes(),
            final(self).offset() == old(self).offset(),
            p == (match take(old(self).bytes(), old(self).offset()) {
                Some((t, _)) => precedence(t),
                None => 100u8,
            }),
    {
        match self.look() {
            Some(t) => token_precedence(&t),
            None => 100,
        }
    }

    /// Parses a program: statements up to the end of the input or the
    /// `eof` token.
    pub fn program(&mut self) -> (r: Result<Program, Error>)
        requires
            old(self).wf(),
        ensures
            final(self).wf(),
            final(self).bytes() == old(self).bytes(),
            match parse_program(old(self).bytes(), old(self).offset(), Seq::empty()) {
                Ok(stmts) => r is Ok && r->Ok_0@ == stmts,
                Err(e) => r is Err && r->Err_0@ == e,
            },
    {
        let ghost input = self.bytes();
        let ghost goal = parse_program(input, self.offset(), Seq::empty());
        let mut stmts: Vec<Expr> = Vec::new();
        assert(exprs_view(stmts@) =~= Seq::empty());
        loop
            invariant
                self.wf(),
                self.bytes() == input,
                input == old(self).bytes(),
                goal == parse_program(input, old(self).offset(), Seq::empty()),
                parse_program(input, self.offset(), exprs_view(stmts@)) == goal,
            decreases input.len() - self.offset(),
        {
            match self.look() {
                None => {
                    return Ok(Program { statements: stmts });
                },
                Some(Token::Eof) => {
                    return Ok(Program { statements: stmts });
                },
                Some(_) => {},
            }
            let s = match self.statement() {
                Err(e) => {
                    return Err(e);
                },
                Ok(s) => s,
            };
            proof {
                lemma_exprs_view_push(stmts@, s);
            }
            stmts.push(s);
        }
    }

    /// Parses a statement.
    fn statement(&mut self) -> (r: Result<Expr, Error>)
        requires
            old(self).wf(),
        ensures
            final(self).wf(),
            final(self).bytes() == old(self).bytes(),
            r is Ok ==> advanced(old(self).bytes(), old(self).offset(), final(self).offset()),
            yields_expr(
                r,
                final(self).offset(),
                parse_statement(old(self).bytes(), old(self).offset()),
            ),
        decreases old(self).bytes().len() - old(self).offset(), 6nat,
    {
        match self.look() {
            Some(Token::Keyword(Keyword::Let)) => self.let_(),
            Some(Token::Keyword(Keyword::Return)) => self.return_(),
            _ => {
                let e = self.expr(LOWEST_PRECEDENCE)?;
                self.skip_semicolon();
                Ok(e)
            },
        }
    }

    /// Parses the statements between `{` and `}`.
    fn block(&mut self) -> (r: Result<Block, Error>)
        requires
            old(self).wf(),
        ensures
            final(self).wf(),
            final(self).bytes() == old(self).bytes(),
            r is Ok ==> advanced(old(self).bytes(), old(self).offset(), final(self).offset()),
            yields_block(r, final(self).offset(), parse_block(old(self).bytes(), old(self).offset())),
        decreases old(self).bytes().len() - old(self).offset(), 1nat,
    {
        self.accept(Token::LBrace)?;
        let stmts = self.block_items()?;
        self.accept(Token::RBrace)?;
        Ok(Block(stmts))
    }

    /// Parses the statements of a block, up to `}`.
    fn block_items(&mut self) -> (r: Result<Vec<Expr>, Error>)
        requires
            old(self).wf(),
        ensures
            final(self).wf(),
            final(self).bytes() == old(self).bytes(),
            r is Ok ==> old(self).offset() <= final(self).offset() <= final(self).bytes().len(),
            yields_exprs(
                r,
                final(self).offset(),
                parse_block_items(old(self).bytes(), old(self).offset(), Seq::empty()),
            ),
        decreases old(self).bytes().len() - old(self).offset(), 7nat,
    {
        let ghost input = self.bytes();
        let ghost goal = parse_block_items(input, self.offset(), Seq::empty());
        let mut stmts: Vec<Expr> = Vec::new();
        assert(exprs_view(stmts@) =~= Seq::empty());
        proof {
            self.lemma_offset_in_range();
        }
        loop
            invariant
                self.wf(),
                self.bytes() == input,
                input == old(self).bytes(),
                old(self).offset() <= self.offset() <= input.len(),
                goal == parse_block_items(input, old(self).offset(), Seq::empty()),
                parse_block_items(input, self.offset(), exprs_view(stmts@)) == goal,
            decreases input.len() - self.offset(),
        {
            match self.look() {
                None => {
                    return Ok(stmts);
                },
                Some(Token::Eof) => {
                    return Ok(stmts);
                },
                Some(Token::RBrace) => {
                    return Ok(stmts);
                },
                Some(_) => {},
            }
            let s = match self.statement() {
                Err(e) => {
                    return Err(e);
                },
                Ok(s) => s,
            };
            proof {
                lemma_exprs_view_push(stmts@, s);
            }
            stmts.push(s);
        }
    }

    /// Parses an expression whose operators bind tighter than
    /// `precedence`.
    fn expr(&mut self, precedence: u8) -> (r: Result<Expr, Error>)
        requires
            old(self).wf(),
        ensures
            final(self).wf(),
            final(self).bytes() == old(self).bytes(),
            r is Ok ==> advanced(old(self).bytes(), old(self).offset(), final(self).offset()),
            yields_expr(
                r,
                final(self).offset(),
                parse_expr(old(self).bytes(), old(self).offset(), precedence),
            ),
        decreases old(self).bytes().len() - old(self).offset(), 4nat,
    {
        let ghost input = self.bytes();
        let ghost start = self.offset();
        let mut left = self.prefix()?;
        loop
            invariant
                self.wf(),
                self.bytes() == input,
                input == old(self).bytes(),
                start == old(self).offset(),
                advanced(input, start, self.offset()),
                parse_infix(input, self.offset(), precedence, left@) == parse_expr(
                    input,
                    start,
                    precedence,
                ),
            decreases input.len() - self.offset(),
        {
            let t = match self.look() {
                None => {
                    return Ok(left);
                },
                Some(t) => t,
            };
            if let Token::Semicolon = &t {
                return Ok(left);
            }
            if precedence >= token_precedence(&t) {
                return Ok(left);
            }
            let operation = is_operator_token(&t) || (match &t {
                Token::LParen => true,
                Token::LBracket => true,
                _ => false,
            });
            if !operation {
                return Ok(left);
            }
            left = match self.infix(left) {
                Err(e) => {
                    return Err(e);
                },
                Ok(e) => e,
            };
        }
    }

    /// Parses one operation on the operand `left`.
    fn infix(&mut self, left: Expr) -> (r: Result<Expr, Error>)
        requires
            old(self).wf(),
        ensures
            final(self).wf(),
            final(self).bytes() == old(self).bytes(),
            r is Ok ==> advanced(old(self).bytes(), old(self).offset(), final(self).offset()),
            yields_expr(
                r,
                final(self).offset(),
                parse_operation(old(self).bytes(), old(self).offset(), left@),
            ),
        decreases old(self).bytes().len() - old(self).offset(), 2nat,
    {
        let t = match self.look() {
            None => {
                return Err(Error::BadInfix);
            },
            Some(t) => t,
        };
        if is_operator_token(&t) {
            let p: u8 = self.current_precedence();
            let _ = self.advance();
            let right = self.expr(p)?;
            Ok(Expr::Infix(Box::new(Infix { left: Rc::new(left), token: t, right })))
        } else if let Token::LParen = &t {
            self.call(Rc::new(left))
        } else if let Token::LBracket = &t {
            self.indexer(Rc::new(left))
        } else {
            Err(Error::BadInfix)
        }
    }

    /// Parses an operand.
    fn prefix(&mut self) -> (r: Result<Expr, Error>)
        requires
            old(self).wf(),
        ensures
            final(self).wf(),
            final(self).bytes() == old(self).bytes(),
            r is Ok ==> advanced(old(self).bytes(), old(self).offset(), final(self).offset()),
            yields_expr(
                r,
                final(self).offset(),
                parse_prefix(old(self).bytes(), old(self).offset()),
            ),
        decreases old(self).bytes().len() - old(self).offset(), 3nat,
    {
        let t = match self.look() {
            None => {
                return Err(Error::BadPrefix);
            },
            Some(t) => t,
        };
        match t {
            Token::Ident(name) => {
                let _ = self.advance();
                Ok(Expr::Identifier(name))
            },
            Token::Int(digits) => {
                let _ = self.advance();
                match parse_int(&digits) {
                    Some(i) => Ok(Expr::Int(i)),
                    None => Err(Error::BadInt),
                }
            },
            Token::String(s) => {
                let _ = self.advance();
                Ok(Expr::String(s))
            },
            Token::Keyword(Keyword::True) => {
                let _ = self.advance();
                Ok(Expr::Bool(true))
            },
            Token::Keyword(Keyword::False) => {
                let _ = self.advance();
                Ok(Expr::Bool(false))
            },
            Token::LParen => self.grouped_expr(),
            Token::Bang => {
                let _ = self.advance();
                let right = self.expr(PREFIX_PRECEDENCE)?;
                Ok(Expr::Prefix(Box::new(Prefix { token: Token::Bang, right })))
            },
            Token::Minus => {
                let _ = self.advance();
                let right = self.expr(PREFIX_PRECEDENCE)?;
                Ok(Expr::Prefix(Box::new(Prefix { token: Token::Minus, right })))
            },
            Token::Keyword(Keyword::If) => self.if_(),
            Token::Keyword(Keyword::Function) => self.fn_(),
            Token::LBracket => self.array(),
            Token::LBrace => self.hash(),
            _ => Err(Error::BadPrefix),
        }
    }

    /// Parses an expression in parentheses.
    fn grouped_expr(&mut self) -> (r: Result<Expr, Error>)
        requires
            old(self).wf(),
        ensures
            final(self).wf(),
            final(self).bytes() == old(self).bytes(),
            r is Ok ==> advanced(old(self).bytes(), old(self).offset(), final(self).offset()),
            yields_expr(
                r,
                final(self).offset(),
                parse_group(old(self).bytes(), old(self).offset()),
            ),
        decreases old(self).bytes().len() - old(self).offset(), 1nat,
    {
        self.accept(Token::LParen)?;
        let e = self.expr(LOWEST_PRECEDENCE)?;
        self.accept(Token::RParen)?;
        Ok(e)
    }

    /// Parses a `let`.
    fn let_(&mut self) -> (r: Result<Expr, Error>)
        requires
            old(self).wf(),
        ensures
            final(self).wf(),
            final(self).bytes() == old(self).bytes(),
            r is Ok ==> advanced(old(self).bytes(), old(self).offset(), final(self).offset()),
            yields_expr(r, final(self).offset(), parse_let(old(self).bytes(), old(self).offset())),
        decreases old(self).bytes().len() - old(self).offset(), 5nat,
    {
        self.accept(Token::Keyword(Keyword::Let))?;
        let name = match self.next_if_ident()? {
            Token::Ident(n) => n,
            _ => {
                return Err(Error::ExpectedToken(Token::Ident(String::new())));
            },
        };
        self.accept(Token::Assign)?;
        let value = self.expr(LOWEST_PRECEDENCE)?;
        self.skip_semicolon();
        let value = name_value(&name, value);
        Ok(Expr::Let(Let { name, value: Box::new(value) }))
    }

    /// Parses a `return`.
    fn return_(&mut self) -> (r: Result<Expr, Error>)
        requires
            old(self).wf(),
        ensures
            final(self).wf(),
            final(self).bytes() == old(self).bytes(),
            r is Ok ==> advanced(old(self).bytes(), old(self).offset(), final(self).offset()),
            yields_expr(
                r,
                final(self).offset(),
                parse_return(old(self).bytes(), old(self).offset()),
            ),
        decreases old(self).bytes().len() - old(self).offset(), 5nat,
    {
        self.accept(Token::Keyword(Keyword::Return))?;
        match self.expr(LOWEST_PRECEDENCE) {
            Err(_) => Err(Error::BadReturn),
            Ok(value) => {
                self.skip_semicolon();
                Ok(Expr::Return(Box::new(value)))
            },
        }
    }

    /// Parses a conditional.
    fn if_(&mut self) -> (r: Result<Expr, Error>)
        requires
            old(self).wf(),
        ensures
            final(self).wf(),
            final(self).bytes() == old(self).bytes(),
            r is Ok ==> advanced(old(self).bytes(), old(self).offset(), final(self).offset()),
            yields_expr(r, final(self).offset(), parse_if(old(self).bytes(), old(self).offset())),
        decreases old(self).bytes().len() - old(self).offset(), 1nat,
    {
        self.accept(Token::Keyword(Keyword::If))?;
        self.accept(Token::LParen)?;
        let condition = self.expr(LOWEST_PRECEDENCE)?;
        self.accept(Token::RParen)?;
        let consequence = self.block()?;
        match self.accept(Token::Keyword(Keyword::Else)) {
            Err(_) => Ok(
                Expr::If(If { condition: Box::new(condition), consequence, alternative: None }),
            ),
            Ok(_) => {
                let alternative = self.block()?;
                Ok(
                    Expr::If(
                        If {
                            condition: Box::new(condition),
                            consequence,
                            alternative: Some(alternative),
                        },
                    ),
                )
            },
        }
    }

    /// Parses a function literal.
    fn fn_(&mut self) -> (r: Result<Expr, Error>)
        requires
            old(self).wf(),
        ensures
            final(self).wf(),
            final(self).bytes() == old(self).bytes(),
            r is Ok ==> advanced(old(self).bytes(), old(self).offset(), final(self).offset()),
            yields_expr(r, final(self).offset(), parse_fn(old(self).bytes(), old(self).offset())),
        decreases old(self).bytes().len() - old(self).offset(), 1nat,
    {
        self.accept(Token::Keyword(Keyword::Function))?;
        self.accept(Token::LParen)?;
        let args = self.params()?;
        self.accept(Token::RParen)?;
        let body = self.block()?;
        Ok(Expr::Fn(Rc::new(Fn { name: None, args, body })))
    }

    /// Parses the parameters of a function literal, up to `)`.
    fn params(&mut self) -> (r: Result<Vec<String>, Error>)
        requires
            old(self).wf(),
        ensures
            final(self).wf(),
            final(self).bytes() == old(self).bytes(),
            r is Ok ==> old(self).offset() <= final(self).offset() <= final(self).bytes().len(),
            yields_names(
                r,
                final(self).offset(),
                parse_params(old(self).bytes(), old(self).offset(), Seq::empty()),
            ),
    {
        let ghost input = self.bytes();
        let ghost goal = parse_params(input, self.offset(), Seq::empty());
        let mut args: Vec<String> = Vec::new();
        assert(names_view(args@) =~= Seq::empty());
        proof {
            self.lemma_offset_in_range();
        }
        loop
            invariant
                self.wf(),
                self.bytes() == input,
                input == old(self).bytes(),
                old(self).offset() <= self.offset() <= input.len(),
                goal == parse_params(input, old(self).offset(), Seq::empty()),
                parse_params(input, self.offset(), names_view(args@)) == goal,
            decreases input.len() - self.offset(),
        {
            let t = match self.look() {
                None => {
                    return Err(Error::NoToken);
                },
                Some(t) => t,
            };
            let name = match t {
                Token::RParen => {
                    return Ok(args);
                },
                Token::Eof => {
                    return Ok(args);
                },
                Token::Ident(name) => name,
                _ => {
                    return Err(Error::BadFn);
                },
            };
            let _ = self.advance();
            let behind = match self.look() {
                None => {
                    return Err(Error::NoToken);
                },
                Some(t) => t,
            };
            proof {
                lemma_names_view_push(args@, name);
            }
            match behind {
                Token::RParen => {
                    args.push(name);
                    return Ok(args);
                },
                Token::Comma => {
                    let _ = self.advance();
                    match self.look() {
                        None => {
                            return Err(Error::NoToken);
                        },
                        Some(Token::Ident(_)) => {},
                        Some(_) => {
                            return Err(Error::BadFn);
                        },
                    }
                    args.push(name);
                },
                _ => {
                    return Err(Error::BadFn);
                },
            }
        }
    }

    /// Parses an array literal.
    fn array(&mut self) -> (r: Result<Expr, Error>)
        requires
            old(self).wf(),
        ensures
            final(self).wf(),
            final(self).bytes() == old(self).bytes(),
            r is Ok ==> advanced(old(self).bytes(), old(self).offset(), final(self).offset()),
            yields_expr(
                r,
                final(self).offset(),
                parse_array(old(self).bytes(), old(self).offset()),
            ),
        decreases old(self).bytes().len() - old(self).offset(), 1nat,
    {
        self.accept(Token::LBracket)?;
        let items = self.items()?;
        self.accept(Token::RBracket)?;
        Ok(Expr::Array(items))
    }

    /// Parses the elements of an array literal, up to `]`.
    fn items(&mut self) -> (r: Result<Vec<Expr>, Error>)
        requires
            old(self).wf(),
        ensures
            final(self).wf(),
            final(self).bytes() == old(self).bytes(),
            r is Ok ==> old(self).offset() <= final(self).offset() <= final(self).bytes().len(),
            yields_exprs(
                r,
                final(self).offset(),
                parse_items(old(self).bytes(), old(self).offset(), Seq::empty()),
            ),
        decreases old(self).bytes().len() - old(self).offset(), 5nat,
    {
        let ghost input = self.bytes();
        let ghost goal = parse_items(input, self.offset(), Seq::empty());
        let mut items: Vec<Expr> = Vec::new();
        assert(exprs_view(items@) =~= Seq::empty());
        proof {
            self.lemma_offset_in_range();
        }
        loop
            invariant
                self.wf(),
                self.bytes() == input,
                input == old(self).bytes(),
                old(self).offset() <= self.offset() <= input.len(),
                goal == parse_items(input, old(self).offset(), Seq::empty()),
                parse_items(input, self.offset(), exprs_view(items@)) == goal,
            decreases input.len() - self.offset(),
        {
            match self.look() {
                None => {
                    return Err(Error::NoToken);
                },
                Some(Token::RBracket) => {
                    return Ok(items);
                },
                Some(Token::Eof) => {
                    return Ok(items);
                },
                Some(_) => {},
            }
            let e = match self.expr(LOWEST_PRECEDENCE) {
                Err(_) => {
                    return Err(Error::BadArray);
                },
                Ok(e) => e,
            };
            proof {
                lemma_exprs_view_push(items@, e);
            }
            let behind = match self.look() {
                None => {
                    return Err(Error::NoToken);
                },
                Some(t) => t,
            };
            match behind {
                Token::RBracket => {
                    items.push(e);
                    return Ok(items);
                },
                Token::Comma => {
                    let _ = self.advance();
                    if let Some(Token::RBracket) = self.look() {
                        return Err(Error::BadArray);
                    }
                    items.push(e);
                },
                _ => {
                    return Err(Error::BadArray);
                },
            }
        }
    }

    /// Parses a hash literal.
    fn hash(&mut self) -> (r: Result<Expr, Error>)
        requires
            old(self).wf(),
        ensures
            final(self).wf(),
            final(self).bytes() == old(self).bytes(),
            r is Ok ==> advanced(old(self).bytes(), old(self).offset(), final(self).offset()),
            yields_expr(r, final(self).offset(), parse_hash(old(self).bytes(), old(self).offset())),
        decreases old(self).bytes().len() - old(self).offset(), 1nat,
    {
        self.accept(Token::LBrace)?;
        let pairs = self.pairs()?;
        self.accept(Token::RBrace)?;
        Ok(Expr::Hash(pairs))
    }

    /// Parses the pairs of a hash literal, up to `}`.
    fn pairs(&mut self) -> (r: Result<Vec<(Expr, Expr)>, Error>)
        requires
            old(self).wf(),
        ensures
            final(self).wf(),
            final(self).bytes() == old(self).bytes(),
            r is Ok ==> old(self).offset() <= final(self).offset() <= final(self).bytes().len(),
            yields_pairs(
                r,
                final(self).offset(),
                parse_pairs(old(self).bytes(), old(self).offset(), Seq::empty()),
            ),
        decreases old(self).bytes().len() - old(self).offset(), 5nat,
    {
        let ghost input = self.bytes();
        let ghost goal = parse_pairs(input, self.offset(), Seq::empty());
        let mut pairs: Vec<(Expr, Expr)> = Vec::new();
        assert(pairs_view(pairs@) =~= Seq::empty());
        proof {
            self.lemma_offset_in_range();
        }
        loop
            invariant
                self.wf(),
                self.bytes() == input,
                input == old(self).bytes(),
                old(self).offset() <= self.offset() <= input.len(),
                goal == parse_pairs(input, old(self).offset(), Seq::empty()),
                parse_pairs(input, self.offset(), pairs_view(pairs@)) == goal,
            decreases input.len() - self.offset(),
        {
            match self.look() {
                None => {
                    return Ok(pairs);
                },
                Some(Token::RBrace) => {
                    return Ok(pairs);
                },
                Some(_) => {},
            }
            let key = match self.expr(LOWEST_PRECEDENCE) {
                Err(e) => {
                    return Err(e);
                },
                Ok(e) => e,
            };
            match self.accept(Token::Colon) {
                Err(e) => {
                    return Err(e);
                },
                Ok(_) => {},
            }
            let value = match self.expr(LOWEST_PRECEDENCE) {
                Err(e) => {
                    return Err(e);
                },
                Ok(e) => e,
            };
            proof {
                lemma_pairs_view_push(pairs@, key, value);
            }
            let behind = match self.look() {
                None => {
                    return Err(Error::NoToken);
                },
                Some(t) => t,
            };
            match behind {
                Token::RBrace => {
                    pairs.push((key, value));
                    return Ok(pairs);
                },
                Token::Comma => {
                    let _ = self.advance();
                    if let Some(Token::RBrace) = self.look() {
                        return Err(Error::BadHash);
                    }
                    pairs.push((key, value));
                },
                _ => {
                    return Err(Error::BadHash);
                },
            }
        }
    }

    /// Parses the arguments of a call of `left`.
    fn call(&mut self, left: Rc<Expr>) -> (r: Result<Expr, Error>)
        requires
            old(self).wf(),
        ensures
            final(self).wf(),
            final(self).bytes() == old(self).bytes(),
            r is Ok ==> advanced(old(self).bytes(), old(self).offset(), final(self).offset()),
            yields_expr(
                r,
                final(self).offset(),
                parse_call(old(self).bytes(), old(self).offset(), (*left)@),
            ),
        decreases old(self).bytes().len() - old(self).offset(), 1nat,
    {
        self.accept(Token::LParen)?;
        let args = self.arguments()?;
        self.accept(Token::RParen)?;
        Ok(Expr::Call(Call { expr: left, args }))
    }

    /// Parses the arguments of a call, up to `)`.
    fn arguments(&mut self) -> (r: Result<Vec<Expr>, Error>)
        requires
            old(self).wf(),
        ensures
            final(self).wf(),
            final(self).bytes() == old(self).bytes(),
            r is Ok ==> old(self).offset() <= final(self).offset() <= final(self).bytes().len(),
            yields_exprs(
                r,
                final(self).offset(),
                parse_args(old(self).bytes(), old(self).offset(), Seq::empty()),
            ),
        decreases old(self).bytes().len() - old(self).offset(), 5nat,
    {
        let ghost input = self.bytes();
        let ghost goal = parse_args(input, self.offset(), Seq::empty());
        let mut args: Vec<Expr> = Vec::new();
        assert(exprs_view(args@) =~= Seq::empty());
        proof {
            self.lemma_offset_in_range();
        }
        loop
            invariant
                self.wf(),
                self.bytes() == input,
                input == old(self).bytes(),
                old(self).offset() <= self.offset() <= input.len(),
                goal == parse_args(input, old(self).offset(), Seq::empty()),
                parse_args(input, self.offset(), exprs_view(args@)) == goal,
            decreases input.len() - self.offset(),
        {
            match self.look() {
                None => {
                    return Err(Error::NoToken);
                },
                Some(Token::RParen) => {
                    return Ok(args);
                },
                Some(Token::Eof) => {
                    return Ok(args);
                },
                Some(_) => {},
            }
            let e = match self.expr(LOWEST_PRECEDENCE) {
                Err(_) => {
                    return Err(Error::BadCall);
                },
                Ok(e) => e,
            };
            proof {
                lemma_exprs_view_push(args@, e);
            }
            let behind = match self.look() {
                None => {
                    return Err(Error::NoToken);
                },
                Some(t) => t,
            };
            match behind {
                Token::RParen => {
                    args.push(e);
                    return Ok(args);
                },
                Token::Comma => {
                    let _ = self.advance();
                    args.push(e);
                },
                _ => {
                    return Err(Error::BadCall);
                },
            }
        }
    }

    /// Parses an index of `left`.
    fn indexer(&mut self, left: Rc<Expr>) -> (r: Result<Expr, Error>)
        requires
            old(self).wf(),
        ensures
            final(self).wf(),
            final(self).bytes() == old(self).bytes(),
            r is Ok ==> advanced(old(self).bytes(), old(self).offset(), final(self).offset()),
            yields_expr(
                r,
                final(self).offset(),
                parse_index(old(self).bytes(), old(self).offset(), (*left)@),
            ),
        decreases old(self).bytes().len() - old(self).offset(), 1nat,
    {
        self.accept(Token::LBracket)?;
        let index = self.expr(LOWEST_PRECEDENCE)?;
        self.accept(Token::RBracket)?;
        Ok(Expr::Infix(Box::new(Infix { left, token: Token::LBracket, right: index })))
    }
}

/// Parses a text: the program that it is, or what is wrong with it.
pub fn parse_text(text: Vec<u8>) -> (r: Result<Program, Error>)
    ensures
        match parse(text@) {
            Ok(stmts) => r is Ok && r->Ok_0@ == stmts,
            Err(e) => r is Err && r->Err_0@ == e,
        },
{
    let mut parser = Parser::new(Lexer::new(text));
    parser.program()
}

} // verus!
