//! The grammar, as functions from the input bytes and a position to a tree
//! and the position behind it.

use vstd::prelude::*;
use crate::lexer::scan::{lemma_next_token_advances, next_token};
use crate::lexer::tokens::{Keyword, TokenView};
use crate::parser::types::{ExprView, FnView};
use crate::text::parse_decimal;

verus! {

/// What goes wrong while a program is parsed, as a mathematical value.
pub enum ErrorView {
    ExpectedToken(TokenView),
    BadPrefix,
    BadReturn,
    BadInt,
    BadArray,
    BadInfix,
    BadCall,
    BadFn,
    BadHash,
    NoToken,
}

/// A parsed value and the position behind it, or an error.
pub type Parsed<T> = Result<(T, int), ErrorView>;

/// The precedence that binds nothing.
pub const LOWEST_PRECEDENCE: u8 = 0;

/// The precedence of the prefix operators.
pub const PREFIX_PRECEDENCE: u8 = 10;

/// The precedence of a call.
pub const CALL_PRECEDENCE: u8 = 12;

/// The precedence of indexing.
pub const INDEXER_PRECEDENCE: u8 = 15;

/// How tightly a token binds in infix position. A token that is no infix
/// operator has the precedence 100.
pub open spec fn precedence(t: TokenView) -> u8 {
    match t {
        TokenView::Eq | TokenView::Neq => 1,
        TokenView::Lt | TokenView::Gt => 2,
        TokenView::Plus | TokenView::Minus => 3,
        TokenView::Star | TokenView::Slash | TokenView::Percent => 4,
        TokenView::LParen => CALL_PRECEDENCE,
        TokenView::LBracket => INDEXER_PRECEDENCE,
        _ => 100,
    }
}

/// Whether a token is an arithmetic or comparison operator.
pub open spec fn is_operator(t: TokenView) -> bool {
    t is Plus || t is Minus || t is Star || t is Slash || t is Eq || t is Neq || t is Lt || t is Gt
        || t is Percent
}

/// `p` lies behind `pos` and within the input.
pub open spec fn advanced(input: Seq<u8>, pos: int, p: int) -> bool {
    0 <= pos < p <= input.len()
}

/// The next token at `pos` and the position behind it.
pub open spec fn take(input: Seq<u8>, pos: int) -> Option<(TokenView, int)> {
    match next_token(input, pos) {
        Some((t, end)) => if advanced(input, pos, end) {
            Some((t, end))
        } else {
            None
        },
        None => None,
    }
}

/// A result that lies behind `pos`.
pub open spec fn progress<T>(r: Parsed<T>, input: Seq<u8>, pos: int) -> Parsed<T> {
    match r {
        Ok((_, p)) => if advanced(input, pos, p) {
            r
        } else {
            Err(ErrorView::NoToken)
        },
        Err(_) => r,
    }
}

/// A result that does not lie before `pos`.
pub open spec fn kept<T>(r: Parsed<T>, input: Seq<u8>, pos: int) -> Parsed<T> {
    match r {
        Ok((_, p)) => if 0 <= pos <= p <= input.len() {
            r
        } else {
            Err(ErrorView::NoToken)
        },
        Err(_) => r,
    }
}

/// Within the input, taking a token is reading the next token.
pub proof fn lemma_take_is_next_token(input: Seq<u8>, pos: int)
    requires
        0 <= pos <= input.len(),
    ensures
        take(input, pos) == next_token(input, pos),
{
    lemma_next_token_advances(input, pos);
}

/// The position behind the token `t`, which must be the next one.
pub open spec fn expect(input: Seq<u8>, pos: int, t: TokenView) -> Parsed<TokenView> {
    match take(input, pos) {
        Some((found, end)) => if found == t {
            Ok((found, end))
        } else {
            Err(ErrorView::ExpectedToken(t))
        },
        None => Err(ErrorView::ExpectedToken(t)),
    }
}

/// The position behind an identifier, which must be the next token.
pub open spec fn expect_ident(input: Seq<u8>, pos: int) -> Parsed<TokenView> {
    match take(input, pos) {
        Some((TokenView::Ident(n), end)) => Ok((TokenView::Ident(n), end)),
        _ => Err(ErrorView::ExpectedToken(TokenView::Ident(Seq::empty()))),
    }
}

/// The position behind a semicolon where one is next, else `pos`.
pub open spec fn skip_semicolon(input: Seq<u8>, pos: int) -> int {
    match take(input, pos) {
        Some((TokenView::Semicolon, end)) => end,
        _ => pos,
    }
}

/// A function literal that is the value of a `let` gets the name.
pub open spec fn named(name: Seq<char>, value: ExprView) -> ExprView {
    match value {
        ExprView::Fn(f) => ExprView::Fn(FnView { name: Some(name), ..f }),
        _ => value,
    }
}

/// The statements from `pos` up to the end of the input or the `eof`
/// token, behind those in `acc`.
pub open spec fn parse_program(input: Seq<u8>, pos: int, acc: Seq<ExprView>) -> Result<
    Seq<ExprView>,
    ErrorView,
>
    decreases input.len() - pos, 7nat,
{
    match take(input, pos) {
        None => Ok(acc),
        Some((TokenView::Eof, _)) => Ok(acc),
        Some(_) => match progress(parse_statement(input, pos), input, pos) {
            Err(e) => Err(e),
            Ok((s, p)) => parse_program(input, p, acc.push(s)),
        },
    }
}

/// A statement: a `let`, a `return`, or an expression; a semicolon behind
/// it is taken where there is one.
pub open spec fn parse_statement(input: Seq<u8>, pos: int) -> Parsed<ExprView>
    decreases input.len() - pos, 6nat,
{
    match take(input, pos) {
        Some((TokenView::Keyword(Keyword::Let), _)) => parse_let(input, pos),
        Some((TokenView::Keyword(Keyword::Return), _)) => parse_return(input, pos),
        _ => match parse_expr(input, pos, LOWEST_PRECEDENCE) {
            Err(e) => Err(e),
            Ok((e, p)) => Ok((e, skip_semicolon(input, p))),
        },
    }
}

/// `let name = value`, with the name given to a value that is a function
/// literal.
pub open spec fn parse_let(input: Seq<u8>, pos: int) -> Parsed<ExprView>
    decreases input.len() - pos, 5nat,
{
    match expect(input, pos, TokenView::Keyword(Keyword::Let)) {
        Err(e) => Err(e),
        Ok((_, p1)) => match expect_ident(input, p1) {
            Err(e) => Err(e),
            Ok((ident, p2)) => match expect(input, p2, TokenView::Assign) {
                Err(e) => Err(e),
                Ok((_, p3)) => match parse_expr(input, p3, LOWEST_PRECEDENCE) {
                    Err(e) => Err(e),
                    Ok((value, p4)) => Ok(
                        (
                            ExprView::Let {
                                name: ident->Ident_0,
                                value: Box::new(named(ident->Ident_0, value)),
                            },
                            skip_semicolon(input, p4),
                        ),
                    ),
                },
            },
        },
    }
}

/// `return value`. Whatever is wrong with the value is a bad return.
pub open spec fn parse_return(input: Seq<u8>, pos: int) -> Parsed<ExprView>
    decreases input.len() - pos, 5nat,
{
    match expect(input, pos, TokenView::Keyword(Keyword::Return)) {
        Err(e) => Err(e),
        Ok((_, p1)) => match parse_expr(input, p1, LOWEST_PRECEDENCE) {
            Err(_) => Err(ErrorView::BadReturn),
            Ok((value, p2)) => Ok(
                (ExprView::Return(Box::new(value)), skip_semicolon(input, p2)),
            ),
        },
    }
}

/// The statements between `{` and `}`.
pub open spec fn parse_block(input: Seq<u8>, pos: int) -> Parsed<Seq<ExprView>>
    decreases input.len() - pos, 1nat,
{
    match expect(input, pos, TokenView::LBrace) {
        Err(e) => Err(e),
        Ok((_, p1)) => match parse_block_items(input, p1, Seq::empty()) {
            Err(e) => Err(e),
            Ok((stmts, p2)) => match expect(input, p2, TokenView::RBrace) {
                Err(e) => Err(e),
                Ok((_, p3)) => Ok((stmts, p3)),
            },
        },
    }
}

/// The statements from `pos` up to `}`, the `eof` token or the end of the
/// input, behind those in `acc`.
pub open spec fn parse_block_items(input: Seq<u8>, pos: int, acc: Seq<ExprView>) -> Parsed<
    Seq<ExprView>,
>
    decreases input.len() - pos, 7nat,
{
    match take(input, pos) {
        None => Ok((acc, pos)),
        Some((TokenView::Eof, _)) => Ok((acc, pos)),
        Some((TokenView::RBrace, _)) => Ok((acc, pos)),
        Some(_) => match progress(parse_statement(input, pos), input, pos) {
            Err(e) => Err(e),
            Ok((s, p)) => parse_block_items(input, p, acc.push(s)),
        },
    }
}

/// An expression whose operators bind tighter than `prec`: an operand,
/// and the operators, calls and indexings that follow it. Operators of
/// one precedence group to the left.
pub open spec fn parse_expr(input: Seq<u8>, pos: int, prec: u8) -> Parsed<ExprView>
    decreases input.len() - pos, 4nat,
{
    match progress(parse_prefix(input, pos), input, pos) {
        Err(e) => Err(e),
        Ok((left, p)) => parse_infix(input, p, prec, left),
    }
}

/// What follows the operand `left`: as long as the next token binds
/// tighter than `prec`, an operator with its right operand, the arguments
/// of a call, or an index.
pub open spec fn parse_infix(input: Seq<u8>, pos: int, prec: u8, left: ExprView) -> Parsed<ExprView>
    decreases input.len() - pos, 3nat,
{
    match take(input, pos) {
        None => Ok((left, pos)),
        Some((t, _)) => if t is Semicolon || prec >= precedence(t) {
            Ok((left, pos))
        } else if is_operator(t) || t is LParen || t is LBracket {
            match progress(parse_operation(input, pos, left), input, pos) {
                Err(e) => Err(e),
                Ok((combined, p)) => parse_infix(input, p, prec, combined),
            }
        } else {
            Ok((left, pos))
        },
    }
}

/// One operation on the operand `left`: an operator and its right
/// operand, whose own operators bind tighter than that operator; or the
/// arguments of a call of `left`; or an index of `left`.
pub open spec fn parse_operation(input: Seq<u8>, pos: int, left: ExprView) -> Parsed<ExprView>
    decreases input.len() - pos, 2nat,
{
    match take(input, pos) {
        None => Err(ErrorView::BadInfix),
        Some((t, end)) => if is_operator(t) {
            match parse_expr(input, end, precedence(t)) {
                Err(e) => Err(e),
                Ok((right, p)) => Ok(
                    (
                        ExprView::Infix { left: Box::new(left), token: t, right: Box::new(right) },
                        p,
                    ),
                ),
            }
        } else if t is LParen {
            parse_call(input, pos, left)
        } else if t is LBracket {
            parse_index(input, pos, left)
        } else {
            Err(ErrorView::BadInfix)
        },
    }
}

/// An operand: a literal, an identifier, a prefix operator with its
/// operand, a group in parentheses, a conditional, a function literal, an
/// array literal or a hash literal.
pub open spec fn parse_prefix(input: Seq<u8>, pos: int) -> Parsed<ExprView>
    decreases input.len() - pos, 3nat,
{
    match take(input, pos) {
        None => Err(ErrorView::BadPrefix),
        Some((t, end)) => match t {
            TokenView::Ident(name) => Ok((ExprView::Identifier(name), end)),
            TokenView::Int(digits) => match parse_decimal(digits) {
                Some(i) => Ok((ExprView::Int(i), end)),
                None => Err(ErrorView::BadInt),
            },
            TokenView::String(s) => Ok((ExprView::String(s), end)),
            TokenView::Keyword(Keyword::True) => Ok((ExprView::Bool(true), end)),
            TokenView::Keyword(Keyword::False) => Ok((ExprView::Bool(false), end)),
            TokenView::LParen => parse_group(input, pos),
            TokenView::Bang | TokenView::Minus => match parse_expr(input, end, PREFIX_PRECEDENCE) {
                Err(e) => Err(e),
                Ok((right, p)) => Ok((ExprView::Prefix { token: t, right: Box::new(right) }, p)),
            },
            TokenView::Keyword(Keyword::If) => parse_if(input, pos),
            TokenView::Keyword(Keyword::Function) => parse_fn(input, pos),
            TokenView::LBracket => parse_array(input, pos),
            TokenView::LBrace => parse_hash(input, pos),
            _ => Err(ErrorView::BadPrefix),
        },
    }
}

/// An expression in parentheses.
pub open spec fn parse_group(input: Seq<u8>, pos: int) -> Parsed<ExprView>
    decreases input.len() - pos, 1nat,
{
    match expect(input, pos, TokenView::LParen) {
        Err(e) => Err(e),
        Ok((_, p1)) => match parse_expr(input, p1, LOWEST_PRECEDENCE) {
            Err(e) => Err(e),
            Ok((e, p2)) => match expect(input, p2, TokenView::RParen) {
                Err(e) => Err(e),
                Ok((_, p3)) => Ok((e, p3)),
            },
        },
    }
}

/// `if (condition) { ... }`, with `else { ... }` behind it where there is
/// one.
pub open spec fn parse_if(input: Seq<u8>, pos: int) -> Parsed<ExprView>
    decreases input.len() - pos, 1nat,
{
    match expect(input, pos, TokenView::Keyword(Keyword::If)) {
        Err(e) => Err(e),
        Ok((_, p1)) => match expect(input, p1, TokenView::LParen) {
            Err(e) => Err(e),
            Ok((_, p2)) => match progress(parse_expr(input, p2, LOWEST_PRECEDENCE), input, p2) {
                Err(e) => Err(e),
                Ok((condition, p3)) => match expect(input, p3, TokenView::RParen) {
                    Err(e) => Err(e),
                    Ok((_, p4)) => match progress(parse_block(input, p4), input, p4) {
                        Err(e) => Err(e),
                        Ok((consequence, p5)) => match expect(
                            input,
                            p5,
                            TokenView::Keyword(Keyword::Else),
                        ) {
                            Err(_) => Ok(
                                (
                                    ExprView::If {
                                        condition: Box::new(condition),
                                        consequence,
                                        alternative: None,
                                    },
                                    p5,
                                ),
                            ),
                            Ok((_, p6)) => match parse_block(input, p6) {
                                Err(e) => Err(e),
                                Ok((alternative, p7)) => Ok(
                                    (
                                        ExprView::If {
                                            condition: Box::new(condition),
                                            consequence,
                                            alternative: Some(alternative),
                                        },
                                        p7,
                                    ),
                                ),
                            },
                        },
                    },
                },
            },
        },
    }
}

/// `fn (a, b) { ... }`. No comma stands behind the last parameter.
pub open spec fn parse_fn(input: Seq<u8>, pos: int) -> Parsed<ExprView>
    decreases input.len() - pos, 1nat,
{
    match expect(input, pos, TokenView::Keyword(Keyword::Function)) {
        Err(e) => Err(e),
        Ok((_, p1)) => match expect(input, p1, TokenView::LParen) {
            Err(e) => Err(e),
            Ok((_, p2)) => match kept(parse_params(input, p2, Seq::empty()), input, p2) {
                Err(e) => Err(e),
                Ok((args, p3)) => match expect(input, p3, TokenView::RParen) {
                    Err(e) => Err(e),
                    Ok((_, p4)) => match parse_block(input, p4) {
                        Err(e) => Err(e),
                        Ok((body, p5)) => Ok(
                            (ExprView::Fn(FnView { name: None, args, body }), p5),
                        ),
                    },
                },
            },
        },
    }
}

/// The parameters from `pos` up to `)`, behind those in `acc`.
pub open spec fn parse_params(input: Seq<u8>, pos: int, acc: Seq<Seq<char>>) -> Parsed<
    Seq<Seq<char>>,
>
    decreases input.len() - pos,
{
    match take(input, pos) {
        None => Err(ErrorView::NoToken),
        Some((TokenView::RParen, _)) => Ok((acc, pos)),
        Some((TokenView::Eof, _)) => Ok((acc, pos)),
        Some((TokenView::Ident(name), p1)) => match take(input, p1) {
            None => Err(ErrorView::NoToken),
            Some((TokenView::RParen, _)) => Ok((acc.push(name), p1)),
            Some((TokenView::Comma, p2)) => match take(input, p2) {
                None => Err(ErrorView::NoToken),
                Some((TokenView::Ident(_), _)) => parse_params(input, p2, acc.push(name)),
                Some(_) => Err(ErrorView::BadFn),
            },
            Some(_) => Err(ErrorView::BadFn),
        },
        Some(_) => Err(ErrorView::BadFn),
    }
}

/// `[a, b]`. No comma stands behind the last element.
pub open spec fn parse_array(input: Seq<u8>, pos: int) -> Parsed<ExprView>
    decreases input.len() - pos, 1nat,
{
    match expect(input, pos, TokenView::LBracket) {
        Err(e) => Err(e),
        Ok((_, p1)) => match parse_items(input, p1, Seq::empty()) {
            Err(e) => Err(e),
            Ok((items, p2)) => match expect(input, p2, TokenView::RBracket) {
                Err(e) => Err(e),
                Ok((_, p3)) => Ok((ExprView::Array(items), p3)),
            },
        },
    }
}

/// The elements from `pos` up to `]`, behind those in `acc`.
pub open spec fn parse_items(input: Seq<u8>, pos: int, acc: Seq<ExprView>) -> Parsed<Seq<ExprView>>
    decreases input.len() - pos, 5nat,
{
    match take(input, pos) {
        None => Err(ErrorView::NoToken),
        Some((TokenView::RBracket, _)) => Ok((acc, pos)),
        Some((TokenView::Eof, _)) => Ok((acc, pos)),
        Some(_) => match progress(parse_expr(input, pos, LOWEST_PRECEDENCE), input, pos) {
            Err(_) => Err(ErrorView::BadArray),
            Ok((e, p1)) => match take(input, p1) {
                None => Err(ErrorView::NoToken),
                Some((TokenView::RBracket, _)) => Ok((acc.push(e), p1)),
                Some((TokenView::Comma, p2)) => match take(input, p2) {
                    Some((TokenView::RBracket, _)) => Err(ErrorView::BadArray),
                    _ => parse_items(input, p2, acc.push(e)),
                },
                Some(_) => Err(ErrorView::BadArray),
            },
        },
    }
}

/// `{k: v, k: v}`. No comma stands behind the last pair.
pub open spec fn parse_hash(input: Seq<u8>, pos: int) -> Parsed<ExprView>
    decreases input.len() - pos, 1nat,
{
    match expect(input, pos, TokenView::LBrace) {
        Err(e) => Err(e),
        Ok((_, p1)) => match parse_pairs(input, p1, Seq::empty()) {
            Err(e) => Err(e),
            Ok((pairs, p2)) => match expect(input, p2, TokenView::RBrace) {
                Err(e) => Err(e),
                Ok((_, p3)) => Ok((ExprView::Hash(pairs), p3)),
            },
        },
    }
}

/// The pairs from `pos` up to `}`, behind those in `acc`.
pub open spec fn parse_pairs(input: Seq<u8>, pos: int, acc: Seq<(ExprView, ExprView)>) -> Parsed<
    Seq<(ExprView, ExprView)>,
>
    decreases input.len() - pos, 5nat,
{
    match take(input, pos) {
        None => Ok((acc, pos)),
        Some((TokenView::RBrace, _)) => Ok((acc, pos)),
        Some(_) => match progress(parse_expr(input, pos, LOWEST_PRECEDENCE), input, pos) {
            Err(e) => Err(e),
            Ok((key, p1)) => match expect(input, p1, TokenView::Colon) {
                Err(e) => Err(e),
                Ok((_, p2)) => match progress(
                    parse_expr(input, p2, LOWEST_PRECEDENCE),
                    input,
                    p2,
                ) {
                    Err(e) => Err(e),
                    Ok((value, p3)) => match take(input, p3) {
                        None => Err(ErrorView::NoToken),
                        Some((TokenView::RBrace, _)) => Ok((acc.push((key, value)), p3)),
                        Some((TokenView::Comma, p4)) => match take(input, p4) {
                            Some((TokenView::RBrace, _)) => Err(ErrorView::BadHash),
                            _ => parse_pairs(input, p4, acc.push((key, value))),
                        },
                        Some(_) => Err(ErrorView::BadHash),
                    },
                },
            },
        },
    }
}

/// The arguments of a call of `callee`, between `(` and `)`.
pub open spec fn parse_call(input: Seq<u8>, pos: int, callee: ExprView) -> Parsed<ExprView>
    decreases input.len() - pos, 1nat,
{
    match expect(input, pos, TokenView::LParen) {
        Err(e) => Err(e),
        Ok((_, p1)) => match parse_args(input, p1, Seq::empty()) {
            Err(e) => Err(e),
            Ok((args, p2)) => match expect(input, p2, TokenView::RParen) {
                Err(e) => Err(e),
                Ok((_, p3)) => Ok((ExprView::Call { callee: Box::new(callee), args }, p3)),
            },
        },
    }
}

/// The arguments from `pos` up to `)`, behind those in `acc`.
pub open spec fn parse_args(input: Seq<u8>, pos: int, acc: Seq<ExprView>) -> Parsed<Seq<ExprView>>
    decreases input.len() - pos, 5nat,
{
    match take(input, pos) {
        None => Err(ErrorView::NoToken),
        Some((TokenView::RParen, _)) => Ok((acc, pos)),
        Some((TokenView::Eof, _)) => Ok((acc, pos)),
        Some(_) => match progress(parse_expr(input, pos, LOWEST_PRECEDENCE), input, pos) {
            Err(_) => Err(ErrorView::BadCall),
            Ok((e, p1)) => match take(input, p1) {
                None => Err(ErrorView::NoToken),
                Some((TokenView::RParen, _)) => Ok((acc.push(e), p1)),
                Some((TokenView::Comma, p2)) => parse_args(input, p2, acc.push(e)),
                Some(_) => Err(ErrorView::BadCall),
            },
        },
    }
}

/// The index of `left`, between `[` and `]`.
pub open spec fn parse_index(input: Seq<u8>, pos: int, left: ExprView) -> Parsed<ExprView>
    decreases input.len() - pos, 1nat,
{
    match expect(input, pos, TokenView::LBracket) {
        Err(e) => Err(e),
        Ok((_, p1)) => match parse_expr(input, p1, LOWEST_PRECEDENCE) {
            Err(e) => Err(e),
            Ok((index, p2)) => match expect(input, p2, TokenView::RBracket) {
                Err(e) => Err(e),
                Ok((_, p3)) => Ok(
                    (
                        ExprView::Infix {
                            left: Box::new(left),
                            token: TokenView::LBracket,
                            right: Box::new(index),
                        },
                        p3,
                    ),
                ),
            },
        },
    }
}

/// A function literal that is the value of a `let` carries the name that
/// the `let` binds.
pub proof fn lemma_let_names_function(input: Seq<u8>, pos: int)
    ensures
        parse_let(input, pos) matches Ok((ExprView::Let { name, value }, _)) ==> (*value
            matches ExprView::Fn(f) ==> f.name == Some(name)),
{
}

/// The program that a text is, or what is wrong with it.
pub open spec fn parse(input: Seq<u8>) -> Result<Seq<ExprView>, ErrorView> {
    parse_program(input, 0, Seq::empty())
}

} // verus!
