//! What the parser yields, the printer can print so that the parser reads
//! it back.

use vstd::prelude::*;
use crate::lexer::spelling::{is_ascii_input, is_name, is_plain, lemma_token_shapes};
use crate::lexer::tokens::{Keyword, TokenView};
use crate::parser::grammar::{
    expect, expect_ident, is_operator, kept, parse, parse_args, parse_array, parse_block,
    parse_block_items, parse_call, parse_expr, parse_fn, parse_group, parse_hash, parse_if,
    parse_index, parse_infix, parse_items, parse_let, parse_operation, parse_pairs, parse_params,
    parse_prefix, parse_program, parse_return, parse_statement, precedence, progress, take,
    LOWEST_PRECEDENCE, PREFIX_PRECEDENCE,
};
use crate::parser::reading::{
    printable, printable_block, printable_list, printable_names, printable_pairs,
    printable_statement,
};
use crate::parser::types::ExprView;

verus! {

/// In an input of ASCII characters, every identifier that is taken is a
/// name and every string that is taken can stand between double quotes.
proof fn lemma_taken(input: Seq<u8>, pos: int)
    requires
        is_ascii_input(input),
    ensures
        match take(input, pos) {
            Some((TokenView::Ident(w), _)) => is_name(w),
            Some((TokenView::String(s), _)) => is_plain(s),
            _ => true,
        },
{
    if take(input, pos) is Some {
        lemma_token_shapes(input, pos);
    }
}

proof fn lemma_block_push(acc: Seq<ExprView>, s: ExprView)
    requires
        printable_block(acc),
        printable_statement(s),
    ensures
        printable_block(acc.push(s)),
{
    assert forall|i: int| 0 <= i < acc.push(s).len() implies printable_statement(
        #[trigger] acc.push(s)[i],
    ) by {
        if i < acc.len() {
            assert(acc.push(s)[i] == acc[i]);
        }
    }
}

proof fn lemma_list_push(acc: Seq<ExprView>, e: ExprView)
    requires
        printable_list(acc),
        printable(e),
    ensures
        printable_list(acc.push(e)),
{
    assert forall|i: int| 0 <= i < acc.push(e).len() implies printable(
        #[trigger] acc.push(e)[i],
    ) by {
        if i < acc.len() {
            assert(acc.push(e)[i] == acc[i]);
        }
    }
}

proof fn lemma_pairs_push(acc: Seq<(ExprView, ExprView)>, k: ExprView, v: ExprView)
    requires
        printable_pairs(acc),
        printable(k),
        printable(v),
    ensures
        printable_pairs(acc.push((k, v))),
{
    assert forall|i: int| 0 <= i < acc.push((k, v)).len() implies printable(
        (#[trigger] acc.push((k, v))[i]).0,
    ) && printable(acc.push((k, v))[i].1) by {
        if i < acc.len() {
            assert(acc.push((k, v))[i] == acc[i]);
        }
    }
}

proof fn lemma_names_push(acc: Seq<Seq<char>>, n: Seq<char>)
    requires
        printable_names(acc),
        is_name(n),
    ensures
        printable_names(acc.push(n)),
{
    assert forall|i: int| 0 <= i < acc.push(n).len() implies is_name(
        #[trigger] acc.push(n)[i],
    ) by {
        if i < acc.len() {
            assert(acc.push(n)[i] == acc[i]);
        }
    }
}

/// The statements of a program that the parser yields are printable.
pub proof fn lemma_yields_program(input: Seq<u8>, pos: int, acc: Seq<ExprView>)
    requires
        is_ascii_input(input),
        printable_block(acc),
    ensures
        parse_program(input, pos, acc) matches Ok(stmts) ==> printable_block(stmts),
    decreases input.len() - pos, 7nat,
{
    match take(input, pos) {
        None => {},
        Some((TokenView::Eof, _)) => {},
        Some(_) => {
            match progress(parse_statement(input, pos), input, pos) {
                Ok((s, p)) => {
                    lemma_yields_statement(input, pos);
                    lemma_block_push(acc, s);
                    lemma_yields_program(input, p, acc.push(s));
                },
                Err(_) => {},
            }
        },
    }
}

proof fn lemma_yields_statement(input: Seq<u8>, pos: int)
    requires
        is_ascii_input(input),
    ensures
        parse_statement(input, pos) matches Ok((s, _)) ==> printable_statement(s),
    decreases input.len() - pos, 6nat,
{
    match take(input, pos) {
        Some((TokenView::Keyword(Keyword::Let), _)) => {
            lemma_yields_let(input, pos);
        },
        Some((TokenView::Keyword(Keyword::Return), _)) => {
            lemma_yields_return(input, pos);
        },
        _ => {
            lemma_yields_expr(input, pos, LOWEST_PRECEDENCE);
        },
    }
}

proof fn lemma_yields_let(input: Seq<u8>, pos: int)
    requires
        is_ascii_input(input),
    ensures
        parse_let(input, pos) matches Ok((s, _)) ==> printable_statement(s),
    decreases input.len() - pos, 5nat,
{
    match expect(input, pos, TokenView::Keyword(Keyword::Let)) {
        Ok((_, p1)) => {
            lemma_taken(input, p1);
            match expect_ident(input, p1) {
                Ok((ident, p2)) => {
                    match expect(input, p2, TokenView::Assign) {
                        Ok((_, p3)) => {
                            lemma_yields_expr(input, p3, LOWEST_PRECEDENCE);
                        },
                        Err(_) => {},
                    }
                },
                Err(_) => {},
            }
        },
        Err(_) => {},
    }
}

proof fn lemma_yields_return(input: Seq<u8>, pos: int)
    requires
        is_ascii_input(input),
    ensures
        parse_return(input, pos) matches Ok((s, _)) ==> printable_statement(s),
    decreases input.len() - pos, 5nat,
{
    match expect(input, pos, TokenView::Keyword(Keyword::Return)) {
        Ok((_, p1)) => {
            lemma_yields_expr(input, p1, LOWEST_PRECEDENCE);
        },
        Err(_) => {},
    }
}

proof fn lemma_yields_block(input: Seq<u8>, pos: int)
    requires
        is_ascii_input(input),
    ensures
        parse_block(input, pos) matches Ok((stmts, _)) ==> printable_block(stmts),
    decreases input.len() - pos, 1nat,
{
    match expect(input, pos, TokenView::LBrace) {
        Ok((_, p1)) => {
            lemma_yields_block_items(input, p1, Seq::empty());
        },
        Err(_) => {},
    }
}

proof fn lemma_yields_block_items(input: Seq<u8>, pos: int, acc: Seq<ExprView>)
    requires
        is_ascii_input(input),
        printable_block(acc),
    ensures
        parse_block_items(input, pos, acc) matches Ok((stmts, _)) ==> printable_block(stmts),
    decreases input.len() - pos, 7nat,
{
    match take(input, pos) {
        None => {},
        Some((TokenView::Eof, _)) => {},
        Some((TokenView::RBrace, _)) => {},
        Some(_) => {
            match progress(parse_statement(input, pos), input, pos) {
                Ok((s, p)) => {
                    lemma_yields_statement(input, pos);
                    lemma_block_push(acc, s);
                    lemma_yields_block_items(input, p, acc.push(s));
                },
                Err(_) => {},
            }
        },
    }
}

proof fn lemma_yields_expr(input: Seq<u8>, pos: int, prec: u8)
    requires
        is_ascii_input(input),
    ensures
        parse_expr(input, pos, prec) matches Ok((e, _)) ==> printable(e),
    decreases input.len() - pos, 4nat,
{
    match progress(parse_prefix(input, pos), input, pos) {
        Ok((left, p)) => {
            lemma_yields_prefix(input, pos);
            lemma_yields_infix(input, p, prec, left);
        },
        Err(_) => {},
    }
}

proof fn lemma_yields_infix(input: Seq<u8>, pos: int, prec: u8, left: ExprView)
    requires
        is_ascii_input(input),
        printable(left),
    ensures
        parse_infix(input, pos, prec, left) matches Ok((e, _)) ==> printable(e),
    decreases input.len() - pos, 3nat,
{
    match take(input, pos) {
        None => {},
        Some((t, _)) => {
            if t is Semicolon || prec >= precedence(t) {
            } else if is_operator(t) || t is LParen || t is LBracket {
                match progress(parse_operation(input, pos, left), input, pos) {
                    Ok((combined, p)) => {
                        lemma_yields_operation(input, pos, left);
                        lemma_yields_infix(input, p, prec, combined);
                    },
                    Err(_) => {},
                }
            }
        },
    }
}

proof fn lemma_yields_operation(input: Seq<u8>, pos: int, left: ExprView)
    requires
        is_ascii_input(input),
        printable(left),
    ensures
        parse_operation(input, pos, left) matches Ok((e, _)) ==> printable(e),
    decreases input.len() - pos, 2nat,
{
    match take(input, pos) {
        None => {},
        Some((t, end)) => {
            if is_operator(t) {
                lemma_yields_expr(input, end, precedence(t));
            } else if t is LParen {
                lemma_yields_call(input, pos, left);
            } else if t is LBracket {
                lemma_yields_index(input, pos, left);
            }
        },
    }
}

proof fn lemma_yields_prefix(input: Seq<u8>, pos: int)
    requires
        is_ascii_input(input),
    ensures
        parse_prefix(input, pos) matches Ok((e, _)) ==> printable(e),
    decreases input.len() - pos, 3nat,
{
    lemma_taken(input, pos);
    match take(input, pos) {
        None => {},
        Some((t, end)) => {
            match t {
                TokenView::LParen => {
                    lemma_yields_group(input, pos);
                },
                TokenView::Bang => {
                    lemma_yields_expr(input, end, PREFIX_PRECEDENCE);
                },
                TokenView::Minus => {
                    lemma_yields_expr(input, end, PREFIX_PRECEDENCE);
                },
                TokenView::Keyword(Keyword::If) => {
                    lemma_yields_if(input, pos);
                },
                TokenView::Keyword(Keyword::Function) => {
                    lemma_yields_fn(input, pos);
                },
                TokenView::LBracket => {
                    lemma_yields_array(input, pos);
                },
                TokenView::LBrace => {
                    lemma_yields_hash(input, pos);
                },
                _ => {},
            }
        },
    }
}

proof fn lemma_yields_group(input: Seq<u8>, pos: int)
    requires
        is_ascii_input(input),
    ensures
        parse_group(input, pos) matches Ok((e, _)) ==> printable(e),
    decreases input.len() - pos, 1nat,
{
    match expect(input, pos, TokenView::LParen) {
        Ok((_, p1)) => {
            lemma_yields_expr(input, p1, LOWEST_PRECEDENCE);
        },
        Err(_) => {},
    }
}

proof fn lemma_yields_if(input: Seq<u8>, pos: int)
    requires
        is_ascii_input(input),
    ensures
        parse_if(input, pos) matches Ok((e, _)) ==> printable(e),
    decreases input.len() - pos, 1nat,
{
    match expect(input, pos, TokenView::Keyword(Keyword::If)) {
        Ok((_, p1)) => match expect(input, p1, TokenView::LParen) {
            Ok((_, p2)) => match progress(
                parse_expr(input, p2, LOWEST_PRECEDENCE),
                input,
                p2,
            ) {
                Ok((condition, p3)) => {
                    lemma_yields_expr(input, p2, LOWEST_PRECEDENCE);
                    match expect(input, p3, TokenView::RParen) {
                        Ok((_, p4)) => match progress(parse_block(input, p4), input, p4) {
                            Ok((consequence, p5)) => {
                                lemma_yields_block(input, p4);
                                match expect(input, p5, TokenView::Keyword(Keyword::Else)) {
                                    Ok((_, p6)) => {
                                        lemma_yields_block(input, p6);
                                    },
                                    Err(_) => {},
                                }
                            },
                            Err(_) => {},
                        },
                        Err(_) => {},
                    }
                },
                Err(_) => {},
            },
            Err(_) => {},
        },
        Err(_) => {},
    }
}

proof fn lemma_yields_fn(input: Seq<u8>, pos: int)
    requires
        is_ascii_input(input),
    ensures
        parse_fn(input, pos) matches Ok((e, _)) ==> printable(e),
    decreases input.len() - pos, 1nat,
{
    match expect(input, pos, TokenView::Keyword(Keyword::Function)) {
        Ok((_, p1)) => match expect(input, p1, TokenView::LParen) {
            Ok((_, p2)) => match kept(parse_params(input, p2, Seq::empty()), input, p2) {
                Ok((args, p3)) => {
                    lemma_yields_params(input, p2, Seq::empty());
                    match expect(input, p3, TokenView::RParen) {
                        Ok((_, p4)) => {
                            lemma_yields_block(input, p4);
                        },
                        Err(_) => {},
                    }
                },
                Err(_) => {},
            },
            Err(_) => {},
        },
        Err(_) => {},
    }
}

proof fn lemma_yields_params(input: Seq<u8>, pos: int, acc: Seq<Seq<char>>)
    requires
        is_ascii_input(input),
        printable_names(acc),
    ensures
        parse_params(input, pos, acc) matches Ok((names, _)) ==> printable_names(names),
    decreases input.len() - pos,
{
    lemma_taken(input, pos);
    match take(input, pos) {
        Some((TokenView::Ident(name), p1)) => {
            lemma_names_push(acc, name);
            match take(input, p1) {
                Some((TokenView::Comma, p2)) => {
                    match take(input, p2) {
                        Some((TokenView::Ident(_), _)) => {
                            lemma_yields_params(input, p2, acc.push(name));
                        },
                        _ => {},
                    }
                },
                _ => {},
            }
        },
        _ => {},
    }
}

proof fn lemma_yields_array(input: Seq<u8>, pos: int)
    requires
        is_ascii_input(input),
    ensures
        parse_array(input, pos) matches Ok((e, _)) ==> printable(e),
    decreases input.len() - pos, 1nat,
{
    match expect(input, pos, TokenView::LBracket) {
        Ok((_, p1)) => {
            lemma_yields_items(input, p1, Seq::empty());
        },
        Err(_) => {},
    }
}

proof fn lemma_yields_items(input: Seq<u8>, pos: int, acc: Seq<ExprView>)
    requires
        is_ascii_input(input),
        printable_list(acc),
    ensures
        parse_items(input, pos, acc) matches Ok((items, _)) ==> printable_list(items),
    decreases input.len() - pos, 5nat,
{
    match take(input, pos) {
        None => {},
        Some((TokenView::RBracket, _)) => {},
        Some((TokenView::Eof, _)) => {},
        Some(_) => {
            match progress(parse_expr(input, pos, LOWEST_PRECEDENCE), input, pos) {
                Ok((e, p1)) => {
                    lemma_yields_expr(input, pos, LOWEST_PRECEDENCE);
                    lemma_list_push(acc, e);
                    match take(input, p1) {
                        Some((TokenView::Comma, p2)) => {
                            match take(input, p2) {
                                Some((TokenView::RBracket, _)) => {},
                                _ => {
                                    lemma_yields_items(input, p2, acc.push(e));
                                },
                            }
                        },
                        _ => {},
                    }
                },
                Err(_) => {},
            }
        },
    }
}

proof fn lemma_yields_hash(input: Seq<u8>, pos: int)
    requires
        is_ascii_input(input),
    ensures
        parse_hash(input, pos) matches Ok((e, _)) ==> printable(e),
    decreases input.len() - pos, 1nat,
{
    match expect(input, pos, TokenView::LBrace) {
        Ok((_, p1)) => {
            lemma_yields_pairs(input, p1, Seq::empty());
        },
        Err(_) => {},
    }
}

proof fn lemma_yields_pairs(input: Seq<u8>, pos: int, acc: Seq<(ExprView, ExprView)>)
    requires
        is_ascii_input(input),
        printable_pairs(acc),
    ensures
        parse_pairs(input, pos, acc) matches Ok((pairs, _)) ==> printable_pairs(pairs),
    decreases input.len() - pos, 5nat,
{
    match take(input, pos) {
        None => {},
        Some((TokenView::RBrace, _)) => {},
        Some(_) => {
            match progress(parse_expr(input, pos, LOWEST_PRECEDENCE), input, pos) {
                Ok((key, p1)) => {
                    lemma_yields_expr(input, pos, LOWEST_PRECEDENCE);
                    match expect(input, p1, TokenView::Colon) {
                        Ok((_, p2)) => {
                            match progress(
                                parse_expr(input, p2, LOWEST_PRECEDENCE),
                                input,
                                p2,
                            ) {
                                Ok((value, p3)) => {
                                    lemma_yields_expr(input, p2, LOWEST_PRECEDENCE);
                                    lemma_pairs_push(acc, key, value);
                                    match take(input, p3) {
                                        Some((TokenView::Comma, p4)) => {
                                            match take(input, p4) {
                                                Some((TokenView::RBrace, _)) => {},
                                                _ => {
                                                    lemma_yields_pairs(
                                                        input,
                                                        p4,
                                                        acc.push((key, value)),
                                                    );
                                                },
                                            }
                                        },
                                        _ => {},
                                    }
                                },
                                Err(_) => {},
                            }
                        },
                        Err(_) => {},
                    }
                },
                Err(_) => {},
            }
        },
    }
}

proof fn lemma_yields_call(input: Seq<u8>, pos: int, callee: ExprView)
    requires
        is_ascii_input(input),
        printable(callee),
    ensures
        parse_call(input, pos, callee) matches Ok((e, _)) ==> printable(e),
    decreases input.len() - pos, 1nat,
{
    match expect(input, pos, TokenView::LParen) {
        Ok((_, p1)) => {
            lemma_yields_args(input, p1, Seq::empty());
        },
        Err(_) => {},
    }
}

proof fn lemma_yields_args(input: Seq<u8>, pos: int, acc: Seq<ExprView>)
    requires
        is_ascii_input(input),
        printable_list(acc),
    ensures
        parse_args(input, pos, acc) matches Ok((args, _)) ==> printable_list(args),
    decreases input.len() - pos, 5nat,
{
    match take(input, pos) {
        None => {},
        Some((TokenView::RParen, _)) => {},
        Some((TokenView::Eof, _)) => {},
        Some(_) => {
            match progress(parse_expr(input, pos, LOWEST_PRECEDENCE), input, pos) {
                Ok((e, p1)) => {
                    lemma_yields_expr(input, pos, LOWEST_PRECEDENCE);
                    lemma_list_push(acc, e);
                    match take(input, p1) {
                        Some((TokenView::Comma, p2)) => {
                            lemma_yields_args(input, p2, acc.push(e));
                        },
                        _ => {},
                    }
                },
                Err(_) => {},
            }
        },
    }
}

proof fn lemma_yields_index(input: Seq<u8>, pos: int, left: ExprView)
    requires
        is_ascii_input(input),
        printable(left),
    ensures
        parse_index(input, pos, left) matches Ok((e, _)) ==> printable(e),
    decreases input.len() - pos, 1nat,
{
    match expect(input, pos, TokenView::LBracket) {
        Ok((_, p1)) => {
            lemma_yields_expr(input, p1, LOWEST_PRECEDENCE);
        },
        Err(_) => {},
    }
}

/// In an input of ASCII characters, the program that the parser yields is
/// printable.
pub proof fn lemma_parsed_is_printable(input: Seq<u8>)
    requires
        is_ascii_input(input),
    ensures
        parse(input) matches Ok(stmts) ==> printable_block(stmts),
{
    lemma_yields_program(input, 0, Seq::empty());
}

} // verus!
