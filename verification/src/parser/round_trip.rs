//! The parser reads back what the printer prints.

use vstd::prelude::*;
use crate::lexer::scan::{in_class, ByteClass};
use crate::lexer::spelling::{
    ascii_bytes, blank, has, is_ascii_input, lemma_has_byte, lemma_has_concat, lemma_read_eq,
    lemma_read_neq, lemma_read_number, lemma_skip_blank, stops,
};
use crate::parser::yields::lemma_parsed_is_printable;
use crate::lexer::tokens::{token_text, Keyword, TokenView};
use crate::parser::grammar::{
    is_operator, named, parse, parse_args, parse_array, parse_block, parse_block_items,
    parse_call, parse_expr, parse_fn, parse_group, parse_hash, parse_if, parse_index,
    parse_infix, parse_items, parse_let, parse_operation, parse_pairs, parse_params,
    parse_prefix, parse_program, parse_return, parse_statement, precedence, take, ErrorView,
    LOWEST_PRECEDENCE, PREFIX_PRECEDENCE,
};
use crate::parser::printer::{render, render_program};
use crate::parser::reading::{
    block_text, items_text, lemma_blank_end, lemma_has3, lemma_has4, lemma_has5, lemma_layout_array,
    lemma_layout_call, lemma_layout_fn, lemma_layout_hash, lemma_layout_if, lemma_literals,
    lemma_opens, lemma_piece_assign, lemma_piece_block_open, lemma_piece_colon, lemma_piece_comma,
    lemma_piece_else, lemma_piece_fn, lemma_piece_if, lemma_piece_index_close, lemma_piece_lbrace,
    lemma_piece_lbracket, lemma_piece_let, lemma_piece_lparen, lemma_piece_prefix,
    lemma_piece_rbrace, lemma_piece_rbracket, lemma_piece_return, lemma_piece_rparen,
    lemma_piece_semicolon, lemma_piece_string, lemma_render_block, lemma_render_ignores_name,
    lemma_stop, lemma_take_delimiter, lemma_take_keyword, lemma_take_name, lemma_take_symbol,
    more_items, more_names, more_pairs, names_text, pair_text, pairs_text, printable,
    printable_block, printable_list, printable_names, printable_pairs, printable_statement, width,
};
use crate::parser::types::{ExprView, FnView};

verus! {

/// The first byte of the text of an expression is no `=`.
proof fn lemma_no_equals_first(input: Seq<u8>, q: int, e: ExprView)
    requires
        printable(e),
        has(input, q, render(e)),
        stops(input, q + width(e)),
    ensures
        q + 1 <= input.len(),
        input[q] != 61,
{
    assert(blank(input, q, 0));
    lemma_opens(input, q, 0, e);
    if input[q] == 61 {
        lemma_skip_blank(input, q, 0);
    }
}

/// An operator is taken where its text stands.
proof fn lemma_take_operator(input: Seq<u8>, q: int, t: TokenView)
    requires
        is_operator(t),
        has(input, q, token_text(t)),
        q + token_text(t).len() < input.len(),
        input[q + token_text(t).len()] != 61,
    ensures
        take(input, q) == Some((t, q + token_text(t).len())),
        stops(input, q),
        1 <= precedence(t) <= 4,
        token_text(t).len() > 0,
{
    lemma_literals();
    assert(blank(input, q, 0));
    lemma_has_byte(input, q, token_text(t), 0);
    match t {
        TokenView::Plus => lemma_take_symbol(input, q, 0, 43),
        TokenView::Minus => lemma_take_symbol(input, q, 0, 45),
        TokenView::Star => lemma_take_symbol(input, q, 0, 42),
        TokenView::Slash => lemma_take_symbol(input, q, 0, 47),
        TokenView::Lt => lemma_take_symbol(input, q, 0, 60),
        TokenView::Gt => lemma_take_symbol(input, q, 0, 62),
        TokenView::Percent => lemma_take_symbol(input, q, 0, 37),
        TokenView::Eq => {
            lemma_has_byte(input, q, token_text(t), 1);
            lemma_read_eq(input, q, 0);
        },
        TokenView::Neq => {
            lemma_has_byte(input, q, token_text(t), 1);
            lemma_read_neq(input, q, 0);
        },
        _ => {},
    }
}

/// The parser reads an expression back: where the text of `e` stands
/// behind `k` spaces and a delimiter follows, parsing an expression gets
/// as far as `e` and goes on behind its text.
pub proof fn lemma_reads_expr(input: Seq<u8>, q: int, k: int, e: ExprView, prec: u8)
    requires
        printable(e),
        blank(input, q, k),
        has(input, q + k, render(e)),
        stops(input, q + k + width(e)),
        prec <= 10,
    ensures
        parse_expr(input, q, prec) == parse_infix(input, q + k + width(e), prec, e),
        width(e) > 0,
    decreases e, 2nat,
{
    lemma_opens(input, q, k, e);
    match e {
        ExprView::Call { callee, args } => {
            lemma_layout_call(*callee, args);
            lemma_has4(input, q + k, render(*callee), "("@, items_text(args), ")"@);
            let qc = q + k + width(*callee);
            assert(blank(input, qc, 0));
            assert(blank(input, qc + 1 + items_text(args).len(), 0));
            lemma_piece_lparen(input, qc, 0);
            lemma_piece_rparen(input, qc + 1 + items_text(args).len(), 0);
            lemma_reads_expr(input, q, k, *callee, prec);
            lemma_reads_call(input, qc, *callee, args);
            assert(parse_operation(input, qc, *callee) == parse_call(input, qc, *callee));
        },
        _ => {
            lemma_reads_primary(input, q, k, e);
        },
    }
}

/// The parser reads the arguments of a call back.
proof fn lemma_reads_call(input: Seq<u8>, q: int, callee: ExprView, args: Seq<ExprView>)
    requires
        printable_list(args),
        has(input, q, "("@),
        has(input, q + 1, items_text(args)),
        has(input, q + 1 + items_text(args).len(), ")"@),
    ensures
        parse_call(input, q, callee) == Ok::<(ExprView, int), ErrorView>(
            (ExprView::Call { callee: Box::new(callee), args }, q + 2 + items_text(args).len()),
        ),
    decreases args, args.len() + 1,
{
    let close = q + 1 + items_text(args).len();
    assert(blank(input, q, 0));
    assert(blank(input, close, 0));
    assert(blank(input, q + 1, 0));
    lemma_piece_lparen(input, q, 0);
    lemma_piece_rparen(input, close, 0);
    if args.len() == 0 {
        assert(parse_args(input, q + 1, Seq::empty()) == Ok::<(Seq<ExprView>, int), ErrorView>(
            (Seq::empty(), q + 1),
        ));
        assert(args =~= Seq::empty());
    } else {
        assert(args.subrange(0, 0) =~= Seq::empty());
        lemma_reads_args(input, q + 1, 0, args, 0, Seq::empty());
    }
}

/// What stands behind an element of a list: the comma before the next
/// element, or the end of the list.
proof fn lemma_behind_item(input: Seq<u8>, q: int, items: Seq<ExprView>, i: int, close: u8)
    requires
        0 <= i <= items.len(),
        has(input, q, more_items(items, i)),
        q + more_items(items, i).len() < input.len(),
        input[q + more_items(items, i).len()] == close,
        close == 41 || close == 93,
    ensures
        stops(input, q),
        i < items.len() ==> has(input, q, ", "@) && has(input, q + 2, render(items[i]))
            && has(input, q + 2 + width(items[i]), more_items(items, i + 1))
            && more_items(items, i).len() == 2 + width(items[i]) + more_items(
            items,
            i + 1,
        ).len(),
        i == items.len() ==> more_items(items, i).len() == 0,
{
    if i < items.len() {
        lemma_has3(input, q, ", "@, render(items[i]), more_items(items, i + 1));
        lemma_piece_comma(input, q);
    }
}

/// The parser reads the arguments from the one at `i` on back.
proof fn lemma_reads_args(
    input: Seq<u8>,
    q: int,
    k: int,
    items: Seq<ExprView>,
    i: int,
    acc: Seq<ExprView>,
)
    requires
        printable_list(items),
        0 <= i < items.len(),
        acc == items.subrange(0, i),
        blank(input, q, k),
        has(input, q + k, render(items[i]) + more_items(items, i + 1)),
        q + k + width(items[i]) + more_items(items, i + 1).len() < input.len(),
        input[q + k + width(items[i]) + more_items(items, i + 1).len()] == 41,
    ensures
        parse_args(input, q, acc) == Ok::<(Seq<ExprView>, int), ErrorView>(
            (items, q + k + width(items[i]) + more_items(items, i + 1).len()),
        ),
    decreases items, items.len() - i,
{
    let e = items[i];
    let qe = q + k + width(e);
    lemma_has_concat(input, q + k, render(e), more_items(items, i + 1));
    lemma_behind_item(input, qe, items, i + 1, 41);
    lemma_opens(input, q, k, e);
    lemma_reads_expr(input, q, k, e, 0);
    if i + 1 < items.len() {
        lemma_piece_comma(input, qe);
        lemma_stop(input, qe, 0, e);
        assert(acc.push(e) =~= items.subrange(0, i + 1));
        lemma_has_concat(input, qe + 2, render(items[i + 1]), more_items(items, i + 2));
        lemma_reads_args(input, qe + 1, 1, items, i + 1, acc.push(e));
    } else {
        assert(blank(input, qe, 0));
        lemma_take_symbol(input, qe, 0, 41);
        lemma_stop(input, qe, 0, e);
        assert(acc.push(e) =~= items);
    }
}

/// The parser reads an expression that is no call back as one operand.
proof fn lemma_reads_primary(input: Seq<u8>, q: int, k: int, e: ExprView)
    requires
        printable(e),
        !(e is Call),
        blank(input, q, k),
        has(input, q + k, render(e)),
        stops(input, q + k + width(e)),
    ensures
        parse_prefix(input, q) == Ok::<(ExprView, int), ErrorView>((e, q + k + width(e))),
    decreases e, 1nat,
{
    match e {
        ExprView::Int(i) => {
            lemma_read_number(input, q, k, i as nat);
        },
        ExprView::Identifier(name) => {
            lemma_take_name(input, q, k, name);
        },
        ExprView::Bool(b) => {
            if b {
                lemma_take_keyword(input, q, k, Keyword::True);
            } else {
                lemma_take_keyword(input, q, k, Keyword::False);
            }
        },
        ExprView::String(s) => {
            lemma_piece_string(input, q, k, s);
        },
        ExprView::Prefix { .. } => {
            lemma_reads_prefix_operator(input, q, k, e);
        },
        ExprView::Infix { token, .. } => {
            if token is LBracket {
                lemma_reads_index(input, q, k, e);
            } else {
                lemma_reads_infix_operator(input, q, k, e);
            }
        },
        ExprView::If { .. } => {
            lemma_reads_if(input, q, k, e);
        },
        ExprView::Fn(f) => {
            lemma_reads_fn(input, q, k, f);
        },
        ExprView::Array(_) => {
            lemma_reads_array(input, q, k, e);
        },
        ExprView::Hash(_) => {
            lemma_reads_hash(input, q, k, e);
        },
        _ => {},
    }
}

/// The parser reads a prefix operator with its operand back.
proof fn lemma_reads_prefix_operator(input: Seq<u8>, q: int, k: int, e: ExprView)
    requires
        printable(e),
        e is Prefix,
        blank(input, q, k),
        has(input, q + k, render(e)),
        stops(input, q + k + width(e)),
    ensures
        parse_prefix(input, q) == Ok::<(ExprView, int), ErrorView>((e, q + k + width(e))),
    decreases e, 0nat,
{
    let p = q + k;
    match e {
        ExprView::Prefix { token, right } => {
            lemma_has4(input, p, "("@, token_text(token), render(*right), ")"@);
            lemma_piece_lparen(input, q, k);
            assert(token_text(token).len() == 1) by {
                reveal_strlit("!");
                reveal_strlit("-");
            }
            let qr = p + 2 + width(*right);
            assert(blank(input, p + 2, 0));
            assert(blank(input, qr, 0));
            lemma_piece_rparen(input, qr, 0);
            lemma_no_equals_first(input, p + 2, *right);
            lemma_piece_prefix(input, p + 1, token);
            lemma_reads_expr(input, p + 2, 0, *right, PREFIX_PRECEDENCE);
            lemma_stop(input, qr, PREFIX_PRECEDENCE, *right);
            assert(parse_prefix(input, p + 1) == Ok::<(ExprView, int), ErrorView>((e, qr)));
            lemma_stop(input, qr, LOWEST_PRECEDENCE, e);
            assert(parse_expr(input, p + 1, LOWEST_PRECEDENCE) == Ok::<
                (ExprView, int),
                ErrorView,
            >((e, qr)));
            assert(parse_group(input, q) == Ok::<(ExprView, int), ErrorView>((e, qr + 1)));
        },
        _ => {},
    }
}

/// The parser reads an operator with its two operands back.
proof fn lemma_reads_infix_operator(input: Seq<u8>, q: int, k: int, e: ExprView)
    requires
        printable(e),
        e is Infix,
        !(e->Infix_token is LBracket),
        blank(input, q, k),
        has(input, q + k, render(e)),
        stops(input, q + k + width(e)),
    ensures
        parse_prefix(input, q) == Ok::<(ExprView, int), ErrorView>((e, q + k + width(e))),
    decreases e, 0nat,
{
    let p = q + k;
    match e {
        ExprView::Infix { left, token, right } => {
            lemma_has5(input, p, "("@, render(*left), token_text(token), render(*right), ")"@);
            lemma_piece_lparen(input, q, k);
            let ql = p + 1 + width(*left);
            let qo = ql + token_text(token).len();
            let qr = qo + width(*right);
            assert(blank(input, p + 1, 0));
            assert(blank(input, qo, 0));
            assert(blank(input, qr, 0));
            lemma_piece_rparen(input, qr, 0);
            lemma_no_equals_first(input, qo, *right);
            lemma_take_operator(input, ql, token);
            lemma_reads_expr(input, p + 1, 0, *left, LOWEST_PRECEDENCE);
            lemma_reads_expr(input, qo, 0, *right, precedence(token));
            lemma_stop(input, qr, precedence(token), *right);
            assert(parse_operation(input, ql, *left) == Ok::<(ExprView, int), ErrorView>(
                (e, qr),
            ));
            lemma_stop(input, qr, LOWEST_PRECEDENCE, e);
            assert(parse_expr(input, p + 1, LOWEST_PRECEDENCE) == Ok::<
                (ExprView, int),
                ErrorView,
            >((e, qr)));
            assert(parse_group(input, q) == Ok::<(ExprView, int), ErrorView>((e, qr + 1)));
        },
        _ => {},
    }
}

/// The parser reads an indexing back.
proof fn lemma_reads_index(input: Seq<u8>, q: int, k: int, e: ExprView)
    requires
        printable(e),
        e is Infix,
        e->Infix_token is LBracket,
        blank(input, q, k),
        has(input, q + k, render(e)),
        stops(input, q + k + width(e)),
    ensures
        parse_prefix(input, q) == Ok::<(ExprView, int), ErrorView>((e, q + k + width(e))),
    decreases e, 0nat,
{
    let p = q + k;
    match e {
        ExprView::Infix { left, token, right } => {
            lemma_has5(input, p, "("@, render(*left), "["@, render(*right), "])"@);
            lemma_piece_lparen(input, q, k);
            let ql = p + 1 + width(*left);
            let qo = ql + 1;
            let qr = qo + width(*right);
            assert(blank(input, p + 1, 0));
            assert(blank(input, ql, 0));
            assert(blank(input, qo, 0));
            lemma_piece_lbracket(input, ql, 0);
            lemma_piece_index_close(input, qr);
            lemma_reads_expr(input, p + 1, 0, *left, LOWEST_PRECEDENCE);
            lemma_reads_expr(input, qo, 0, *right, LOWEST_PRECEDENCE);
            lemma_stop(input, qr, LOWEST_PRECEDENCE, *right);
            assert(parse_index(input, ql, *left) == Ok::<(ExprView, int), ErrorView>(
                (e, qr + 1),
            ));
            assert(parse_operation(input, ql, *left) == parse_index(input, ql, *left));
            lemma_stop(input, qr + 1, LOWEST_PRECEDENCE, e);
            assert(parse_expr(input, p + 1, LOWEST_PRECEDENCE) == Ok::<
                (ExprView, int),
                ErrorView,
            >((e, qr + 1)));
            assert(parse_group(input, q) == Ok::<(ExprView, int), ErrorView>((e, qr + 2)));
        },
        _ => {},
    }
}

/// The parser reads an array literal back.
proof fn lemma_reads_array(input: Seq<u8>, q: int, k: int, e: ExprView)
    requires
        printable(e),
        e is Array,
        blank(input, q, k),
        has(input, q + k, render(e)),
        stops(input, q + k + width(e)),
    ensures
        parse_prefix(input, q) == Ok::<(ExprView, int), ErrorView>((e, q + k + width(e))),
    decreases e, 0nat,
{
    let p = q + k;
    match e {
        ExprView::Array(items) => {
            lemma_layout_array(items);
            lemma_has3(input, p, "["@, items_text(items), "]"@);
            lemma_piece_lbracket(input, q, k);
            let close = p + 1 + items_text(items).len();
            assert(blank(input, close, 0));
            assert(blank(input, p + 1, 0));
            lemma_piece_rbracket(input, close, 0);
            if items.len() == 0 {
                assert(items =~= Seq::empty());
                assert(parse_items(input, p + 1, Seq::empty()) == Ok::<
                    (Seq<ExprView>, int),
                    ErrorView,
                >((Seq::empty(), p + 1)));
            } else {
                assert(items.subrange(0, 0) =~= Seq::empty());
                lemma_reads_items(input, p + 1, 0, items, 0, Seq::empty());
            }
            assert(parse_array(input, q) == Ok::<(ExprView, int), ErrorView>((e, close + 1)));
        },
        _ => {},
    }
}

/// The parser reads the elements from the one at `i` on back.
proof fn lemma_reads_items(
    input: Seq<u8>,
    q: int,
    k: int,
    items: Seq<ExprView>,
    i: int,
    acc: Seq<ExprView>,
)
    requires
        printable_list(items),
        0 <= i < items.len(),
        acc == items.subrange(0, i),
        blank(input, q, k),
        has(input, q + k, render(items[i]) + more_items(items, i + 1)),
        q + k + width(items[i]) + more_items(items, i + 1).len() < input.len(),
        input[q + k + width(items[i]) + more_items(items, i + 1).len()] == 93,
    ensures
        parse_items(input, q, acc) == Ok::<(Seq<ExprView>, int), ErrorView>(
            (items, q + k + width(items[i]) + more_items(items, i + 1).len()),
        ),
    decreases items, items.len() - i,
{
    let e = items[i];
    let qe = q + k + width(e);
    lemma_has_concat(input, q + k, render(e), more_items(items, i + 1));
    lemma_behind_item(input, qe, items, i + 1, 93);
    lemma_opens(input, q, k, e);
    lemma_reads_expr(input, q, k, e, 0);
    if i + 1 < items.len() {
        let next = items[i + 1];
        lemma_piece_comma(input, qe);
        lemma_stop(input, qe, 0, e);
        lemma_behind_item(input, qe + 2 + width(next), items, i + 2, 93);
        lemma_opens(input, qe + 1, 1, next);
        assert(acc.push(e) =~= items.subrange(0, i + 1));
        lemma_has_concat(input, qe + 2, render(next), more_items(items, i + 2));
        lemma_reads_items(input, qe + 1, 1, items, i + 1, acc.push(e));
    } else {
        assert(blank(input, qe, 0));
        lemma_take_symbol(input, qe, 0, 93);
        lemma_stop(input, qe, 0, e);
        assert(acc.push(e) =~= items);
    }
}

/// The parser reads a hash literal back.
proof fn lemma_reads_hash(input: Seq<u8>, q: int, k: int, e: ExprView)
    requires
        printable(e),
        e is Hash,
        blank(input, q, k),
        has(input, q + k, render(e)),
        stops(input, q + k + width(e)),
    ensures
        parse_prefix(input, q) == Ok::<(ExprView, int), ErrorView>((e, q + k + width(e))),
    decreases e, 0nat,
{
    let p = q + k;
    match e {
        ExprView::Hash(pairs) => {
            lemma_layout_hash(pairs);
            lemma_has3(input, p, "{"@, pairs_text(pairs), "}"@);
            lemma_piece_lbrace(input, q, k);
            let close = p + 1 + pairs_text(pairs).len();
            assert(blank(input, close, 0));
            assert(blank(input, p + 1, 0));
            lemma_piece_rbrace(input, close, 0);
            if pairs.len() == 0 {
                assert(pairs =~= Seq::empty());
                assert(parse_pairs(input, p + 1, Seq::empty()) == Ok::<
                    (Seq<(ExprView, ExprView)>, int),
                    ErrorView,
                >((Seq::empty(), p + 1)));
            } else {
                assert(pairs.subrange(0, 0) =~= Seq::empty());
                lemma_reads_pairs(input, p + 1, 0, pairs, 0, Seq::empty());
            }
            assert(parse_hash(input, q) == Ok::<(ExprView, int), ErrorView>((e, close + 1)));
        },
        _ => {},
    }
}

/// What stands behind a pair of a hash literal: the comma before the next
/// pair, or the end of the literal.
proof fn lemma_behind_pair(input: Seq<u8>, q: int, pairs: Seq<(ExprView, ExprView)>, i: int)
    requires
        0 <= i <= pairs.len(),
        has(input, q, more_pairs(pairs, i)),
        q + more_pairs(pairs, i).len() < input.len(),
        input[q + more_pairs(pairs, i).len()] == 125,
    ensures
        stops(input, q),
        i < pairs.len() ==> has(input, q, ", "@) && has(input, q + 2, pair_text(pairs[i]))
            && has(input, q + 2 + pair_text(pairs[i]).len(), more_pairs(pairs, i + 1))
            && more_pairs(pairs, i).len() == 2 + pair_text(pairs[i]).len() + more_pairs(
            pairs,
            i + 1,
        ).len(),
        i == pairs.len() ==> more_pairs(pairs, i).len() == 0,
{
    if i < pairs.len() {
        lemma_has3(input, q, ", "@, pair_text(pairs[i]), more_pairs(pairs, i + 1));
        lemma_piece_comma(input, q);
    }
}

/// The parser reads the pairs from the one at `i` on back.
proof fn lemma_reads_pairs(
    input: Seq<u8>,
    q: int,
    k: int,
    pairs: Seq<(ExprView, ExprView)>,
    i: int,
    acc: Seq<(ExprView, ExprView)>,
)
    requires
        printable_pairs(pairs),
        0 <= i < pairs.len(),
        acc == pairs.subrange(0, i),
        blank(input, q, k),
        has(input, q + k, pair_text(pairs[i]) + more_pairs(pairs, i + 1)),
        q + k + pair_text(pairs[i]).len() + more_pairs(pairs, i + 1).len() < input.len(),
        input[q + k + pair_text(pairs[i]).len() + more_pairs(pairs, i + 1).len()] == 125,
    ensures
        parse_pairs(input, q, acc) == Ok::<(Seq<(ExprView, ExprView)>, int), ErrorView>(
            (pairs, q + k + pair_text(pairs[i]).len() + more_pairs(pairs, i + 1).len()),
        ),
    decreases pairs, pairs.len() - i,
{
    let key = pairs[i].0;
    let value = pairs[i].1;
    let qk = q + k + width(key);
    let qv = qk + 2 + width(value);
    lemma_has_concat(input, q + k, pair_text(pairs[i]), more_pairs(pairs, i + 1));
    lemma_has3(input, q + k, render(key), ": "@, render(value));
    lemma_piece_colon(input, qk);
    lemma_behind_pair(input, qv, pairs, i + 1);
    lemma_opens(input, q, k, key);
    lemma_reads_expr(input, q, k, key, 0);
    lemma_stop(input, qk, 0, key);
    lemma_reads_expr(input, qk + 1, 1, value, 0);
    if i + 1 < pairs.len() {
        let next = pairs[i + 1];
        lemma_piece_comma(input, qv);
        lemma_stop(input, qv, 0, value);
        lemma_has3(input, qv + 2, render(next.0), ": "@, render(next.1));
        lemma_piece_colon(input, qv + 2 + width(next.0));
        lemma_opens(input, qv + 1, 1, next.0);
        assert(acc.push((key, value)) =~= pairs.subrange(0, i + 1));
        lemma_has_concat(input, qv + 2, pair_text(next), more_pairs(pairs, i + 2));
        lemma_reads_pairs(input, qv + 1, 1, pairs, i + 1, acc.push((key, value)));
    } else {
        assert(blank(input, qv, 0));
        lemma_take_symbol(input, qv, 0, 125);
        lemma_stop(input, qv, 0, value);
        assert(acc.push((key, value)) =~= pairs);
    }
}

/// What stands behind a parameter: the comma before the next parameter,
/// or the end of the list.
proof fn lemma_behind_name(input: Seq<u8>, q: int, names: Seq<Seq<char>>, i: int)
    requires
        0 <= i <= names.len(),
        has(input, q, more_names(names, i)),
        q + more_names(names, i).len() < input.len(),
        input[q + more_names(names, i).len()] == 41,
    ensures
        !in_class(ByteClass::Word, input[q]),
        i < names.len() ==> has(input, q, ", "@) && has(input, q + 2, names[i]) && has(
            input,
            q + 2 + names[i].len(),
            more_names(names, i + 1),
        ) && more_names(names, i).len() == 2 + names[i].len() + more_names(names, i + 1).len(),
        i == names.len() ==> more_names(names, i).len() == 0,
{
    if i < names.len() {
        lemma_has3(input, q, ", "@, names[i], more_names(names, i + 1));
        lemma_piece_comma(input, q);
    }
}

/// The parser reads the parameters from the one at `i` on back.
proof fn lemma_reads_params(
    input: Seq<u8>,
    q: int,
    k: int,
    names: Seq<Seq<char>>,
    i: int,
    acc: Seq<Seq<char>>,
)
    requires
        printable_names(names),
        0 <= i < names.len(),
        acc == names.subrange(0, i),
        blank(input, q, k),
        has(input, q + k, names[i] + more_names(names, i + 1)),
        q + k + names[i].len() + more_names(names, i + 1).len() < input.len(),
        input[q + k + names[i].len() + more_names(names, i + 1).len()] == 41,
    ensures
        parse_params(input, q, acc) == Ok::<(Seq<Seq<char>>, int), ErrorView>(
            (names, q + k + names[i].len() + more_names(names, i + 1).len()),
        ),
    decreases names.len() - i,
{
    let name = names[i];
    let qe = q + k + name.len();
    lemma_has_concat(input, q + k, name, more_names(names, i + 1));
    lemma_behind_name(input, qe, names, i + 1);
    lemma_take_name(input, q, k, name);
    if i + 1 < names.len() {
        let next = names[i + 1];
        lemma_piece_comma(input, qe);
        lemma_behind_name(input, qe + 2 + next.len(), names, i + 2);
        lemma_take_name(input, qe + 1, 1, next);
        assert(acc.push(name) =~= names.subrange(0, i + 1));
        lemma_has_concat(input, qe + 2, next, more_names(names, i + 2));
        lemma_reads_params(input, qe + 1, 1, names, i + 1, acc.push(name));
    } else {
        assert(blank(input, qe, 0));
        lemma_take_symbol(input, qe, 0, 41);
        assert(acc.push(name) =~= names);
    }
}

/// The parser reads a block back, from its `{` on: a space, the
/// statements and `}` stand behind the `{`.
proof fn lemma_reads_block(input: Seq<u8>, q: int, open: int, stmts: Seq<ExprView>)
    requires
        printable_block(stmts),
        take(input, q) == Some((TokenView::LBrace, open)),
        blank(input, open, 1),
        has(input, open + 1, block_text(stmts, 0)),
        has(input, open + 1 + block_text(stmts, 0).len(), "}"@),
    ensures
        parse_block(input, q) == Ok::<(Seq<ExprView>, int), ErrorView>(
            (stmts, open + 2 + block_text(stmts, 0).len()),
        ),
    decreases stmts, stmts.len() + 1,
{
    assert(stmts.subrange(0, 0) =~= Seq::empty());
    lemma_reads_block_items(input, open, stmts, 0, Seq::empty());
}

/// The parser reads the statements from the one at `i` on back, up to the
/// `}` behind them, which it takes next.
#[verifier::rlimit(80)]
proof fn lemma_reads_block_items(
    input: Seq<u8>,
    q: int,
    stmts: Seq<ExprView>,
    i: int,
    acc: Seq<ExprView>,
)
    requires
        printable_block(stmts),
        0 <= i <= stmts.len(),
        acc == stmts.subrange(0, i),
        blank(input, q, 1),
        has(input, q + 1, block_text(stmts, i)),
        has(input, q + 1 + block_text(stmts, i).len(), "}"@),
    ensures
        parse_block_items(input, q, acc) matches Ok((found, end)) && found == stmts && take(
            input,
            end,
        ) == Some((TokenView::RBrace, q + 2 + block_text(stmts, i).len())),
    decreases stmts, stmts.len() - i,
{
    if i < stmts.len() {
        let s = stmts[i];
        lemma_has3(input, q + 1, render(s), "; "@, block_text(stmts, i + 1));
        lemma_piece_semicolon(input, q + 1 + width(s));
        lemma_has_concat(input, q + 1, render(s), "; "@);
        lemma_reads_statement(input, q, 1, s);
        let next = q + 1 + width(s) + 1;
        assert(acc.push(s) =~= stmts.subrange(0, i + 1));
        lemma_reads_block_items(input, next, stmts, i + 1, acc.push(s));
    } else {
        lemma_piece_rbrace(input, q, 1);
        assert(acc =~= stmts);
    }
}

/// The parser reads a statement back, with the semicolon behind it.
proof fn lemma_reads_statement(input: Seq<u8>, q: int, k: int, s: ExprView)
    requires
        printable_statement(s),
        blank(input, q, k),
        has(input, q + k, render(s) + "; "@),
    ensures
        parse_statement(input, q) == Ok::<(ExprView, int), ErrorView>(
            (s, q + k + width(s) + 1),
        ),
        width(s) > 0,
        take(input, q) is Some,
        !(take(input, q)->Some_0.0 is Eof),
        !(take(input, q)->Some_0.0 is RBrace),
    decreases s, 3nat,
{
    let p = q + k;
    lemma_has_concat(input, p, render(s), "; "@);
    let qe = p + width(s);
    lemma_piece_semicolon(input, qe);
    match s {
        ExprView::Let { name, value } => {
            lemma_reads_let(input, q, k, s);
        },
        ExprView::Return(value) => {
            lemma_has_concat(input, p, "return "@, render(*value));
            lemma_piece_return(input, q, k);
            lemma_reads_expr(input, p + 6, 1, *value, LOWEST_PRECEDENCE);
            lemma_stop(input, qe, LOWEST_PRECEDENCE, *value);
            assert(parse_return(input, q) == Ok::<(ExprView, int), ErrorView>((s, qe + 1)));
        },
        _ => {
            lemma_opens(input, q, k, s);
            lemma_reads_expr(input, q, k, s, LOWEST_PRECEDENCE);
            lemma_stop(input, qe, LOWEST_PRECEDENCE, s);
        },
    }
}

/// The value of a `let` as the parser reads it, before it gives a function
/// literal the name.
pub open spec fn unnamed(value: ExprView) -> ExprView {
    match value {
        ExprView::Fn(f) => ExprView::Fn(FnView { name: None, ..f }),
        _ => value,
    }
}

/// The value of a printable `let` is printed like the value without the
/// name, and is that value with the name.
proof fn lemma_unnamed(name: Seq<char>, value: ExprView)
    requires
        printable_statement(ExprView::Let { name, value: Box::new(value) }),
    ensures
        printable(unnamed(value)),
        render(unnamed(value)) == render(value),
        named(name, unnamed(value)) == value,
{
    match value {
        ExprView::Fn(f) => {
            lemma_render_ignores_name(f, None);
        },
        _ => {},
    }
}

/// The parser reads a `let` back.
#[verifier::rlimit(80)]
proof fn lemma_reads_let(input: Seq<u8>, q: int, k: int, s: ExprView)
    requires
        printable_statement(s),
        s is Let,
        blank(input, q, k),
        has(input, q + k, render(s)),
        take(input, q + k + width(s)) == Some((TokenView::Semicolon, q + k + width(s) + 1)),
        stops(input, q + k + width(s)),
    ensures
        parse_let(input, q) == Ok::<(ExprView, int), ErrorView>((s, q + k + width(s) + 1)),
        take(input, q) == Some((TokenView::Keyword(Keyword::Let), q + k + 3)),
        width(s) > 0,
    decreases s, 2nat,
{
    let p = q + k;
    let qe = p + width(s);
    match s {
        ExprView::Let { name, value } => {
            let plain = unnamed(*value);
            lemma_unnamed(name, *value);
            lemma_has4(input, p, "let "@, name, " = "@, render(plain));
            lemma_piece_let(input, q, k);
            let pn = p + 4 + name.len();
            lemma_piece_assign(input, pn);
            lemma_take_name(input, p + 3, 1, name);
            match *value {
                ExprView::Fn(f) => {
                    lemma_render_ignores_name(f, None);
                    lemma_reads_fn(input, pn + 2, 1, f);
                    lemma_opens(input, pn + 2, 1, plain);
                },
                _ => {
                    lemma_reads_expr(input, pn + 2, 1, plain, LOWEST_PRECEDENCE);
                },
            }
            lemma_stop(input, qe, LOWEST_PRECEDENCE, plain);
        },
        _ => {},
    }
}

/// The parser reads a conditional back.
#[verifier::rlimit(80)]
proof fn lemma_reads_if(input: Seq<u8>, q: int, k: int, e: ExprView)
    requires
        printable(e),
        e is If,
        blank(input, q, k),
        has(input, q + k, render(e)),
        stops(input, q + k + width(e)),
    ensures
        parse_prefix(input, q) == Ok::<(ExprView, int), ErrorView>((e, q + k + width(e))),
    decreases e, 0nat,
{
    let p = q + k;
    match e {
        ExprView::If { condition, consequence, alternative } => {
            lemma_layout_if(*condition, consequence, alternative);
            let c = render(*condition);
            let b1 = block_text(consequence, 0);
            let qc = p + 4 + c.len();
            let q1 = qc + 4 + b1.len() + 1;
            match alternative {
                Some(alt) => {
                    let b2 = block_text(alt, 0);
                    lemma_has_concat(
                        input,
                        p,
                        "if ("@ + c + ") { "@ + b1 + "}"@ + " else { "@ + b2,
                        "}"@,
                    );
                    lemma_has_concat(
                        input,
                        p,
                        "if ("@ + c + ") { "@ + b1 + "}"@ + " else { "@,
                        b2,
                    );
                    lemma_has_concat(input, p, "if ("@ + c + ") { "@ + b1 + "}"@, " else { "@);
                    lemma_has5(input, p, "if ("@, c, ") { "@, b1, "}"@);
                    lemma_piece_if(input, q, k);
                    lemma_piece_block_open(input, qc);
                    assert(blank(input, q1 - 1, 0));
                    lemma_piece_rbrace(input, q1 - 1, 0);
                    lemma_piece_else(input, q1);
                    assert(blank(input, q1 + 8 + b2.len(), 0));
                    lemma_piece_rbrace(input, q1 + 8 + b2.len(), 0);
                    lemma_reads_block(input, q1 + 5, q1 + 7, alt);
                },
                None => {
                    lemma_has5(input, p, "if ("@, c, ") { "@, b1, "}"@);
                    lemma_piece_if(input, q, k);
                    lemma_piece_block_open(input, qc);
                    assert(blank(input, q1 - 1, 0));
                    lemma_piece_rbrace(input, q1 - 1, 0);
                    lemma_take_delimiter(input, q1);
                },
            }
            assert(blank(input, p + 4, 0));
            lemma_reads_expr(input, p + 4, 0, *condition, LOWEST_PRECEDENCE);
            lemma_stop(input, qc, LOWEST_PRECEDENCE, *condition);
            lemma_reads_block(input, qc + 1, qc + 3, consequence);
            assert(parse_if(input, q) == Ok::<(ExprView, int), ErrorView>((e, p + width(e))));
        },
        _ => {},
    }
}

/// The parser reads a function literal back, without a name of its own.
#[verifier::rlimit(80)]
proof fn lemma_reads_fn(input: Seq<u8>, q: int, k: int, f: FnView)
    requires
        printable_names(f.args),
        printable_block(f.body),
        blank(input, q, k),
        has(input, q + k, render(ExprView::Fn(f))),
        stops(input, q + k + width(ExprView::Fn(f))),
    ensures
        parse_prefix(input, q) == Ok::<(ExprView, int), ErrorView>(
            (ExprView::Fn(FnView { name: None, ..f }), q + k + width(ExprView::Fn(f))),
        ),
    decreases f, 0nat,
{
    let p = q + k;
    let e = ExprView::Fn(f);
    lemma_layout_fn(f);
    let names = names_text(f.args);
    let body = block_text(f.body, 0);
    let close = p + 3 + names.len();
    lemma_has5(input, p, "fn("@, names, ") { "@, body, "}"@);
    lemma_piece_fn(input, q, k);
    lemma_piece_block_open(input, close);
    assert(blank(input, close + 4 + body.len(), 0));
    lemma_piece_rbrace(input, close + 4 + body.len(), 0);
    assert(blank(input, p + 3, 0));
    if f.args.len() == 0 {
        assert(f.args =~= Seq::empty());
        assert(parse_params(input, p + 3, Seq::empty()) == Ok::<(Seq<Seq<char>>, int), ErrorView>(
            (Seq::empty(), p + 3),
        ));
    } else {
        assert(f.args.subrange(0, 0) =~= Seq::empty());
        lemma_reads_params(input, p + 3, 0, f.args, 0, Seq::empty());
    }
    lemma_reads_block(input, close + 1, close + 3, f.body);
    assert(parse_fn(input, q) == Ok::<(ExprView, int), ErrorView>(
        (ExprView::Fn(FnView { name: None, args: f.args, body: f.body }), p + width(e)),
    ));
}

/// The parser reads the statements of a program from the one at `i` on
/// back, up to the end of the input.
proof fn lemma_reads_program(
    input: Seq<u8>,
    q: int,
    k: int,
    stmts: Seq<ExprView>,
    i: int,
    acc: Seq<ExprView>,
)
    requires
        printable_block(stmts),
        0 <= i <= stmts.len(),
        acc == stmts.subrange(0, i),
        blank(input, q, k),
        has(input, q + k, block_text(stmts, i)),
        q + k + block_text(stmts, i).len() == input.len(),
    ensures
        parse_program(input, q, acc) == Ok::<Seq<ExprView>, ErrorView>(stmts),
    decreases stmts.len() - i,
{
    if i < stmts.len() {
        let s = stmts[i];
        lemma_has3(input, q + k, render(s), "; "@, block_text(stmts, i + 1));
        lemma_piece_semicolon(input, q + k + width(s));
        lemma_has_concat(input, q + k, render(s), "; "@);
        lemma_reads_statement(input, q, k, s);
        let next = q + k + width(s) + 1;
        assert(acc.push(s) =~= stmts.subrange(0, i + 1));
        lemma_reads_program(input, next, 1, stmts, i + 1, acc.push(s));
    } else {
        lemma_blank_end(input, q, k);
        assert(acc =~= stmts);
    }
}

/// The parser reads back what the printer prints: the text of a program
/// that the parser can yield parses to that program.
pub proof fn lemma_print_then_parse(stmts: Seq<ExprView>)
    requires
        printable_block(stmts),
    ensures
        parse(ascii_bytes(render_program(stmts))) == Ok::<Seq<ExprView>, ErrorView>(stmts),
{
    let text = render_program(stmts);
    let input = ascii_bytes(text);
    lemma_render_block(stmts, 0, Seq::empty());
    assert(text =~= block_text(stmts, 0));
    assert(input.subrange(0, text.len() as int) =~= input);
    assert(blank(input, 0, 0));
    assert(stmts.subrange(0, 0) =~= Seq::empty());
    lemma_reads_program(input, 0, 0, stmts, 0, Seq::empty());
}

/// The round trip over the printer: the text of every program that the
/// parser yields parses to that program again. The input holds ASCII
/// characters only; the text is taken as its bytes, one per character.
pub proof fn lemma_round_trip(input: Seq<u8>)
    requires
        is_ascii_input(input),
    ensures
        parse(input) matches Ok(program) ==> parse(ascii_bytes(render_program(program)))
            == Ok::<Seq<ExprView>, ErrorView>(program),
{
    lemma_parsed_is_printable(input);
    match parse(input) {
        Ok(program) => {
            lemma_print_then_parse(program);
        },
        Err(_) => {},
    }
}

} // verus!
