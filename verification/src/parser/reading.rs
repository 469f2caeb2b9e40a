//! Which trees the printer prints so that the parser reads them back, and
//! the text of a tree piece by piece.

use vstd::prelude::*;
use crate::builtins::separator;
use crate::lexer::scan::{in_class, is_word_start, symbol, ByteClass};
use crate::lexer::spelling::{
    blank, has, is_name, is_plain, is_word_char, lemma_has_byte, lemma_has_concat,
    lemma_read_assign, lemma_read_bang, lemma_read_number, lemma_read_string, lemma_read_symbol,
    lemma_read_word, lemma_skip_blank, lemma_span_run, stops,
};
use crate::lexer::tokens::{keyword_of, keyword_text, token_text, Keyword, TokenView};
use crate::parser::grammar::{is_operator, parse_infix, take, ErrorView};
use crate::parser::printer::{render, render_block, render_list, render_names, render_pairs};
use crate::parser::types::{ExprView, FnView};

verus! {

/// Whether the parser can yield the expression, in a place where an
/// expression stands. Integers are not negative (a minus sign is an
/// operator), names are names, strings hold ASCII characters and no double
/// quote, operators are operators, and a function literal has no name of
/// its own. `let` and `return` are statements.
pub open spec fn printable(e: ExprView) -> bool
    decreases e, 0nat,
{
    match e {
        ExprView::Int(i) => i >= 0,
        ExprView::Identifier(n) => is_name(n),
        ExprView::Bool(_) => true,
        ExprView::String(s) => is_plain(s),
        ExprView::Prefix { token, right } => (token is Bang || token is Minus) && printable(*right),
        ExprView::Infix { left, token, right } => (is_operator(token) || token is LBracket)
            && printable(*left) && printable(*right),
        ExprView::If { condition, consequence, alternative } => printable(*condition)
            && printable_block(consequence) && (match alternative {
            Some(alt) => printable_block(alt),
            None => true,
        }),
        ExprView::Fn(f) => f.name is None && printable_names(f.args) && printable_block(f.body),
        ExprView::Call { callee, args } => printable(*callee) && printable_list(args),
        ExprView::Let { .. } => false,
        ExprView::Return(_) => false,
        ExprView::Array(items) => printable_list(items),
        ExprView::Hash(pairs) => printable_pairs(pairs),
    }
}

/// Whether the parser can yield the statement. A function literal that a
/// `let` binds has the name that the `let` binds.
pub open spec fn printable_statement(e: ExprView) -> bool
    decreases e, 1nat,
{
    match e {
        ExprView::Let { name, value } => is_name(name) && (match *value {
            ExprView::Fn(f) => f.name == Some(name) && printable_names(f.args) && printable_block(
                f.body,
            ),
            _ => printable(*value),
        }),
        ExprView::Return(value) => printable(*value),
        _ => printable(e),
    }
}

/// Whether the parser can yield each of the statements.
pub open spec fn printable_block(stmts: Seq<ExprView>) -> bool
    decreases stmts, 0nat,
{
    forall|i: int| 0 <= i < stmts.len() ==> printable_statement(#[trigger] stmts[i])
}

/// Whether the parser can yield each of the expressions.
pub open spec fn printable_list(items: Seq<ExprView>) -> bool
    decreases items, 0nat,
{
    forall|i: int| 0 <= i < items.len() ==> printable(#[trigger] items[i])
}

/// Whether the parser can yield each of the pairs.
pub open spec fn printable_pairs(pairs: Seq<(ExprView, ExprView)>) -> bool
    decreases pairs, 0nat,
{
    forall|i: int|
        0 <= i < pairs.len() ==> printable((#[trigger] pairs[i]).0) && printable(pairs[i].1)
}

/// Whether each of the texts is a name.
pub open spec fn printable_names(names: Seq<Seq<char>>) -> bool {
    forall|i: int| 0 <= i < names.len() ==> is_name(#[trigger] names[i])
}

/// The text of the expressions from `i` on, each with `, ` before it.
pub open spec fn more_items(items: Seq<ExprView>, i: int) -> Seq<char>
    decreases items.len() - i,
{
    if 0 <= i < items.len() {
        ", "@ + render(items[i]) + more_items(items, i + 1)
    } else {
        Seq::empty()
    }
}

/// The text of a list of expressions, separated by `, `.
pub open spec fn items_text(items: Seq<ExprView>) -> Seq<char> {
    if items.len() == 0 {
        Seq::empty()
    } else {
        render(items[0]) + more_items(items, 1)
    }
}

/// The text of one pair.
pub open spec fn pair_text(pair: (ExprView, ExprView)) -> Seq<char> {
    render(pair.0) + ": "@ + render(pair.1)
}

/// The text of the pairs from `i` on, each with `, ` before it.
pub open spec fn more_pairs(pairs: Seq<(ExprView, ExprView)>, i: int) -> Seq<char>
    decreases pairs.len() - i,
{
    if 0 <= i < pairs.len() {
        ", "@ + pair_text(pairs[i]) + more_pairs(pairs, i + 1)
    } else {
        Seq::empty()
    }
}

/// The text of a list of pairs, separated by `, `.
pub open spec fn pairs_text(pairs: Seq<(ExprView, ExprView)>) -> Seq<char> {
    if pairs.len() == 0 {
        Seq::empty()
    } else {
        pair_text(pairs[0]) + more_pairs(pairs, 1)
    }
}

/// The text of the names from `i` on, each with `, ` before it.
pub open spec fn more_names(names: Seq<Seq<char>>, i: int) -> Seq<char>
    decreases names.len() - i,
{
    if 0 <= i < names.len() {
        ", "@ + names[i] + more_names(names, i + 1)
    } else {
        Seq::empty()
    }
}

/// The text of a list of names, separated by `, `.
pub open spec fn names_text(names: Seq<Seq<char>>) -> Seq<char> {
    if names.len() == 0 {
        Seq::empty()
    } else {
        names[0] + more_names(names, 1)
    }
}

/// The text of the statements from `i` on, each with `; ` behind it.
pub open spec fn block_text(stmts: Seq<ExprView>, i: int) -> Seq<char>
    decreases stmts.len() - i,
{
    if 0 <= i < stmts.len() {
        render(stmts[i]) + "; "@ + block_text(stmts, i + 1)
    } else {
        Seq::empty()
    }
}

/// What the printer appends for the expressions from `i` on.
pub proof fn lemma_render_list(items: Seq<ExprView>, i: int, acc: Seq<char>)
    requires
        0 <= i <= items.len(),
    ensures
        render_list(items, i, acc) == acc + (if i == 0 {
            items_text(items)
        } else {
            more_items(items, i)
        }),
    decreases items.len() - i,
{
    reveal_strlit(", ");
    if i < items.len() {
        lemma_render_list(items, i + 1, acc + separator(i) + render(items[i]));
        if i == 0 {
            assert(acc + separator(i) + render(items[i]) + more_items(items, 1) =~= acc
                + items_text(items));
        } else {
            assert(acc + separator(i) + render(items[i]) + more_items(items, i + 1) =~= acc
                + more_items(items, i));
        }
    } else {
        assert(acc + Seq::<char>::empty() =~= acc);
    }
}

/// What the printer appends for the pairs from `i` on.
pub proof fn lemma_render_pairs(pairs: Seq<(ExprView, ExprView)>, i: int, acc: Seq<char>)
    requires
        0 <= i <= pairs.len(),
    ensures
        render_pairs(pairs, i, acc) == acc + (if i == 0 {
            pairs_text(pairs)
        } else {
            more_pairs(pairs, i)
        }),
    decreases pairs.len() - i,
{
    reveal_strlit(", ");
    if i < pairs.len() {
        lemma_render_pairs(
            pairs,
            i + 1,
            acc + separator(i) + render(pairs[i].0) + ": "@ + render(pairs[i].1),
        );
        if i == 0 {
            assert(acc + separator(i) + render(pairs[i].0) + ": "@ + render(pairs[i].1)
                + more_pairs(pairs, 1) =~= acc + pairs_text(pairs));
        } else {
            assert(acc + separator(i) + render(pairs[i].0) + ": "@ + render(pairs[i].1)
                + more_pairs(pairs, i + 1) =~= acc + more_pairs(pairs, i));
        }
    } else {
        assert(acc + Seq::<char>::empty() =~= acc);
    }
}

/// What the printer appends for the names from `i` on.
pub proof fn lemma_render_names(names: Seq<Seq<char>>, i: int, acc: Seq<char>)
    requires
        0 <= i <= names.len(),
    ensures
        render_names(names, i, acc) == acc + (if i == 0 {
            names_text(names)
        } else {
            more_names(names, i)
        }),
    decreases names.len() - i,
{
    reveal_strlit(", ");
    if i < names.len() {
        lemma_render_names(names, i + 1, acc + separator(i) + names[i]);
        if i == 0 {
            assert(acc + separator(i) + names[i] + more_names(names, 1) =~= acc + names_text(
                names,
            ));
        } else {
            assert(acc + separator(i) + names[i] + more_names(names, i + 1) =~= acc
                + more_names(names, i));
        }
    } else {
        assert(acc + Seq::<char>::empty() =~= acc);
    }
}

/// What the printer appends for the statements from `i` on.
pub proof fn lemma_render_block(stmts: Seq<ExprView>, i: int, acc: Seq<char>)
    requires
        0 <= i <= stmts.len(),
    ensures
        render_block(stmts, i, acc) == acc + block_text(stmts, i),
    decreases stmts.len() - i,
{
    if i < stmts.len() {
        lemma_render_block(stmts, i + 1, acc + render(stmts[i]) + "; "@);
        assert(acc + render(stmts[i]) + "; "@ + block_text(stmts, i + 1) =~= acc + block_text(
            stmts,
            i,
        ));
    } else {
        assert(acc + Seq::<char>::empty() =~= acc);
    }
}

/// What the keywords spell, character by character.
pub proof fn lemma_keywords()
    ensures
        "fn"@ == seq!['f', 'n'],
        "let"@ == seq!['l', 'e', 't'],
        "if"@ == seq!['i', 'f'],
        "else"@ == seq!['e', 'l', 's', 'e'],
        "true"@ == seq!['t', 'r', 'u', 'e'],
        "false"@ == seq!['f', 'a', 'l', 's', 'e'],
        "return"@ == seq!['r', 'e', 't', 'u', 'r', 'n'],
        forall|k: Keyword| keyword_of(keyword_text(k)) == Some(k),
{
    reveal_strlit("fn");
    reveal_strlit("let");
    reveal_strlit("if");
    reveal_strlit("else");
    reveal_strlit("true");
    reveal_strlit("false");
    reveal_strlit("return");
    assert("fn"@ =~= seq!['f', 'n']);
    assert("let"@ =~= seq!['l', 'e', 't']);
    assert("if"@ =~= seq!['i', 'f']);
    assert("else"@ =~= seq!['e', 'l', 's', 'e']);
    assert("true"@ =~= seq!['t', 'r', 'u', 'e']);
    assert("false"@ =~= seq!['f', 'a', 'l', 's', 'e']);
    assert("return"@ =~= seq!['r', 'e', 't', 'u', 'r', 'n']);
    assert forall|k: Keyword| keyword_of(keyword_text(k)) == Some(k) by {
        let t = keyword_text(k);
        match k {
            Keyword::Function => {},
            Keyword::Let => {
                assert(t.len() != "fn"@.len());
            },
            Keyword::If => {
                assert(t[0] != "fn"@[0]);
                assert(t.len() != "let"@.len());
            },
            Keyword::Else => {
                assert(t.len() != "fn"@.len());
                assert(t.len() != "let"@.len());
                assert(t.len() != "if"@.len());
            },
            Keyword::True => {
                assert(t.len() != "fn"@.len());
                assert(t.len() != "let"@.len());
                assert(t.len() != "if"@.len());
                assert(t[0] != "else"@[0]);
            },
            Keyword::False => {
                assert(t.len() != "fn"@.len());
                assert(t.len() != "let"@.len());
                assert(t.len() != "if"@.len());
                assert(t.len() != "else"@.len());
                assert(t.len() != "true"@.len());
            },
            Keyword::Return => {
                assert(t.len() != "fn"@.len());
                assert(t.len() != "let"@.len());
                assert(t.len() != "if"@.len());
                assert(t.len() != "else"@.len());
                assert(t.len() != "true"@.len());
                assert(t.len() != "false"@.len());
            },
        }
    }
}

/// A keyword behind spaces, with no letter, digit or underscore behind it,
/// is taken as that keyword.
pub proof fn lemma_take_keyword(input: Seq<u8>, q: int, k: int, word: Keyword)
    requires
        blank(input, q, k),
        has(input, q + k, keyword_text(word)),
        q + k + keyword_text(word).len() == input.len() || !in_class(
            ByteClass::Word,
            input[q + k + keyword_text(word).len()],
        ),
    ensures
        take(input, q) == Some((TokenView::Keyword(word), q + k + keyword_text(word).len())),
{
    lemma_keywords();
    let w = keyword_text(word);
    assert(w.len() > 0 && is_word_start(w[0] as u8) && (forall|i: int|
        0 <= i < w.len() ==> is_word_char(#[trigger] w[i])));
    lemma_read_word(input, q, k, w);
}

/// A name behind spaces, with no letter, digit or underscore behind it,
/// is taken as an identifier.
pub proof fn lemma_take_name(input: Seq<u8>, q: int, k: int, name: Seq<char>)
    requires
        blank(input, q, k),
        has(input, q + k, name),
        is_name(name),
        q + k + name.len() == input.len() || !in_class(
            ByteClass::Word,
            input[q + k + name.len()],
        ),
    ensures
        take(input, q) == Some((TokenView::Ident(name), q + k + name.len())),
{
    lemma_read_word(input, q, k, name);
}

/// A byte of punctuation behind spaces is taken as its token.
pub proof fn lemma_take_symbol(input: Seq<u8>, q: int, k: int, b: u8)
    requires
        blank(input, q, k),
        q + k < input.len(),
        input[q + k] == b,
        b == 41 || b == 93 || b == 44 || b == 59 || b == 58 || b == 40 || b == 91 || b == 43 || b
            == 45 || b == 42 || b == 47 || b == 60 || b == 62 || b == 37 || b == 123 || b == 125,
    ensures
        take(input, q) == Some((symbol(b), q + k + 1)),
{
    lemma_read_symbol(input, q, k, b);
}

/// Whether an expression can start with the token.
pub open spec fn opens(t: TokenView) -> bool {
    t is Ident || t is Int || t is String || t == TokenView::Keyword(Keyword::True) || t
        == TokenView::Keyword(Keyword::False) || t == TokenView::Keyword(Keyword::If) || t
        == TokenView::Keyword(Keyword::Function) || t is LParen || t is LBracket || t is LBrace
}

/// Whether the token ends every expression before it.
pub open spec fn closes(t: TokenView) -> bool {
    t is RParen || t is RBracket || t is RBrace || t is Comma || t is Colon || t is Semicolon
}

/// Where a delimiter stands, a token of punctuation is taken.
pub proof fn lemma_take_delimiter(input: Seq<u8>, q: int)
    requires
        stops(input, q),
    ensures
        take(input, q) is Some,
        !(take(input, q)->Some_0.0 is Keyword),
        !(take(input, q)->Some_0.0 is Ident),
{
    assert(blank(input, q, 0));
    lemma_skip_blank(input, q, 0);
}

/// Where a token that ends expressions is next, nothing follows an
/// operand.
pub proof fn lemma_stop(input: Seq<u8>, q: int, prec: u8, left: ExprView)
    requires
        take(input, q) is Some,
        closes(take(input, q)->Some_0.0),
    ensures
        parse_infix(input, q, prec, left) == Ok::<(ExprView, int), ErrorView>((left, q)),
{
}

/// The text of a function literal does not show its name.
pub proof fn lemma_render_ignores_name(f: FnView, name: Option<Seq<char>>)
    ensures
        render(ExprView::Fn(FnView { name, ..f })) == render(ExprView::Fn(f)),
{
}

/// The number of characters of the text of an expression.
pub open spec fn width(e: ExprView) -> int {
    render(e).len() as int
}

/// What the pieces of punctuation that the printer writes spell.
pub proof fn lemma_literals()
    ensures
        "("@ == seq!['('],
        ")"@ == seq![')'],
        "["@ == seq!['['],
        "]"@ == seq![']'],
        "{"@ == seq!['{'],
        "}"@ == seq!['}'],
        "\""@ == seq!['"'],
        "])"@ == seq![']', ')'],
        ", "@ == seq![',', ' '],
        ": "@ == seq![':', ' '],
        "; "@ == seq![';', ' '],
        " = "@ == seq![' ', '=', ' '],
        "if ("@ == seq!['i', 'f', ' ', '('],
        "fn("@ == seq!['f', 'n', '('],
        ") { "@ == seq![')', ' ', '{', ' '],
        " else { "@ == seq![' ', 'e', 'l', 's', 'e', ' ', '{', ' '],
        "let "@ == seq!['l', 'e', 't', ' '],
        "return "@ == seq!['r', 'e', 't', 'u', 'r', 'n', ' '],
        "!"@ == seq!['!'],
        "-"@ == seq!['-'],
        "+"@ == seq!['+'],
        "*"@ == seq!['*'],
        "/"@ == seq!['/'],
        "<"@ == seq!['<'],
        ">"@ == seq!['>'],
        "%"@ == seq!['%'],
        "=="@ == seq!['=', '='],
        "!="@ == seq!['!', '='],
{
    reveal_strlit("(");
    reveal_strlit(")");
    reveal_strlit("[");
    reveal_strlit("]");
    reveal_strlit("{");
    reveal_strlit("}");
    reveal_strlit("\"");
    reveal_strlit("])");
    reveal_strlit(", ");
    reveal_strlit(": ");
    reveal_strlit("; ");
    reveal_strlit(" = ");
    reveal_strlit("if (");
    reveal_strlit("fn(");
    reveal_strlit(") { ");
    reveal_strlit(" else { ");
    reveal_strlit("let ");
    reveal_strlit("return ");
    reveal_strlit("!");
    reveal_strlit("-");
    reveal_strlit("+");
    reveal_strlit("*");
    reveal_strlit("/");
    reveal_strlit("<");
    reveal_strlit(">");
    reveal_strlit("%");
    reveal_strlit("==");
    reveal_strlit("!=");
    assert("("@ =~= seq!['(']);
    assert(")"@ =~= seq![')']);
    assert("["@ =~= seq!['[']);
    assert("]"@ =~= seq![']']);
    assert("{"@ =~= seq!['{']);
    assert("}"@ =~= seq!['}']);
    assert("\""@ =~= seq!['"']);
    assert("])"@ =~= seq![']', ')']);
    assert(", "@ =~= seq![',', ' ']);
    assert(": "@ =~= seq![':', ' ']);
    assert("; "@ =~= seq![';', ' ']);
    assert(" = "@ =~= seq![' ', '=', ' ']);
    assert("if ("@ =~= seq!['i', 'f', ' ', '(']);
    assert("fn("@ =~= seq!['f', 'n', '(']);
    assert(") { "@ =~= seq![')', ' ', '{', ' ']);
    assert(" else { "@ =~= seq![' ', 'e', 'l', 's', 'e', ' ', '{', ' ']);
    assert("let "@ =~= seq!['l', 'e', 't', ' ']);
    assert("return "@ =~= seq!['r', 'e', 't', 'u', 'r', 'n', ' ']);
    assert("!"@ =~= seq!['!']);
    assert("-"@ =~= seq!['-']);
    assert("+"@ =~= seq!['+']);
    assert("*"@ =~= seq!['*']);
    assert("/"@ =~= seq!['/']);
    assert("<"@ =~= seq!['<']);
    assert(">"@ =~= seq!['>']);
    assert("%"@ =~= seq!['%']);
    assert("=="@ =~= seq!['=', '=']);
    assert("!="@ =~= seq!['!', '=']);
}

/// The input holds three texts one behind the other where it holds their
/// concatenation.
pub proof fn lemma_has3(input: Seq<u8>, q: int, a: Seq<char>, b: Seq<char>, c: Seq<char>)
    requires
        has(input, q, a + b + c),
    ensures
        has(input, q, a),
        has(input, q + a.len(), b),
        has(input, q + a.len() + b.len(), c),
{
    lemma_has_concat(input, q, a + b, c);
    lemma_has_concat(input, q, a, b);
}

/// The same for four texts.
pub proof fn lemma_has4(
    input: Seq<u8>,
    q: int,
    a: Seq<char>,
    b: Seq<char>,
    c: Seq<char>,
    d: Seq<char>,
)
    requires
        has(input, q, a + b + c + d),
    ensures
        has(input, q, a),
        has(input, q + a.len(), b),
        has(input, q + a.len() + b.len(), c),
        has(input, q + a.len() + b.len() + c.len(), d),
{
    lemma_has_concat(input, q, a + b + c, d);
    lemma_has3(input, q, a, b, c);
}

/// The same for five texts.
pub proof fn lemma_has5(
    input: Seq<u8>,
    q: int,
    a: Seq<char>,
    b: Seq<char>,
    c: Seq<char>,
    d: Seq<char>,
    e: Seq<char>,
)
    requires
        has(input, q, a + b + c + d + e),
    ensures
        has(input, q, a),
        has(input, q + a.len(), b),
        has(input, q + a.len() + b.len(), c),
        has(input, q + a.len() + b.len() + c.len(), d),
        has(input, q + a.len() + b.len() + c.len() + d.len(), e),
{
    lemma_has_concat(input, q, a + b + c + d, e);
    lemma_has4(input, q, a, b, c, d);
}

/// The text of a conditional, piece by piece.
pub proof fn lemma_layout_if(
    condition: ExprView,
    consequence: Seq<ExprView>,
    alternative: Option<Seq<ExprView>>,
)
    ensures
        render(ExprView::If { condition: Box::new(condition), consequence, alternative }) == (
        match alternative {
            Some(alt) => "if ("@ + render(condition) + ") { "@ + block_text(consequence, 0)
                + "}"@ + " else { "@ + block_text(alt, 0) + "}"@,
            None => "if ("@ + render(condition) + ") { "@ + block_text(consequence, 0) + "}"@,
        }),
{
    let head = "if ("@ + render(condition) + ") { "@;
    lemma_render_block(consequence, 0, head);
    match alternative {
        Some(alt) => {
            lemma_render_block(alt, 0, head + block_text(consequence, 0) + "}"@ + " else { "@);
        },
        None => {},
    }
}

/// The text of a function literal, piece by piece.
pub proof fn lemma_layout_fn(f: FnView)
    ensures
        render(ExprView::Fn(f)) == "fn("@ + names_text(f.args) + ") { "@ + block_text(f.body, 0)
            + "}"@,
{
    lemma_render_names(f.args, 0, "fn("@);
    lemma_render_block(f.body, 0, "fn("@ + names_text(f.args) + ") { "@);
}

/// The text of a call, piece by piece.
pub proof fn lemma_layout_call(callee: ExprView, args: Seq<ExprView>)
    ensures
        render(ExprView::Call { callee: Box::new(callee), args }) == render(callee) + "("@
            + items_text(args) + ")"@,
{
    lemma_render_list(args, 0, render(callee) + "("@);
}

/// The text of an array literal, piece by piece.
pub proof fn lemma_layout_array(items: Seq<ExprView>)
    ensures
        render(ExprView::Array(items)) == "["@ + items_text(items) + "]"@,
{
    lemma_render_list(items, 0, "["@);
}

/// The text of a hash literal, piece by piece.
pub proof fn lemma_layout_hash(pairs: Seq<(ExprView, ExprView)>)
    ensures
        render(ExprView::Hash(pairs)) == "{"@ + pairs_text(pairs) + "}"@,
{
    lemma_render_pairs(pairs, 0, "{"@);
}

/// The first token of the text of an expression can start an expression.
pub proof fn lemma_opens(input: Seq<u8>, q: int, k: int, e: ExprView)
    requires
        printable(e),
        blank(input, q, k),
        has(input, q + k, render(e)),
        stops(input, q + k + width(e)),
    ensures
        take(input, q) is Some,
        opens(take(input, q)->Some_0.0),
        width(e) > 0,
    decreases e,
{
    lemma_literals();
    lemma_keywords();
    let p = q + k;
    match e {
        ExprView::Int(i) => {
            lemma_read_number(input, q, k, i as nat);
        },
        ExprView::Identifier(name) => {
            lemma_take_name(input, q, k, name);
        },
        ExprView::Bool(b) => {
            if b {
                lemma_take_keyword(input, q, k, Keyword::True);
            } else {
                lemma_take_keyword(input, q, k, Keyword::False);
            }
        },
        ExprView::String(s) => {
            lemma_has3(input, p, "\""@, s, "\""@);
            lemma_has_byte(input, p, "\""@, 0);
            lemma_has_byte(input, p + 1 + s.len(), "\""@, 0);
            lemma_read_string(input, q, k, s);
        },
        ExprView::Prefix { token, right } => {
            lemma_has_concat(input, p, "("@, token_text(token) + render(*right) + ")"@);
            assert(render(e) =~= "("@ + (token_text(token) + render(*right) + ")"@));
            lemma_has_byte(input, p, "("@, 0);
            lemma_take_symbol(input, q, k, 40);
        },
        ExprView::Infix { left, token, right } => {
            if token is LBracket {
                assert(render(e) =~= "("@ + (render(*left) + "["@ + render(*right) + "])"@));
                lemma_has_concat(input, p, "("@, render(*left) + "["@ + render(*right) + "])"@);
            } else {
                assert(render(e) =~= "("@ + (render(*left) + token_text(token) + render(*right)
                    + ")"@));
                lemma_has_concat(
                    input,
                    p,
                    "("@,
                    render(*left) + token_text(token) + render(*right) + ")"@,
                );
            }
            lemma_has_byte(input, p, "("@, 0);
            lemma_take_symbol(input, q, k, 40);
        },
        ExprView::If { condition, consequence, alternative } => {
            lemma_layout_if(*condition, consequence, alternative);
            let rest = render(e).subrange(2, render(e).len() as int);
            assert(render(e) =~= "if"@ + rest);
            lemma_has_concat(input, p, "if"@, rest);
            lemma_has_byte(input, p, render(e), 2);
            lemma_take_keyword(input, q, k, Keyword::If);
        },
        ExprView::Fn(f) => {
            lemma_layout_fn(f);
            let rest = render(e).subrange(2, render(e).len() as int);
            assert(render(e) =~= "fn"@ + rest);
            lemma_has_concat(input, p, "fn"@, rest);
            lemma_has_byte(input, p, render(e), 2);
            lemma_take_keyword(input, q, k, Keyword::Function);
        },
        ExprView::Call { callee, args } => {
            lemma_layout_call(*callee, args);
            lemma_has4(input, p, render(*callee), "("@, items_text(args), ")"@);
            lemma_has_byte(input, p + width(*callee), "("@, 0);
            lemma_opens(input, q, k, *callee);
        },
        ExprView::Let { .. } => {},
        ExprView::Return(_) => {},
        ExprView::Array(items) => {
            lemma_layout_array(items);
            lemma_has3(input, p, "["@, items_text(items), "]"@);
            lemma_has_byte(input, p, "["@, 0);
            lemma_take_symbol(input, q, k, 91);
        },
        ExprView::Hash(pairs) => {
            lemma_layout_hash(pairs);
            lemma_has3(input, p, "{"@, pairs_text(pairs), "}"@);
            lemma_has_byte(input, p, "{"@, 0);
            lemma_take_symbol(input, q, k, 123);
        },
    }
}

/// Where `(` stands behind spaces, it is taken.
pub proof fn lemma_piece_lparen(input: Seq<u8>, q: int, k: int)
    requires
        blank(input, q, k),
        has(input, q + k, "("@),
    ensures
        take(input, q) == Some((TokenView::LParen, q + k + 1)),
        "("@.len() == 1,
        stops(input, q + k),
{
    reveal_strlit("(");
    lemma_has_byte(input, q + k, "("@, 0);
    lemma_take_symbol(input, q, k, 40);
}

/// Where `)` stands behind spaces, it is taken.
pub proof fn lemma_piece_rparen(input: Seq<u8>, q: int, k: int)
    requires
        blank(input, q, k),
        has(input, q + k, ")"@),
    ensures
        take(input, q) == Some((TokenView::RParen, q + k + 1)),
        ")"@.len() == 1,
        stops(input, q + k),
        input[q + k] == 41,
{
    reveal_strlit(")");
    lemma_has_byte(input, q + k, ")"@, 0);
    lemma_take_symbol(input, q, k, 41);
}

/// Where `[` stands behind spaces, it is taken.
pub proof fn lemma_piece_lbracket(input: Seq<u8>, q: int, k: int)
    requires
        blank(input, q, k),
        has(input, q + k, "["@),
    ensures
        take(input, q) == Some((TokenView::LBracket, q + k + 1)),
        "["@.len() == 1,
        stops(input, q + k),
{
    reveal_strlit("[");
    lemma_has_byte(input, q + k, "["@, 0);
    lemma_take_symbol(input, q, k, 91);
}

/// Where `]` stands behind spaces, it is taken.
pub proof fn lemma_piece_rbracket(input: Seq<u8>, q: int, k: int)
    requires
        blank(input, q, k),
        has(input, q + k, "]"@),
    ensures
        take(input, q) == Some((TokenView::RBracket, q + k + 1)),
        "]"@.len() == 1,
        stops(input, q + k),
        input[q + k] == 93,
{
    reveal_strlit("]");
    lemma_has_byte(input, q + k, "]"@, 0);
    lemma_take_symbol(input, q, k, 93);
}

/// Where `{` stands behind spaces, it is taken.
pub proof fn lemma_piece_lbrace(input: Seq<u8>, q: int, k: int)
    requires
        blank(input, q, k),
        has(input, q + k, "{"@),
    ensures
        take(input, q) == Some((TokenView::LBrace, q + k + 1)),
        "{"@.len() == 1,
{
    reveal_strlit("{");
    lemma_has_byte(input, q + k, "{"@, 0);
    lemma_take_symbol(input, q, k, 123);
}

/// Where `}` stands behind spaces, it is taken.
pub proof fn lemma_piece_rbrace(input: Seq<u8>, q: int, k: int)
    requires
        blank(input, q, k),
        has(input, q + k, "}"@),
    ensures
        take(input, q) == Some((TokenView::RBrace, q + k + 1)),
        "}"@.len() == 1,
        stops(input, q + k),
        input[q + k] == 125,
{
    reveal_strlit("}");
    lemma_has_byte(input, q + k, "}"@, 0);
    lemma_take_symbol(input, q, k, 125);
}

/// Where `])` stands, the two tokens are taken one behind the other.
pub proof fn lemma_piece_index_close(input: Seq<u8>, q: int)
    requires
        has(input, q, "])"@),
    ensures
        take(input, q) == Some((TokenView::RBracket, q + 1)),
        take(input, q + 1) == Some((TokenView::RParen, q + 2)),
        "])"@.len() == 2,
        stops(input, q),
{
    reveal_strlit("])");
    lemma_has_byte(input, q, "])"@, 0);
    lemma_has_byte(input, q, "])"@, 1);
    assert(blank(input, q, 0));
    assert(blank(input, q + 1, 0));
    lemma_take_symbol(input, q, 0, 93);
    lemma_take_symbol(input, q + 1, 0, 41);
}

/// Where `, ` stands, the comma is taken and a space is behind it.
pub proof fn lemma_piece_comma(input: Seq<u8>, q: int)
    requires
        has(input, q, ", "@),
    ensures
        take(input, q) == Some((TokenView::Comma, q + 1)),
        blank(input, q + 1, 1),
        ", "@.len() == 2,
        stops(input, q),
        input[q] == 44,
{
    reveal_strlit(", ");
    lemma_has_byte(input, q, ", "@, 0);
    lemma_has_byte(input, q, ", "@, 1);
    assert(blank(input, q, 0));
    lemma_take_symbol(input, q, 0, 44);
}

/// Where `: ` stands, the colon is taken and a space is behind it.
pub proof fn lemma_piece_colon(input: Seq<u8>, q: int)
    requires
        has(input, q, ": "@),
    ensures
        take(input, q) == Some((TokenView::Colon, q + 1)),
        blank(input, q + 1, 1),
        ": "@.len() == 2,
        stops(input, q),
{
    reveal_strlit(": ");
    lemma_has_byte(input, q, ": "@, 0);
    lemma_has_byte(input, q, ": "@, 1);
    assert(blank(input, q, 0));
    lemma_take_symbol(input, q, 0, 58);
}

/// Where `; ` stands, the semicolon is taken and a space is behind it.
pub proof fn lemma_piece_semicolon(input: Seq<u8>, q: int)
    requires
        has(input, q, "; "@),
    ensures
        take(input, q) == Some((TokenView::Semicolon, q + 1)),
        blank(input, q + 1, 1),
        "; "@.len() == 2,
        stops(input, q),
{
    reveal_strlit("; ");
    lemma_has_byte(input, q, "; "@, 0);
    lemma_has_byte(input, q, "; "@, 1);
    assert(blank(input, q, 0));
    lemma_take_symbol(input, q, 0, 59);
}

/// Where ` = ` stands, the assignment sign is taken and a space is behind
/// it.
pub proof fn lemma_piece_assign(input: Seq<u8>, q: int)
    requires
        has(input, q, " = "@),
    ensures
        take(input, q) == Some((TokenView::Assign, q + 2)),
        blank(input, q + 2, 1),
        " = "@.len() == 3,
        input[q] == 32,
{
    reveal_strlit(" = ");
    lemma_has_byte(input, q, " = "@, 0);
    lemma_has_byte(input, q, " = "@, 1);
    lemma_has_byte(input, q, " = "@, 2);
    assert(blank(input, q, 1));
    lemma_read_assign(input, q, 1);
}

/// Where `if (` stands behind spaces, the keyword and the parenthesis are
/// taken one behind the other.
pub proof fn lemma_piece_if(input: Seq<u8>, q: int, k: int)
    requires
        blank(input, q, k),
        has(input, q + k, "if ("@),
    ensures
        take(input, q) == Some((TokenView::Keyword(Keyword::If), q + k + 2)),
        take(input, q + k + 2) == Some((TokenView::LParen, q + k + 4)),
        "if ("@.len() == 4,
{
    lemma_keywords();
    reveal_strlit("if (");
    assert("if ("@ =~= "if"@ + seq![' ', '(']);
    lemma_has_concat(input, q + k, "if"@, seq![' ', '(']);
    lemma_has_byte(input, q + k, "if ("@, 2);
    lemma_has_byte(input, q + k, "if ("@, 3);
    lemma_take_keyword(input, q, k, Keyword::If);
    assert(blank(input, q + k + 2, 1));
    lemma_take_symbol(input, q + k + 2, 1, 40);
}

/// Where `fn(` stands behind spaces, the keyword and the parenthesis are
/// taken one behind the other.
pub proof fn lemma_piece_fn(input: Seq<u8>, q: int, k: int)
    requires
        blank(input, q, k),
        has(input, q + k, "fn("@),
    ensures
        take(input, q) == Some((TokenView::Keyword(Keyword::Function), q + k + 2)),
        take(input, q + k + 2) == Some((TokenView::LParen, q + k + 3)),
        "fn("@.len() == 3,
{
    lemma_keywords();
    reveal_strlit("fn(");
    assert("fn("@ =~= "fn"@ + seq!['(']);
    lemma_has_concat(input, q + k, "fn"@, seq!['(']);
    lemma_has_byte(input, q + k, "fn("@, 2);
    lemma_take_keyword(input, q, k, Keyword::Function);
    assert(blank(input, q + k + 2, 0));
    lemma_take_symbol(input, q + k + 2, 0, 40);
}

/// Where `let ` stands behind spaces, the keyword is taken and a space is
/// behind it.
pub proof fn lemma_piece_let(input: Seq<u8>, q: int, k: int)
    requires
        blank(input, q, k),
        has(input, q + k, "let "@),
    ensures
        take(input, q) == Some((TokenView::Keyword(Keyword::Let), q + k + 3)),
        blank(input, q + k + 3, 1),
        "let "@.len() == 4,
{
    lemma_keywords();
    reveal_strlit("let ");
    assert("let "@ =~= "let"@ + seq![' ']);
    lemma_has_concat(input, q + k, "let"@, seq![' ']);
    lemma_has_byte(input, q + k, "let "@, 3);
    lemma_take_keyword(input, q, k, Keyword::Let);
}

/// Where `return ` stands behind spaces, the keyword is taken and a space
/// is behind it.
pub proof fn lemma_piece_return(input: Seq<u8>, q: int, k: int)
    requires
        blank(input, q, k),
        has(input, q + k, "return "@),
    ensures
        take(input, q) == Some((TokenView::Keyword(Keyword::Return), q + k + 6)),
        blank(input, q + k + 6, 1),
        "return "@.len() == 7,
{
    lemma_keywords();
    reveal_strlit("return ");
    assert("return "@ =~= "return"@ + seq![' ']);
    lemma_has_concat(input, q + k, "return"@, seq![' ']);
    lemma_has_byte(input, q + k, "return "@, 6);
    lemma_take_keyword(input, q, k, Keyword::Return);
}

/// Where `) { ` stands, the parenthesis and the brace are taken one behind
/// the other, and a space is behind them.
pub proof fn lemma_piece_block_open(input: Seq<u8>, q: int)
    requires
        has(input, q, ") { "@),
    ensures
        take(input, q) == Some((TokenView::RParen, q + 1)),
        take(input, q + 1) == Some((TokenView::LBrace, q + 3)),
        blank(input, q + 3, 1),
        ") { "@.len() == 4,
        stops(input, q),
        input[q] == 41,
{
    reveal_strlit(") { ");
    lemma_has_byte(input, q, ") { "@, 0);
    lemma_has_byte(input, q, ") { "@, 1);
    lemma_has_byte(input, q, ") { "@, 2);
    lemma_has_byte(input, q, ") { "@, 3);
    assert(blank(input, q, 0));
    lemma_take_symbol(input, q, 0, 41);
    assert(blank(input, q + 1, 1));
    lemma_take_symbol(input, q + 1, 1, 123);
}

/// Where ` else { ` stands, the keyword and the brace are taken one behind
/// the other, and a space is behind them.
pub proof fn lemma_piece_else(input: Seq<u8>, q: int)
    requires
        has(input, q, " else { "@),
    ensures
        take(input, q) == Some((TokenView::Keyword(Keyword::Else), q + 5)),
        take(input, q + 5) == Some((TokenView::LBrace, q + 7)),
        blank(input, q + 7, 1),
        " else { "@.len() == 8,
{
    lemma_keywords();
    reveal_strlit(" else { ");
    assert(" else { "@ =~= seq![' '] + "else"@ + seq![' ', '{', ' ']);
    lemma_has3(input, q, seq![' '], "else"@, seq![' ', '{', ' ']);
    lemma_has_byte(input, q, " else { "@, 0);
    lemma_has_byte(input, q, " else { "@, 5);
    lemma_has_byte(input, q, " else { "@, 6);
    lemma_has_byte(input, q, " else { "@, 7);
    assert(blank(input, q, 1));
    lemma_take_keyword(input, q, 1, Keyword::Else);
    assert(blank(input, q + 5, 1));
    lemma_take_symbol(input, q + 5, 1, 123);
}

/// Where a string literal stands behind spaces, it is taken.
pub proof fn lemma_piece_string(input: Seq<u8>, q: int, k: int, s: Seq<char>)
    requires
        blank(input, q, k),
        has(input, q + k, "\""@ + s + "\""@),
        is_plain(s),
    ensures
        take(input, q) == Some((TokenView::String(s), q + k + s.len() + 2)),
        ("\""@ + s + "\""@).len() == s.len() + 2,
{
    reveal_strlit("\"");
    lemma_has3(input, q + k, "\""@, s, "\""@);
    lemma_has_byte(input, q + k, "\""@, 0);
    lemma_has_byte(input, q + k + 1 + s.len(), "\""@, 0);
    lemma_read_string(input, q, k, s);
}

/// Where a prefix operator stands, with no `=` behind it, it is taken.
pub proof fn lemma_piece_prefix(input: Seq<u8>, q: int, t: TokenView)
    requires
        t is Bang || t is Minus,
        has(input, q, token_text(t)),
        q + 1 < input.len(),
        input[q + 1] != 61,
    ensures
        take(input, q) == Some((t, q + 1)),
        token_text(t).len() == 1,
{
    reveal_strlit("!");
    reveal_strlit("-");
    lemma_has_byte(input, q, token_text(t), 0);
    assert(blank(input, q, 0));
    if t is Bang {
        lemma_read_bang(input, q, 0);
    } else {
        lemma_take_symbol(input, q, 0, 45);
    }
}

/// Where only spaces are left, no token is left.
pub proof fn lemma_blank_end(input: Seq<u8>, q: int, k: int)
    requires
        blank(input, q, k),
        q + k == input.len(),
    ensures
        take(input, q) is None,
{
    lemma_span_run(input, q, q + k, ByteClass::Space);
}

} // verus!
