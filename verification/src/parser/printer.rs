//! How trees are printed. What is printed can be parsed again.

use vstd::prelude::*;
use vstd::string::StringExecFns;
use crate::builtins::separator;
use crate::lexer::tokens::token_text;
use crate::parser::types::{exprs_view, names_view, pairs_view, Block, Expr, ExprView, Fn, Program};
use crate::text::{decimal, int_to_string};

verus! {

broadcast use crate::parser::types::group_expr_views;

/// The text of an expression. Operators stand with their operands in
/// parentheses, `(a+b)`, `(-a)`, `(a[i])`; strings stand in double quotes;
/// the statements of a block end in a semicolon each.
pub open spec fn render(e: ExprView) -> Seq<char>
    decreases e, 0nat,
{
    match e {
        ExprView::Int(i) => decimal(i as int),
        ExprView::Identifier(name) => name,
        ExprView::Bool(b) => if b {
            "true"@
        } else {
            "false"@
        },
        ExprView::String(s) => "\""@ + s + "\""@,
        ExprView::Prefix { token, right } => "("@ + token_text(token) + render(*right) + ")"@,
        ExprView::Infix { left, token, right } => if token is LBracket {
            "("@ + render(*left) + "["@ + render(*right) + "])"@
        } else {
            "("@ + render(*left) + token_text(token) + render(*right) + ")"@
        },
        ExprView::If { condition, consequence, alternative } => {
            let head = render_block(consequence, 0, "if ("@ + render(*condition) + ") { "@) + "}"@;
            match alternative {
                Some(alt) => render_block(alt, 0, head + " else { "@) + "}"@,
                None => head,
            }
        },
        ExprView::Fn(f) => render_block(
            f.body,
            0,
            render_names(f.args, 0, "fn("@) + ") { "@,
        ) + "}"@,
        ExprView::Call { callee, args } => render_list(args, 0, render(*callee) + "("@) + ")"@,
        ExprView::Let { name, value } => "let "@ + name + " = "@ + render(*value),
        ExprView::Return(value) => "return "@ + render(*value),
        ExprView::Array(items) => render_list(items, 0, "["@) + "]"@,
        ExprView::Hash(pairs) => render_pairs(pairs, 0, "{"@) + "}"@,
    }
}

/// `acc` followed by the expressions from `i` on, separated by `, `.
pub open spec fn render_list(items: Seq<ExprView>, i: int, acc: Seq<char>) -> Seq<char>
    decreases items, items.len() - i,
{
    if 0 <= i < items.len() {
        render_list(items, i + 1, acc + separator(i) + render(items[i]))
    } else {
        acc
    }
}

/// `acc` followed by the pairs from `i` on, each as `key: value`,
/// separated by `, `.
pub open spec fn render_pairs(pairs: Seq<(ExprView, ExprView)>, i: int, acc: Seq<char>) -> Seq<char>
    decreases pairs, pairs.len() - i,
{
    if 0 <= i < pairs.len() {
        render_pairs(
            pairs,
            i + 1,
            acc + separator(i) + render(pairs[i].0) + ": "@ + render(pairs[i].1),
        )
    } else {
        acc
    }
}

/// `acc` followed by the statements from `i` on, each with `; ` behind it.
pub open spec fn render_block(stmts: Seq<ExprView>, i: int, acc: Seq<char>) -> Seq<char>
    decreases stmts, stmts.len() - i,
{
    if 0 <= i < stmts.len() {
        render_block(stmts, i + 1, acc + render(stmts[i]) + "; "@)
    } else {
        acc
    }
}

/// `acc` followed by the names from `i` on, separated by `, `.
pub open spec fn render_names(names: Seq<Seq<char>>, i: int, acc: Seq<char>) -> Seq<char>
    decreases names.len() - i,
{
    if 0 <= i < names.len() {
        render_names(names, i + 1, acc + separator(i) + names[i])
    } else {
        acc
    }
}

/// The text of a program: its statements, each with `; ` behind it.
pub open spec fn render_program(stmts: Seq<ExprView>) -> Seq<char> {
    render_block(stmts, 0, Seq::empty())
}

fn append_list(items: &Vec<Expr>, s: &mut String)
    ensures
        final(s)@ == render_list(exprs_view(items@), 0, old(s)@),
    decreases items,
{
    let ghost views = exprs_view(items@);
    let mut i: usize = 0;
    while i < items.len()
        invariant
            0 <= i <= items.len(),
            views == exprs_view(items@),
            render_list(views, i as int, s@) == render_list(views, 0, old(s)@),
        decreases items.len() - i,
    {
        if i > 0 {
            s.append(", ");
        }
        let text = items[i].to_string();
        s.append(text.as_str());
        i += 1;
    }
}

fn append_pairs(pairs: &Vec<(Expr, Expr)>, s: &mut String)
    ensures
        final(s)@ == render_pairs(pairs_view(pairs@), 0, old(s)@),
    decreases pairs,
{
    let ghost views = pairs_view(pairs@);
    let mut i: usize = 0;
    while i < pairs.len()
        invariant
            0 <= i <= pairs.len(),
            views == pairs_view(pairs@),
            render_pairs(views, i as int, s@) == render_pairs(views, 0, old(s)@),
        decreases pairs.len() - i,
    {
        if i > 0 {
            s.append(", ");
        }
        let key = pairs[i].0.to_string();
        s.append(key.as_str());
        s.append(": ");
        let value = pairs[i].1.to_string();
        s.append(value.as_str());
        i += 1;
    }
}

fn append_block(stmts: &Vec<Expr>, s: &mut String)
    ensures
        final(s)@ == render_block(exprs_view(stmts@), 0, old(s)@),
    decreases stmts,
{
    let ghost views = exprs_view(stmts@);
    let mut i: usize = 0;
    while i < stmts.len()
        invariant
            0 <= i <= stmts.len(),
            views == exprs_view(stmts@),
            render_block(views, i as int, s@) == render_block(views, 0, old(s)@),
        decreases stmts.len() - i,
    {
        let text = stmts[i].to_string();
        s.append(text.as_str());
        s.append("; ");
        i += 1;
    }
}

fn append_names(names: &Vec<String>, s: &mut String)
    ensures
        final(s)@ == render_names(names_view(names@), 0, old(s)@),
{
    let ghost views = names_view(names@);
    let mut i: usize = 0;
    while i < names.len()
        invariant
            0 <= i <= names.len(),
            views == names_view(names@),
            render_names(views, i as int, s@) == render_names(views, 0, old(s)@),
        decreases names.len() - i,
    {
        if i > 0 {
            s.append(", ");
        }
        s.append(names[i].as_str());
        i += 1;
    }
}

impl Expr {
    /// The text of the expression.
    pub fn to_string(&self) -> (s: String)
        ensures
            s@ == render(self@),
        decreases self,
    {
        match self {
            Expr::Int(i) => int_to_string(*i),
            Expr::Identifier(name) => name.clone(),
            Expr::Bool(b) => if *b {
                String::from_str("true")
            } else {
                String::from_str("false")
            },
            Expr::String(text) => {
                let mut s = String::from_str("\"");
                s.append(text.as_str());
                s.append("\"");
                s
            },
            Expr::Prefix(p) => {
                let mut s = String::from_str("(");
                s.append(p.token.to_string().as_str());
                s.append(p.right.to_string().as_str());
                s.append(")");
                s
            },
            Expr::Infix(i) => {
                let mut s = String::from_str("(");
                s.append(i.left.to_string().as_str());
                if let crate::lexer::tokens::Token::LBracket = &i.token {
                    s.append("[");
                    s.append(i.right.to_string().as_str());
                    s.append("])");
                } else {
                    s.append(i.token.to_string().as_str());
                    s.append(i.right.to_string().as_str());
                    s.append(")");
                }
                s
            },
            Expr::If(i) => {
                let mut s = String::from_str("if (");
                s.append(i.condition.to_string().as_str());
                s.append(") { ");
                append_block(&i.consequence.0, &mut s);
                s.append("}");
                match &i.alternative {
                    Some(alt) => {
                        s.append(" else { ");
                        append_block(&alt.0, &mut s);
                        s.append("}");
                    },
                    None => {},
                }
                s
            },
            Expr::Fn(f) => {
                let mut s = String::from_str("fn(");
                append_names(&f.args, &mut s);
                s.append(") { ");
                append_block(&f.body.0, &mut s);
                s.append("}");
                s
            },
            Expr::Call(c) => {
                let mut s = c.expr.to_string();
                s.append("(");
                append_list(&c.args, &mut s);
                s.append(")");
                s
            },
            Expr::Let(l) => {
                let mut s = String::from_str("let ");
                s.append(l.name.as_str());
                s.append(" = ");
                s.append(l.value.to_string().as_str());
                s
            },
            Expr::Return(value) => {
                let mut s = String::from_str("return ");
                s.append(value.to_string().as_str());
                s
            },
            Expr::Array(items) => {
                let mut s = String::from_str("[");
                append_list(items, &mut s);
                s.append("]");
                s
            },
            Expr::Hash(pairs) => {
                let mut s = String::from_str("{");
                append_pairs(pairs, &mut s);
                s.append("}");
                s
            },
        }
    }
}

impl Block {
    /// The text of the block: its statements, each with `; ` behind it.
    pub fn to_string(&self) -> (s: String)
        ensures
            s@ == render_program(self@),
    {
        let mut s = String::new();
        append_block(&self.0, &mut s);
        s
    }
}

impl Program {
    /// The text of the program: its statements, each with `; ` behind it.
    pub fn to_string(&self) -> (s: String)
        ensures
            s@ == render_program(self@),
    {
        let mut s = String::new();
        append_block(&self.statements, &mut s);
        s
    }
}

} // verus!
