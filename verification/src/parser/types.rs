//! Expression trees and their mathematical view.

use vstd::prelude::*;
use std::rc::Rc;
use crate::lexer::tokens::{Token, TokenView};

verus! {

/// An ordered list of expressions.
#[derive(Debug, PartialEq)]
pub struct Block(pub Vec<Expr>);

/// One node of an expression tree.
#[derive(Debug, PartialEq)]
pub enum Expr {
    Int(i64),
    Identifier(String),
    Array(Vec<Expr>),
    Bool(bool),
    String(String),
    Prefix(Box<Prefix>),
    Infix(Box<Infix>),
    If(If),
    Fn(Rc<Fn>),
    Call(Call),
    Let(Let),
    Return(Box<Expr>),
    Hash(Vec<(Expr, Expr)>),
}

/// A prefix operator and its operand.
#[derive(Debug, PartialEq)]
pub struct Prefix {
    pub token: Token,
    pub right: Expr,
}

/// An infix operator and its two operands. Indexing is the operator `[`.
#[derive(Debug, PartialEq)]
pub struct Infix {
    pub left: Rc<Expr>,
    pub token: Token,
    pub right: Expr,
}

/// A binding of a name to a value.
#[derive(Debug, PartialEq)]
pub struct Let {
    pub name: String,
    pub value: Box<Expr>,
}

/// A conditional with an optional alternative.
#[derive(Debug, PartialEq)]
pub struct If {
    pub condition: Box<Expr>,
    pub consequence: Block,
    pub alternative: Option<Block>,
}

/// A function literal. `name` is set where the literal is the value of a
/// `let`, so that the body can refer to the function itself.
#[derive(Debug, PartialEq)]
pub struct Fn {
    pub name: Option<String>,
    pub args: Vec<String>,
    pub body: Block,
}

/// A call of a callee on arguments.
#[derive(Debug, PartialEq)]
pub struct Call {
    pub expr: Rc<Expr>,
    pub args: Vec<Expr>,
}

/// A program: the statements of the top level.
#[derive(Debug, PartialEq)]
pub struct Program {
    pub statements: Vec<Expr>,
}

/// An expression tree as a mathematical value.
pub enum ExprView {
    Int(i64),
    Identifier(Seq<char>),
    Array(Seq<ExprView>),
    Bool(bool),
    String(Seq<char>),
    Prefix { token: TokenView, right: Box<ExprView> },
    Infix { left: Box<ExprView>, token: TokenView, right: Box<ExprView> },
    If { condition: Box<ExprView>, consequence: Seq<ExprView>, alternative: Option<Seq<ExprView>> },
    Fn(FnView),
    Call { callee: Box<ExprView>, args: Seq<ExprView> },
    Let { name: Seq<char>, value: Box<ExprView> },
    Return(Box<ExprView>),
    Hash(Seq<(ExprView, ExprView)>),
}

/// A function literal as a mathematical value.
pub struct FnView {
    pub name: Option<Seq<char>>,
    pub args: Seq<Seq<char>>,
    pub body: Seq<ExprView>,
}

/// The view of a list of names.
pub open spec fn names_view(names: Seq<String>) -> Seq<Seq<char>> {
    Seq::new(names.len(), |i: int| names[i]@)
}

/// The view of an optional name.
pub open spec fn name_view(name: Option<String>) -> Option<Seq<char>> {
    match name {
        Some(n) => Some(n@),
        None => None,
    }
}

/// The view of an expression.
pub open spec fn expr_view(e: Expr) -> ExprView
    decreases e,
{
    match e {
        Expr::Int(i) => ExprView::Int(i),
        Expr::Identifier(s) => ExprView::Identifier(s@),
        Expr::Array(v) => ExprView::Array(exprs_view(v@)),
        Expr::Bool(b) => ExprView::Bool(b),
        Expr::String(s) => ExprView::String(s@),
        Expr::Prefix(p) => ExprView::Prefix {
            token: p.token@,
            right: Box::new(expr_view(p.right)),
        },
        Expr::Infix(i) => ExprView::Infix {
            left: Box::new(expr_view(*i.left)),
            token: i.token@,
            right: Box::new(expr_view(i.right)),
        },
        Expr::If(i) => ExprView::If {
            condition: Box::new(expr_view(*i.condition)),
            consequence: exprs_view(i.consequence.0@),
            alternative: match i.alternative {
                Some(b) => Some(exprs_view(b.0@)),
                None => None,
            },
        },
        Expr::Fn(f) => ExprView::Fn(
            FnView { name: name_view(f.name), args: names_view(f.args@), body: exprs_view(f.body.0@) },
        ),
        Expr::Call(c) => ExprView::Call {
            callee: Box::new(expr_view(*c.expr)),
            args: exprs_view(c.args@),
        },
        Expr::Let(l) => ExprView::Let { name: l.name@, value: Box::new(expr_view(*l.value)) },
        Expr::Return(r) => ExprView::Return(Box::new(expr_view(*r))),
        Expr::Hash(h) => ExprView::Hash(pairs_view(h@)),
    }
}

/// The views of a list of expressions.
pub open spec fn exprs_view(s: Seq<Expr>) -> Seq<ExprView>
    decreases s,
{
    Seq::new(s.len(), |i: int| if 0 <= i < s.len() { expr_view(s[i]) } else { ExprView::Bool(false) })
}

/// The views of a list of pairs of expressions.
pub open spec fn pairs_view(s: Seq<(Expr, Expr)>) -> Seq<(ExprView, ExprView)>
    decreases s,
{
    Seq::new(
        s.len(),
        |i: int|
            if 0 <= i < s.len() {
                (expr_view(s[i].0), expr_view(s[i].1))
            } else {
                (ExprView::Bool(false), ExprView::Bool(false))
            },
    )
}

impl View for Expr {
    type V = ExprView;

    open spec fn view(&self) -> ExprView {
        expr_view(*self)
    }
}

impl View for Block {
    type V = Seq<ExprView>;

    open spec fn view(&self) -> Seq<ExprView> {
        exprs_view(self.0@)
    }
}

impl View for Program {
    type V = Seq<ExprView>;

    open spec fn view(&self) -> Seq<ExprView> {
        exprs_view(self.statements@)
    }
}

impl View for Fn {
    type V = FnView;

    open spec fn view(&self) -> FnView {
        FnView { name: name_view(self.name), args: names_view(self.args@), body: exprs_view(self.body.0@) }
    }
}

/// The view of a list has the length of the list.
pub broadcast proof fn lemma_exprs_view_len(s: Seq<Expr>)
    ensures
        #[trigger] exprs_view(s).len() == s.len(),
{
}

/// The view of a list holds the views of its elements.
pub broadcast proof fn lemma_exprs_view_index(s: Seq<Expr>, i: int)
    requires
        0 <= i < s.len(),
    ensures
        #[trigger] exprs_view(s)[i] == s[i]@,
{
}

/// The view of a list of pairs has the length of the list.
pub broadcast proof fn lemma_pairs_view_len(s: Seq<(Expr, Expr)>)
    ensures
        #[trigger] pairs_view(s).len() == s.len(),
{
}

/// The view of a list of pairs holds the views of its pairs.
pub broadcast proof fn lemma_pairs_view_index(s: Seq<(Expr, Expr)>, i: int)
    requires
        0 <= i < s.len(),
    ensures
        #[trigger] pairs_view(s)[i] == (s[i].0@, s[i].1@),
{
}

/// The view of a list of names has the length of the list.
pub broadcast proof fn lemma_names_view_len(s: Seq<String>)
    ensures
        #[trigger] names_view(s).len() == s.len(),
{
}

/// The view of a list of names holds the views of its names.
pub broadcast proof fn lemma_names_view_index(s: Seq<String>, i: int)
    requires
        0 <= i < s.len(),
    ensures
        #[trigger] names_view(s)[i] == s[i]@,
{
}

pub broadcast group group_expr_views {
    lemma_exprs_view_len,
    lemma_exprs_view_index,
    lemma_pairs_view_len,
    lemma_pairs_view_index,
    lemma_names_view_len,
    lemma_names_view_index,
}

/// The view of a list with one more expression is the view of the list
/// with the view of that expression.
pub proof fn lemma_exprs_view_push(s: Seq<Expr>, e: Expr)
    ensures
        exprs_view(s.push(e)) == exprs_view(s).push(e@),
{
    assert(exprs_view(s.push(e)) =~= exprs_view(s).push(e@));
}

/// The same for a list of pairs.
pub proof fn lemma_pairs_view_push(s: Seq<(Expr, Expr)>, k: Expr, v: Expr)
    ensures
        pairs_view(s.push((k, v))) == pairs_view(s).push((k@, v@)),
{
    assert(pairs_view(s.push((k, v))) =~= pairs_view(s).push((k@, v@)));
}

/// The same for a list of names.
pub proof fn lemma_names_view_push(s: Seq<String>, n: String)
    ensures
        names_view(s.push(n)) == names_view(s).push(n@),
{
    assert(names_view(s.push(n)) =~= names_view(s).push(n@));
}

/// A copy of a list of names.
pub fn duplicate_names(names: &Vec<String>) -> (r: Vec<String>)
    ensures
        names_view(r@) == names_view(names@),
{
    let mut r: Vec<String> = Vec::new();
    let mut i: usize = 0;
    while i < names.len()
        invariant
            0 <= i <= names.len(),
            r.len() == i,
            forall|j: int| 0 <= j < i ==> r@[j]@ == names@[j]@,
        decreases names.len() - i,
    {
        r.push(names[i].clone());
        i += 1;
    }
    assert(names_view(r@) =~= names_view(names@));
    r
}

fn duplicate_exprs(v: &Vec<Expr>) -> (r: Vec<Expr>)
    ensures
        exprs_view(r@) == exprs_view(v@),
    decreases v,
{
    let mut r: Vec<Expr> = Vec::new();
    let mut i: usize = 0;
    while i < v.len()
        invariant
            0 <= i <= v.len(),
            r.len() == i,
            forall|j: int| 0 <= j < i ==> r@[j]@ == v@[j]@,
        decreases v.len() - i,
    {
        r.push(v[i].duplicate());
        i += 1;
    }
    assert(exprs_view(r@) =~= exprs_view(v@));
    r
}

fn duplicate_pairs(v: &Vec<(Expr, Expr)>) -> (r: Vec<(Expr, Expr)>)
    ensures
        pairs_view(r@) == pairs_view(v@),
    decreases v,
{
    let mut r: Vec<(Expr, Expr)> = Vec::new();
    let mut i: usize = 0;
    while i < v.len()
        invariant
            0 <= i <= v.len(),
            r.len() == i,
            forall|j: int| 0 <= j < i ==> r@[j].0@ == v@[j].0@ && r@[j].1@ == v@[j].1@,
        decreases v.len() - i,
    {
        let k = v[i].0.duplicate();
        let w = v[i].1.duplicate();
        r.push((k, w));
        i += 1;
    }
    assert(pairs_view(r@) =~= pairs_view(v@));
    r
}

impl Block {
    /// A copy of the block.
    pub fn duplicate(&self) -> (r: Block)
        ensures
            r@ == self@,
        decreases self,
    {
        Block(duplicate_exprs(&self.0))
    }
}

impl Expr {
    /// A copy of the tree. Function literals are shared, not copied.
    pub fn duplicate(&self) -> (r: Expr)
        ensures
            r@ == self@,
        decreases self,
    {
        match self {
            Expr::Int(i) => Expr::Int(*i),
            Expr::Identifier(s) => Expr::Identifier(s.clone()),
            Expr::Array(v) => Expr::Array(duplicate_exprs(v)),
            Expr::Bool(b) => Expr::Bool(*b),
            Expr::String(s) => Expr::String(s.clone()),
            Expr::Prefix(p) => Expr::Prefix(
                Box::new(Prefix { token: p.token.duplicate(), right: p.right.duplicate() }),
            ),
            Expr::Infix(i) => Expr::Infix(
                Box::new(
                    Infix {
                        left: i.left.clone(),
                        token: i.token.duplicate(),
                        right: i.right.duplicate(),
                    },
                ),
            ),
            Expr::If(i) => Expr::If(
                If {
                    condition: Box::new(i.condition.duplicate()),
                    consequence: i.consequence.duplicate(),
                    alternative: match &i.alternative {
                        Some(b) => Some(b.duplicate()),
                        None => None,
                    },
                },
            ),
            Expr::Fn(f) => Expr::Fn(f.clone()),
            Expr::Call(c) => Expr::Call(Call { expr: c.expr.clone(), args: duplicate_exprs(&c.args) }),
            Expr::Let(l) => Expr::Let(
                Let { name: l.name.clone(), value: Box::new(l.value.duplicate()) },
            ),
            Expr::Return(r) => Expr::Return(Box::new(r.duplicate())),
            Expr::Hash(h) => Expr::Hash(duplicate_pairs(h)),
        }
    }
}

} // verus!
