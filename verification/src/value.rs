//! Runtime values, shared by the evaluator and the virtual machine, and
//! their mathematical view.

use vstd::prelude::*;
use std::rc::Rc;
use crate::parser::types::{Fn, FnView};

verus! {

/// The six built-in functions.
#[derive(Clone, Copy, Debug, PartialEq, Eq, Structural)]
pub enum Builtin {
    Len,
    First,
    Last,
    Rest,
    Push,
    Puts,
}

/// What can go wrong while a program runs, on either backend.
#[derive(Clone, Copy, Debug, PartialEq, Eq, Structural)]
pub enum RuntimeError {
    /// A name that is neither bound nor a builtin.
    UndefinedVariable,
    /// An operator or builtin applied to values it does not take.
    TypeError,
    /// An array index that is negative or not below the length.
    BadIndex,
    /// A hash indexed by a key it does not hold.
    MissingKey,
    /// A hash literal with a key that is no integer, string or boolean.
    BadKey,
    /// A call with another number of arguments than the callee takes.
    ArityMismatch,
    /// A call of a value that is neither a function nor a builtin.
    NotCallable,
    /// `first` or `last` of an empty array.
    EmptyArray,
    /// Division or remainder by zero.
    DivisionByZero,
    /// An arithmetic result outside the 64-bit signed range.
    Overflow,
    /// A function value whose environment is not part of the arena.
    BadEnvironment,
    /// Nesting deeper than the evaluator's limit.
    DepthLimit,
    /// A byte that is no opcode, or an operand cut short.
    BadOpcode,
    /// A constant, global, local or free index out of range.
    BadOperand,
    /// A pop from an empty stack or below a frame's base.
    StackUnderflow,
    /// A push onto a full stack.
    StackOverflow,
    /// More instructions than the machine's limit.
    StepLimit,
}

/// A compiled function: its instructions and the slots it needs.
#[derive(Debug, PartialEq, Eq, Hash)]
pub struct CompiledFn {
    pub body: Vec<u8>,
    pub num_locals: u16,
    pub num_args: u8,
}

/// A value that can be a constant or a hash key.
#[derive(Debug, PartialEq, Eq, Hash)]
pub enum Primitive {
    Int(i64),
    String_(String),
    Bool(bool),
    Fn(CompiledFn),
}

/// A compiled function together with the values it captured.
#[derive(Debug, PartialEq)]
pub struct Closure {
    pub fn_: CompiledFn,
    pub free: Vec<Binding>,
}

/// A runtime value.
#[derive(Debug, PartialEq)]
pub enum Binding {
    Primitive(Primitive),
    /// Keys in the order in which they were first inserted.
    Hash(Vec<(Primitive, Binding)>),
    Array(Vec<Binding>),
    /// A function of the evaluator: the scope it was made in, and its node.
    Fn(usize, Rc<Fn>),
    /// A value on its way out of the enclosing function.
    Return(Box<Binding>),
    Null,
    Builtin(Builtin),
    /// A function of the virtual machine.
    Closure(Closure),
}

pub struct CompiledFnView {
    pub body: Seq<u8>,
    pub num_locals: u16,
    pub num_args: u8,
}

pub enum PrimitiveView {
    Int(i64),
    String_(Seq<char>),
    Bool(bool),
    Fn(CompiledFnView),
}

pub struct ClosureView {
    pub fn_: CompiledFnView,
    pub free: Seq<BindingView>,
}

pub enum BindingView {
    Primitive(PrimitiveView),
    Hash(Seq<(PrimitiveView, BindingView)>),
    Array(Seq<BindingView>),
    Fn(nat, FnView),
    Return(Box<BindingView>),
    Null,
    Builtin(Builtin),
    Closure(ClosureView),
}

impl View for CompiledFn {
    type V = CompiledFnView;

    open spec fn view(&self) -> CompiledFnView {
        CompiledFnView { body: self.body@, num_locals: self.num_locals, num_args: self.num_args }
    }
}

impl View for Primitive {
    type V = PrimitiveView;

    open spec fn view(&self) -> PrimitiveView {
        match *self {
            Primitive::Int(i) => PrimitiveView::Int(i),
            Primitive::String_(s) => PrimitiveView::String_(s@),
            Primitive::Bool(b) => PrimitiveView::Bool(b),
            Primitive::Fn(f) => PrimitiveView::Fn(f@),
        }
    }
}

/// The view of a value.
pub open spec fn binding_view(b: Binding) -> BindingView
    decreases b,
{
    match b {
        Binding::Primitive(p) => BindingView::Primitive(p@),
        Binding::Hash(h) => BindingView::Hash(entries_view(h@)),
        Binding::Array(a) => BindingView::Array(bindings_view(a@)),
        Binding::Fn(scope, f) => BindingView::Fn(scope as nat, (*f)@),
        Binding::Return(r) => BindingView::Return(Box::new(binding_view(*r))),
        Binding::Null => BindingView::Null,
        Binding::Builtin(b) => BindingView::Builtin(b),
        Binding::Closure(c) => BindingView::Closure(
            ClosureView { fn_: c.fn_@, free: bindings_view(c.free@) },
        ),
    }
}

/// The views of a list of values.
pub open spec fn bindings_view(s: Seq<Binding>) -> Seq<BindingView>
    decreases s,
{
    Seq::new(s.len(), |i: int| if 0 <= i < s.len() { binding_view(s[i]) } else { BindingView::Null })
}

/// The views of the entries of a hash.
pub open spec fn entries_view(s: Seq<(Primitive, Binding)>) -> Seq<(PrimitiveView, BindingView)>
    decreases s,
{
    Seq::new(
        s.len(),
        |i: int|
            if 0 <= i < s.len() {
                (s[i].0@, binding_view(s[i].1))
            } else {
                (PrimitiveView::Bool(false), BindingView::Null)
            },
    )
}

impl View for Binding {
    type V = BindingView;

    open spec fn view(&self) -> BindingView {
        binding_view(*self)
    }
}

impl View for Closure {
    type V = ClosureView;

    open spec fn view(&self) -> ClosureView {
        ClosureView { fn_: self.fn_@, free: bindings_view(self.free@) }
    }
}

/// The view of a list has the length of the list.
pub broadcast proof fn lemma_bindings_view_len(s: Seq<Binding>)
    ensures
        #[trigger] bindings_view(s).len() == s.len(),
{
}

/// The view of a list holds the views of its elements.
pub broadcast proof fn lemma_bindings_view_index(s: Seq<Binding>, i: int)
    requires
        0 <= i < s.len(),
    ensures
        #[trigger] bindings_view(s)[i] == s[i]@,
{
}

/// The view of a hash has as many entries as the hash.
pub broadcast proof fn lemma_entries_view_len(s: Seq<(Primitive, Binding)>)
    ensures
        #[trigger] entries_view(s).len() == s.len(),
{
}

/// The view of a hash holds the views of its entries.
pub broadcast proof fn lemma_entries_view_index(s: Seq<(Primitive, Binding)>, i: int)
    requires
        0 <= i < s.len(),
    ensures
        #[trigger] entries_view(s)[i] == (s[i].0@, s[i].1@),
{
}

pub broadcast group group_value_views {
    lemma_bindings_view_len,
    lemma_bindings_view_index,
    lemma_entries_view_len,
    lemma_entries_view_index,
}

/// The view of a list with one more value.
pub proof fn lemma_bindings_view_push(s: Seq<Binding>, b: Binding)
    ensures
        bindings_view(s.push(b)) == bindings_view(s).push(b@),
{
    assert(bindings_view(s.push(b)) =~= bindings_view(s).push(b@));
}

/// The view of a list with one value replaced.
pub proof fn lemma_bindings_view_update(s: Seq<Binding>, i: int, b: Binding)
    requires
        0 <= i < s.len(),
    ensures
        bindings_view(s.update(i, b)) == bindings_view(s).update(i, b@),
{
    assert(bindings_view(s.update(i, b)) =~= bindings_view(s).update(i, b@));
}

/// The view of a hash with one more entry.
pub proof fn lemma_entries_view_push(s: Seq<(Primitive, Binding)>, k: Primitive, b: Binding)
    ensures
        entries_view(s.push((k, b))) == entries_view(s).push((k@, b@)),
{
    assert(entries_view(s.push((k, b))) =~= entries_view(s).push((k@, b@)));
}

/// The view of a hash with one entry replaced.
pub proof fn lemma_entries_view_update(
    s: Seq<(Primitive, Binding)>,
    i: int,
    k: Primitive,
    b: Binding,
)
    requires
        0 <= i < s.len(),
    ensures
        entries_view(s.update(i, (k, b))) == entries_view(s).update(i, (k@, b@)),
{
    assert(entries_view(s.update(i, (k, b))) =~= entries_view(s).update(i, (k@, b@)));
}

/// A copy of a byte vector.
pub fn duplicate_bytes(v: &Vec<u8>) -> (r: Vec<u8>)
    ensures
        r@ == v@,
{
    let mut r: Vec<u8> = Vec::new();
    let mut i: usize = 0;
    while i < v.len()
        invariant
            0 <= i <= v.len(),
            r@ == v@.subrange(0, i as int),
        decreases v.len() - i,
    {
        r.push(v[i]);
        assert(r@ =~= v@.subrange(0, i + 1));
        i += 1;
    }
    assert(v@.subrange(0, v.len() as int) =~= v@);
    r
}

impl CompiledFn {
    /// A copy of the function.
    pub fn duplicate(&self) -> (r: CompiledFn)
        ensures
            r@ == self@,
    {
        CompiledFn {
            body: duplicate_bytes(&self.body),
            num_locals: self.num_locals,
            num_args: self.num_args,
        }
    }
}

impl Primitive {
    /// A copy of the value.
    pub fn duplicate(&self) -> (r: Primitive)
        ensures
            r@ == self@,
    {
        match self {
            Primitive::Int(i) => Primitive::Int(*i),
            Primitive::String_(s) => Primitive::String_(s.clone()),
            Primitive::Bool(b) => Primitive::Bool(*b),
            Primitive::Fn(f) => Primitive::Fn(f.duplicate()),
        }
    }

    /// Whether two primitive values are the same value.
    pub fn same(&self, other: &Primitive) -> (r: bool)
        ensures
            r == (self@ == other@),
    {
        match (self, other) {
            (Primitive::Int(a), Primitive::Int(b)) => *a == *b,
            (Primitive::String_(a), Primitive::String_(b)) => *a == *b,
            (Primitive::Bool(a), Primitive::Bool(b)) => *a == *b,
            (Primitive::Fn(a), Primitive::Fn(b)) => {
                let r = a.num_locals == b.num_locals && a.num_args == b.num_args && same_bytes(
                    &a.body,
                    &b.body,
                );
                r
            },
            _ => false,
        }
    }
}

/// Whether two byte vectors hold the same bytes.
pub fn same_bytes(a: &Vec<u8>, b: &Vec<u8>) -> (r: bool)
    ensures
        r == (a@ == b@),
{
    if a.len() != b.len() {
        return false;
    }
    let mut i: usize = 0;
    while i < a.len()
        invariant
            0 <= i <= a.len(),
            a.len() == b.len(),
            a@.subrange(0, i as int) == b@.subrange(0, i as int),
        decreases a.len() - i,
    {
        if a[i] != b[i] {
            return false;
        }
        assert(a@.subrange(0, i + 1) =~= a@.subrange(0, i as int).push(a@[i as int]));
        assert(b@.subrange(0, i + 1) =~= b@.subrange(0, i as int).push(b@[i as int]));
        i += 1;
    }
    assert(a@.subrange(0, a.len() as int) =~= a@);
    assert(b@.subrange(0, b.len() as int) =~= b@);
    true
}

/// A copy of a list of values.
pub fn duplicate_bindings(v: &Vec<Binding>) -> (r: Vec<Binding>)
    ensures
        bindings_view(r@) == bindings_view(v@),
    decreases v,
{
    let mut r: Vec<Binding> = Vec::new();
    let mut i: usize = 0;
    while i < v.len()
        invariant
            0 <= i <= v.len(),
            r.len() == i,
            forall|j: int| 0 <= j < i ==> r@[j]@ == v@[j]@,
        decreases v.len() - i,
    {
        r.push(v[i].duplicate());
        i += 1;
    }
    assert(bindings_view(r@) =~= bindings_view(v@));
    r
}

/// A copy of the entries of a hash.
pub fn duplicate_entries(v: &Vec<(Primitive, Binding)>) -> (r: Vec<(Primitive, Binding)>)
    ensures
        entries_view(r@) == entries_view(v@),
    decreases v,
{
    let mut r: Vec<(Primitive, Binding)> = Vec::new();
    let mut i: usize = 0;
    while i < v.len()
        invariant
            0 <= i <= v.len(),
            r.len() == i,
            forall|j: int| 0 <= j < i ==> r@[j].0@ == v@[j].0@ && r@[j].1@ == v@[j].1@,
        decreases v.len() - i,
    {
        let k = v[i].0.duplicate();
        let w = v[i].1.duplicate();
        r.push((k, w));
        i += 1;
    }
    assert(entries_view(r@) =~= entries_view(v@));
    r
}

impl Closure {
    /// A closure of `fn_` over the captured values `free`.
    pub fn new(fn_: CompiledFn, free: Vec<Binding>) -> (c: Self)
        ensures
            c.fn_ == fn_,
            c.free == free,
    {
        Self { fn_, free }
    }

    /// A copy of the closure.
    pub fn duplicate(&self) -> (r: Closure)
        ensures
            r@ == self@,
        decreases self,
    {
        Closure { fn_: self.fn_.duplicate(), free: duplicate_bindings(&self.free) }
    }
}

impl Binding {
    /// A copy of the value. Function nodes are shared, not copied.
    pub fn duplicate(&self) -> (r: Binding)
        ensures
            r@ == self@,
        decreases self,
    {
        match self {
            Binding::Primitive(p) => Binding::Primitive(p.duplicate()),
            Binding::Hash(h) => Binding::Hash(duplicate_entries(h)),
            Binding::Array(a) => Binding::Array(duplicate_bindings(a)),
            Binding::Fn(scope, f) => Binding::Fn(*scope, f.clone()),
            Binding::Return(r) => Binding::Return(Box::new(r.duplicate())),
            Binding::Null => Binding::Null,
            Binding::Builtin(b) => Binding::Builtin(*b),
            Binding::Closure(c) => Binding::Closure(c.duplicate()),
        }
    }
}

} // verus!
