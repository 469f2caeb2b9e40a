//! Truthiness, the prefix and infix operators, and hashes as lists of
//! entries. Both backends compute with these.

use vstd::prelude::*;
use vstd::string::StringExecFns;
use crate::builtins::result_view;
use crate::value::{
    bindings_view, entries_view, lemma_entries_view_push, lemma_entries_view_update, Binding,
    BindingView, Primitive, PrimitiveView, RuntimeError,
};

verus! {

broadcast use crate::value::group_value_views;

/// The prefix operators.
#[derive(Clone, Copy, Debug, PartialEq, Eq, Structural)]
pub enum PrefixOp {
    /// `!`
    Not,
    /// `-`
    Negate,
}

/// The infix operators. Indexing counts as one.
#[derive(Clone, Copy, Debug, PartialEq, Eq, Structural)]
pub enum InfixOp {
    Add,
    Sub,
    Mul,
    Div,
    Mod,
    Eq,
    Neq,
    Lt,
    Gt,
    Index,
}

/// A value counts as true in a condition where it is `true` or any
/// integer, zero included; every other value counts as false.
pub open spec fn is_truthy(v: BindingView) -> bool {
    match v {
        BindingView::Primitive(PrimitiveView::Bool(b)) => b,
        BindingView::Primitive(PrimitiveView::Int(_)) => true,
        _ => false,
    }
}

/// An integer as a value.
pub open spec fn int_value(i: i64) -> BindingView {
    BindingView::Primitive(PrimitiveView::Int(i))
}

/// A boolean as a value.
pub open spec fn bool_value(b: bool) -> BindingView {
    BindingView::Primitive(PrimitiveView::Bool(b))
}

/// The outcome of checked arithmetic as the outcome of an operator.
pub open spec fn checked_value(r: Option<i64>) -> Result<BindingView, RuntimeError> {
    match r {
        Some(i) => Ok(int_value(i)),
        None => Err(RuntimeError::Overflow),
    }
}

/// What a prefix operator yields: `!` negates a boolean and tells whether
/// an integer is zero; `-` negates an integer.
pub open spec fn prefix_value(op: PrefixOp, v: BindingView) -> Result<BindingView, RuntimeError> {
    match (op, v) {
        (PrefixOp::Not, BindingView::Primitive(PrimitiveView::Int(i))) => Ok(bool_value(i == 0)),
        (PrefixOp::Not, BindingView::Primitive(PrimitiveView::Bool(b))) => Ok(bool_value(!b)),
        (PrefixOp::Negate, BindingView::Primitive(PrimitiveView::Int(i))) => checked_value(
            0i64.checked_sub(i),
        ),
        _ => Err(RuntimeError::TypeError),
    }
}

/// What an infix operator yields on two integers. Division and remainder
/// round towards zero.
pub open spec fn int_infix(op: InfixOp, l: i64, r: i64) -> Result<BindingView, RuntimeError> {
    match op {
        InfixOp::Add => checked_value(l.checked_add(r)),
        InfixOp::Sub => checked_value(l.checked_sub(r)),
        InfixOp::Mul => checked_value(l.checked_mul(r)),
        InfixOp::Div => if r == 0 {
            Err(RuntimeError::DivisionByZero)
        } else {
            checked_value(l.checked_div(r))
        },
        InfixOp::Mod => if r == 0 {
            Err(RuntimeError::DivisionByZero)
        } else {
            checked_value(l.checked_rem(r))
        },
        InfixOp::Eq => Ok(bool_value(l == r)),
        InfixOp::Neq => Ok(bool_value(l != r)),
        InfixOp::Lt => Ok(bool_value(l < r)),
        InfixOp::Gt => Ok(bool_value(l > r)),
        InfixOp::Index => Err(RuntimeError::TypeError),
    }
}

/// What an infix operator yields on two booleans.
pub open spec fn bool_infix(op: InfixOp, l: bool, r: bool) -> Result<BindingView, RuntimeError> {
    match op {
        InfixOp::Eq => Ok(bool_value(l == r)),
        InfixOp::Neq => Ok(bool_value(l != r)),
        _ => Err(RuntimeError::TypeError),
    }
}

/// What an infix operator yields on two strings.
pub open spec fn string_infix(op: InfixOp, l: Seq<char>, r: Seq<char>) -> Result<
    BindingView,
    RuntimeError,
> {
    match op {
        InfixOp::Eq => Ok(bool_value(l == r)),
        InfixOp::Neq => Ok(bool_value(l != r)),
        InfixOp::Add => Ok(BindingView::Primitive(PrimitiveView::String_(l + r))),
        _ => Err(RuntimeError::TypeError),
    }
}

/// The element of an array at an index that is in range.
pub open spec fn array_index(a: Seq<BindingView>, i: i64) -> Result<BindingView, RuntimeError> {
    if 0 <= i < a.len() {
        Ok(a[i as int])
    } else {
        Err(RuntimeError::BadIndex)
    }
}

/// The position of the first entry at or behind `i` whose key is `key`,
/// or the number of entries where there is none.
pub open spec fn entry_index(
    entries: Seq<(PrimitiveView, BindingView)>,
    key: PrimitiveView,
    i: int,
) -> int
    decreases entries.len() - i,
{
    if 0 <= i < entries.len() {
        if entries[i].0 == key {
            i
        } else {
            entry_index(entries, key, i + 1)
        }
    } else {
        entries.len() as int
    }
}

/// The value that a hash holds under a key.
pub open spec fn hash_index(entries: Seq<(PrimitiveView, BindingView)>, key: PrimitiveView) -> Result<
    BindingView,
    RuntimeError,
> {
    let i = entry_index(entries, key, 0);
    if 0 <= i < entries.len() {
        Ok(entries[i].1)
    } else {
        Err(RuntimeError::MissingKey)
    }
}

/// A hash with `value` under `key`: in place of the old value where the
/// key was there, else as a new last entry.
pub open spec fn hash_insert(
    entries: Seq<(PrimitiveView, BindingView)>,
    key: PrimitiveView,
    value: BindingView,
) -> Seq<(PrimitiveView, BindingView)> {
    let i = entry_index(entries, key, 0);
    if 0 <= i < entries.len() {
        entries.update(i, (key, value))
    } else {
        entries.push((key, value))
    }
}

/// What an infix operator yields on two values. Integers take all
/// operators but indexing; booleans are compared for equality; strings are
/// compared for equality and concatenated; an array is indexed by an
/// integer in range, a hash by a primitive key that it holds. Everything
/// else is a type error.
pub open spec fn infix_value(op: InfixOp, l: BindingView, r: BindingView) -> Result<
    BindingView,
    RuntimeError,
> {
    match (l, r) {
        (
            BindingView::Primitive(PrimitiveView::Int(a)),
            BindingView::Primitive(PrimitiveView::Int(b)),
        ) => int_infix(op, a, b),
        (
            BindingView::Primitive(PrimitiveView::Bool(a)),
            BindingView::Primitive(PrimitiveView::Bool(b)),
        ) => bool_infix(op, a, b),
        (
            BindingView::Primitive(PrimitiveView::String_(a)),
            BindingView::Primitive(PrimitiveView::String_(b)),
        ) => string_infix(op, a, b),
        (BindingView::Array(a), BindingView::Primitive(PrimitiveView::Int(i))) => if op
            == InfixOp::Index {
            array_index(a, i)
        } else {
            Err(RuntimeError::TypeError)
        },
        (BindingView::Hash(h), BindingView::Primitive(k)) => if op == InfixOp::Index {
            hash_index(h, k)
        } else {
            Err(RuntimeError::TypeError)
        },
        _ => Err(RuntimeError::TypeError),
    }
}

/// Whether the value counts as true in a condition.
pub fn truthy(v: &Binding) -> (r: bool)
    ensures
        r == is_truthy(v@),
{
    match v {
        Binding::Primitive(Primitive::Bool(b)) => *b,
        Binding::Primitive(Primitive::Int(_)) => true,
        _ => false,
    }
}

fn checked_binding(r: Option<i64>) -> (b: Result<Binding, RuntimeError>)
    ensures
        result_view(b) == checked_value(r),
{
    match r {
        Some(i) => Ok(Binding::Primitive(Primitive::Int(i))),
        None => Err(RuntimeError::Overflow),
    }
}

fn bool_binding(b: bool) -> (r: Result<Binding, RuntimeError>)
    ensures
        result_view(r) == Ok::<BindingView, RuntimeError>(bool_value(b)),
{
    Ok(Binding::Primitive(Primitive::Bool(b)))
}

/// Applies a prefix operator to a value.
pub fn apply_prefix(op: PrefixOp, v: &Binding) -> (r: Result<Binding, RuntimeError>)
    ensures
        result_view(r) == prefix_value(op, v@),
{
    match (op, v) {
        (PrefixOp::Not, Binding::Primitive(Primitive::Int(i))) => bool_binding(*i == 0),
        (PrefixOp::Not, Binding::Primitive(Primitive::Bool(b))) => bool_binding(!*b),
        (PrefixOp::Negate, Binding::Primitive(Primitive::Int(i))) => checked_binding(
            0i64.checked_sub(*i),
        ),
        _ => Err(RuntimeError::TypeError),
    }
}

fn apply_int_infix(op: InfixOp, l: i64, r: i64) -> (b: Result<Binding, RuntimeError>)
    ensures
        result_view(b) == int_infix(op, l, r),
{
    match op {
        InfixOp::Add => checked_binding(l.checked_add(r)),
        InfixOp::Sub => checked_binding(l.checked_sub(r)),
        InfixOp::Mul => checked_binding(l.checked_mul(r)),
        InfixOp::Div => if r == 0 {
            Err(RuntimeError::DivisionByZero)
        } else {
            checked_binding(l.checked_div(r))
        },
        InfixOp::Mod => if r == 0 {
            Err(RuntimeError::DivisionByZero)
        } else {
            checked_binding(l.checked_rem(r))
        },
        InfixOp::Eq => bool_binding(l == r),
        InfixOp::Neq => bool_binding(l != r),
        InfixOp::Lt => bool_binding(l < r),
        InfixOp::Gt => bool_binding(l > r),
        InfixOp::Index => Err(RuntimeError::TypeError),
    }
}

fn apply_bool_infix(op: InfixOp, l: bool, r: bool) -> (b: Result<Binding, RuntimeError>)
    ensures
        result_view(b) == bool_infix(op, l, r),
{
    match op {
        InfixOp::Eq => bool_binding(l == r),
        InfixOp::Neq => bool_binding(l != r),
        _ => Err(RuntimeError::TypeError),
    }
}

fn apply_string_infix(op: InfixOp, l: &String, r: &String) -> (b: Result<Binding, RuntimeError>)
    ensures
        result_view(b) == string_infix(op, l@, r@),
{
    match op {
        InfixOp::Eq => bool_binding(*l == *r),
        InfixOp::Neq => bool_binding(!(*l == *r)),
        InfixOp::Add => {
            let mut s = l.clone();
            s.append(r.as_str());
            Ok(Binding::Primitive(Primitive::String_(s)))
        },
        _ => Err(RuntimeError::TypeError),
    }
}

fn index_array(a: &Vec<Binding>, i: i64) -> (b: Result<Binding, RuntimeError>)
    ensures
        result_view(b) == array_index(bindings_view(a@), i),
{
    if i < 0 {
        return Err(RuntimeError::BadIndex);
    }
    let wide: u64 = i as u64;
    if wide >= a.len() as u64 {
        return Err(RuntimeError::BadIndex);
    }
    Ok(a[wide as usize].duplicate())
}

/// The position of the entry of a hash with the given key, or the number
/// of entries where no entry has it.
pub fn find_entry(entries: &Vec<(Primitive, Binding)>, key: &Primitive) -> (i: usize)
    ensures
        i == entry_index(entries_view(entries@), key@, 0),
        i <= entries.len(),
{
    let ghost views = entries_view(entries@);
    let mut i: usize = 0;
    while i < entries.len()
        invariant
            0 <= i <= entries.len(),
            views == entries_view(entries@),
            entry_index(views, key@, i as int) == entry_index(views, key@, 0),
        decreases entries.len() - i,
    {
        assert(views[i as int].0 == entries@[i as int].0@);
        if entries[i].0.same(key) {
            return i;
        }
        i += 1;
    }
    i
}

fn index_hash(h: &Vec<(Primitive, Binding)>, key: &Primitive) -> (b: Result<Binding, RuntimeError>)
    ensures
        result_view(b) == hash_index(entries_view(h@), key@),
{
    let i: usize = find_entry(h, key);
    if i < h.len() {
        assert(entries_view(h@)[i as int].1 == h@[i as int].1@);
        Ok(h[i].1.duplicate())
    } else {
        Err(RuntimeError::MissingKey)
    }
}

/// Puts `value` under `key` into a hash.
pub fn insert_entry(entries: &mut Vec<(Primitive, Binding)>, key: Primitive, value: Binding)
    ensures
        entries_view(final(entries)@) == hash_insert(entries_view(old(entries)@), key@, value@),
{
    let i: usize = find_entry(entries, &key);
    proof {
        lemma_entries_view_push(entries@, key, value);
        if i < entries.len() {
            lemma_entries_view_update(entries@, i as int, key, value);
        }
    }
    if i < entries.len() {
        entries.set(i, (key, value));
    } else {
        entries.push((key, value));
    }
}

/// Applies an infix operator to two values.
pub fn apply_infix(op: InfixOp, left: &Binding, right: &Binding) -> (r: Result<
    Binding,
    RuntimeError,
>)
    ensures
        result_view(r) == infix_value(op, left@, right@),
{
    match (left, right) {
        (Binding::Primitive(Primitive::Int(a)), Binding::Primitive(Primitive::Int(b))) => {
            apply_int_infix(op, *a, *b)
        },
        (Binding::Primitive(Primitive::Bool(a)), Binding::Primitive(Primitive::Bool(b))) => {
            apply_bool_infix(op, *a, *b)
        },
        (Binding::Primitive(Primitive::String_(a)), Binding::Primitive(Primitive::String_(b))) => {
            apply_string_infix(op, a, b)
        },
        (Binding::Array(a), Binding::Primitive(Primitive::Int(i))) => {
            if op == InfixOp::Index {
                index_array(a, *i)
            } else {
                Err(RuntimeError::TypeError)
            }
        },
        (Binding::Hash(h), Binding::Primitive(k)) => {
            if op == InfixOp::Index {
                index_hash(h, k)
            } else {
                Err(RuntimeError::TypeError)
            }
        },
        _ => Err(RuntimeError::TypeError),
    }
}

} // verus!
