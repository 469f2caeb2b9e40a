//! How values are printed, and the six built-in functions.

use vstd::prelude::*;
use vstd::string::StringExecFns;
use vstd::utf8::encode_utf8;
use crate::text::{decimal, int_to_string};
use crate::value::{
    bindings_view, duplicate_bindings, entries_view, lemma_bindings_view_push, Binding,
    BindingView, Builtin, Primitive, PrimitiveView, RuntimeError,
};

verus! {

broadcast use crate::value::group_value_views;

/// The view of the outcome of a computation that yields a value.
pub open spec fn result_view(r: Result<Binding, RuntimeError>) -> Result<BindingView, RuntimeError> {
    match r {
        Ok(b) => Ok(b@),
        Err(e) => Err(e),
    }
}

/// The name under which a builtin is known to programs.
pub open spec fn builtin_name(b: Builtin) -> Seq<char> {
    match b {
        Builtin::Len => "len"@,
        Builtin::First => "first"@,
        Builtin::Last => "last"@,
        Builtin::Rest => "rest"@,
        Builtin::Push => "push"@,
        Builtin::Puts => "puts"@,
    }
}

/// The builtin that a name denotes, if it denotes one.
pub open spec fn builtin_of(name: Seq<char>) -> Option<Builtin> {
    if name == "len"@ {
        Some(Builtin::Len)
    } else if name == "first"@ {
        Some(Builtin::First)
    } else if name == "last"@ {
        Some(Builtin::Last)
    } else if name == "rest"@ {
        Some(Builtin::Rest)
    } else if name == "push"@ {
        Some(Builtin::Push)
    } else if name == "puts"@ {
        Some(Builtin::Puts)
    } else {
        None
    }
}

/// The position of a builtin in the machine's table of builtins.
pub open spec fn builtin_index(b: Builtin) -> u8 {
    match b {
        Builtin::Len => 0,
        Builtin::First => 1,
        Builtin::Last => 2,
        Builtin::Rest => 3,
        Builtin::Push => 4,
        Builtin::Puts => 5,
    }
}

/// The builtin at a position of the table, if the position is in it.
pub open spec fn builtin_at(i: u8) -> Option<Builtin> {
    if i == 0 {
        Some(Builtin::Len)
    } else if i == 1 {
        Some(Builtin::First)
    } else if i == 2 {
        Some(Builtin::Last)
    } else if i == 3 {
        Some(Builtin::Rest)
    } else if i == 4 {
        Some(Builtin::Push)
    } else if i == 5 {
        Some(Builtin::Puts)
    } else {
        None
    }
}

/// The text that a primitive value is printed as: integers in decimal,
/// booleans as `true` and `false`, strings as their contents.
pub open spec fn display_primitive(p: PrimitiveView) -> Seq<char> {
    match p {
        PrimitiveView::Int(i) => decimal(i as int),
        PrimitiveView::Bool(b) => if b {
            "true"@
        } else {
            "false"@
        },
        PrimitiveView::String_(s) => s,
        PrimitiveView::Fn(_) => "<function>"@,
    }
}

/// What stands between two printed elements, and nothing before the first.
pub open spec fn separator(i: int) -> Seq<char> {
    if i == 0 {
        Seq::empty()
    } else {
        ", "@
    }
}

/// The text that a value is printed as. Arrays are `[a, b]`, hashes are
/// `{ k: v, k: v }` in the order of insertion, every function is
/// `<function>`, a builtin is its name.
pub open spec fn display(v: BindingView) -> Seq<char>
    decreases v, 0nat,
{
    match v {
        BindingView::Primitive(p) => display_primitive(p),
        BindingView::Hash(h) => display_entries(h, 0, "{ "@) + " }"@,
        BindingView::Array(a) => display_items(a, 0, "["@) + "]"@,
        BindingView::Fn(_, _) => "<function>"@,
        BindingView::Return(r) => display(*r),
        BindingView::Null => "null"@,
        BindingView::Builtin(b) => builtin_name(b),
        BindingView::Closure(_) => "<function>"@,
    }
}

/// `acc` followed by the elements from `i` on, separated by `, `.
pub open spec fn display_items(items: Seq<BindingView>, i: int, acc: Seq<char>) -> Seq<char>
    decreases items, items.len() - i,
{
    if 0 <= i < items.len() {
        display_items(items, i + 1, acc + separator(i) + display(items[i]))
    } else {
        acc
    }
}

/// `acc` followed by the entries from `i` on, each as `key: value`,
/// separated by `, `.
pub open spec fn display_entries(
    entries: Seq<(PrimitiveView, BindingView)>,
    i: int,
    acc: Seq<char>,
) -> Seq<char>
    decreases entries, entries.len() - i,
{
    if 0 <= i < entries.len() {
        display_entries(
            entries,
            i + 1,
            acc + separator(i) + display_primitive(entries[i].0) + ": "@ + display(entries[i].1),
        )
    } else {
        acc
    }
}

/// `out` followed by one line for each value from `i` on.
pub open spec fn put_lines(args: Seq<BindingView>, i: int, out: Seq<char>) -> Seq<char>
    decreases args.len() - i,
{
    if 0 <= i < args.len() {
        put_lines(args, i + 1, out + display(args[i]) + "\n"@)
    } else {
        out
    }
}

/// A length as a value, where it fits into an integer of the language.
pub open spec fn length_value(n: nat) -> Result<BindingView, RuntimeError> {
    if n <= i64::MAX {
        Ok(BindingView::Primitive(PrimitiveView::Int(n as i64)))
    } else {
        Err(RuntimeError::Overflow)
    }
}

/// What a builtin returns on given arguments.
///
/// `len` takes one string or array and gives its length, in bytes for a
/// string; `first` and `last` take one array that is not empty; `rest`
/// takes one array and gives all but its first element, the empty array
/// for the empty array; `push` takes an array and a value and gives the
/// array with the value at its end; `puts` takes anything and gives null.
pub open spec fn builtin_value(b: Builtin, args: Seq<BindingView>) -> Result<
    BindingView,
    RuntimeError,
> {
    match b {
        Builtin::Len => if args.len() != 1 {
            Err(RuntimeError::ArityMismatch)
        } else {
            match args[0] {
                BindingView::Primitive(PrimitiveView::String_(s)) => length_value(
                    encode_utf8(s).len(),
                ),
                BindingView::Array(a) => length_value(a.len()),
                _ => Err(RuntimeError::TypeError),
            }
        },
        Builtin::First => if args.len() != 1 {
            Err(RuntimeError::ArityMismatch)
        } else {
            match args[0] {
                BindingView::Array(a) => if a.len() == 0 {
                    Err(RuntimeError::EmptyArray)
                } else {
                    Ok(a[0])
                },
                _ => Err(RuntimeError::TypeError),
            }
        },
        Builtin::Last => if args.len() != 1 {
            Err(RuntimeError::ArityMismatch)
        } else {
            match args[0] {
                BindingView::Array(a) => if a.len() == 0 {
                    Err(RuntimeError::EmptyArray)
                } else {
                    Ok(a[a.len() - 1])
                },
                _ => Err(RuntimeError::TypeError),
            }
        },
        Builtin::Rest => if args.len() != 1 {
            Err(RuntimeError::ArityMismatch)
        } else {
            match args[0] {
                BindingView::Array(a) => if a.len() == 0 {
                    Ok(BindingView::Array(a))
                } else {
                    Ok(BindingView::Array(a.subrange(1, a.len() as int)))
                },
                _ => Err(RuntimeError::TypeError),
            }
        },
        Builtin::Push => if args.len() != 2 {
            Err(RuntimeError::ArityMismatch)
        } else {
            match args[0] {
                BindingView::Array(a) => Ok(BindingView::Array(a.push(args[1]))),
                _ => Err(RuntimeError::TypeError),
            }
        },
        Builtin::Puts => Ok(BindingView::Null),
    }
}

/// The output buffer after a builtin ran on given arguments. Only `puts`
/// writes: one line per argument, and one empty line without arguments.
pub open spec fn builtin_output(b: Builtin, args: Seq<BindingView>, out: Seq<char>) -> Seq<char> {
    if b == Builtin::Puts {
        if args.len() == 0 {
            out + "\n"@
        } else {
            put_lines(args, 0, out)
        }
    } else {
        out
    }
}

fn length_binding(n: usize) -> (r: Result<Binding, RuntimeError>)
    ensures
        result_view(r) == length_value(n as nat),
{
    let wide: u64 = n as u64;
    if wide <= 0x7fff_ffff_ffff_ffffu64 {
        Ok(Binding::Primitive(Primitive::Int(n as i64)))
    } else {
        Err(RuntimeError::Overflow)
    }
}

impl Primitive {
    /// The text that the value is printed as.
    pub fn to_string(&self) -> (s: String)
        ensures
            s@ == display_primitive(self@),
    {
        match self {
            Primitive::Int(i) => int_to_string(*i),
            Primitive::Bool(b) => if *b {
                String::from_str("true")
            } else {
                String::from_str("false")
            },
            Primitive::String_(s) => s.clone(),
            Primitive::Fn(_) => String::from_str("<function>"),
        }
    }
}

fn append_items(a: &Vec<Binding>, s: &mut String)
    ensures
        final(s)@ == display_items(bindings_view(a@), 0, old(s)@),
    decreases a,
{
    let ghost items = bindings_view(a@);
    let mut i: usize = 0;
    while i < a.len()
        invariant
            0 <= i <= a.len(),
            items == bindings_view(a@),
            display_items(items, i as int, s@) == display_items(items, 0, old(s)@),
        decreases a.len() - i,
    {
        if i > 0 {
            s.append(", ");
        }
        let v = a[i].to_string();
        s.append(v.as_str());
        i += 1;
    }
}

fn append_entries(h: &Vec<(Primitive, Binding)>, s: &mut String)
    ensures
        final(s)@ == display_entries(entries_view(h@), 0, old(s)@),
    decreases h,
{
    let ghost entries = entries_view(h@);
    let mut i: usize = 0;
    while i < h.len()
        invariant
            0 <= i <= h.len(),
            entries == entries_view(h@),
            display_entries(entries, i as int, s@) == display_entries(entries, 0, old(s)@),
        decreases h.len() - i,
    {
        if i > 0 {
            s.append(", ");
        }
        let k = h[i].0.to_string();
        s.append(k.as_str());
        s.append(": ");
        let v = h[i].1.to_string();
        s.append(v.as_str());
        i += 1;
    }
}

impl Binding {
    /// The text that the value is printed as.
    pub fn to_string(&self) -> (s: String)
        ensures
            s@ == display(self@),
        decreases self,
    {
        match self {
            Binding::Primitive(p) => p.to_string(),
            Binding::Hash(h) => {
                let mut s = String::from_str("{ ");
                append_entries(h, &mut s);
                s.append(" }");
                s
            },
            Binding::Array(a) => {
                let mut s = String::from_str("[");
                append_items(a, &mut s);
                s.append("]");
                s
            },
            Binding::Fn(_, _) => String::from_str("<function>"),
            Binding::Return(r) => r.to_string(),
            Binding::Null => String::from_str("null"),
            Binding::Builtin(b) => b.name(),
            Binding::Closure(_) => String::from_str("<function>"),
        }
    }
}

impl Builtin {
    /// The name under which the builtin is known to programs.
    pub fn name(&self) -> (s: String)
        ensures
            s@ == builtin_name(*self),
    {
        match self {
            Builtin::Len => String::from_str("len"),
            Builtin::First => String::from_str("first"),
            Builtin::Last => String::from_str("last"),
            Builtin::Rest => String::from_str("rest"),
            Builtin::Push => String::from_str("push"),
            Builtin::Puts => String::from_str("puts"),
        }
    }

    /// The builtin that `name` denotes, or nothing where it denotes none.
    pub fn from_str(name: &str) -> (r: Option<Builtin>)
        ensures
            r == builtin_of(name@),
    {
        let word = String::from_str(name);
        if word == String::from_str("len") {
            Some(Builtin::Len)
        } else if word == String::from_str("first") {
            Some(Builtin::First)
        } else if word == String::from_str("last") {
            Some(Builtin::Last)
        } else if word == String::from_str("rest") {
            Some(Builtin::Rest)
        } else if word == String::from_str("push") {
            Some(Builtin::Push)
        } else if word == String::from_str("puts") {
            Some(Builtin::Puts)
        } else {
            None
        }
    }

    /// The position of the builtin in the machine's table.
    pub fn index(&self) -> (i: u8)
        ensures
            i == builtin_index(*self),
            builtin_at(i) == Some(*self),
    {
        match self {
            Builtin::Len => 0,
            Builtin::First => 1,
            Builtin::Last => 2,
            Builtin::Rest => 3,
            Builtin::Push => 4,
            Builtin::Puts => 5,
        }
    }

    /// The builtin at position `i` of the machine's table.
    pub fn from_index(i: u8) -> (r: Option<Builtin>)
        ensures
            r == builtin_at(i),
    {
        if i == 0 {
            Some(Builtin::Len)
        } else if i == 1 {
            Some(Builtin::First)
        } else if i == 2 {
            Some(Builtin::Last)
        } else if i == 3 {
            Some(Builtin::Rest)
        } else if i == 4 {
            Some(Builtin::Push)
        } else if i == 5 {
            Some(Builtin::Puts)
        } else {
            None
        }
    }

    /// Runs the builtin on `args`. Writes to `out` what the builtin prints,
    /// and leaves the arguments as they are.
    pub fn eval(self, args: &Vec<Binding>, out: &mut String) -> (r: Result<Binding, RuntimeError>)
        ensures
            result_view(r) == builtin_value(self, bindings_view(args@)),
            final(out)@ == builtin_output(self, bindings_view(args@), old(out)@),
    {
        match self {
            Builtin::Len => len_of(args),
            Builtin::First => first_of(args),
            Builtin::Last => last_of(args),
            Builtin::Rest => rest_of(args),
            Builtin::Push => push_onto(args),
            Builtin::Puts => {
                put_values(args, out);
                Ok(Binding::Null)
            },
        }
    }
}

fn len_of(args: &Vec<Binding>) -> (r: Result<Binding, RuntimeError>)
    ensures
        result_view(r) == builtin_value(Builtin::Len, bindings_view(args@)),
{
    if args.len() != 1 {
        return Err(RuntimeError::ArityMismatch);
    }
    match &args[0] {
        Binding::Primitive(Primitive::String_(s)) => {
            let n: usize = s.as_str().as_bytes().len();
            assert(n == encode_utf8(s@).len());
            length_binding(n)
        },
        Binding::Array(a) => {
            assert(args@[0]@ == BindingView::Array(bindings_view(a@)));
            length_binding(a.len())
        },
        _ => Err(RuntimeError::TypeError),
    }
}

fn first_of(args: &Vec<Binding>) -> (r: Result<Binding, RuntimeError>)
    ensures
        result_view(r) == builtin_value(Builtin::First, bindings_view(args@)),
{
    if args.len() != 1 {
        return Err(RuntimeError::ArityMismatch);
    }
    match &args[0] {
        Binding::Array(a) => {
            assert(args@[0]@ == BindingView::Array(bindings_view(a@)));
            if a.len() == 0 {
                Err(RuntimeError::EmptyArray)
            } else {
                Ok(a[0].duplicate())
            }
        },
        _ => Err(RuntimeError::TypeError),
    }
}

fn last_of(args: &Vec<Binding>) -> (r: Result<Binding, RuntimeError>)
    ensures
        result_view(r) == builtin_value(Builtin::Last, bindings_view(args@)),
{
    if args.len() != 1 {
        return Err(RuntimeError::ArityMismatch);
    }
    match &args[0] {
        Binding::Array(a) => {
            assert(args@[0]@ == BindingView::Array(bindings_view(a@)));
            if a.len() == 0 {
                Err(RuntimeError::EmptyArray)
            } else {
                Ok(a[a.len() - 1].duplicate())
            }
        },
        _ => Err(RuntimeError::TypeError),
    }
}

fn rest_of(args: &Vec<Binding>) -> (r: Result<Binding, RuntimeError>)
    ensures
        result_view(r) == builtin_value(Builtin::Rest, bindings_view(args@)),
{
    if args.len() != 1 {
        return Err(RuntimeError::ArityMismatch);
    }
    match &args[0] {
        Binding::Array(a) => {
            assert(args@[0]@ == BindingView::Array(bindings_view(a@)));
            let mut rest: Vec<Binding> = Vec::new();
            let mut i: usize = 1;
            while i < a.len()
                invariant
                    1 <= i,
                    a.len() == 0 ==> i == 1,
                    a.len() > 0 ==> i <= a.len(),
                    rest@.len() == i - 1,
                    forall|j: int| 0 <= j < rest@.len() ==> rest@[j]@ == a@[j + 1]@,
                decreases a.len() - i,
            {
                rest.push(a[i].duplicate());
                i += 1;
            }
            if a.len() == 0 {
                assert(bindings_view(rest@) =~= bindings_view(a@));
            } else {
                assert(bindings_view(rest@) =~= bindings_view(a@).subrange(1, a@.len() as int));
            }
            Ok(Binding::Array(rest))
        },
        _ => Err(RuntimeError::TypeError),
    }
}

fn push_onto(args: &Vec<Binding>) -> (r: Result<Binding, RuntimeError>)
    ensures
        result_view(r) == builtin_value(Builtin::Push, bindings_view(args@)),
{
    if args.len() != 2 {
        return Err(RuntimeError::ArityMismatch);
    }
    match &args[0] {
        Binding::Array(a) => {
            assert(args@[0]@ == BindingView::Array(bindings_view(a@)));
            let mut longer = duplicate_bindings(a);
            let ghost before = longer@;
            longer.push(args[1].duplicate());
            proof {
                lemma_bindings_view_push(before, longer@[longer@.len() - 1]);
            }
            Ok(Binding::Array(longer))
        },
        _ => Err(RuntimeError::TypeError),
    }
}

fn put_values(args: &Vec<Binding>, out: &mut String)
    ensures
        final(out)@ == builtin_output(Builtin::Puts, bindings_view(args@), old(out)@),
{
    let ghost views = bindings_view(args@);
    if args.len() == 0 {
        out.append("\n");
    } else {
        let mut i: usize = 0;
        while i < args.len()
            invariant
                0 <= i <= args.len(),
                views == bindings_view(args@),
                put_lines(views, i as int, out@) == put_lines(views, 0, old(out)@),
            decreases args.len() - i,
        {
            let line = args[i].to_string();
            out.append(line.as_str());
            out.append("\n");
            i += 1;
        }
    }
}

} // verus!
