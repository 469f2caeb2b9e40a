//! The symbol table of the compiler: which slot a name stands for.

use vstd::prelude::*;
use crate::builtins::{builtin_index, builtin_of};
use crate::value::Builtin;

verus! {

/// Where a symbol lives.
#[derive(Debug, Clone, Copy, PartialEq, Eq, Structural)]
pub enum SymbolScope {
    /// A slot of the globals.
    Global,
    /// A slot of the running frame.
    Local,
    /// A position of the table of builtins.
    Builtin,
    /// A value that the running closure captured.
    Free,
    /// The running closure itself.
    Function,
}

/// What goes wrong while a program is compiled.
#[derive(Debug, Clone, Copy, PartialEq, Eq, Structural)]
pub enum CompileError {
    /// A name that is neither defined nor a builtin.
    UndefinedVariable,
    /// A token that is no operator in the place where it stands.
    InvalidOperator,
    /// More constants than a 16-bit index can address.
    TooManyConstants,
    /// More definitions in one scope than there are slots.
    TooManyDefinitions,
    /// More captured values, arguments or parameters than fit into a byte.
    OperandTooLarge,
    /// More elements in a literal than fit into 16 bits.
    TooManyElements,
    /// More bytes in one function than a jump can address.
    CodeTooLarge,
    /// A scope is left that was never entered.
    NoScope,
}

/// A name bound to an index within a scope.
#[derive(Debug)]
pub struct Symbol {
    pub name: String,
    pub index: u16,
    pub scope: SymbolScope,
}

/// A symbol as a mathematical value.
pub struct SymbolView {
    pub name: Seq<char>,
    pub index: u16,
    pub scope: SymbolScope,
}

impl View for Symbol {
    type V = SymbolView;

    open spec fn view(&self) -> SymbolView {
        SymbolView { name: self.name@, index: self.index, scope: self.scope }
    }
}

/// The views of a list of symbols.
pub open spec fn symbols_view(s: Seq<Symbol>) -> Seq<SymbolView> {
    Seq::new(s.len(), |i: int| s[i]@)
}

/// The symbols of one function, and the table of the function around it.
/// `free` holds, in the order of capture, the symbols of enclosing
/// functions that this one refers to.
#[derive(Debug)]
pub struct SymbolTable {
    outer: Option<Box<SymbolTable>>,
    symbols: Vec<Symbol>,
    num_definitions: u16,
    free: Vec<Symbol>,
}

/// A symbol table as a mathematical value.
pub struct SymbolTableView {
    pub outer: Option<Box<SymbolTableView>>,
    pub symbols: Seq<SymbolView>,
    pub num_definitions: u16,
    pub free: Seq<SymbolView>,
}

/// The view of a symbol table.
pub closed spec fn table_view(t: SymbolTable) -> SymbolTableView
    decreases t,
{
    SymbolTableView {
        outer: match t.outer {
            Some(o) => Some(Box::new(table_view(*o))),
            None => None,
        },
        symbols: symbols_view(t.symbols@),
        num_definitions: t.num_definitions,
        free: symbols_view(t.free@),
    }
}

impl View for SymbolTable {
    type V = SymbolTableView;

    open spec fn view(&self) -> SymbolTableView {
        table_view(*self)
    }
}

/// The position of the first symbol named `name` at or behind `i`, or the
/// number of symbols where there is none.
pub open spec fn symbol_index(symbols: Seq<SymbolView>, name: Seq<char>, i: int) -> int
    decreases symbols.len() - i,
{
    if 0 <= i < symbols.len() {
        if symbols[i].name == name {
            i
        } else {
            symbol_index(symbols, name, i + 1)
        }
    } else {
        symbols.len() as int
    }
}

/// The symbols with `s` under its name: in place of the symbol of that
/// name where there was one, else as a new last symbol.
pub open spec fn put(symbols: Seq<SymbolView>, s: SymbolView) -> Seq<SymbolView> {
    let i = symbol_index(symbols, s.name, 0);
    if 0 <= i < symbols.len() {
        symbols.update(i, s)
    } else {
        symbols.push(s)
    }
}

/// The table of the outermost scope, with nothing defined.
pub open spec fn empty_table() -> SymbolTableView {
    SymbolTableView { outer: None, symbols: Seq::empty(), num_definitions: 0, free: Seq::empty() }
}

/// The table of a function within the function of `outer`.
pub open spec fn nested_table(outer: SymbolTableView) -> SymbolTableView {
    SymbolTableView {
        outer: Some(Box::new(outer)),
        symbols: Seq::empty(),
        num_definitions: 0,
        free: Seq::empty(),
    }
}

/// Defines a name in the next slot: a global in the outermost table, a
/// local in every other.
pub open spec fn define(t: SymbolTableView, name: Seq<char>) -> Result<
    (SymbolView, SymbolTableView),
    CompileError,
> {
    if t.num_definitions == u16::MAX {
        Err(CompileError::TooManyDefinitions)
    } else {
        let s = SymbolView {
            name,
            index: t.num_definitions,
            scope: if t.outer is Some {
                SymbolScope::Local
            } else {
                SymbolScope::Global
            },
        };
        Ok(
            (
                s,
                SymbolTableView {
                    symbols: put(t.symbols, s),
                    num_definitions: (t.num_definitions + 1) as u16,
                    ..t
                },
            ),
        )
    }
}

/// Captures a symbol of an enclosing function: it becomes the next free
/// symbol of this table.
pub open spec fn define_free(t: SymbolTableView, original: SymbolView) -> Result<
    (SymbolView, SymbolTableView),
    CompileError,
> {
    if t.free.len() >= u8::MAX {
        Err(CompileError::OperandTooLarge)
    } else {
        let s = SymbolView {
            name: original.name,
            index: t.free.len() as u16,
            scope: SymbolScope::Free,
        };
        Ok(
            (s, SymbolTableView { free: t.free.push(original), symbols: put(t.symbols, s), ..t }),
        )
    }
}

/// Defines the name under which a function refers to itself.
pub open spec fn define_fn(t: SymbolTableView, name: Seq<char>) -> SymbolTableView {
    SymbolTableView {
        symbols: put(t.symbols, SymbolView { name, index: 0, scope: SymbolScope::Function }),
        ..t
    }
}

/// Resolves a name. A builtin comes first. A symbol of this table is
/// itself. A symbol of an enclosing table is itself where it is a global
/// or a builtin; else it is captured, in every table between, as a free
/// symbol.
pub open spec fn resolve(t: SymbolTableView, name: Seq<char>) -> (
    Result<Option<SymbolView>, CompileError>,
    SymbolTableView,
)
    decreases t,
{
    match builtin_of(name) {
        Some(b) => (
            Ok(
                Some(
                    SymbolView {
                        name,
                        index: builtin_index(b) as u16,
                        scope: SymbolScope::Builtin,
                    },
                ),
            ),
            t,
        ),
        None => {
            let i = symbol_index(t.symbols, name, 0);
            if 0 <= i < t.symbols.len() {
                (Ok(Some(t.symbols[i])), t)
            } else {
                match t.outer {
                    None => (Ok(None), t),
                    Some(outer) => {
                        let (r, outer1) = resolve(*outer, name);
                        let t1 = SymbolTableView { outer: Some(Box::new(outer1)), ..t };
                        match r {
                            Err(e) => (Err(e), t1),
                            Ok(None) => (Ok(None), t1),
                            Ok(Some(s)) => if s.scope == SymbolScope::Global || s.scope
                                == SymbolScope::Builtin {
                                (Ok(Some(s)), t1)
                            } else {
                                match define_free(t1, s) {
                                    Err(e) => (Err(e), t1),
                                    Ok((free, t2)) => (Ok(Some(free)), t2),
                                }
                            },
                        }
                    },
                }
            }
        },
    }
}

/// The symbol of a name among the symbols of one table, if it has one.
pub open spec fn find(symbols: Seq<SymbolView>, name: Seq<char>) -> Option<SymbolView> {
    let i = symbol_index(symbols, name, 0);
    if 0 <= i < symbols.len() {
        Some(symbols[i])
    } else {
        None
    }
}

/// A symbol that was put is found under its name, and every other name
/// finds what it found before.
pub proof fn lemma_find_after_put(symbols: Seq<SymbolView>, s: SymbolView, name: Seq<char>)
    ensures
        find(put(symbols, s), name) == (if name == s.name {
            Some(s)
        } else {
            find(symbols, name)
        }),
{
    lemma_symbol_index(symbols, s.name, 0);
    lemma_symbol_index(symbols, name, 0);
    if name == s.name {
        lemma_found_after_put(symbols, s, 0);
    } else {
        lemma_other_after_put(symbols, s, name, 0);
    }
}

/// Right after a name was made the own name of a function, the name
/// resolves to the function itself, unless it is the name of a builtin.
pub proof fn lemma_self_name_resolves(t: SymbolTableView, name: Seq<char>)
    requires
        builtin_of(name) is None,
    ensures
        resolve(define_fn(t, name), name) == (
            Ok::<Option<SymbolView>, CompileError>(
                Some(SymbolView { name, index: 0, scope: SymbolScope::Function }),
            ),
            define_fn(t, name),
        ),
{
    lemma_find_after_put(
        t.symbols,
        SymbolView { name, index: 0, scope: SymbolScope::Function },
        name,
    );
}

/// An index is the position of the first symbol of that name, or the
/// number of symbols.
pub proof fn lemma_symbol_index(symbols: Seq<SymbolView>, name: Seq<char>, i: int)
    requires
        0 <= i <= symbols.len(),
    ensures
        i <= symbol_index(symbols, name, i) <= symbols.len(),
        symbol_index(symbols, name, i) < symbols.len() ==> symbols[symbol_index(
            symbols,
            name,
            i,
        )].name == name,
        forall|j: int| i <= j < symbol_index(symbols, name, i) ==> symbols[j].name != name,
    decreases symbols.len() - i,
{
    if i < symbols.len() && symbols[i].name != name {
        lemma_symbol_index(symbols, name, i + 1);
    }
}

proof fn lemma_found_after_put(symbols: Seq<SymbolView>, s: SymbolView, i: int)
    requires
        0 <= i <= symbol_index(symbols, s.name, 0),
    ensures
        symbol_index(put(symbols, s), s.name, i) == symbol_index(symbols, s.name, 0),
        symbol_index(symbols, s.name, 0) < put(symbols, s).len(),
        put(symbols, s)[symbol_index(symbols, s.name, 0)] == s,
    decreases symbol_index(symbols, s.name, 0) - i,
{
    lemma_symbol_index(symbols, s.name, 0);
    let k = symbol_index(symbols, s.name, 0);
    let after = put(symbols, s);
    if i < k {
        assert(symbols[i].name != s.name);
        assert(after[i] == symbols[i]);
        lemma_found_after_put(symbols, s, i + 1);
    } else {
        assert(after[k] == s);
    }
}

proof fn lemma_other_after_put(symbols: Seq<SymbolView>, s: SymbolView, name: Seq<char>, i: int)
    requires
        name != s.name,
        0 <= i <= symbols.len(),
    ensures
        symbol_index(put(symbols, s), name, i) == (if symbol_index(symbols, name, i)
            < symbols.len() {
            symbol_index(symbols, name, i)
        } else {
            put(symbols, s).len() as int
        }),
        symbol_index(symbols, name, i) < symbols.len() ==> put(symbols, s)[symbol_index(
            symbols,
            name,
            i,
        )] == symbols[symbol_index(symbols, name, i)],
    decreases symbols.len() - i,
{
    lemma_symbol_index(symbols, s.name, 0);
    let after = put(symbols, s);
    let k = symbol_index(symbols, s.name, 0);
    if i < symbols.len() {
        if symbols[i].name == name {
            assert(i != k);
            assert(after[i] == symbols[i]);
        } else {
            assert(after[i].name != name);
            lemma_other_after_put(symbols, s, name, i + 1);
        }
    } else {
        if k < symbols.len() {
            assert(after.len() == symbols.len());
        } else {
            assert(after[i] == s);
            assert(symbol_index(after, name, i + 1) == after.len());
        }
    }
}

fn find_symbol(symbols: &Vec<Symbol>, name: &String) -> (i: usize)
    ensures
        i == symbol_index(symbols_view(symbols@), name@, 0),
        i <= symbols.len(),
{
    let ghost views = symbols_view(symbols@);
    let mut i: usize = 0;
    while i < symbols.len()
        invariant
            0 <= i <= symbols.len(),
            views == symbols_view(symbols@),
            symbol_index(views, name@, i as int) == symbol_index(views, name@, 0),
        decreases symbols.len() - i,
    {
        assert(views[i as int].name == symbols@[i as int].name@);
        if symbols[i].name == *name {
            return i;
        }
        i += 1;
    }
    i
}

fn put_symbol(symbols: &mut Vec<Symbol>, s: Symbol)
    ensures
        symbols_view(final(symbols)@) == put(symbols_view(old(symbols)@), s@),
{
    let i: usize = find_symbol(symbols, &s.name);
    let ghost before = symbols@;
    if i < symbols.len() {
        symbols.set(i, s);
        assert(symbols_view(symbols@) =~= symbols_view(before).update(i as int, s@));
    } else {
        symbols.push(s);
        assert(symbols_view(symbols@) =~= symbols_view(before).push(s@));
    }
}

impl Symbol {
    /// A copy of the symbol.
    pub fn duplicate(&self) -> (s: Symbol)
        ensures
            s@ == self@,
    {
        Symbol { name: self.name.clone(), index: self.index, scope: self.scope }
    }
}

impl SymbolTable {
    /// The table of the outermost scope, with nothing defined.
    pub fn outermost() -> (t: Self)
        ensures
            t@ == empty_table(),
    {
        let t = Self { outer: None, symbols: Vec::new(), num_definitions: 0, free: Vec::new() };
        assert(symbols_view(t.symbols@) =~= Seq::empty());
        assert(symbols_view(t.free@) =~= Seq::empty());
        t
    }

    /// The table of a function within the function of `outer`.
    pub fn new(outer: SymbolTable) -> (t: Self)
        ensures
            t@ == nested_table(outer@),
    {
        let t = Self {
            outer: Some(Box::new(outer)),
            symbols: Vec::new(),
            num_definitions: 0,
            free: Vec::new(),
        };
        assert(symbols_view(t.symbols@) =~= Seq::empty());
        assert(symbols_view(t.free@) =~= Seq::empty());
        t
    }

    /// The table of the enclosing function, where there is one; else the
    /// table itself.
    pub fn into_outer(self) -> (t: SymbolTable)
        ensures
            t@ == (match self@.outer {
                Some(o) => *o,
                None => self@,
            }),
    {
        match self.outer {
            Some(o) => *o,
            None => Self {
                outer: None,
                symbols: self.symbols,
                num_definitions: self.num_definitions,
                free: self.free,
            },
        }
    }

    /// Starts the table of a function within the function of this table:
    /// this table becomes the outer table of a new one.
    pub fn nest(&mut self)
        ensures
            final(self)@ == nested_table(old(self)@),
    {
        let mut outer = SymbolTable::outermost();
        core::mem::swap(self, &mut outer);
        self.outer = Some(Box::new(outer));
        assert(symbols_view(self.symbols@) =~= Seq::empty());
        assert(symbols_view(self.free@) =~= Seq::empty());
    }

    /// Ends the table of a function: the table of the function around it
    /// takes its place. The outermost table stays.
    pub fn leave(&mut self)
        ensures
            final(self)@ == (match old(self)@.outer {
                Some(o) => *o,
                None => old(self)@,
            }),
    {
        match self.outer.take() {
            Some(o) => {
                *self = *o;
            },
            None => {},
        }
    }

    /// The number of names defined in this table.
    pub fn num_definitions(&self) -> (n: u16)
        ensures
            n == self@.num_definitions,
    {
        self.num_definitions
    }

    /// Copies of the symbols that this table captured, in order.
    pub fn free_symbols(&self) -> (r: Vec<Symbol>)
        ensures
            symbols_view(r@) == self@.free,
    {
        let mut r: Vec<Symbol> = Vec::new();
        let mut i: usize = 0;
        while i < self.free.len()
            invariant
                0 <= i <= self.free.len(),
                r.len() == i,
                forall|j: int| 0 <= j < i ==> r@[j]@ == self.free@[j]@,
            decreases self.free.len() - i,
        {
            r.push(self.free[i].duplicate());
            i += 1;
        }
        assert(symbols_view(r@) =~= symbols_view(self.free@));
        r
    }

    /// Defines `name` in the next slot.
    pub fn define(&mut self, name: String) -> (r: Result<Symbol, CompileError>)
        ensures
            match define(old(self)@, name@) {
                Ok((s, t)) => r is Ok && r.unwrap()@ == s && final(self)@ == t,
                Err(e) => r == Err::<Symbol, CompileError>(e) && final(self)@ == old(self)@,
            },
    {
        if self.num_definitions == u16::MAX {
            return Err(CompileError::TooManyDefinitions);
        }
        let scope = if self.outer.is_some() {
            SymbolScope::Local
        } else {
            SymbolScope::Global
        };
        let symbol = Symbol { name: name.clone(), index: self.num_definitions, scope };
        self.num_definitions += 1;
        put_symbol(&mut self.symbols, symbol.duplicate());
        Ok(symbol)
    }

    /// Captures `original`, a symbol of an enclosing function.
    pub fn define_free(&mut self, original: Symbol) -> (r: Result<Symbol, CompileError>)
        ensures
            match define_free(old(self)@, original@) {
                Ok((s, t)) => r is Ok && r.unwrap()@ == s && final(self)@ == t,
                Err(e) => r == Err::<Symbol, CompileError>(e) && final(self)@ == old(self)@,
            },
    {
        if self.free.len() >= 255 {
            return Err(CompileError::OperandTooLarge);
        }
        let symbol = Symbol {
            name: original.name.clone(),
            index: self.free.len() as u16,
            scope: SymbolScope::Free,
        };
        let ghost before = self.free@;
        self.free.push(original);
        assert(symbols_view(self.free@) =~= symbols_view(before).push(original@));
        put_symbol(&mut self.symbols, symbol.duplicate());
        Ok(symbol)
    }

    /// Defines the name under which the function refers to itself.
    pub fn define_fn(&mut self, name: String)
        ensures
            final(self)@ == define_fn(old(self)@, name@),
    {
        let symbol = Symbol { name, index: 0, scope: SymbolScope::Function };
        put_symbol(&mut self.symbols, symbol);
    }

    /// Resolves `name`, capturing it where it belongs to an enclosing
    /// function.
    pub fn resolve(&mut self, name: &str) -> (r: Result<Option<Symbol>, CompileError>)
        ensures
            match resolve(old(self)@, name@) {
                (Ok(Some(s)), t) => r is Ok && r.unwrap() is Some && r.unwrap().unwrap()@ == s
                    && final(self)@ == t,
                (Ok(None), t) => r is Ok && r.unwrap() is None && final(self)@ == t,
                (Err(e), t) => r == Err::<Option<Symbol>, CompileError>(e) && final(self)@ == t,
            },
        decreases *old(self),
    {
        let owned = name.to_owned();
        if let Some(b) = Builtin::from_str(name) {
            return Ok(
                Some(Symbol { name: owned, index: b.index() as u16, scope: SymbolScope::Builtin }),
            );
        }
        let i: usize = find_symbol(&self.symbols, &owned);
        if i < self.symbols.len() {
            return Ok(Some(self.symbols[i].duplicate()));
        }
        match self.outer.take() {
            None => Ok(None),
            Some(mut outer) => {
                let found = outer.resolve(name);
                self.outer = Some(outer);
                match found {
                    Err(e) => Err(e),
                    Ok(None) => Ok(None),
                    Ok(Some(s)) => {
                        match s.scope {
                            SymbolScope::Global | SymbolScope::Builtin => Ok(Some(s)),
                            _ => match self.define_free(s) {
                                Ok(free) => Ok(Some(free)),
                                Err(e) => Err(e),
                            },
                        }
                    },
                }
            },
        }
    }
}

} // verus!
