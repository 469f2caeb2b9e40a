//! The compiler: one pass over the tree that emits instructions into the
//! scope of the function being compiled.

use vstd::prelude::*;
use crate::lexer::tokens::Token;
use crate::parser::types::{exprs_view, pairs_view, names_view, Block, Expr, Program};
use crate::value::{Closure, CompiledFn, Primitive};
use crate::vm::lowering::{
    add_constant, code_size, compile_block, compile_expr, compile_fn, compile_if, compile_list,
    compile_pairs, current, define_all, emit, emit_constant, emit_symbol, emit_symbols, enter_scope,
    exit_scope, fresh_context, infix_operation, main_closure, patch, plain, prefix_operation,
    strip_pop, with_current, with_return, without_last_pop, ContextView, Lowered, CODE_LIMIT,
};
use crate::vm::machine::primitives_view;
use crate::vm::symbols::{symbols_view, CompileError, Symbol, SymbolScope, SymbolTable};
use crate::vm::types::{encode, encode_all, instructions_view, Instruction, InstructionView, Op};

verus! {

broadcast use {crate::value::group_value_views, crate::parser::types::group_expr_views};

/// The size of a list with one more instruction.
pub proof fn lemma_code_size_push(is: Seq<InstructionView>, i: InstructionView)
    ensures
        code_size(is.push(i)) == code_size(is) + encode(i).len(),
{
    assert(is.push(i).drop_last() =~= is);
}

/// The size of a list without its last instruction.
pub proof fn lemma_code_size_drop_last(is: Seq<InstructionView>)
    requires
        is.len() > 0,
    ensures
        code_size(is) == code_size(is.drop_last()) + encode(is.last()).len(),
{
}

/// The size of a list with one instruction replaced.
pub proof fn lemma_code_size_update(is: Seq<InstructionView>, at: int, i: InstructionView)
    requires
        0 <= at < is.len(),
    ensures
        code_size(is.update(at, i)) == code_size(is) - encode(is[at]).len() + encode(i).len(),
    decreases is.len(),
{
    if at == is.len() - 1 {
        assert(is.update(at, i).drop_last() =~= is.drop_last());
    } else {
        assert(is.update(at, i).drop_last() =~= is.drop_last().update(at, i));
        lemma_code_size_update(is.drop_last(), at, i);
    }
}

/// A list is at least as large as each of its instructions.
pub proof fn lemma_code_size_member(is: Seq<InstructionView>, at: int)
    requires
        0 <= at < is.len(),
    ensures
        encode(is[at]).len() <= code_size(is),
    decreases is.len(),
{
    if at < is.len() - 1 {
        lemma_code_size_member(is.drop_last(), at);
    }
}

/// The instructions of one function while it is compiled.
#[derive(Debug)]
pub struct Scope {
    instructions: Vec<Instruction>,
    byte_size: usize,
}

impl View for Scope {
    type V = Seq<InstructionView>;

    closed spec fn view(&self) -> Seq<InstructionView> {
        instructions_view(self.instructions@)
    }
}

impl Scope {
    /// The size is the size of the instructions and within the limit, and
    /// no instruction has more than three operand bytes.
    pub closed spec fn wf(&self) -> bool {
        &&& self.byte_size == code_size(self@)
        &&& self.byte_size <= CODE_LIMIT
        &&& forall|k: int|
            0 <= k < self.instructions@.len() ==> (#[trigger] self.instructions@[k])@.param.len()
                <= 3
    }

    /// A scope without instructions.
    fn new() -> (s: Self)
        ensures
            s.wf(),
            s@ == Seq::<InstructionView>::empty(),
    {
        let s = Self { instructions: Vec::new(), byte_size: 0 };
        assert(s@ =~= Seq::empty());
        s
    }

    fn push(&mut self, i: Instruction) -> (r: Result<(), CompileError>)
        requires
            old(self).wf(),
            i@.param.len() <= 3,
        ensures
            final(self).wf(),
            code_size(old(self)@) + encode(i@).len() > CODE_LIMIT ==> r == Err::<
                (),
                CompileError,
            >(CompileError::CodeTooLarge) && final(self)@ == old(self)@,
            code_size(old(self)@) + encode(i@).len() <= CODE_LIMIT ==> r is Ok && final(self)@
                == old(self)@.push(i@),
    {
        let n: usize = i.len();
        if self.byte_size + n > CODE_LIMIT {
            return Err(CompileError::CodeTooLarge);
        }
        proof {
            lemma_code_size_push(self@, i@);
        }
        self.byte_size += n;
        self.instructions.push(i);
        assert(self@ =~= old(self)@.push(i@));
        Ok(())
    }

    fn patch(&mut self, at: usize, i: Instruction) -> (r: Result<(), CompileError>)
        requires
            old(self).wf(),
            i@.param.len() <= 3,
            at < old(self)@.len(),
        ensures
            final(self).wf(),
            code_size(old(self)@.update(at as int, i@)) > CODE_LIMIT ==> r == Err::<
                (),
                CompileError,
            >(CompileError::CodeTooLarge) && final(self)@ == old(self)@,
            code_size(old(self)@.update(at as int, i@)) <= CODE_LIMIT ==> r is Ok && final(self)@
                == old(self)@.update(at as int, i@),
    {
        proof {
            lemma_code_size_update(self@, at as int, i@);
            lemma_code_size_member(self@, at as int);
        }
        let before: usize = self.instructions[at].len();
        let after: usize = i.len();
        if self.byte_size - before + after > CODE_LIMIT {
            return Err(CompileError::CodeTooLarge);
        }
        self.byte_size = self.byte_size - before + after;
        self.instructions.set(at, i);
        assert(self@ =~= old(self)@.update(at as int, i@));
        Ok(())
    }

    /// Makes the function return what its last statement left.
    fn set_return(&mut self)
        ensures
            final(self)@ == with_return(old(self)@),
    {
        let n: usize = self.instructions.len();
        if n == 0 {
            self.instructions.push(Instruction::new(Op::Return));
            assert(self@ =~= with_return(old(self)@));
        } else if self.instructions[n - 1].operation() == Op::Pop {
            let last = self.instructions.pop().unwrap();
            self.instructions.push(last.with_operation(Op::ReturnVal));
            assert(self@ =~= with_return(old(self)@));
        }
    }

    /// Removes the last instruction where it is a `Pop`.
    fn remove_last_pop(&mut self)
        requires
            old(self).wf(),
        ensures
            final(self).wf(),
            final(self)@ == without_last_pop(old(self)@),
    {
        let n: usize = self.instructions.len();
        if n > 0 && self.instructions[n - 1].operation() == Op::Pop {
            proof {
                lemma_code_size_drop_last(self@);
            }
            let last = self.instructions.pop().unwrap();
            self.byte_size -= last.len();
            assert(self@ =~= old(self)@.drop_last());
        }
    }

    /// The bytes of the instructions, one behind the other.
    fn bytes(&self) -> (b: Vec<u8>)
        ensures
            b@ == encode_all(self@),
    {
        let mut bytes: Vec<u8> = Vec::new();
        let mut i: usize = 0;
        while i < self.instructions.len()
            invariant
                0 <= i <= self.instructions.len(),
                bytes@ == encode_all(self@.subrange(0, i as int)),
            decreases self.instructions.len() - i,
        {
            let mut part = self.instructions[i].duplicate().bytes();
            bytes.append(&mut part);
            proof {
                let s = self@.subrange(0, i + 1);
                assert(s.drop_last() =~= self@.subrange(0, i as int));
                assert(s.last() == self@[i as int]);
            }
            i += 1;
        }
        assert(self@.subrange(0, self.instructions.len() as int) =~= self@);
        bytes
    }
}

/// The views of the scopes of a context.
pub open spec fn scopes_view(s: Seq<Scope>) -> Seq<Seq<InstructionView>> {
    Seq::new(s.len(), |i: int| s[i]@)
}

/// The state of a compilation. It outlives one program where a session
/// compiles one entry after the other: the globals and the constants stay.
#[derive(Debug)]
pub struct CompiledContext {
    symbols: SymbolTable,
    scopes: Vec<Scope>,
    constants: Vec<Primitive>,
}

impl View for CompiledContext {
    type V = ContextView;

    closed spec fn view(&self) -> ContextView {
        ContextView {
            symbols: self.symbols@,
            scopes: scopes_view(self.scopes@),
            constants: primitives_view(self.constants@),
        }
    }
}

/// An exec outcome `r` with the context `after` is what `o` asks for.
pub open spec fn lowered(r: Result<(), CompileError>, after: ContextView, o: Lowered) -> bool {
    match o {
        Ok(c) => r is Ok && after == c,
        Err(e) => r == Err::<(), CompileError>(e),
    }
}

/// Something that can be compiled into a context.
pub trait Compilation {
    /// What compiling does to the context.
    spec fn compiled(&self, ctx: ContextView) -> Lowered;

    /// Compiles into `output`. After an error `output` is well formed, but
    /// holds what was emitted before the error.
    fn compile(&self, output: &mut CompiledContext) -> (r: Result<(), CompileError>)
        requires
            old(output).wf(),
        ensures
            final(output).wf(),
            lowered(r, final(output)@, self.compiled(old(output)@)),
    ;
}

impl CompiledContext {
    /// There is a scope, and every scope is well formed.
    pub closed spec fn wf(&self) -> bool {
        &&& self.scopes.len() >= 1
        &&& forall|k: int| 0 <= k < self.scopes@.len() ==> (#[trigger] self.scopes@[k]).wf()
    }

    /// A fresh context.
    pub fn new() -> (ctx: Self)
        ensures
            ctx.wf(),
            ctx@ == fresh_context(),
    {
        let mut scopes: Vec<Scope> = Vec::new();
        scopes.push(Scope::new());
        let ctx = Self { symbols: SymbolTable::outermost(), scopes, constants: Vec::new() };
        assert(ctx@.scopes =~= fresh_context().scopes);
        assert(ctx@.constants =~= fresh_context().constants);
        ctx
    }

    /// The closure of the outermost scope: the instructions emitted so far
    /// as a function without parameters, with one local for each global.
    pub fn make_main_closure(&mut self) -> (c: Closure)
        requires
            old(self).wf(),
        ensures
            final(self).wf(),
            final(self)@ == old(self)@,
            c@ == main_closure(old(self)@),
    {
        let body = self.to_bytes();
        let c = Closure::new(
            CompiledFn { body, num_locals: self.symbols.num_definitions(), num_args: 0 },
            Vec::new(),
        );
        assert(c@.free =~= Seq::empty());
        c
    }

    /// A copy of the pool of constants.
    pub fn get_constants(&self) -> (r: Vec<Primitive>)
        ensures
            primitives_view(r@) == self@.constants,
    {
        let mut r: Vec<Primitive> = Vec::new();
        let mut i: usize = 0;
        while i < self.constants.len()
            invariant
                0 <= i <= self.constants.len(),
                r.len() == i,
                forall|j: int| 0 <= j < i ==> r@[j]@ == self.constants@[j]@,
            decreases self.constants.len() - i,
        {
            r.push(self.constants[i].duplicate());
            i += 1;
        }
        assert(primitives_view(r@) =~= primitives_view(self.constants@));
        r
    }

    /// Removes the last instruction where it is a `Pop`, so that the value
    /// of the last statement stays on the stack.
    pub fn remove_last_pop(&mut self)
        requires
            old(self).wf(),
        ensures
            final(self).wf(),
            final(self)@ == strip_pop(old(self)@),
    {
        let n: usize = self.scopes.len();
        self.scopes[n - 1].remove_last_pop();
        assert(self@.scopes =~= strip_pop(old(self)@).scopes);
    }

    /// Removes the instructions of the current scope. What is defined and
    /// the constants stay.
    pub fn clear_instructions(&mut self)
        requires
            old(self).wf(),
        ensures
            final(self).wf(),
            final(self)@ == with_current(old(self)@, Seq::empty()),
    {
        let n: usize = self.scopes.len();
        self.scopes.set(n - 1, Scope::new());
        assert(self@.scopes =~= with_current(old(self)@, Seq::empty()).scopes);
    }

    /// The bytes of the instructions of the current scope.
    pub fn to_bytes(&self) -> (b: Vec<u8>)
        requires
            self.wf(),
        ensures
            b@ == encode_all(current(self@)),
    {
        self.scopes[self.scopes.len() - 1].bytes()
    }

    /// The listing of the current scope: for each instruction its offset
    /// in bytes and its line.
    pub fn listing(&self) -> (lines: Vec<(usize, String)>)
        requires
            self.wf(),
        ensures
            lines.len() == current(self@).len(),
            forall|k: int|
                0 <= k < lines.len() ==> (#[trigger] lines@[k]).0 == code_size(
                    current(self@).subrange(0, k),
                ) && lines@[k].1@ == crate::vm::types::listing(current(self@)[k]),
    {
        let scope = &self.scopes[self.scopes.len() - 1];
        let mut lines: Vec<(usize, String)> = Vec::new();
        let mut offset: usize = 0;
        let mut i: usize = 0;
        assert(scope@.subrange(0, 0) =~= Seq::empty());
        while i < scope.instructions.len()
            invariant
                0 <= i <= scope.instructions.len(),
                scope.wf(),
                scope@ == current(self@),
                lines.len() == i,
                offset == code_size(scope@.subrange(0, i as int)),
                offset <= code_size(scope@),
                forall|k: int|
                    0 <= k < i ==> (#[trigger] lines@[k]).0 == code_size(scope@.subrange(0, k))
                        && lines@[k].1@ == crate::vm::types::listing(scope@[k]),
            decreases scope.instructions.len() - i,
        {
            proof {
                let s = scope@.subrange(0, i + 1);
                assert(s.drop_last() =~= scope@.subrange(0, i as int));
                assert(s.last() == scope@[i as int]);
                lemma_code_size_prefix(scope@, i + 1);
            }
            lines.push((offset, scope.instructions[i].to_string()));
            offset += scope.instructions[i].len();
            i += 1;
        }
        lines
    }

    fn instructions_len(&self) -> (n: usize)
        requires
            self.wf(),
        ensures
            n == current(self@).len(),
    {
        self.scopes[self.scopes.len() - 1].instructions.len()
    }

    fn instructions_size(&self) -> (n: usize)
        requires
            self.wf(),
        ensures
            n == code_size(current(self@)),
            n <= CODE_LIMIT,
    {
        self.scopes[self.scopes.len() - 1].byte_size
    }

    fn set_nth_instruction(&mut self, index: usize, i: Instruction) -> (r: Result<
        (),
        CompileError,
    >)
        requires
            old(self).wf(),
            i@.param.len() <= 3,
        ensures
            final(self).wf(),
            lowered(r, final(self)@, patch(old(self)@, index as int, i@)),
            r is Err ==> final(self)@ == old(self)@,
    {
        let n: usize = self.scopes.len();
        if index >= self.scopes[n - 1].instructions.len() {
            return Err(CompileError::NoScope);
        }
        let r = self.scopes[n - 1].patch(index, i);
        assert(self@.scopes =~= old(self)@.scopes.update(n - 1, self.scopes@[n - 1]@));
        assert(r is Err ==> self@.scopes =~= old(self)@.scopes);
        r
    }

    fn emit(&mut self, i: Instruction) -> (r: Result<(), CompileError>)
        requires
            old(self).wf(),
            i@.param.len() <= 3,
        ensures
            final(self).wf(),
            lowered(r, final(self)@, emit(old(self)@, i@)),
            r is Err ==> final(self)@ == old(self)@,
    {
        let n: usize = self.scopes.len();
        let r = self.scopes[n - 1].push(i);
        assert(self@.scopes =~= old(self)@.scopes.update(n - 1, self.scopes@[n - 1]@));
        assert(r is Err ==> self@.scopes =~= old(self)@.scopes);
        r
    }

    fn emit_constant(&mut self, p: Primitive) -> (r: Result<(), CompileError>)
        requires
            old(self).wf(),
        ensures
            final(self).wf(),
            lowered(r, final(self)@, emit_constant(old(self)@, p@)),
    {
        let ix = self.add_constant(p)?;
        self.emit(Instruction::new_u16(Op::Constant, ix))
    }

    fn add_constant(&mut self, p: Primitive) -> (r: Result<u16, CompileError>)
        requires
            old(self).wf(),
        ensures
            final(self).wf(),
            match add_constant(old(self)@, p@) {
                Ok((ix, ctx)) => r == Ok::<u16, CompileError>(ix) && final(self)@ == ctx,
                Err(e) => r == Err::<u16, CompileError>(e) && final(self)@ == old(self)@,
            },
    {
        let n: usize = self.constants.len();
        if n > 65535 {
            return Err(CompileError::TooManyConstants);
        }
        self.constants.push(p);
        assert(self@.constants =~= old(self)@.constants.push(p@));
        Ok(n as u16)
    }

    fn emit_infix(&mut self, token: &Token) -> (r: Result<(), CompileError>)
        requires
            old(self).wf(),
        ensures
            final(self).wf(),
            match infix_operation(token@) {
                Some(op) => lowered(r, final(self)@, emit(old(self)@, plain(op))),
                None => r == Err::<(), CompileError>(CompileError::InvalidOperator) && final(self)@
                    == old(self)@,
            },
    {
        match infix_op_code(token) {
            Some(op) => self.emit(Instruction::new(op)),
            None => Err(CompileError::InvalidOperator),
        }
    }

    fn emit_symbol(&mut self, symbol: &Symbol) -> (r: Result<(), CompileError>)
        requires
            old(self).wf(),
        ensures
            final(self).wf(),
            lowered(r, final(self)@, emit_symbol(old(self)@, symbol@)),
            r is Err ==> final(self)@ == old(self)@,
    {
        match symbol.scope {
            SymbolScope::Global => self.emit(Instruction::new_u16(Op::GetGlobal, symbol.index)),
            SymbolScope::Local => self.emit(Instruction::new_u16(Op::GetLocal, symbol.index)),
            SymbolScope::Builtin => {
                if symbol.index > 255 {
                    Err(CompileError::OperandTooLarge)
                } else {
                    self.emit(Instruction::new_u8(Op::GetBuiltin, symbol.index as u8))
                }
            },
            SymbolScope::Free => {
                if symbol.index > 255 {
                    Err(CompileError::OperandTooLarge)
                } else {
                    self.emit(Instruction::new_u8(Op::GetFree, symbol.index as u8))
                }
            },
            SymbolScope::Function => self.emit(Instruction::new(Op::CurrentClosure)),
        }
    }

    fn emit_symbols(&mut self, symbols: &Vec<Symbol>) -> (r: Result<(), CompileError>)
        requires
            old(self).wf(),
        ensures
            final(self).wf(),
            lowered(r, final(self)@, emit_symbols(old(self)@, symbols_view(symbols@), 0)),
    {
        let ghost views = symbols_view(symbols@);
        let ghost goal = emit_symbols(self@, views, 0);
        let mut i: usize = 0;
        while i < symbols.len()
            invariant
                0 <= i <= symbols.len(),
                self.wf(),
                views == symbols_view(symbols@),
                goal == emit_symbols(old(self)@, views, 0),
                emit_symbols(self@, views, i as int) == goal,
            decreases symbols.len() - i,
        {
            assert(views[i as int] == symbols@[i as int]@);
            match self.emit_symbol(&symbols[i]) {
                Err(e) => {
                    return Err(e);
                },
                Ok(()) => {},
            }
            i += 1;
        }
        Ok(())
    }

    fn enter_scope(&mut self)
        requires
            old(self).wf(),
        ensures
            final(self).wf(),
            final(self)@ == enter_scope(old(self)@),
    {
        self.scopes.push(Scope::new());
        self.symbols.nest();
        assert(self@.scopes =~= enter_scope(old(self)@).scopes);
    }

    fn exit_scope(&mut self, set_return: bool) -> (r: Result<Vec<u8>, CompileError>)
        requires
            old(self).wf(),
        ensures
            final(self).wf(),
            match exit_scope(old(self)@, set_return) {
                Ok((bytes, ctx)) => r is Ok && r.unwrap()@ == bytes && final(self)@ == ctx,
                Err(e) => r == Err::<Vec<u8>, CompileError>(e) && final(self)@ == old(self)@,
            },
    {
        if self.scopes.len() < 2 {
            return Err(CompileError::NoScope);
        }
        let mut scope = self.scopes.pop().unwrap();
        if set_return {
            scope.set_return();
        }
        self.symbols.leave();
        assert(self@.scopes =~= old(self)@.scopes.drop_last());
        Ok(scope.bytes())
    }
}

/// The size of the first instructions of a list is at most the size of the
/// list.
pub proof fn lemma_code_size_prefix(is: Seq<InstructionView>, n: int)
    requires
        0 <= n <= is.len(),
    ensures
        code_size(is.subrange(0, n)) <= code_size(is),
    decreases is.len() - n,
{
    if n == is.len() {
        assert(is.subrange(0, n) =~= is);
    } else {
        let s = is.subrange(0, n + 1);
        assert(s.drop_last() =~= is.subrange(0, n));
        lemma_code_size_prefix(is, n + 1);
    }
}

fn infix_op_code(token: &Token) -> (r: Option<Op>)
    ensures
        r == infix_operation(token@),
{
    match token {
        Token::Plus => Some(Op::Add),
        Token::Minus => Some(Op::Sub),
        Token::Star => Some(Op::Mul),
        Token::Slash => Some(Op::Div),
        Token::Eq => Some(Op::Eq),
        Token::Neq => Some(Op::Neq),
        Token::Lt => Some(Op::Lt),
        Token::LBracket => Some(Op::Index),
        Token::Percent => Some(Op::Mod),
        _ => None,
    }
}

fn prefix_op_code(token: &Token) -> (r: Option<Op>)
    ensures
        r == prefix_operation(token@),
{
    match token {
        Token::Bang => Some(Op::Bang),
        Token::Minus => Some(Op::Minus),
        _ => None,
    }
}

fn define_parameters(table: &mut SymbolTable, names: &Vec<String>) -> (r: Result<(), CompileError>)
    ensures
        match define_all(old(table)@, names_view(names@), 0) {
            Ok(t) => r is Ok && final(table)@ == t,
            Err(e) => r == Err::<(), CompileError>(e),
        },
{
    let ghost views = names_view(names@);
    let ghost goal = define_all(table@, views, 0);
    let mut i: usize = 0;
    while i < names.len()
        invariant
            0 <= i <= names.len(),
            views == names_view(names@),
            goal == define_all(old(table)@, views, 0),
            define_all(table@, views, i as int) == goal,
        decreases names.len() - i,
    {
        match table.define(names[i].clone()) {
            Err(e) => {
                return Err(e);
            },
            Ok(_) => {},
        }
        i += 1;
    }
    Ok(())
}

/// Compiles an expression into `out`.
pub fn compile_expression(e: &Expr, out: &mut CompiledContext) -> (r: Result<(), CompileError>)
    requires
        old(out).wf(),
    ensures
        final(out).wf(),
        lowered(r, final(out)@, compile_expr(e@, old(out)@)),
    decreases e, 1nat,
{
    match e {
        Expr::Int(_) | Expr::String(_) | Expr::Bool(_) | Expr::Identifier(_) => compile_leaf(
            e,
            out,
        ),
        Expr::Prefix(_) | Expr::Infix(_) => compile_operator(e, out),
        Expr::If(_) => compile_conditional(e, out),
        Expr::Fn(_) => compile_function(e, out),
        Expr::Let(_) | Expr::Return(_) => compile_binding(e, out),
        Expr::Array(_) | Expr::Hash(_) | Expr::Call(_) => compile_composite(e, out),
    }
}

/// Compiles a literal or an identifier.
fn compile_leaf(e: &Expr, out: &mut CompiledContext) -> (r: Result<(), CompileError>)
    requires
        old(out).wf(),
        e is Int || e is String || e is Bool || e is Identifier,
    ensures
        final(out).wf(),
        lowered(r, final(out)@, compile_expr(e@, old(out)@)),
{
    match e {
        Expr::Int(i) => out.emit_constant(Primitive::Int(*i)),
        Expr::String(s) => out.emit_constant(Primitive::String_(s.clone())),
        Expr::Bool(b) => {
            if *b {
                out.emit(Instruction::new(Op::True))
            } else {
                out.emit(Instruction::new(Op::False))
            }
        },
        Expr::Identifier(name) => {
            match out.symbols.resolve(name.as_str()) {
                Err(e) => Err(e),
                Ok(None) => Err(CompileError::UndefinedVariable),
                Ok(Some(s)) => out.emit_symbol(&s),
            }
        },
        _ => Ok(()),
    }
}

/// Compiles a prefix or infix operator with its operands.
fn compile_operator(e: &Expr, out: &mut CompiledContext) -> (r: Result<(), CompileError>)
    requires
        old(out).wf(),
        e is Prefix || e is Infix,
    ensures
        final(out).wf(),
        lowered(r, final(out)@, compile_expr(e@, old(out)@)),
    decreases e, 0nat,
{
    match e {
        Expr::Prefix(p) => {
            compile_expression(&p.right, out)?;
            match prefix_op_code(&p.token) {
                None => Err(CompileError::InvalidOperator),
                Some(op) => out.emit(Instruction::new(op)),
            }
        },
        Expr::Infix(i) => {
            match infix_op_code(&i.token) {
                Some(_) => {
                    compile_expression(&i.left, out)?;
                    compile_expression(&i.right, out)?;
                    out.emit_infix(&i.token)
                },
                None => {
                    if let Token::Gt = &i.token {
                        compile_expression(&i.right, out)?;
                        compile_expression(&i.left, out)?;
                        out.emit(Instruction::new(Op::Lt))
                    } else {
                        Err(CompileError::InvalidOperator)
                    }
                },
            }
        },
        _ => Ok(()),
    }
}

/// Compiles a `let` or a `return`.
fn compile_binding(e: &Expr, out: &mut CompiledContext) -> (r: Result<(), CompileError>)
    requires
        old(out).wf(),
        e is Let || e is Return,
    ensures
        final(out).wf(),
        lowered(r, final(out)@, compile_expr(e@, old(out)@)),
    decreases e, 0nat,
{
    match e {
        Expr::Let(l) => {
            let symbol = out.symbols.define(l.name.clone())?;
            compile_expression(&l.value, out)?;
            if symbol.scope == SymbolScope::Global {
                out.emit(Instruction::new_u16(Op::SetGlobal, symbol.index))
            } else {
                out.emit(Instruction::new_u16(Op::SetLocal, symbol.index))
            }
        },
        Expr::Return(value) => {
            compile_expression(value, out)?;
            out.emit(Instruction::new(Op::ReturnVal))
        },
        _ => Ok(()),
    }
}

/// Compiles an array literal, a hash literal or a call.
fn compile_composite(e: &Expr, out: &mut CompiledContext) -> (r: Result<(), CompileError>)
    requires
        old(out).wf(),
        e is Array || e is Hash || e is Call,
    ensures
        final(out).wf(),
        lowered(r, final(out)@, compile_expr(e@, old(out)@)),
    decreases e, 0nat,
{
    match e {
        Expr::Array(items) => {
            compile_each(items, out)?;
            if items.len() > 65535 {
                Err(CompileError::TooManyElements)
            } else {
                out.emit(Instruction::new_u16(Op::Array, items.len() as u16))
            }
        },
        Expr::Hash(pairs) => {
            compile_each_pair(pairs, out)?;
            if pairs.len() > 65535 {
                Err(CompileError::TooManyElements)
            } else {
                out.emit(Instruction::new_u16(Op::Hash, pairs.len() as u16))
            }
        },
        Expr::Call(c) => {
            compile_expression(&c.expr, out)?;
            compile_each(&c.args, out)?;
            if c.args.len() > 255 {
                Err(CompileError::OperandTooLarge)
            } else {
                out.emit(Instruction::new_u8(Op::Call, c.args.len() as u8))
            }
        },
        _ => Ok(()),
    }
}

/// Compiles a conditional into `out`.
fn compile_conditional(e: &Expr, out: &mut CompiledContext) -> (r: Result<(), CompileError>)
    requires
        old(out).wf(),
    ensures
        final(out).wf(),
        lowered(r, final(out)@, compile_if(e@, old(out)@)),
    decreases e, 0nat,
{
    match e {
        Expr::If(i) => {
            compile_expression(&i.condition, out)?;
            out.emit(Instruction::new_u16(Op::JmpIfFalse, 0))?;
            let jump_if_false: usize = out.instructions_len() - 1;
            compile_statements(&i.consequence.0, out)?;
            out.remove_last_pop();
            out.emit(Instruction::new_u16(Op::Jmp, 0))?;
            let jump: usize = out.instructions_len() - 1;
            let behind_consequence: u16 = out.instructions_size() as u16;
            out.set_nth_instruction(
                jump_if_false,
                Instruction::new_u16(Op::JmpIfFalse, behind_consequence),
            )?;
            match &i.alternative {
                Some(alt) => {
                    compile_statements(&alt.0, out)?;
                    out.remove_last_pop();
                },
                None => {
                    out.emit(Instruction::new(Op::Null))?;
                },
            }
            let behind_alternative: u16 = out.instructions_size() as u16;
            out.set_nth_instruction(jump, Instruction::new_u16(Op::Jmp, behind_alternative))
        },
        _ => Ok(()),
    }
}

/// Compiles a function literal into `out`.
fn compile_function(e: &Expr, out: &mut CompiledContext) -> (r: Result<(), CompileError>)
    requires
        old(out).wf(),
    ensures
        final(out).wf(),
        lowered(r, final(out)@, compile_fn(e@, old(out)@)),
    decreases e, 0nat,
{
    match e {
        Expr::Fn(f) => {
            if f.args.len() > 255 {
                return Err(CompileError::OperandTooLarge);
            }
            out.enter_scope();
            if let Some(name) = &f.name {
                out.symbols.define_fn(name.clone());
            }
            define_parameters(&mut out.symbols, &f.args)?;
            compile_statements(&f.body.0, out)?;
            let free = out.symbols.free_symbols();
            let num_locals: u16 = out.symbols.num_definitions();
            let body = out.exit_scope(true)?;
            let ix: u16 = out.add_constant(
                Primitive::Fn(CompiledFn { body, num_locals, num_args: f.args.len() as u8 }),
            )?;
            out.emit_symbols(&free)?;
            if free.len() > 255 {
                Err(CompileError::OperandTooLarge)
            } else {
                out.emit(Instruction::new_u16_u8(Op::Closure, ix, free.len() as u8))
            }
        },
        _ => Ok(()),
    }
}

/// Compiles statements into `out`: each but a `return` is followed by
/// `Pop`.
pub fn compile_statements(stmts: &Vec<Expr>, out: &mut CompiledContext) -> (r: Result<
    (),
    CompileError,
>)
    requires
        old(out).wf(),
    ensures
        final(out).wf(),
        lowered(r, final(out)@, compile_block(exprs_view(stmts@), 0, old(out)@)),
    decreases stmts, stmts.len(),
{
    let ghost views = exprs_view(stmts@);
    let ghost goal = compile_block(views, 0, out@);
    let mut i: usize = 0;
    while i < stmts.len()
        invariant
            0 <= i <= stmts.len(),
            out.wf(),
            views == exprs_view(stmts@),
            goal == compile_block(views, 0, old(out)@),
            compile_block(views, i as int, out@) == goal,
        decreases stmts.len() - i,
    {
        match compile_expression(&stmts[i], out) {
            Err(e) => {
                return Err(e);
            },
            Ok(()) => {},
        }
        if let Expr::Return(_) = &stmts[i] {
        } else {
            match out.emit(Instruction::new(Op::Pop)) {
                Err(e) => {
                    return Err(e);
                },
                Ok(()) => {},
            }
        }
        i += 1;
    }
    Ok(())
}

fn compile_each(items: &Vec<Expr>, out: &mut CompiledContext) -> (r: Result<(), CompileError>)
    requires
        old(out).wf(),
    ensures
        final(out).wf(),
        lowered(r, final(out)@, compile_list(exprs_view(items@), 0, old(out)@)),
    decreases items, items.len(),
{
    let ghost views = exprs_view(items@);
    let ghost goal = compile_list(views, 0, out@);
    let mut i: usize = 0;
    while i < items.len()
        invariant
            0 <= i <= items.len(),
            out.wf(),
            views == exprs_view(items@),
            goal == compile_list(views, 0, old(out)@),
            compile_list(views, i as int, out@) == goal,
        decreases items.len() - i,
    {
        match compile_expression(&items[i], out) {
            Err(e) => {
                return Err(e);
            },
            Ok(()) => {},
        }
        i += 1;
    }
    Ok(())
}

fn compile_each_pair(pairs: &Vec<(Expr, Expr)>, out: &mut CompiledContext) -> (r: Result<
    (),
    CompileError,
>)
    requires
        old(out).wf(),
    ensures
        final(out).wf(),
        lowered(r, final(out)@, compile_pairs(pairs_view(pairs@), 0, old(out)@)),
    decreases pairs, pairs.len(),
{
    let ghost views = pairs_view(pairs@);
    let ghost goal = compile_pairs(views, 0, out@);
    let mut i: usize = 0;
    while i < pairs.len()
        invariant
            0 <= i <= pairs.len(),
            out.wf(),
            views == pairs_view(pairs@),
            goal == compile_pairs(views, 0, old(out)@),
            compile_pairs(views, i as int, out@) == goal,
        decreases pairs.len() - i,
    {
        match compile_expression(&pairs[i].0, out) {
            Err(e) => {
                return Err(e);
            },
            Ok(()) => {},
        }
        match compile_expression(&pairs[i].1, out) {
            Err(e) => {
                return Err(e);
            },
            Ok(()) => {},
        }
        i += 1;
    }
    Ok(())
}

impl Compilation for Expr {
    open spec fn compiled(&self, ctx: ContextView) -> Lowered {
        compile_expr(self@, ctx)
    }

    fn compile(&self, output: &mut CompiledContext) -> (r: Result<(), CompileError>) {
        compile_expression(self, output)
    }
}

impl Compilation for Block {
    open spec fn compiled(&self, ctx: ContextView) -> Lowered {
        compile_block(self@, 0, ctx)
    }

    fn compile(&self, output: &mut CompiledContext) -> (r: Result<(), CompileError>) {
        compile_statements(&self.0, output)
    }
}

impl Compilation for Program {
    open spec fn compiled(&self, ctx: ContextView) -> Lowered {
        compile_block(self@, 0, ctx)
    }

    fn compile(&self, output: &mut CompiledContext) -> (r: Result<(), CompileError>) {
        compile_statements(&self.statements, output)
    }
}

impl Default for CompiledContext {
    fn default() -> (ctx: Self)
        ensures
            ctx.wf(),
            ctx@ == fresh_context(),
    {
        CompiledContext::new()
    }
}

} // verus!
