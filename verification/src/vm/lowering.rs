//! What the compiler emits, as functions of the tree and the context.

use vstd::prelude::*;
use crate::lexer::tokens::TokenView;
use crate::parser::types::{ExprView, FnView};
use crate::value::{CompiledFnView, PrimitiveView};
use crate::builtins::builtin_of;
use crate::vm::symbols::{
    define, define_fn, find, lemma_find_after_put, nested_table, resolve, CompileError,
    SymbolScope, SymbolTableView, SymbolView,
};
use crate::vm::types::{encode, encode_all, wide_bytes, InstructionView, Op};

verus! {

/// The most bytes that the instructions of one function may take.
pub const CODE_LIMIT: usize = 65535;

/// The state of a compilation: the symbol table of the function being
/// compiled, the instructions of that function and of those around it (the
/// innermost last), and the pool of constants.
pub struct ContextView {
    pub symbols: SymbolTableView,
    pub scopes: Seq<Seq<InstructionView>>,
    pub constants: Seq<PrimitiveView>,
}

/// What a part of a compilation leads to.
pub type Lowered = Result<ContextView, CompileError>;

/// The number of bytes that a list of instructions takes.
pub open spec fn code_size(is: Seq<InstructionView>) -> nat {
    encode_all(is).len()
}

/// An instruction without operands.
pub open spec fn plain(op: Op) -> InstructionView {
    InstructionView { op, param: Seq::empty() }
}

/// An instruction with a 16-bit operand.
pub open spec fn wide(op: Op, x: u16) -> InstructionView {
    InstructionView { op, param: wide_bytes(x) }
}

/// An instruction with an operand of one byte.
pub open spec fn narrow(op: Op, x: u8) -> InstructionView {
    InstructionView { op, param: seq![x] }
}

/// The instructions of the function being compiled.
pub open spec fn current(ctx: ContextView) -> Seq<InstructionView> {
    ctx.scopes[ctx.scopes.len() - 1]
}

/// The context with other instructions for the function being compiled.
pub open spec fn with_current(ctx: ContextView, is: Seq<InstructionView>) -> ContextView {
    ContextView { scopes: ctx.scopes.update(ctx.scopes.len() - 1, is), ..ctx }
}

/// A fresh context: the outermost scope without instructions, nothing
/// defined, no constants.
pub open spec fn fresh_context() -> ContextView {
    ContextView {
        symbols: crate::vm::symbols::empty_table(),
        scopes: seq![Seq::empty()],
        constants: Seq::empty(),
    }
}

/// Appends an instruction to the function being compiled.
pub open spec fn emit(ctx: ContextView, i: InstructionView) -> Lowered {
    if ctx.scopes.len() == 0 {
        Err(CompileError::NoScope)
    } else if code_size(current(ctx)) + encode(i).len() > CODE_LIMIT {
        Err(CompileError::CodeTooLarge)
    } else {
        Ok(with_current(ctx, current(ctx).push(i)))
    }
}

/// Replaces the instruction at a position of the function being compiled.
pub open spec fn patch(ctx: ContextView, at: int, i: InstructionView) -> Lowered {
    if ctx.scopes.len() == 0 || !(0 <= at < current(ctx).len()) {
        Err(CompileError::NoScope)
    } else if code_size(current(ctx).update(at, i)) > CODE_LIMIT {
        Err(CompileError::CodeTooLarge)
    } else {
        Ok(with_current(ctx, current(ctx).update(at, i)))
    }
}

/// Removes the last instruction of a list where it is a `Pop`.
pub open spec fn without_last_pop(is: Seq<InstructionView>) -> Seq<InstructionView> {
    if is.len() > 0 && is.last().op == Op::Pop {
        is.drop_last()
    } else {
        is
    }
}

/// Removes the last instruction of the function being compiled where it is
/// a `Pop`.
pub open spec fn strip_pop(ctx: ContextView) -> ContextView {
    if ctx.scopes.len() == 0 {
        ctx
    } else {
        with_current(ctx, without_last_pop(current(ctx)))
    }
}

/// Makes a function return what its last statement left: a last `Pop`
/// becomes `ReturnVal`, and a function without instructions gets `Return`.
pub open spec fn with_return(is: Seq<InstructionView>) -> Seq<InstructionView> {
    if is.len() == 0 {
        seq![plain(Op::Return)]
    } else if is.last().op == Op::Pop {
        is.update(is.len() - 1, InstructionView { op: Op::ReturnVal, ..is.last() })
    } else {
        is
    }
}

/// Appends a constant to the pool and gives its index.
pub open spec fn add_constant(ctx: ContextView, p: PrimitiveView) -> Result<
    (u16, ContextView),
    CompileError,
> {
    if ctx.constants.len() > u16::MAX {
        Err(CompileError::TooManyConstants)
    } else {
        Ok((ctx.constants.len() as u16, ContextView { constants: ctx.constants.push(p), ..ctx }))
    }
}

/// Appends a constant and the instruction that loads it.
pub open spec fn emit_constant(ctx: ContextView, p: PrimitiveView) -> Lowered {
    match add_constant(ctx, p) {
        Err(e) => Err(e),
        Ok((ix, ctx1)) => emit(ctx1, wide(Op::Constant, ix)),
    }
}

/// Appends the instruction that loads a symbol.
pub open spec fn emit_symbol(ctx: ContextView, s: SymbolView) -> Lowered {
    match s.scope {
        SymbolScope::Global => emit(ctx, wide(Op::GetGlobal, s.index)),
        SymbolScope::Local => emit(ctx, wide(Op::GetLocal, s.index)),
        SymbolScope::Builtin => if s.index > u8::MAX {
            Err(CompileError::OperandTooLarge)
        } else {
            emit(ctx, narrow(Op::GetBuiltin, s.index as u8))
        },
        SymbolScope::Free => if s.index > u8::MAX {
            Err(CompileError::OperandTooLarge)
        } else {
            emit(ctx, narrow(Op::GetFree, s.index as u8))
        },
        SymbolScope::Function => emit(ctx, plain(Op::CurrentClosure)),
    }
}

/// Appends the instructions that load the symbols from `i` on.
pub open spec fn emit_symbols(ctx: ContextView, symbols: Seq<SymbolView>, i: int) -> Lowered
    decreases symbols.len() - i,
{
    if 0 <= i < symbols.len() {
        match emit_symbol(ctx, symbols[i]) {
            Err(e) => Err(e),
            Ok(ctx1) => emit_symbols(ctx1, symbols, i + 1),
        }
    } else {
        Ok(ctx)
    }
}

/// The operation of an infix token whose operands are compiled in order.
pub open spec fn infix_operation(t: TokenView) -> Option<Op> {
    match t {
        TokenView::Plus => Some(Op::Add),
        TokenView::Minus => Some(Op::Sub),
        TokenView::Star => Some(Op::Mul),
        TokenView::Slash => Some(Op::Div),
        TokenView::Eq => Some(Op::Eq),
        TokenView::Neq => Some(Op::Neq),
        TokenView::Lt => Some(Op::Lt),
        TokenView::LBracket => Some(Op::Index),
        TokenView::Percent => Some(Op::Mod),
        _ => None,
    }
}

/// The operation of a prefix token.
pub open spec fn prefix_operation(t: TokenView) -> Option<Op> {
    match t {
        TokenView::Bang => Some(Op::Bang),
        TokenView::Minus => Some(Op::Minus),
        _ => None,
    }
}

/// Starts a function: a new list of instructions, and a new table within
/// the current one.
pub open spec fn enter_scope(ctx: ContextView) -> ContextView {
    ContextView {
        symbols: nested_table(ctx.symbols),
        scopes: ctx.scopes.push(Seq::empty()),
        ..ctx
    }
}

/// Ends a function: its bytes, and the context with the instructions and
/// the table of the function around it.
pub open spec fn exit_scope(ctx: ContextView, set_return: bool) -> Result<
    (Seq<u8>, ContextView),
    CompileError,
> {
    if ctx.scopes.len() < 2 {
        Err(CompileError::NoScope)
    } else {
        let is = if set_return {
            with_return(current(ctx))
        } else {
            current(ctx)
        };
        Ok(
            (
                encode_all(is),
                ContextView {
                    symbols: match ctx.symbols.outer {
                        Some(o) => *o,
                        None => ctx.symbols,
                    },
                    scopes: ctx.scopes.drop_last(),
                    ..ctx
                },
            ),
        )
    }
}

/// Defines the parameters from `i` on as locals.
pub open spec fn define_all(t: SymbolTableView, names: Seq<Seq<char>>, i: int) -> Result<
    SymbolTableView,
    CompileError,
>
    decreases names.len() - i,
{
    if 0 <= i < names.len() {
        match define(t, names[i]) {
            Err(e) => Err(e),
            Ok((_, t1)) => define_all(t1, names, i + 1),
        }
    } else {
        Ok(t)
    }
}

/// The table in which the body of a function literal is compiled: within
/// the table of the enclosing function, with the function's own name and
/// its parameters defined.
pub open spec fn body_table(outer: SymbolTableView, f: FnView) -> Result<
    SymbolTableView,
    CompileError,
> {
    define_all(
        match f.name {
            Some(n) => define_fn(nested_table(outer), n),
            None => nested_table(outer),
        },
        f.args,
        0,
    )
}

/// What compiling an expression does to the context.
///
/// A literal becomes a constant and its load, or `True`, `False`. An
/// operator follows its operands; `a > b` is `b < a`. An identifier
/// becomes the load of its symbol. `let` defines the name, compiles the
/// value and stores it. `return` is followed by `ReturnVal`. An array or
/// hash literal follows its elements, a call follows the callee and the
/// arguments.
pub open spec fn compile_expr(e: ExprView, ctx: ContextView) -> Lowered
    decreases e, 1nat,
{
    match e {
        ExprView::Int(i) => emit_constant(ctx, PrimitiveView::Int(i)),
        ExprView::String(s) => emit_constant(ctx, PrimitiveView::String_(s)),
        ExprView::Bool(b) => emit(
            ctx,
            plain(
                if b {
                    Op::True
                } else {
                    Op::False
                },
            ),
        ),
        ExprView::Identifier(name) => {
            let (r, t) = resolve(ctx.symbols, name);
            match r {
                Err(e) => Err(e),
                Ok(None) => Err(CompileError::UndefinedVariable),
                Ok(Some(s)) => emit_symbol(ContextView { symbols: t, ..ctx }, s),
            }
        },
        ExprView::Prefix { token, right } => match compile_expr(*right, ctx) {
            Err(e) => Err(e),
            Ok(ctx1) => match prefix_operation(token) {
                None => Err(CompileError::InvalidOperator),
                Some(op) => emit(ctx1, plain(op)),
            },
        },
        ExprView::Infix { left, token, right } => match infix_operation(token) {
            Some(op) => match compile_expr(*left, ctx) {
                Err(e) => Err(e),
                Ok(ctx1) => match compile_expr(*right, ctx1) {
                    Err(e) => Err(e),
                    Ok(ctx2) => emit(ctx2, plain(op)),
                },
            },
            None => if token is Gt {
                match compile_expr(*right, ctx) {
                    Err(e) => Err(e),
                    Ok(ctx1) => match compile_expr(*left, ctx1) {
                        Err(e) => Err(e),
                        Ok(ctx2) => emit(ctx2, plain(Op::Lt)),
                    },
                }
            } else {
                Err(CompileError::InvalidOperator)
            },
        },
        ExprView::If { condition, consequence, alternative } => compile_if(e, ctx),
        ExprView::Fn(f) => compile_fn(e, ctx),
        ExprView::Let { name, value } => match define(ctx.symbols, name) {
            Err(e) => Err(e),
            Ok((s, t)) => match compile_expr(*value, ContextView { symbols: t, ..ctx }) {
                Err(e) => Err(e),
                Ok(ctx1) => emit(
                    ctx1,
                    wide(
                        if s.scope == SymbolScope::Global {
                            Op::SetGlobal
                        } else {
                            Op::SetLocal
                        },
                        s.index,
                    ),
                ),
            },
        },
        ExprView::Return(value) => match compile_expr(*value, ctx) {
            Err(e) => Err(e),
            Ok(ctx1) => emit(ctx1, plain(Op::ReturnVal)),
        },
        ExprView::Array(items) => match compile_list(items, 0, ctx) {
            Err(e) => Err(e),
            Ok(ctx1) => if items.len() > u16::MAX {
                Err(CompileError::TooManyElements)
            } else {
                emit(ctx1, wide(Op::Array, items.len() as u16))
            },
        },
        ExprView::Hash(pairs) => match compile_pairs(pairs, 0, ctx) {
            Err(e) => Err(e),
            Ok(ctx1) => if pairs.len() > u16::MAX {
                Err(CompileError::TooManyElements)
            } else {
                emit(ctx1, wide(Op::Hash, pairs.len() as u16))
            },
        },
        ExprView::Call { callee, args } => match compile_expr(*callee, ctx) {
            Err(e) => Err(e),
            Ok(ctx1) => match compile_list(args, 0, ctx1) {
                Err(e) => Err(e),
                Ok(ctx2) => if args.len() > u8::MAX {
                    Err(CompileError::OperandTooLarge)
                } else {
                    emit(ctx2, narrow(Op::Call, args.len() as u8))
                },
            },
        },
    }
}

/// What compiling a conditional does: the condition, a jump over the
/// consequence where the condition fails, the consequence without its
/// last `Pop`, a jump over the alternative, and the alternative without
/// its last `Pop`, or `Null` where there is none. Both jumps are emitted
/// with the target 0 and get their target once it is known.
pub open spec fn compile_if(e: ExprView, ctx: ContextView) -> Lowered
    decreases e, 0nat,
{
    match e {
        ExprView::If { condition, consequence, alternative } => match compile_expr(
            *condition,
            ctx,
        ) {
            Err(e) => Err(e),
            Ok(ctx1) => match emit(ctx1, wide(Op::JmpIfFalse, 0)) {
                Err(e) => Err(e),
                Ok(ctx2) => match compile_block(consequence, 0, ctx2) {
                    Err(e) => Err(e),
                    Ok(ctx3) => match emit(strip_pop(ctx3), wide(Op::Jmp, 0)) {
                        Err(e) => Err(e),
                        Ok(ctx4) => match patch(
                            ctx4,
                            current(ctx2).len() - 1,
                            wide(Op::JmpIfFalse, code_size(current(ctx4)) as u16),
                        ) {
                            Err(e) => Err(e),
                            Ok(ctx5) => {
                                let r = match alternative {
                                    Some(alt) => match compile_block(alt, 0, ctx5) {
                                        Err(e) => Err(e),
                                        Ok(ctx6) => Ok(strip_pop(ctx6)),
                                    },
                                    None => emit(ctx5, plain(Op::Null)),
                                };
                                match r {
                                    Err(e) => Err(e),
                                    Ok(ctx7) => patch(
                                        ctx7,
                                        current(ctx4).len() - 1,
                                        wide(Op::Jmp, code_size(current(ctx7)) as u16),
                                    ),
                                }
                            },
                        },
                    },
                },
            },
        },
        _ => Ok(ctx),
    }
}

/// What compiling a function literal does: the body is compiled in a
/// scope of its own, in which the function's name for itself and its
/// parameters are defined; the compiled function becomes a constant; the
/// values that it captures are loaded in the enclosing function, and
/// `Closure` follows them.
pub open spec fn compile_fn(e: ExprView, ctx: ContextView) -> Lowered
    decreases e, 0nat,
{
    match e {
        ExprView::Fn(f) => if f.args.len() > u8::MAX {
            Err(CompileError::OperandTooLarge)
        } else {
            match body_table(ctx.symbols, f) {
                Err(e) => Err(e),
                Ok(t) => match compile_block(
                    f.body,
                    0,
                    ContextView { symbols: t, ..enter_scope(ctx) },
                ) {
                    Err(e) => Err(e),
                    Ok(ctx2) => {
                        let free = ctx2.symbols.free;
                        let num_locals = ctx2.symbols.num_definitions;
                        match exit_scope(ctx2, true) {
                            Err(e) => Err(e),
                            Ok((body, ctx3)) => match add_constant(
                                ctx3,
                                PrimitiveView::Fn(
                                    CompiledFnView {
                                        body,
                                        num_locals,
                                        num_args: f.args.len() as u8,
                                    },
                                ),
                            ) {
                                Err(e) => Err(e),
                                Ok((ix, ctx4)) => match emit_symbols(ctx4, free, 0) {
                                    Err(e) => Err(e),
                                    Ok(ctx5) => if free.len() > u8::MAX {
                                        Err(CompileError::OperandTooLarge)
                                    } else {
                                        emit(
                                            ctx5,
                                            InstructionView {
                                                op: Op::Closure,
                                                param: wide_bytes(ix).push(free.len() as u8),
                                            },
                                        )
                                    },
                                },
                            },
                        }
                    },
                },
            }
        },
        _ => Ok(ctx),
    }
}

/// What compiling the statements from `i` on does: each is compiled, and
/// each but a `return` is followed by `Pop`.
pub open spec fn compile_block(stmts: Seq<ExprView>, i: int, ctx: ContextView) -> Lowered
    decreases stmts, stmts.len() - i,
{
    if 0 <= i < stmts.len() {
        match compile_expr(stmts[i], ctx) {
            Err(e) => Err(e),
            Ok(ctx1) => if stmts[i] is Return {
                compile_block(stmts, i + 1, ctx1)
            } else {
                match emit(ctx1, plain(Op::Pop)) {
                    Err(e) => Err(e),
                    Ok(ctx2) => compile_block(stmts, i + 1, ctx2),
                }
            },
        }
    } else {
        Ok(ctx)
    }
}

/// What compiling the expressions from `i` on does, one behind the other.
pub open spec fn compile_list(items: Seq<ExprView>, i: int, ctx: ContextView) -> Lowered
    decreases items, items.len() - i,
{
    if 0 <= i < items.len() {
        match compile_expr(items[i], ctx) {
            Err(e) => Err(e),
            Ok(ctx1) => compile_list(items, i + 1, ctx1),
        }
    } else {
        Ok(ctx)
    }
}

/// What compiling the pairs from `i` on does: of each pair the key, then
/// the value.
pub open spec fn compile_pairs(pairs: Seq<(ExprView, ExprView)>, i: int, ctx: ContextView) -> Lowered
    decreases pairs, pairs.len() - i,
{
    if 0 <= i < pairs.len() {
        match compile_expr(pairs[i].0, ctx) {
            Err(e) => Err(e),
            Ok(ctx1) => match compile_expr(pairs[i].1, ctx1) {
                Err(e) => Err(e),
                Ok(ctx2) => compile_pairs(pairs, i + 1, ctx2),
            },
        }
    } else {
        Ok(ctx)
    }
}

/// Defining parameters leaves the symbol of every other name as it was.
pub proof fn lemma_define_all_keeps(
    t: SymbolTableView,
    names: Seq<Seq<char>>,
    i: int,
    name: Seq<char>,
)
    requires
        0 <= i <= names.len(),
        forall|k: int| i <= k < names.len() ==> names[k] != name,
    ensures
        define_all(t, names, i) matches Ok(after) ==> find(after.symbols, name) == find(
            t.symbols,
            name,
        ),
    decreases names.len() - i,
{
    if i < names.len() {
        match define(t, names[i]) {
            Ok((s, t1)) => {
                lemma_find_after_put(t.symbols, s, name);
                lemma_define_all_keeps(t1, names, i + 1, name);
            },
            Err(_) => {},
        }
    }
}

/// Within the body of a function literal that carries a name, the name
/// stands for the function itself: a reference to it compiles to
/// `CurrentClosure`. The name must not be the name of a builtin or of a
/// parameter, which come first.
pub proof fn lemma_self_reference_is_current_closure(
    ctx: ContextView,
    f: FnView,
    name: Seq<char>,
)
    requires
        f.name == Some(name),
        builtin_of(name) is None,
        forall|k: int| 0 <= k < f.args.len() ==> f.args[k] != name,
    ensures
        body_table(ctx.symbols, f) matches Ok(t) ==> compile_expr(
            ExprView::Identifier(name),
            ContextView { symbols: t, ..enter_scope(ctx) },
        ) == emit(ContextView { symbols: t, ..enter_scope(ctx) }, plain(Op::CurrentClosure)),
{
    let own = SymbolView { name, index: 0, scope: SymbolScope::Function };
    let start = define_fn(nested_table(ctx.symbols), name);
    lemma_find_after_put(nested_table(ctx.symbols).symbols, own, name);
    lemma_define_all_keeps(start, f.args, 0, name);
}

/// The closure of the outermost scope: its instructions as a function
/// without parameters, with one local for each global that is defined.
pub open spec fn main_closure(ctx: ContextView) -> crate::value::ClosureView {
    crate::value::ClosureView {
        fn_: CompiledFnView {
            body: encode_all(current(ctx)),
            num_locals: ctx.symbols.num_definitions,
            num_args: 0,
        },
        free: Seq::empty(),
    }
}

} // verus!
