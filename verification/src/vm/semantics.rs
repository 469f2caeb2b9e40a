//! What the machine does, as functions of its state.

use vstd::prelude::*;
use crate::builtins::{builtin_at, builtin_output, builtin_value};
use crate::operators::{hash_insert, infix_value, is_truthy, prefix_value, bool_value, InfixOp, PrefixOp};
use crate::value::{BindingView, ClosureView, PrimitiveView, RuntimeError};
use crate::vm::types::{op_of, operand_width, operands, wide_of, Op, Operands};

verus! {

/// The number of slots of the value stack, and of the globals.
pub const STACK_SIZE: usize = 65535;

/// One active call: the running closure, the position of its next
/// instruction, and the stack slot at which its locals start.
pub struct FrameView {
    pub closure: ClosureView,
    pub ip: int,
    pub base: int,
}

/// The state of the machine. `sp` is the next free slot of `stack`; the
/// running frame is the last one of `frames`.
pub struct MachineView {
    pub stack: Seq<BindingView>,
    pub sp: int,
    pub globals: Seq<BindingView>,
    pub frames: Seq<FrameView>,
    pub stdout: Seq<char>,
}

/// What one step or one part of a step leads to.
pub type Outcome = Result<MachineView, RuntimeError>;

/// The stack and the globals have their fixed size, and the stack pointer
/// is within the stack.
pub open spec fn valid(m: MachineView) -> bool {
    &&& m.stack.len() == STACK_SIZE
    &&& m.globals.len() == STACK_SIZE
    &&& 0 <= m.sp <= STACK_SIZE
}

/// The running frame.
pub open spec fn top(m: MachineView) -> FrameView {
    m.frames[m.frames.len() - 1]
}

/// The machine has nothing left to run: no frame, or the running frame is
/// at the end of its instructions.
pub open spec fn halted(m: MachineView) -> bool {
    m.frames.len() == 0 || top(m).ip < 0 || top(m).ip >= top(m).closure.fn_.body.len()
}

/// The state with another stack pointer.
pub open spec fn with_sp(m: MachineView, sp: int) -> MachineView {
    MachineView { sp, ..m }
}

/// The state with the running frame at another instruction.
pub open spec fn with_ip(m: MachineView, ip: int) -> MachineView {
    MachineView {
        frames: m.frames.update(m.frames.len() - 1, FrameView { ip, ..top(m) }),
        ..m
    }
}

/// Pushes a value: it goes into the next free slot.
pub open spec fn push_value(m: MachineView, v: BindingView) -> Outcome {
    if 0 <= m.sp < m.stack.len() {
        Ok(MachineView { stack: m.stack.update(m.sp, v), sp: m.sp + 1, ..m })
    } else {
        Err(RuntimeError::StackOverflow)
    }
}

/// Pops a value: the one in the last used slot.
pub open spec fn pop_value(m: MachineView) -> Result<(BindingView, MachineView), RuntimeError> {
    if 0 < m.sp <= m.stack.len() {
        Ok((m.stack[m.sp - 1], with_sp(m, m.sp - 1)))
    } else {
        Err(RuntimeError::StackUnderflow)
    }
}

/// Pops the `n` topmost values, the deepest first.
pub open spec fn take_values(m: MachineView, n: int) -> Result<
    (Seq<BindingView>, MachineView),
    RuntimeError,
> {
    if 0 <= n <= m.sp <= m.stack.len() {
        Ok((m.stack.subrange(m.sp - n, m.sp), with_sp(m, m.sp - n)))
    } else {
        Err(RuntimeError::StackUnderflow)
    }
}

/// The instruction at the position of a frame: its operation, its wide and
/// its narrow operand (zero where it has none), and the position behind it.
pub open spec fn fetch(f: FrameView) -> Result<(Op, u16, u8, int), RuntimeError> {
    let body = f.closure.fn_.body;
    if f.ip < 0 || f.ip >= body.len() {
        Err(RuntimeError::BadOpcode)
    } else {
        match op_of(body[f.ip]) {
            None => Err(RuntimeError::BadOpcode),
            Some(op) => {
                let next = f.ip + 1 + operand_width(operands(op));
                if next > body.len() {
                    Err(RuntimeError::BadOpcode)
                } else {
                    match operands(op) {
                        Operands::Zero => Ok((op, 0u16, 0u8, next)),
                        Operands::Narrow => Ok((op, 0u16, body[f.ip + 1], next)),
                        Operands::Wide => Ok(
                            (op, wide_of(body[f.ip + 1], body[f.ip + 2]), 0u8, next),
                        ),
                        Operands::WideNarrow => Ok(
                            (op, wide_of(body[f.ip + 1], body[f.ip + 2]), body[f.ip + 3], next),
                        ),
                    }
                }
            },
        }
    }
}

/// Pops the right and then the left operand and pushes what the operator
/// yields.
pub open spec fn binary(m: MachineView, op: InfixOp) -> Outcome {
    match pop_value(m) {
        Err(e) => Err(e),
        Ok((right, m1)) => match pop_value(m1) {
            Err(e) => Err(e),
            Ok((left, m2)) => match infix_value(op, left, right) {
                Err(e) => Err(e),
                Ok(v) => push_value(m2, v),
            },
        },
    }
}

/// Pops the operand and pushes what the operator yields.
pub open spec fn unary(m: MachineView, op: PrefixOp) -> Outcome {
    match pop_value(m) {
        Err(e) => Err(e),
        Ok((v, m1)) => match prefix_value(op, v) {
            Err(e) => Err(e),
            Ok(r) => push_value(m1, r),
        },
    }
}

/// Pops a value and jumps where it does not count as true.
pub open spec fn branch(m: MachineView, target: u16) -> Outcome {
    match pop_value(m) {
        Err(e) => Err(e),
        Ok((v, m1)) => if is_truthy(v) {
            Ok(m1)
        } else {
            Ok(with_ip(m1, target as int))
        },
    }
}

/// Pops and drops a value.
pub open spec fn discard(m: MachineView) -> Outcome {
    match pop_value(m) {
        Err(e) => Err(e),
        Ok((_, m1)) => Ok(m1),
    }
}

/// Pushes the constant at an index of the pool.
pub open spec fn load_constant(m: MachineView, constants: Seq<PrimitiveView>, ix: u16) -> Outcome {
    if ix < constants.len() {
        push_value(m, BindingView::Primitive(constants[ix as int]))
    } else {
        Err(RuntimeError::BadOperand)
    }
}

/// The topmost value, which stays on the stack.
pub open spec fn top_value(m: MachineView) -> Result<BindingView, RuntimeError> {
    if 0 < m.sp <= m.stack.len() {
        Ok(m.stack[m.sp - 1])
    } else {
        Err(RuntimeError::StackUnderflow)
    }
}

/// Stores the topmost value into a global. The value stays on the stack:
/// a `let` yields what it binds.
pub open spec fn set_global(m: MachineView, ix: u16) -> Outcome {
    match top_value(m) {
        Err(e) => Err(e),
        Ok(v) => if ix < m.globals.len() {
            Ok(MachineView { globals: m.globals.update(ix as int, v), ..m })
        } else {
            Err(RuntimeError::BadOperand)
        },
    }
}

/// Pushes a global.
pub open spec fn get_global(m: MachineView, ix: u16) -> Outcome {
    if ix < m.globals.len() {
        push_value(m, m.globals[ix as int])
    } else {
        Err(RuntimeError::BadOperand)
    }
}

/// Stores the topmost value into a local of the running frame. The value
/// stays on the stack.
pub open spec fn set_local(m: MachineView, ix: u16) -> Outcome {
    match top_value(m) {
        Err(e) => Err(e),
        Ok(v) => if 0 <= top(m).base + ix < m.stack.len() {
            Ok(MachineView { stack: m.stack.update(top(m).base + ix, v), ..m })
        } else {
            Err(RuntimeError::BadOperand)
        },
    }
}

/// Pushes a local of the running frame.
pub open spec fn get_local(m: MachineView, ix: u16) -> Outcome {
    if 0 <= top(m).base + ix < m.stack.len() {
        push_value(m, m.stack[top(m).base + ix])
    } else {
        Err(RuntimeError::BadOperand)
    }
}

/// Pushes the builtin at a position of the table.
pub open spec fn get_builtin(m: MachineView, ix: u8) -> Outcome {
    match builtin_at(ix) {
        Some(b) => push_value(m, BindingView::Builtin(b)),
        None => Err(RuntimeError::BadOperand),
    }
}

/// Pushes a value that the running closure captured.
pub open spec fn get_free(m: MachineView, ix: u8) -> Outcome {
    if ix < top(m).closure.free.len() {
        push_value(m, top(m).closure.free[ix as int])
    } else {
        Err(RuntimeError::BadOperand)
    }
}

/// Pops `n` values into an array, the deepest first.
pub open spec fn make_array(m: MachineView, n: u16) -> Outcome {
    match take_values(m, n as int) {
        Err(e) => Err(e),
        Ok((items, m1)) => push_value(m1, BindingView::Array(items)),
    }
}

/// The hash of the keys and values that alternate in `values` from `i`
/// on, put into `acc` in that order. A key must be an integer, a string or
/// a boolean.
pub open spec fn collect_entries(
    values: Seq<BindingView>,
    i: int,
    acc: Seq<(PrimitiveView, BindingView)>,
) -> Result<Seq<(PrimitiveView, BindingView)>, RuntimeError>
    decreases values.len() - i,
{
    if 0 <= i && i + 1 < values.len() {
        match values[i] {
            BindingView::Primitive(PrimitiveView::Fn(_)) => Err(RuntimeError::BadKey),
            BindingView::Primitive(k) => collect_entries(
                values,
                i + 2,
                hash_insert(acc, k, values[i + 1]),
            ),
            _ => Err(RuntimeError::BadKey),
        }
    } else {
        Ok(acc)
    }
}

/// Pops `n` pairs of a key and a value into a hash, the deepest first.
pub open spec fn make_hash(m: MachineView, n: u16) -> Outcome {
    match take_values(m, 2 * n) {
        Err(e) => Err(e),
        Ok((values, m1)) => match collect_entries(values, 0, Seq::empty()) {
            Err(e) => Err(e),
            Ok(entries) => push_value(m1, BindingView::Hash(entries)),
        },
    }
}

/// Pops `n` captured values and pushes the closure of the compiled
/// function at an index of the pool over them.
pub open spec fn make_closure(
    m: MachineView,
    constants: Seq<PrimitiveView>,
    ix: u16,
    n: u8,
) -> Outcome {
    if ix < constants.len() {
        match constants[ix as int] {
            PrimitiveView::Fn(code) => match take_values(m, n as int) {
                Err(e) => Err(e),
                Ok((free, m1)) => push_value(
                    m1,
                    BindingView::Closure(ClosureView { fn_: code, free }),
                ),
            },
            _ => Err(RuntimeError::TypeError),
        }
    } else {
        Err(RuntimeError::BadOperand)
    }
}

/// Calls the value that lies under `n` arguments. A closure gets a new
/// frame whose locals start at its first argument. A builtin runs at
/// once: it and its arguments leave the stack and its result is pushed.
pub open spec fn call(m: MachineView, n: u8) -> Outcome {
    if n < m.sp <= m.stack.len() {
        match m.stack[m.sp - 1 - n] {
            BindingView::Closure(c) => if c.fn_.num_args != n {
                Err(RuntimeError::ArityMismatch)
            } else if m.sp - n + c.fn_.num_locals > m.stack.len() {
                Err(RuntimeError::StackOverflow)
            } else {
                Ok(
                    MachineView {
                        sp: m.sp - n + c.fn_.num_locals,
                        frames: m.frames.push(
                            FrameView { closure: c, ip: 0, base: m.sp - n },
                        ),
                        ..m
                    },
                )
            },
            BindingView::Builtin(b) => {
                let args = m.stack.subrange(m.sp - n, m.sp);
                match builtin_value(b, args) {
                    Err(e) => Err(e),
                    Ok(v) => push_value(
                        MachineView {
                            sp: m.sp - n - 1,
                            stdout: builtin_output(b, args, m.stdout),
                            ..m
                        },
                        v,
                    ),
                }
            },
            _ => Err(RuntimeError::NotCallable),
        }
    } else {
        Err(RuntimeError::StackUnderflow)
    }
}

/// Leaves the running frame with a value: the frame, its locals, its
/// arguments and the callee itself leave the stack, and the value is
/// pushed.
pub open spec fn leave(m: MachineView, v: BindingView) -> Outcome {
    if m.frames.len() == 0 || top(m).base <= 0 {
        Err(RuntimeError::StackUnderflow)
    } else {
        push_value(
            MachineView { sp: top(m).base - 1, frames: m.frames.drop_last(), ..m },
            v,
        )
    }
}

/// Pops the value to return and leaves the running frame with it.
pub open spec fn return_value(m: MachineView) -> Outcome {
    match pop_value(m) {
        Err(e) => Err(e),
        Ok((v, m1)) => leave(m1, v),
    }
}

/// What an instruction does to the state, the running frame being behind
/// that instruction already.
#[verifier::opaque]
pub open spec fn execute(
    m: MachineView,
    constants: Seq<PrimitiveView>,
    op: Op,
    wide: u16,
    narrow: u8,
) -> Outcome {
    match op {
        Op::Add => binary(m, InfixOp::Add),
        Op::Sub => binary(m, InfixOp::Sub),
        Op::Mul => binary(m, InfixOp::Mul),
        Op::Div => binary(m, InfixOp::Div),
        Op::Mod => binary(m, InfixOp::Mod),
        Op::Eq => binary(m, InfixOp::Eq),
        Op::Neq => binary(m, InfixOp::Neq),
        Op::Lt => binary(m, InfixOp::Lt),
        Op::Index => binary(m, InfixOp::Index),
        Op::Bang => unary(m, PrefixOp::Not),
        Op::Minus => unary(m, PrefixOp::Negate),
        Op::Jmp => Ok(with_ip(m, wide as int)),
        Op::JmpIfFalse => branch(m, wide),
        Op::Call => call(m, narrow),
        Op::Array => make_array(m, wide),
        Op::Hash => make_hash(m, wide),
        Op::Closure => make_closure(m, constants, wide, narrow),
        Op::Null => push_value(m, BindingView::Null),
        Op::Constant => load_constant(m, constants, wide),
        Op::Pop => discard(m),
        Op::True => push_value(m, bool_value(true)),
        Op::False => push_value(m, bool_value(false)),
        Op::SetGlobal => set_global(m, wide),
        Op::SetLocal => set_local(m, wide),
        Op::GetGlobal => get_global(m, wide),
        Op::GetLocal => get_local(m, wide),
        Op::GetBuiltin => get_builtin(m, narrow),
        Op::GetFree => get_free(m, narrow),
        Op::CurrentClosure => push_value(m, BindingView::Closure(top(m).closure)),
        Op::ReturnVal => return_value(m),
        Op::Return => leave(m, BindingView::Null),
    }
}

/// One step of a machine that has not halted: the running frame moves
/// behind its next instruction, and the instruction is executed.
pub open spec fn step(m: MachineView, constants: Seq<PrimitiveView>) -> Outcome {
    match fetch(top(m)) {
        Err(e) => Err(e),
        Ok((op, wide, narrow, next)) => execute(with_ip(m, next), constants, op, wide, narrow),
    }
}

/// Where a run ends: in the state in which the machine halted, or with an
/// error and the output written before it.
pub type RunOutcome = Result<MachineView, (RuntimeError, Seq<char>)>;

/// Runs the machine until it halts, for at most `limit` steps.
pub open spec fn run_from(m: MachineView, constants: Seq<PrimitiveView>, limit: nat) -> RunOutcome
    decreases limit,
{
    if halted(m) {
        Ok(m)
    } else if limit == 0 {
        Err((RuntimeError::StepLimit, m.stdout))
    } else {
        match step(m, constants) {
            Err(e) => Err((e, m.stdout)),
            Ok(next) => run_from(next, constants, (limit - 1) as nat),
        }
    }
}

/// The state in which a run of `closure` starts: it is the only frame, at
/// its first instruction, with its locals at the bottom of the stack.
pub open spec fn started(m: MachineView, closure: ClosureView) -> MachineView {
    MachineView { frames: seq![FrameView { closure, ip: 0, base: 0 }], ..m }
}

/// A fresh machine: every slot holds null, nothing is on the stack,
/// nothing was written.
pub open spec fn fresh() -> MachineView {
    MachineView {
        stack: Seq::new(STACK_SIZE as nat, |i: int| BindingView::Null),
        sp: 0,
        globals: Seq::new(STACK_SIZE as nat, |i: int| BindingView::Null),
        frames: Seq::empty(),
        stdout: Seq::empty(),
    }
}

/// An exec outcome `r` with the state `after` is what `o` asks for: on
/// success the state that `o` names; on failure the same error, with the
/// output as it was `before`.
pub open spec fn realizes(
    r: Result<(), RuntimeError>,
    before: MachineView,
    after: MachineView,
    o: Outcome,
) -> bool {
    match o {
        Ok(m) => r is Ok && after == m,
        Err(e) => r == Err::<(), RuntimeError>(e) && after.stdout == before.stdout,
    }
}

/// Every successful step of a valid machine leaves it valid.
pub proof fn lemma_step_keeps_valid(m: MachineView, constants: Seq<PrimitiveView>)
    requires
        valid(m),
        !halted(m),
    ensures
        step(m, constants) matches Ok(next) ==> valid(next),
{
    reveal(execute);
}

/// The stack pointer never leaves the stack: a run that ends without an
/// error ends in a valid state.
pub proof fn lemma_run_keeps_valid(m: MachineView, constants: Seq<PrimitiveView>, limit: nat)
    requires
        valid(m),
    ensures
        run_from(m, constants, limit) matches Ok(end) ==> valid(end) && halted(end),
    decreases limit,
{
    if !halted(m) && limit > 0 {
        lemma_step_keeps_valid(m, constants);
        match step(m, constants) {
            Ok(next) => lemma_run_keeps_valid(next, constants, (limit - 1) as nat),
            Err(_) => {},
        }
    }
}

} // verus!
