//! The stack machine.

use vstd::prelude::*;
use crate::builtins::result_view;
use crate::operators::{apply_infix, apply_prefix, insert_entry, truthy, InfixOp, PrefixOp};
use crate::value::{
    bindings_view, entries_view, lemma_bindings_view_update, Binding, BindingView, Builtin, Closure,
    Primitive, PrimitiveView, RuntimeError,
};
use crate::vm::semantics::{
    binary, branch, call, collect_entries, discard, execute, fetch, fresh, get_builtin, get_free,
    get_global, get_local, halted, leave, load_constant, make_array, make_closure, make_hash,
    pop_value, push_value, realizes, return_value, run_from, set_global, set_local, started, step,
    take_values, top, top_value, unary, valid, with_ip, FrameView, MachineView, STACK_SIZE,
};
use crate::vm::types::{Op, Operands};

verus! {

broadcast use crate::value::group_value_views;

/// The views of the constants of a pool.
pub open spec fn primitives_view(s: Seq<Primitive>) -> Seq<PrimitiveView> {
    Seq::new(s.len(), |i: int| s[i]@)
}

/// One active call.
#[derive(Debug)]
pub struct Frame {
    closure: Closure,
    ip: usize,
    base: usize,
}

impl View for Frame {
    type V = FrameView;

    closed spec fn view(&self) -> FrameView {
        FrameView { closure: self.closure@, ip: self.ip as int, base: self.base as int }
    }
}

/// The views of a list of frames.
pub open spec fn frames_view(s: Seq<Frame>) -> Seq<FrameView> {
    Seq::new(s.len(), |i: int| s[i]@)
}

impl Frame {
    /// A frame at the first instruction of `closure`, with its locals at
    /// slot `base`.
    pub fn new(closure: Closure, base: usize) -> (f: Self)
        ensures
            f@ == (FrameView { closure: closure@, ip: 0, base: base as int }),
    {
        Self { closure, ip: 0, base }
    }

    /// Whether the frame has an instruction left.
    pub fn valid_pos(&self) -> (r: bool)
        ensures
            r == (self@.ip < self@.closure.fn_.body.len()),
    {
        self.ip < self.closure.fn_.body.len()
    }

    /// Reads the byte at the position and moves behind it. Gives nothing,
    /// and stays, at the end of the instructions.
    pub fn next(&mut self) -> (r: Option<u8>)
        ensures
            final(self)@.closure == old(self)@.closure,
            final(self)@.base == old(self)@.base,
            match r {
                Some(b) => old(self)@.ip < old(self)@.closure.fn_.body.len() && b == old(
                    self,
                )@.closure.fn_.body[old(self)@.ip] && final(self)@.ip == old(self)@.ip + 1,
                None => old(self)@.ip >= old(self)@.closure.fn_.body.len() && final(self)@.ip
                    == old(self)@.ip,
            },
    {
        if self.ip < self.closure.fn_.body.len() {
            let b: u8 = self.closure.fn_.body[self.ip];
            self.ip += 1;
            Some(b)
        } else {
            None
        }
    }

    /// Reads one byte as a number.
    pub fn next_u8(&mut self) -> (r: Option<u8>)
        ensures
            final(self)@.closure == old(self)@.closure,
            final(self)@.base == old(self)@.base,
            match r {
                Some(b) => old(self)@.ip < old(self)@.closure.fn_.body.len() && b == old(
                    self,
                )@.closure.fn_.body[old(self)@.ip] && final(self)@.ip == old(self)@.ip + 1,
                None => old(self)@.ip >= old(self)@.closure.fn_.body.len(),
            },
    {
        self.next()
    }

    /// Reads two bytes as a 16-bit number, the high byte first.
    pub fn next_u16(&mut self) -> (r: Option<u16>)
        ensures
            final(self)@.closure == old(self)@.closure,
            final(self)@.base == old(self)@.base,
            match r {
                Some(w) => old(self)@.ip + 1 < old(self)@.closure.fn_.body.len() && w
                    == crate::vm::types::wide_of(
                    old(self)@.closure.fn_.body[old(self)@.ip],
                    old(self)@.closure.fn_.body[old(self)@.ip + 1],
                ) && final(self)@.ip == old(self)@.ip + 2,
                None => old(self)@.ip + 1 >= old(self)@.closure.fn_.body.len(),
            },
    {
        let hi = match self.next() {
            Some(b) => b,
            None => {
                return None;
            },
        };
        let lo = match self.next() {
            Some(b) => b,
            None => {
                return None;
            },
        };
        Some(hi as u16 * 256 + lo as u16)
    }

    /// Moves to the instruction at `pos`.
    pub fn set_exec(&mut self, pos: usize)
        ensures
            final(self)@ == (FrameView { ip: pos as int, ..old(self)@ }),
    {
        self.ip = pos;
    }

    /// Reads the instruction at the position and moves behind it.
    fn fetch(&mut self) -> (r: Result<(Op, u16, u8), RuntimeError>)
        ensures
            final(self)@.closure == old(self)@.closure,
            final(self)@.base == old(self)@.base,
            match fetch(old(self)@) {
                Ok((op, wide, narrow, next)) => r == Ok::<(Op, u16, u8), RuntimeError>(
                    (op, wide, narrow),
                ) && final(self)@.ip == next,
                Err(e) => r == Err::<(Op, u16, u8), RuntimeError>(e),
            },
    {
        let byte = match self.next() {
            Some(b) => b,
            None => {
                return Err(RuntimeError::BadOpcode);
            },
        };
        let op = match Op::from_byte(byte) {
            Some(op) => op,
            None => {
                return Err(RuntimeError::BadOpcode);
            },
        };
        match op.operands() {
            Operands::Zero => Ok((op, 0, 0)),
            Operands::Narrow => match self.next_u8() {
                Some(n) => Ok((op, 0, n)),
                None => Err(RuntimeError::BadOpcode),
            },
            Operands::Wide => match self.next_u16() {
                Some(w) => Ok((op, w, 0)),
                None => Err(RuntimeError::BadOpcode),
            },
            Operands::WideNarrow => {
                let w = match self.next_u16() {
                    Some(w) => w,
                    None => {
                        return Err(RuntimeError::BadOpcode);
                    },
                };
                match self.next_u8() {
                    Some(n) => Ok((op, w, n)),
                    None => Err(RuntimeError::BadOpcode),
                }
            },
        }
    }
}

/// The stack machine: a value stack, the globals, the frames of the active
/// calls, and the output that the program wrote.
pub struct Machine {
    stack: Vec<Binding>,
    sp: usize,
    globals: Vec<Binding>,
    frames: Vec<Frame>,
    stdout: String,
    step_limit: u64,
}

impl View for Machine {
    type V = MachineView;

    closed spec fn view(&self) -> MachineView {
        MachineView {
            stack: bindings_view(self.stack@),
            sp: self.sp as int,
            globals: bindings_view(self.globals@),
            frames: frames_view(self.frames@),
            stdout: self.stdout@,
        }
    }
}

fn null_slots() -> (v: Vec<Binding>)
    ensures
        v.len() == STACK_SIZE,
        bindings_view(v@) == Seq::new(STACK_SIZE as nat, |i: int| BindingView::Null),
{
    let mut v: Vec<Binding> = Vec::new();
    let mut i: usize = 0;
    while i < STACK_SIZE
        invariant
            0 <= i <= STACK_SIZE,
            v.len() == i,
            forall|j: int| 0 <= j < i ==> v@[j]@ == BindingView::Null,
        decreases STACK_SIZE - i,
    {
        v.push(Binding::Null);
        i += 1;
    }
    assert(bindings_view(v@) =~= Seq::new(STACK_SIZE as nat, |i: int| BindingView::Null));
    v
}

impl Machine {
    /// The stack and the globals have their fixed size and the stack
    /// pointer is within the stack.
    pub closed spec fn wf(&self) -> bool {
        valid(self@)
    }

    /// The most steps that one run may take.
    pub closed spec fn limit(&self) -> nat {
        self.step_limit as nat
    }

    /// A well-formed machine has a valid state.
    pub proof fn lemma_wf_is_valid(&self)
        ensures
            self.wf() == valid(self@),
    {
    }

    /// A fresh machine, whose runs may take as many steps as fit into 64
    /// bits.
    pub fn new() -> (m: Self)
        ensures
            m.wf(),
            m@ == fresh(),
            m.limit() == u64::MAX,
    {
        let m = Self {
            stack: null_slots(),
            sp: 0,
            globals: null_slots(),
            frames: Vec::new(),
            stdout: String::new(),
            step_limit: u64::MAX,
        };
        assert(m@.frames =~= Seq::empty());
        m
    }

    /// The most steps that one run may take.
    pub fn step_limit(&self) -> (limit: u64)
        ensures
            limit == self.limit(),
    {
        self.step_limit
    }

    /// Sets the most steps that one run may take.
    pub fn set_step_limit(&mut self, limit: u64)
        ensures
            final(self)@ == old(self)@,
            final(self).wf() == old(self).wf(),
            final(self).limit() == limit,
    {
        self.step_limit = limit;
    }

    /// The output that the programs run so far have written.
    pub fn get_stdout(&self) -> (s: String)
        ensures
            s@ == self@.stdout,
    {
        self.stdout.clone()
    }

    /// The number of values on the stack.
    pub fn depth(&self) -> (n: usize)
        ensures
            n == self@.sp,
    {
        self.sp
    }

    /// Whether the machine has nothing left to run.
    fn is_halted(&self) -> (r: bool)
        ensures
            r == halted(self@),
    {
        if self.frames.len() == 0 {
            true
        } else {
            !self.frames[self.frames.len() - 1].valid_pos()
        }
    }

    fn push(&mut self, value: Binding) -> (r: Result<(), RuntimeError>)
        requires
            old(self).wf(),
        ensures
            final(self).wf(),
            final(self).limit() == old(self).limit(),
            realizes(r, old(self)@, final(self)@, push_value(old(self)@, value@)),
    {
        if self.sp < STACK_SIZE {
            proof {
                lemma_bindings_view_update(self.stack@, self.sp as int, value);
            }
            self.stack.set(self.sp, value);
            self.sp += 1;
            Ok(())
        } else {
            Err(RuntimeError::StackOverflow)
        }
    }

    fn pop(&mut self) -> (r: Result<Binding, RuntimeError>)
        requires
            old(self).wf(),
        ensures
            final(self).wf(),
            final(self).limit() == old(self).limit(),
            final(self)@.stdout == old(self)@.stdout,
            match pop_value(old(self)@) {
                Ok((v, m)) => r is Ok && r.unwrap()@ == v && final(self)@ == m,
                Err(e) => r == Err::<Binding, RuntimeError>(e),
            },
    {
        if self.sp == 0 {
            return Err(RuntimeError::StackUnderflow);
        }
        self.sp -= 1;
        Ok(self.stack[self.sp].duplicate())
    }

    /// A copy of the topmost value, which stays on the stack.
    fn peek(&self) -> (r: Result<Binding, RuntimeError>)
        requires
            self.wf(),
        ensures
            result_view(r) == top_value(self@),
    {
        if self.sp == 0 {
            return Err(RuntimeError::StackUnderflow);
        }
        Ok(self.stack[self.sp - 1].duplicate())
    }

    /// Pops the `n` topmost values, the deepest first.
    fn take(&mut self, n: usize) -> (r: Result<Vec<Binding>, RuntimeError>)
        requires
            old(self).wf(),
        ensures
            final(self).wf(),
            final(self).limit() == old(self).limit(),
            final(self)@.stdout == old(self)@.stdout,
            match take_values(old(self)@, n as int) {
                Ok((values, m)) => r is Ok && bindings_view(r.unwrap()@) == values && final(self)@
                    == m,
                Err(e) => r == Err::<Vec<Binding>, RuntimeError>(e),
            },
    {
        if self.sp < n {
            return Err(RuntimeError::StackUnderflow);
        }
        let start: usize = self.sp - n;
        let mut values: Vec<Binding> = Vec::new();
        let mut i: usize = 0;
        while i < n
            invariant
                0 <= i <= n,
                start + n == self.sp,
                self.sp <= self.stack.len(),
                values.len() == i,
                forall|j: int| 0 <= j < i ==> values@[j]@ == self.stack@[start + j]@,
            decreases n - i,
        {
            values.push(self.stack[start + i].duplicate());
            i += 1;
        }
        assert(bindings_view(values@) =~= bindings_view(self.stack@).subrange(
            start as int,
            self.sp as int,
        ));
        self.sp = start;
        Ok(values)
    }

    /// The slot at which the locals of the running frame start.
    fn base(&self) -> (b: usize)
        requires
            self@.frames.len() > 0,
        ensures
            b == top(self@).base,
    {
        self.frames[self.frames.len() - 1].base
    }

    /// Moves the running frame to the instruction at `target`.
    fn jump(&mut self, target: usize)
        requires
            old(self).wf(),
            old(self)@.frames.len() > 0,
        ensures
            final(self).wf(),
            final(self).limit() == old(self).limit(),
            final(self)@ == with_ip(old(self)@, target as int),
    {
        let mut frame = self.frames.pop().unwrap();
        frame.set_exec(target);
        self.frames.push(frame);
        assert(self@.frames =~= with_ip(old(self)@, target as int).frames);
    }

    fn binary_op(&mut self, op: InfixOp) -> (r: Result<(), RuntimeError>)
        requires
            old(self).wf(),
        ensures
            final(self).wf(),
            final(self).limit() == old(self).limit(),
            realizes(r, old(self)@, final(self)@, binary(old(self)@, op)),
    {
        let right = self.pop()?;
        let left = self.pop()?;
        let value = apply_infix(op, &left, &right)?;
        self.push(value)
    }

    fn unary_op(&mut self, op: PrefixOp) -> (r: Result<(), RuntimeError>)
        requires
            old(self).wf(),
        ensures
            final(self).wf(),
            final(self).limit() == old(self).limit(),
            realizes(r, old(self)@, final(self)@, unary(old(self)@, op)),
    {
        let operand = self.pop()?;
        let value = apply_prefix(op, &operand)?;
        self.push(value)
    }

    fn branch(&mut self, target: u16) -> (r: Result<(), RuntimeError>)
        requires
            old(self).wf(),
            old(self)@.frames.len() > 0,
        ensures
            final(self).wf(),
            final(self).limit() == old(self).limit(),
            realizes(r, old(self)@, final(self)@, branch(old(self)@, target)),
    {
        let value = self.pop()?;
        if !truthy(&value) {
            self.jump(target as usize);
        }
        Ok(())
    }

    fn discard(&mut self) -> (r: Result<(), RuntimeError>)
        requires
            old(self).wf(),
        ensures
            final(self).wf(),
            final(self).limit() == old(self).limit(),
            realizes(r, old(self)@, final(self)@, discard(old(self)@)),
    {
        let _ = self.pop()?;
        Ok(())
    }

    fn load_constant(&mut self, constants: &Vec<Primitive>, ix: u16) -> (r: Result<
        (),
        RuntimeError,
    >)
        requires
            old(self).wf(),
        ensures
            final(self).wf(),
            final(self).limit() == old(self).limit(),
            realizes(
                r,
                old(self)@,
                final(self)@,
                load_constant(old(self)@, primitives_view(constants@), ix),
            ),
    {
        if (ix as usize) < constants.len() {
            self.push(Binding::Primitive(constants[ix as usize].duplicate()))
        } else {
            Err(RuntimeError::BadOperand)
        }
    }

    fn set_global(&mut self, ix: u16) -> (r: Result<(), RuntimeError>)
        requires
            old(self).wf(),
        ensures
            final(self).wf(),
            final(self).limit() == old(self).limit(),
            realizes(r, old(self)@, final(self)@, set_global(old(self)@, ix)),
    {
        let value = self.peek()?;
        if (ix as usize) < self.globals.len() {
            proof {
                lemma_bindings_view_update(self.globals@, ix as int, value);
            }
            self.globals.set(ix as usize, value);
            Ok(())
        } else {
            Err(RuntimeError::BadOperand)
        }
    }

    fn get_global(&mut self, ix: u16) -> (r: Result<(), RuntimeError>)
        requires
            old(self).wf(),
        ensures
            final(self).wf(),
            final(self).limit() == old(self).limit(),
            realizes(r, old(self)@, final(self)@, get_global(old(self)@, ix)),
    {
        if (ix as usize) < self.globals.len() {
            let value = self.globals[ix as usize].duplicate();
            self.push(value)
        } else {
            Err(RuntimeError::BadOperand)
        }
    }

    fn set_local(&mut self, ix: u16) -> (r: Result<(), RuntimeError>)
        requires
            old(self).wf(),
            old(self)@.frames.len() > 0,
        ensures
            final(self).wf(),
            final(self).limit() == old(self).limit(),
            realizes(r, old(self)@, final(self)@, set_local(old(self)@, ix)),
    {
        let base: usize = self.base();
        let value = self.peek()?;
        if base < STACK_SIZE && ix as usize + base < self.stack.len() {
            let slot: usize = base + ix as usize;
            proof {
                lemma_bindings_view_update(self.stack@, slot as int, value);
            }
            self.stack.set(slot, value);
            Ok(())
        } else {
            Err(RuntimeError::BadOperand)
        }
    }

    fn get_local(&mut self, ix: u16) -> (r: Result<(), RuntimeError>)
        requires
            old(self).wf(),
            old(self)@.frames.len() > 0,
        ensures
            final(self).wf(),
            final(self).limit() == old(self).limit(),
            realizes(r, old(self)@, final(self)@, get_local(old(self)@, ix)),
    {
        let base: usize = self.base();
        if base < STACK_SIZE && ix as usize + base < self.stack.len() {
            let value = self.stack[base + ix as usize].duplicate();
            self.push(value)
        } else {
            Err(RuntimeError::BadOperand)
        }
    }

    fn get_builtin(&mut self, ix: u8) -> (r: Result<(), RuntimeError>)
        requires
            old(self).wf(),
        ensures
            final(self).wf(),
            final(self).limit() == old(self).limit(),
            realizes(r, old(self)@, final(self)@, get_builtin(old(self)@, ix)),
    {
        match Builtin::from_index(ix) {
            Some(b) => self.push(Binding::Builtin(b)),
            None => Err(RuntimeError::BadOperand),
        }
    }

    fn get_free(&mut self, ix: u8) -> (r: Result<(), RuntimeError>)
        requires
            old(self).wf(),
            old(self)@.frames.len() > 0,
        ensures
            final(self).wf(),
            final(self).limit() == old(self).limit(),
            realizes(r, old(self)@, final(self)@, get_free(old(self)@, ix)),
    {
        let frame = &self.frames[self.frames.len() - 1];
        if (ix as usize) < frame.closure.free.len() {
            let value = frame.closure.free[ix as usize].duplicate();
            self.push(value)
        } else {
            Err(RuntimeError::BadOperand)
        }
    }

    fn current_closure(&mut self) -> (r: Result<(), RuntimeError>)
        requires
            old(self).wf(),
            old(self)@.frames.len() > 0,
        ensures
            final(self).wf(),
            final(self).limit() == old(self).limit(),
            realizes(
                r,
                old(self)@,
                final(self)@,
                push_value(old(self)@, BindingView::Closure(top(old(self)@).closure)),
            ),
    {
        let closure = self.frames[self.frames.len() - 1].closure.duplicate();
        self.push(Binding::Closure(closure))
    }

    fn make_array(&mut self, n: u16) -> (r: Result<(), RuntimeError>)
        requires
            old(self).wf(),
        ensures
            final(self).wf(),
            final(self).limit() == old(self).limit(),
            realizes(r, old(self)@, final(self)@, make_array(old(self)@, n)),
    {
        let items = self.take(n as usize)?;
        self.push(Binding::Array(items))
    }

    fn make_hash(&mut self, n: u16) -> (r: Result<(), RuntimeError>)
        requires
            old(self).wf(),
        ensures
            final(self).wf(),
            final(self).limit() == old(self).limit(),
            realizes(r, old(self)@, final(self)@, make_hash(old(self)@, n)),
    {
        let values = self.take(2 * (n as usize))?;
        let entries = collect(&values)?;
        self.push(Binding::Hash(entries))
    }

    fn make_closure(&mut self, constants: &Vec<Primitive>, ix: u16, n: u8) -> (r: Result<
        (),
        RuntimeError,
    >)
        requires
            old(self).wf(),
        ensures
            final(self).wf(),
            final(self).limit() == old(self).limit(),
            realizes(
                r,
                old(self)@,
                final(self)@,
                make_closure(old(self)@, primitives_view(constants@), ix, n),
            ),
    {
        if (ix as usize) >= constants.len() {
            return Err(RuntimeError::BadOperand);
        }
        match &constants[ix as usize] {
            Primitive::Fn(code) => {
                let free = self.take(n as usize)?;
                self.push(Binding::Closure(Closure::new(code.duplicate(), free)))
            },
            _ => Err(RuntimeError::TypeError),
        }
    }

    /// Runs `builtin` on the `n` topmost values; it and they leave the
    /// stack, and its result is pushed.
    fn builtin_call(&mut self, builtin: Builtin, n: u8) -> (r: Result<(), RuntimeError>)
        requires
            old(self).wf(),
            n < old(self)@.sp,
            old(self)@.stack[old(self)@.sp - 1 - n] == BindingView::Builtin(builtin),
        ensures
            final(self).wf(),
            final(self).limit() == old(self).limit(),
            realizes(r, old(self)@, final(self)@, call(old(self)@, n)),
    {
        let args = self.take(n as usize)?;
        let value = builtin.eval(&args, &mut self.stdout)?;
        self.sp -= 1;
        self.push(value)
    }

    fn call(&mut self, n: u8) -> (r: Result<(), RuntimeError>)
        requires
            old(self).wf(),
        ensures
            final(self).wf(),
            final(self).limit() == old(self).limit(),
            realizes(r, old(self)@, final(self)@, call(old(self)@, n)),
    {
        if self.sp <= n as usize {
            return Err(RuntimeError::StackUnderflow);
        }
        let slot: usize = self.sp - 1 - n as usize;
        match &self.stack[slot] {
            Binding::Closure(c) => {
                if c.fn_.num_args != n {
                    return Err(RuntimeError::ArityMismatch);
                }
                let base: usize = self.sp - n as usize;
                let locals: usize = c.fn_.num_locals as usize;
                if base + locals > STACK_SIZE {
                    return Err(RuntimeError::StackOverflow);
                }
                let frame = Frame::new(c.duplicate(), base);
                self.sp = base + locals;
                self.frames.push(frame);
                assert(self@.frames =~= old(self)@.frames.push(frame@));
                Ok(())
            },
            Binding::Builtin(b) => {
                let builtin = *b;
                self.builtin_call(builtin, n)
            },
            _ => Err(RuntimeError::NotCallable),
        }
    }

    fn leave(&mut self, value: Binding) -> (r: Result<(), RuntimeError>)
        requires
            old(self).wf(),
        ensures
            final(self).wf(),
            final(self).limit() == old(self).limit(),
            realizes(r, old(self)@, final(self)@, leave(old(self)@, value@)),
    {
        if self.frames.len() == 0 {
            return Err(RuntimeError::StackUnderflow);
        }
        let base: usize = self.base();
        if base == 0 {
            return Err(RuntimeError::StackUnderflow);
        }
        if base > STACK_SIZE {
            return Err(RuntimeError::StackOverflow);
        }
        let _ = self.frames.pop();
        assert(self@.frames =~= old(self)@.frames.drop_last());
        self.sp = base - 1;
        self.push(value)
    }

    fn return_value(&mut self) -> (r: Result<(), RuntimeError>)
        requires
            old(self).wf(),
        ensures
            final(self).wf(),
            final(self).limit() == old(self).limit(),
            realizes(r, old(self)@, final(self)@, return_value(old(self)@)),
    {
        let value = self.pop()?;
        self.leave(value)
    }

    fn execute(&mut self, constants: &Vec<Primitive>, op: Op, wide: u16, narrow: u8) -> (r: Result<
        (),
        RuntimeError,
    >)
        requires
            old(self).wf(),
            old(self)@.frames.len() > 0,
        ensures
            final(self).wf(),
            final(self).limit() == old(self).limit(),
            realizes(
                r,
                old(self)@,
                final(self)@,
                execute(old(self)@, primitives_view(constants@), op, wide, narrow),
            ),
    {
        reveal(execute);
        match op {
            Op::Add => self.binary_op(InfixOp::Add),
            Op::Sub => self.binary_op(InfixOp::Sub),
            Op::Mul => self.binary_op(InfixOp::Mul),
            Op::Div => self.binary_op(InfixOp::Div),
            Op::Mod => self.binary_op(InfixOp::Mod),
            Op::Eq => self.binary_op(InfixOp::Eq),
            Op::Neq => self.binary_op(InfixOp::Neq),
            Op::Lt => self.binary_op(InfixOp::Lt),
            Op::Index => self.binary_op(InfixOp::Index),
            Op::Bang => self.unary_op(PrefixOp::Not),
            Op::Minus => self.unary_op(PrefixOp::Negate),
            Op::Jmp => {
                self.jump(wide as usize);
                Ok(())
            },
            Op::JmpIfFalse => self.branch(wide),
            Op::Call => self.call(narrow),
            Op::Array => self.make_array(wide),
            Op::Hash => self.make_hash(wide),
            Op::Closure => self.make_closure(constants, wide, narrow),
            Op::Null => self.push(Binding::Null),
            Op::Constant => self.load_constant(constants, wide),
            Op::Pop => self.discard(),
            Op::True => self.push(Binding::Primitive(Primitive::Bool(true))),
            Op::False => self.push(Binding::Primitive(Primitive::Bool(false))),
            Op::SetGlobal => self.set_global(wide),
            Op::SetLocal => self.set_local(wide),
            Op::GetGlobal => self.get_global(wide),
            Op::GetLocal => self.get_local(wide),
            Op::GetBuiltin => self.get_builtin(narrow),
            Op::GetFree => self.get_free(narrow),
            Op::CurrentClosure => self.current_closure(),
            Op::ReturnVal => self.return_value(),
            Op::Return => self.leave(Binding::Null),
        }
    }

    /// Takes one step: reads the next instruction of the running frame and
    /// executes it.
    fn step(&mut self, constants: &Vec<Primitive>) -> (r: Result<(), RuntimeError>)
        requires
            old(self).wf(),
            !halted(old(self)@),
        ensures
            final(self).wf(),
            final(self).limit() == old(self).limit(),
            realizes(r, old(self)@, final(self)@, step(old(self)@, primitives_view(constants@))),
    {
        let mut frame = self.frames.pop().unwrap();
        let fetched = frame.fetch();
        self.frames.push(frame);
        match fetched {
            Err(e) => Err(e),
            Ok((op, wide, narrow)) => {
                assert(self@.frames =~= with_ip(old(self)@, frame@.ip).frames);
                self.execute(constants, op, wide, narrow)
            },
        }
    }

    /// Runs `closure` to completion over the constants of `constants`.
    ///
    /// The run starts with `closure` as the only frame and ends when no
    /// instruction is left. It fails with the error of the first step that
    /// fails, or when it has taken as many steps as the limit allows; what
    /// was written before stays in the output.
    pub fn run(&mut self, constants: Vec<Primitive>, closure: Closure) -> (r: Result<
        (),
        RuntimeError,
    >)
        requires
            old(self).wf(),
        ensures
            final(self).wf(),
            final(self).limit() == old(self).limit(),
            match run_from(
                started(old(self)@, closure@),
                primitives_view(constants@),
                old(self).limit(),
            ) {
                Ok(end) => r is Ok && final(self)@ == end,
                Err((e, out)) => r == Err::<(), RuntimeError>(e) && final(self)@.stdout == out,
            },
    {
        self.frames.clear();
        self.frames.push(Frame::new(closure, 0));
        assert(self@.frames =~= started(old(self)@, closure@).frames);
        let ghost pool = primitives_view(constants@);
        let ghost goal = run_from(started(old(self)@, closure@), pool, old(self).limit());
        let mut steps: u64 = 0;
        while !self.is_halted()
            invariant
                self.wf(),
                self.limit() == old(self).limit(),
                steps <= self.step_limit,
                pool == primitives_view(constants@),
                goal == run_from(started(old(self)@, closure@), pool, old(self).limit()),
                run_from(self@, pool, (self.step_limit - steps) as nat) == goal,
            decreases self.step_limit - steps,
        {
            if steps >= self.step_limit {
                return Err(RuntimeError::StepLimit);
            }
            match self.step(&constants) {
                Err(e) => {
                    return Err(e);
                },
                Ok(()) => {},
            }
            steps += 1;
        }
        Ok(())
    }

    /// The value that a run left on the stack, which it then leaves: null
    /// where the stack is empty.
    pub fn get_last_expr(&mut self) -> (r: Binding)
        requires
            old(self).wf(),
            old(self)@.sp <= 1,
        ensures
            final(self).wf(),
            final(self).limit() == old(self).limit(),
            final(self)@ == (MachineView { sp: 0, ..old(self)@ }),
            r@ == (if old(self)@.sp == 0 {
                BindingView::Null
            } else {
                old(self)@.stack[0]
            }),
    {
        if self.sp == 0 {
            Binding::Null
        } else {
            self.sp = 0;
            self.stack[0].duplicate()
        }
    }
}

/// The hash of the keys and values that alternate in `values`.
fn collect(values: &Vec<Binding>) -> (r: Result<Vec<(Primitive, Binding)>, RuntimeError>)
    ensures
        match collect_entries(bindings_view(values@), 0, Seq::empty()) {
            Ok(entries) => r is Ok && entries_view(r.unwrap()@) == entries,
            Err(e) => r == Err::<Vec<(Primitive, Binding)>, RuntimeError>(e),
        },
{
    let ghost views = bindings_view(values@);
    let mut entries: Vec<(Primitive, Binding)> = Vec::new();
    let mut i: usize = 0;
    assert(entries_view(entries@) =~= Seq::empty());
    while values.len() - i >= 2
        invariant
            views == bindings_view(values@),
            i <= values.len(),
            collect_entries(views, i as int, entries_view(entries@)) == collect_entries(
                views,
                0,
                Seq::empty(),
            ),
        decreases values.len() - i,
    {
        assert(views[i as int] == values@[i as int]@);
        assert(views[i + 1] == values@[i + 1]@);
        match &values[i] {
            Binding::Primitive(Primitive::Fn(_)) => {
                return Err(RuntimeError::BadKey);
            },
            Binding::Primitive(k) => {
                insert_entry(&mut entries, k.duplicate(), values[i + 1].duplicate());
            },
            _ => {
                return Err(RuntimeError::BadKey);
            },
        }
        i += 2;
    }
    Ok(entries)
}

impl Default for Machine {
    fn default() -> (m: Self)
        ensures
            m.wf(),
            m@ == fresh(),
            m.limit() == u64::MAX,
    {
        Machine::new()
    }
}

} // verus!
