//! Opcodes and instructions, and how they are laid out in bytes.

use vstd::prelude::*;
use vstd::string::StringExecFns;
use crate::text::{decimal, int_to_string};

verus! {

/// The operations of the machine, one byte each.
#[derive(Clone, Copy, PartialEq, Eq, Debug, Structural)]
pub enum Op {
    Constant,
    Pop,
    Add,
    Sub,
    Mul,
    Div,
    True,
    False,
    Eq,
    Neq,
    Lt,
    Minus,
    Bang,
    Jmp,
    JmpIfFalse,
    Null,
    SetGlobal,
    GetGlobal,
    Array,
    Hash,
    Index,
    ReturnVal,
    Call,
    Return,
    SetLocal,
    GetLocal,
    GetBuiltin,
    Closure,
    GetFree,
    CurrentClosure,
    Mod,
}

/// The byte that stands for an operation.
pub open spec fn op_byte(op: Op) -> u8 {
    match op {
        Op::Constant => 0x00,
        Op::Pop => 0x01,
        Op::Add => 0x02,
        Op::Sub => 0x03,
        Op::Mul => 0x04,
        Op::Div => 0x05,
        Op::True => 0x06,
        Op::False => 0x07,
        Op::Eq => 0x08,
        Op::Neq => 0x09,
        Op::Lt => 0x0A,
        Op::Minus => 0x0B,
        Op::Bang => 0x0C,
        Op::Jmp => 0x0D,
        Op::JmpIfFalse => 0x0E,
        Op::Null => 0x0F,
        Op::SetGlobal => 0x10,
        Op::GetGlobal => 0x11,
        Op::Array => 0x12,
        Op::Hash => 0x13,
        Op::Index => 0x14,
        Op::ReturnVal => 0x15,
        Op::Call => 0x16,
        Op::Return => 0x17,
        Op::SetLocal => 0x18,
        Op::GetLocal => 0x19,
        Op::GetBuiltin => 0x1A,
        Op::Closure => 0x1B,
        Op::GetFree => 0x1C,
        Op::CurrentClosure => 0x1D,
        Op::Mod => 0x1E,
    }
}

/// The operation that a byte stands for, if it stands for one.
pub open spec fn op_of(b: u8) -> Option<Op> {
    if b == 0x00 {
        Some(Op::Constant)
    } else if b == 0x01 {
        Some(Op::Pop)
    } else if b == 0x02 {
        Some(Op::Add)
    } else if b == 0x03 {
        Some(Op::Sub)
    } else if b == 0x04 {
        Some(Op::Mul)
    } else if b == 0x05 {
        Some(Op::Div)
    } else if b == 0x06 {
        Some(Op::True)
    } else if b == 0x07 {
        Some(Op::False)
    } else if b == 0x08 {
        Some(Op::Eq)
    } else if b == 0x09 {
        Some(Op::Neq)
    } else if b == 0x0A {
        Some(Op::Lt)
    } else if b == 0x0B {
        Some(Op::Minus)
    } else if b == 0x0C {
        Some(Op::Bang)
    } else if b == 0x0D {
        Some(Op::Jmp)
    } else if b == 0x0E {
        Some(Op::JmpIfFalse)
    } else if b == 0x0F {
        Some(Op::Null)
    } else if b == 0x10 {
        Some(Op::SetGlobal)
    } else if b == 0x11 {
        Some(Op::GetGlobal)
    } else if b == 0x12 {
        Some(Op::Array)
    } else if b == 0x13 {
        Some(Op::Hash)
    } else if b == 0x14 {
        Some(Op::Index)
    } else if b == 0x15 {
        Some(Op::ReturnVal)
    } else if b == 0x16 {
        Some(Op::Call)
    } else if b == 0x17 {
        Some(Op::Return)
    } else if b == 0x18 {
        Some(Op::SetLocal)
    } else if b == 0x19 {
        Some(Op::GetLocal)
    } else if b == 0x1A {
        Some(Op::GetBuiltin)
    } else if b == 0x1B {
        Some(Op::Closure)
    } else if b == 0x1C {
        Some(Op::GetFree)
    } else if b == 0x1D {
        Some(Op::CurrentClosure)
    } else if b == 0x1E {
        Some(Op::Mod)
    } else {
        None
    }
}

/// The operands that an operation takes.
#[derive(Clone, Copy, PartialEq, Eq, Debug, Structural)]
pub enum Operands {
    /// No operand.
    Zero,
    /// One byte.
    Narrow,
    /// Two bytes, the high byte first.
    Wide,
    /// Two bytes, the high byte first, and then one byte.
    WideNarrow,
}

/// The operands of each operation.
pub open spec fn operands(op: Op) -> Operands {
    match op {
        Op::Constant | Op::Jmp | Op::JmpIfFalse | Op::SetGlobal | Op::GetGlobal | Op::SetLocal
        | Op::GetLocal | Op::Array | Op::Hash => Operands::Wide,
        Op::Call | Op::GetBuiltin | Op::GetFree => Operands::Narrow,
        Op::Closure => Operands::WideNarrow,
        _ => Operands::Zero,
    }
}

/// The number of operand bytes.
pub open spec fn operand_width(o: Operands) -> nat {
    match o {
        Operands::Zero => 0,
        Operands::Narrow => 1,
        Operands::Wide => 2,
        Operands::WideNarrow => 3,
    }
}

/// The two bytes of a 16-bit number, the high byte first.
pub open spec fn wide_bytes(x: u16) -> Seq<u8> {
    seq![(x / 256) as u8, (x % 256) as u8]
}

/// The 16-bit number that two bytes stand for, the high byte first.
pub open spec fn wide_of(hi: u8, lo: u8) -> u16 {
    (hi * 256 + lo) as u16
}

/// An instruction as a mathematical value.
pub struct InstructionView {
    pub op: Op,
    pub param: Seq<u8>,
}

/// The bytes of an instruction: the operation, then the operand bytes.
pub open spec fn encode(i: InstructionView) -> Seq<u8> {
    seq![op_byte(i.op)] + i.param
}

/// The bytes of a list of instructions, one behind the other.
pub open spec fn encode_all(is: Seq<InstructionView>) -> Seq<u8>
    decreases is.len(),
{
    if is.len() == 0 {
        Seq::empty()
    } else {
        encode_all(is.drop_last()) + encode(is.last())
    }
}

/// The name of an operation in a listing.
pub open spec fn mnemonic(op: Op) -> Seq<char> {
    match op {
        Op::Constant => "CONSTANT"@,
        Op::Pop => "POP"@,
        Op::Add => "ADD"@,
        Op::Sub => "SUB"@,
        Op::Mul => "MUL"@,
        Op::Div => "DIV"@,
        Op::True => "TRUE"@,
        Op::False => "FALSE"@,
        Op::Eq => "EQ"@,
        Op::Neq => "NEQ"@,
        Op::Lt => "LT"@,
        Op::Minus => "MINUS"@,
        Op::Bang => "BANG"@,
        Op::Jmp => "JMP"@,
        Op::JmpIfFalse => "JMP_FALSE"@,
        Op::Null => "NULL"@,
        Op::SetGlobal => "SET_GLOBAL"@,
        Op::GetGlobal => "GET_GLOBAL"@,
        Op::Array => "ARRAY"@,
        Op::Hash => "HASH"@,
        Op::Index => "INDEX"@,
        Op::ReturnVal => "RETURN_VAL"@,
        Op::Call => "CALL"@,
        Op::Return => "RETURN"@,
        Op::SetLocal => "SET_LOCAL"@,
        Op::GetLocal => "GET_LOCAL"@,
        Op::GetBuiltin => "GET_BUILTIN"@,
        Op::Closure => "CLOSURE"@,
        Op::GetFree => "GET_FREE"@,
        Op::CurrentClosure => "CURRENT_CLOSURE"@,
        Op::Mod => "MOD"@,
    }
}

/// The line of a listing for an instruction: the name of the operation,
/// and behind it each operand in decimal. One operand byte is a number of
/// its own, two are one 16-bit number, three are a 16-bit number and a
/// byte.
pub open spec fn listing(i: InstructionView) -> Seq<char> {
    if i.param.len() == 1 {
        mnemonic(i.op) + " "@ + decimal(i.param[0] as int)
    } else if i.param.len() == 2 {
        mnemonic(i.op) + " "@ + decimal(wide_of(i.param[0], i.param[1]) as int)
    } else if i.param.len() == 3 {
        mnemonic(i.op) + " "@ + decimal(wide_of(i.param[0], i.param[1]) as int) + " "@ + decimal(
            i.param[2] as int,
        )
    } else {
        mnemonic(i.op)
    }
}

/// Every operation is the operation of its byte.
pub proof fn lemma_op_byte_round_trip(op: Op)
    ensures
        op_of(op_byte(op)) == Some(op),
{
}

/// A 16-bit number is the number of its two bytes.
pub proof fn lemma_wide_round_trip(x: u16)
    ensures
        wide_of(wide_bytes(x)[0], wide_bytes(x)[1]) == x,
{
}

impl Op {
    /// The byte that stands for the operation.
    pub fn byte(self) -> (b: u8)
        ensures
            b == op_byte(self),
    {
        match self {
            Op::Constant => 0x00,
            Op::Pop => 0x01,
            Op::Add => 0x02,
            Op::Sub => 0x03,
            Op::Mul => 0x04,
            Op::Div => 0x05,
            Op::True => 0x06,
            Op::False => 0x07,
            Op::Eq => 0x08,
            Op::Neq => 0x09,
            Op::Lt => 0x0A,
            Op::Minus => 0x0B,
            Op::Bang => 0x0C,
            Op::Jmp => 0x0D,
            Op::JmpIfFalse => 0x0E,
            Op::Null => 0x0F,
            Op::SetGlobal => 0x10,
            Op::GetGlobal => 0x11,
            Op::Array => 0x12,
            Op::Hash => 0x13,
            Op::Index => 0x14,
            Op::ReturnVal => 0x15,
            Op::Call => 0x16,
            Op::Return => 0x17,
            Op::SetLocal => 0x18,
            Op::GetLocal => 0x19,
            Op::GetBuiltin => 0x1A,
            Op::Closure => 0x1B,
            Op::GetFree => 0x1C,
            Op::CurrentClosure => 0x1D,
            Op::Mod => 0x1E,
        }
    }

    /// The operation that `byte` stands for, or nothing where it stands
    /// for none.
    pub fn from_byte(byte: u8) -> (r: Option<Op>)
        ensures
            r == op_of(byte),
    {
        match byte {
            0x00 => Some(Op::Constant),
            0x01 => Some(Op::Pop),
            0x02 => Some(Op::Add),
            0x03 => Some(Op::Sub),
            0x04 => Some(Op::Mul),
            0x05 => Some(Op::Div),
            0x06 => Some(Op::True),
            0x07 => Some(Op::False),
            0x08 => Some(Op::Eq),
            0x09 => Some(Op::Neq),
            0x0A => Some(Op::Lt),
            0x0B => Some(Op::Minus),
            0x0C => Some(Op::Bang),
            0x0D => Some(Op::Jmp),
            0x0E => Some(Op::JmpIfFalse),
            0x0F => Some(Op::Null),
            0x10 => Some(Op::SetGlobal),
            0x11 => Some(Op::GetGlobal),
            0x12 => Some(Op::Array),
            0x13 => Some(Op::Hash),
            0x14 => Some(Op::Index),
            0x15 => Some(Op::ReturnVal),
            0x16 => Some(Op::Call),
            0x17 => Some(Op::Return),
            0x18 => Some(Op::SetLocal),
            0x19 => Some(Op::GetLocal),
            0x1A => Some(Op::GetBuiltin),
            0x1B => Some(Op::Closure),
            0x1C => Some(Op::GetFree),
            0x1D => Some(Op::CurrentClosure),
            0x1E => Some(Op::Mod),
            _ => None,
        }
    }

    /// The operands that the operation takes.
    pub fn operands(self) -> (o: Operands)
        ensures
            o == operands(self),
    {
        match self {
            Op::Constant | Op::Jmp | Op::JmpIfFalse | Op::SetGlobal | Op::GetGlobal
            | Op::SetLocal | Op::GetLocal | Op::Array | Op::Hash => Operands::Wide,
            Op::Call | Op::GetBuiltin | Op::GetFree => Operands::Narrow,
            Op::Closure => Operands::WideNarrow,
            _ => Operands::Zero,
        }
    }

    /// The name of the operation in a listing.
    pub fn mnemonic(self) -> (s: String)
        ensures
            s@ == mnemonic(self),
    {
        match self {
            Op::Constant => String::from_str("CONSTANT"),
            Op::Pop => String::from_str("POP"),
            Op::Add => String::from_str("ADD"),
            Op::Sub => String::from_str("SUB"),
            Op::Mul => String::from_str("MUL"),
            Op::Div => String::from_str("DIV"),
            Op::True => String::from_str("TRUE"),
            Op::False => String::from_str("FALSE"),
            Op::Eq => String::from_str("EQ"),
            Op::Neq => String::from_str("NEQ"),
            Op::Lt => String::from_str("LT"),
            Op::Minus => String::from_str("MINUS"),
            Op::Bang => String::from_str("BANG"),
            Op::Jmp => String::from_str("JMP"),
            Op::JmpIfFalse => String::from_str("JMP_FALSE"),
            Op::Null => String::from_str("NULL"),
            Op::SetGlobal => String::from_str("SET_GLOBAL"),
            Op::GetGlobal => String::from_str("GET_GLOBAL"),
            Op::Array => String::from_str("ARRAY"),
            Op::Hash => String::from_str("HASH"),
            Op::Index => String::from_str("INDEX"),
            Op::ReturnVal => String::from_str("RETURN_VAL"),
            Op::Call => String::from_str("CALL"),
            Op::Return => String::from_str("RETURN"),
            Op::SetLocal => String::from_str("SET_LOCAL"),
            Op::GetLocal => String::from_str("GET_LOCAL"),
            Op::GetBuiltin => String::from_str("GET_BUILTIN"),
            Op::Closure => String::from_str("CLOSURE"),
            Op::GetFree => String::from_str("GET_FREE"),
            Op::CurrentClosure => String::from_str("CURRENT_CLOSURE"),
            Op::Mod => String::from_str("MOD"),
        }
    }
}

/// One instruction: an operation and the bytes of its operands.
#[derive(Debug)]
pub struct Instruction {
    pub op: Op,
    pub(crate) param: Vec<u8>,
}

impl View for Instruction {
    type V = InstructionView;

    closed spec fn view(&self) -> InstructionView {
        InstructionView { op: self.op, param: self.param@ }
    }
}

/// The views of a list of instructions.
pub open spec fn instructions_view(s: Seq<Instruction>) -> Seq<InstructionView> {
    Seq::new(s.len(), |i: int| s[i]@)
}

impl Instruction {
    /// An instruction without operands.
    pub fn new(op: Op) -> (i: Self)
        ensures
            i@ == (InstructionView { op, param: Seq::empty() }),
    {
        Self { op, param: Vec::new() }
    }

    /// An instruction with one 16-bit operand.
    pub fn new_u16(op: Op, param: u16) -> (i: Self)
        ensures
            i@ == (InstructionView { op, param: wide_bytes(param) }),
    {
        let mut bytes: Vec<u8> = Vec::new();
        bytes.push((param / 256) as u8);
        bytes.push((param % 256) as u8);
        assert(bytes@ =~= wide_bytes(param));
        Self { op, param: bytes }
    }

    /// An instruction with one operand of one byte.
    pub fn new_u8(op: Op, param: u8) -> (i: Self)
        ensures
            i@ == (InstructionView { op, param: seq![param] }),
    {
        let mut bytes: Vec<u8> = Vec::new();
        bytes.push(param);
        assert(bytes@ =~= seq![param]);
        Self { op, param: bytes }
    }

    /// An instruction with a 16-bit operand and an operand of one byte.
    pub fn new_u16_u8(op: Op, param1: u16, param2: u8) -> (i: Self)
        ensures
            i@ == (InstructionView { op, param: wide_bytes(param1).push(param2) }),
    {
        let mut bytes: Vec<u8> = Vec::new();
        bytes.push((param1 / 256) as u8);
        bytes.push((param1 % 256) as u8);
        bytes.push(param2);
        assert(bytes@ =~= wide_bytes(param1).push(param2));
        Self { op, param: bytes }
    }

    /// The operation of the instruction.
    pub fn operation(&self) -> (op: Op)
        ensures
            op == self@.op,
    {
        self.op
    }

    /// The instruction with another operation and the same operands.
    pub fn with_operation(self, op: Op) -> (i: Self)
        ensures
            i@ == (InstructionView { op, ..self@ }),
    {
        Self { op, param: self.param }
    }

    /// A copy of the instruction.
    pub fn duplicate(&self) -> (i: Self)
        ensures
            i@ == self@,
    {
        Self { op: self.op, param: crate::value::duplicate_bytes(&self.param) }
    }

    /// The bytes of the instruction.
    pub fn bytes(self) -> (b: Vec<u8>)
        ensures
            b@ == encode(self@),
    {
        let mut bytes: Vec<u8> = Vec::new();
        bytes.push(self.op.byte());
        let mut i: usize = 0;
        while i < self.param.len()
            invariant
                0 <= i <= self.param.len(),
                bytes@ == seq![op_byte(self.op)] + self.param@.subrange(0, i as int),
            decreases self.param.len() - i,
        {
            bytes.push(self.param[i]);
            assert(bytes@ =~= seq![op_byte(self.op)] + self.param@.subrange(0, i + 1));
            i += 1;
        }
        assert(self.param@.subrange(0, self.param.len() as int) =~= self.param@);
        bytes
    }

    /// The number of bytes of the instruction.
    pub fn len(&self) -> (n: usize)
        requires
            self@.param.len() < usize::MAX,
        ensures
            n == encode(self@).len(),
    {
        self.param.len() + 1
    }

    /// The line of a listing for the instruction.
    pub fn to_string(&self) -> (s: String)
        ensures
            s@ == listing(self@),
    {
        let mut s = self.op.mnemonic();
        let n: usize = self.param.len();
        if n == 1 {
            s.append(" ");
            s.append(int_to_string(self.param[0] as i64).as_str());
        } else if n == 2 || n == 3 {
            let wide: u16 = self.param[0] as u16 * 256 + self.param[1] as u16;
            s.append(" ");
            s.append(int_to_string(wide as i64).as_str());
            if n == 3 {
                s.append(" ");
                s.append(int_to_string(self.param[2] as i64).as_str());
            }
        }
        s
    }
}

} // verus!
