//! The machine reads back the instructions that the compiler wrote, and
//! what several steps in a row lead to.

use vstd::prelude::*;
use crate::value::{PrimitiveView, RuntimeError};
use crate::vm::lowering::code_size;
use crate::vm::semantics::{fetch, halted, run_from, step, FrameView, MachineView, Outcome};
use crate::vm::types::{
    encode, encode_all, lemma_op_byte_round_trip, op_byte, operand_width, operands, wide_of,
    InstructionView, Op, Operands,
};

verus! {

/// The instruction has the operand bytes that its operation takes.
pub open spec fn well_formed(i: InstructionView) -> bool {
    i.param.len() == operand_width(operands(i.op))
}

/// The offset in bytes of the instruction at index `a`.
pub open spec fn offset(is: Seq<InstructionView>, a: int) -> int {
    code_size(is.subrange(0, a)) as int
}

/// The wide operand that the bytes of an instruction hold; 0 where it has
/// none.
pub open spec fn wide_operand(i: InstructionView) -> u16 {
    match operands(i.op) {
        Operands::Wide | Operands::WideNarrow => wide_of(i.param[0], i.param[1]),
        _ => 0u16,
    }
}

/// The narrow operand that the bytes of an instruction hold; 0 where it
/// has none.
pub open spec fn narrow_operand(i: InstructionView) -> u8 {
    match operands(i.op) {
        Operands::Narrow => i.param[0],
        Operands::WideNarrow => i.param[2],
        _ => 0u8,
    }
}

/// The bytes of two lists of instructions, one behind the other, are the
/// bytes of the first and behind them the bytes of the second.
pub proof fn lemma_encode_all_concat(a: Seq<InstructionView>, b: Seq<InstructionView>)
    ensures
        encode_all(a + b) == encode_all(a) + encode_all(b),
    decreases b.len(),
{
    if b.len() == 0 {
        assert(a + b =~= a);
        assert(encode_all(a) + encode_all(b) =~= encode_all(a));
    } else {
        assert((a + b).drop_last() =~= a + b.drop_last());
        assert((a + b).last() == b.last());
        lemma_encode_all_concat(a, b.drop_last());
        assert(encode_all(a) + encode_all(b.drop_last()) + encode(b.last()) =~= encode_all(a) + (
        encode_all(b.drop_last()) + encode(b.last())));
    }
}

/// The bytes of a list of instructions hold the bytes of each instruction
/// at its offset.
pub proof fn lemma_encoded_at(is: Seq<InstructionView>, a: int, t: int)
    requires
        0 <= a < is.len(),
        0 <= t < encode(is[a]).len(),
    ensures
        offset(is, a + 1) == offset(is, a) + encode(is[a]).len(),
        offset(is, a + 1) <= encode_all(is).len(),
        encode_all(is)[offset(is, a) + t] == encode(is[a])[t],
{
    let before = is.subrange(0, a);
    let upto = is.subrange(0, a + 1);
    let after = is.subrange(a + 1, is.len() as int);
    assert(upto.drop_last() =~= before);
    assert(upto.last() == is[a]);
    assert(is =~= upto + after);
    lemma_encode_all_concat(upto, after);
}

/// Where the running frame stands at the offset of an instruction of its
/// body, the machine reads that instruction and stands behind it.
pub proof fn lemma_fetch(f: FrameView, is: Seq<InstructionView>, a: int)
    requires
        f.closure.fn_.body == encode_all(is),
        0 <= a < is.len(),
        well_formed(is[a]),
        f.ip == offset(is, a),
    ensures
        fetch(f) == Ok::<(Op, u16, u8, int), RuntimeError>(
            (is[a].op, wide_operand(is[a]), narrow_operand(is[a]), offset(is, a + 1)),
        ),
        0 <= f.ip < f.closure.fn_.body.len(),
{
    let i = is[a];
    lemma_op_byte_round_trip(i.op);
    lemma_encoded_at(is, a, 0);
    assert(encode(i)[0] == op_byte(i.op));
    match operands(i.op) {
        Operands::Zero => {},
        Operands::Narrow => {
            lemma_encoded_at(is, a, 1);
        },
        Operands::Wide => {
            lemma_encoded_at(is, a, 1);
            lemma_encoded_at(is, a, 2);
        },
        Operands::WideNarrow => {
            lemma_encoded_at(is, a, 1);
            lemma_encoded_at(is, a, 2);
            lemma_encoded_at(is, a, 3);
        },
    }
}

/// What `k` steps in a row lead to. A machine that has halted takes no
/// step: asking it for one is an error.
pub open spec fn steps(m: MachineView, constants: Seq<PrimitiveView>, k: nat) -> Outcome
    decreases k,
{
    if k == 0 {
        Ok(m)
    } else if halted(m) {
        Err(RuntimeError::BadOpcode)
    } else {
        match step(m, constants) {
            Err(e) => Err(e),
            Ok(next) => steps(next, constants, (k - 1) as nat),
        }
    }
}

/// Steps in a row can be taken in two parts.
pub proof fn lemma_steps_split(m: MachineView, constants: Seq<PrimitiveView>, j: nat, k: nat)
    ensures
        steps(m, constants, j + k) == (match steps(m, constants, j) {
            Err(e) => Err(e),
            Ok(mid) => steps(mid, constants, k),
        }),
    decreases j,
{
    if j > 0 && !halted(m) {
        match step(m, constants) {
            Ok(next) => {
                lemma_steps_split(next, constants, (j - 1) as nat, k);
                assert(j + k - 1 == (j - 1) + k);
            },
            Err(_) => {},
        }
    }
}

/// A run goes through the states that its first steps lead to.
pub proof fn lemma_run_after_steps(
    m: MachineView,
    constants: Seq<PrimitiveView>,
    k: nat,
    limit: nat,
)
    requires
        steps(m, constants, k) is Ok,
        limit >= k,
    ensures
        run_from(m, constants, limit) == run_from(
            steps(m, constants, k)->Ok_0,
            constants,
            (limit - k) as nat,
        ),
    decreases k,
{
    if k > 0 {
        match step(m, constants) {
            Ok(next) => {
                lemma_run_after_steps(next, constants, (k - 1) as nat, (limit - 1) as nat);
            },
            Err(_) => {},
        }
    }
}

} // verus!
