//! The instruction intermediate representation: one immutable three-address
//! operation, carrying operand slot numbers and a destination slot number.
//!
//! A constant's numeric payload is carried as the bit pattern of the 32-bit
//! floating-point value it stands for; the library's logic never does
//! floating-point arithmetic itself.

use vstd::prelude::*;

verus! {

/// The operation an instruction performs. Operands name the destination
/// slots of earlier instructions.
#[derive(Clone, Copy, PartialEq, Eq, Structural, Debug)]
pub enum Op {
    /// Load a constant; the payload is the bit pattern of the value.
    Constant(u32),
    Add(usize, usize),
    Sub(usize, usize),
    Mul(usize, usize),
    Div(usize, usize),
}

/// One three-address instruction: perform `op` and store the result in
/// slot `ret`.
#[derive(Clone, Copy, PartialEq, Eq, Structural, Debug)]
pub struct Instruction {
    pub op: Op,
    pub ret: usize,
}

/// Build a load-constant instruction with destination `ret`.
pub fn constant(value: u32, ret: usize) -> (r: Instruction)
    ensures
        r == (Instruction { op: Op::Constant(value), ret }),
{
    Instruction { op: Op::Constant(value), ret }
}

/// Build an addition instruction reading slots `a` and `b`.
pub fn add(a: usize, b: usize, ret: usize) -> (r: Instruction)
    ensures
        r == (Instruction { op: Op::Add(a, b), ret }),
{
    Instruction { op: Op::Add(a, b), ret }
}

/// Build a subtraction instruction reading slots `a` and `b`.
pub fn sub(a: usize, b: usize, ret: usize) -> (r: Instruction)
    ensures
        r == (Instruction { op: Op::Sub(a, b), ret }),
{
    Instruction { op: Op::Sub(a, b), ret }
}

/// Build a multiplication instruction reading slots `a` and `b`.
pub fn mul(a: usize, b: usize, ret: usize) -> (r: Instruction)
    ensures
        r == (Instruction { op: Op::Mul(a, b), ret }),
{
    Instruction { op: Op::Mul(a, b), ret }
}

/// Build a division instruction reading slots `a` and `b`.
pub fn div(a: usize, b: usize, ret: usize) -> (r: Instruction)
    ensures
        r == (Instruction { op: Op::Div(a, b), ret }),
{
    Instruction { op: Op::Div(a, b), ret }
}

/// Whether `op` reads slot `t`.
pub open spec fn op_uses_slot(op: Op, t: int) -> bool {
    match op {
        Op::Constant(_) => false,
        Op::Add(a, b) => a == t || b == t,
        Op::Sub(a, b) => a == t || b == t,
        Op::Mul(a, b) => a == t || b == t,
        Op::Div(a, b) => a == t || b == t,
    }
}

/// Instruction `k` of the program is well formed: its destination is slot
/// `k` itself, and it reads only slots that earlier instructions defined.
pub open spec fn instr_wf(prog: Seq<Instruction>, k: int) -> bool {
    &&& prog[k].ret == k
    &&& forall|t: int| op_uses_slot(prog[k].op, t) ==> 0 <= t < k
}

/// A whole program is well formed: destination slots are exactly
/// `0, 1, ...` in order, and every operand slot is defined before use.
pub open spec fn prog_wf(prog: Seq<Instruction>) -> bool {
    forall|k: int| 0 <= k < prog.len() ==> instr_wf(prog, k)
}

} // verus!
