//! One clock cycle's worth of operations.

use crate::types::{Addr, Const, Reg};
use vstd::prelude::*;

verus! {

/// Up to six operations issued in the same cycle, one per opcode; they run
/// in the order ldi, ldr, str, add, sub, mul. An instruction with no
/// operation is a bubble.
#[derive(Debug, Clone, Copy)]
pub struct Instruction {
    /// `ldi dst c`: load a 32-bit constant into a register.
    pub ldi: Option<(Reg, Const)>,
    /// `ldr dst addr`: load a memory cell into a register.
    pub ldr: Option<(Reg, Addr)>,
    /// `str src addr`: store a register into a memory cell.
    pub str: Option<(Reg, Addr)>,
    /// `add dst src1 src2`: `dst = src2 + src1`.
    pub add: Option<(Reg, Reg, Reg)>,
    /// `sub dst src1 src2`: `dst = src1 - src2`.
    pub sub: Option<(Reg, Reg, Reg)>,
    /// `mul dst src1 src2`: `dst = src1 * src2`.
    pub mul: Option<(Reg, Reg, Reg)>,
}

impl Instruction {
    /// An empty instruction (a bubble).
    pub fn new() -> (r: Self)
        ensures
            r.ldi is None,
            r.ldr is None,
            r.str is None,
            r.add is None,
            r.sub is None,
            r.mul is None,
    {
        Instruction { ldi: None, ldr: None, str: None, add: None, sub: None, mul: None }
    }

    /// Sets the `ldi` slot, replacing what it held.
    pub fn with_ldi(self, dst: Reg, constant: Const) -> (r: Self)
        ensures
            r == (Instruction { ldi: Some((dst, constant)), ..self }),
    {
        Instruction { ldi: Some((dst, constant)), ..self }
    }

    /// Sets the `ldr` slot, replacing what it held.
    pub fn with_ldr(self, dst: Reg, addr: Addr) -> (r: Self)
        ensures
            r == (Instruction { ldr: Some((dst, addr)), ..self }),
    {
        Instruction { ldr: Some((dst, addr)), ..self }
    }

    /// Sets the `str` slot, replacing what it held.
    pub fn with_str(self, src: Reg, addr: Addr) -> (r: Self)
        ensures
            r == (Instruction { str: Some((src, addr)), ..self }),
    {
        Instruction { str: Some((src, addr)), ..self }
    }

    /// Sets the `add` slot, replacing what it held.
    pub fn with_add(self, dst: Reg, src1: Reg, src2: Reg) -> (r: Self)
        ensures
            r == (Instruction { add: Some((dst, src1, src2)), ..self }),
    {
        Instruction { add: Some((dst, src1, src2)), ..self }
    }

    /// Sets the `sub` slot, replacing what it held.
    pub fn with_sub(self, dst: Reg, src1: Reg, src2: Reg) -> (r: Self)
        ensures
            r == (Instruction { sub: Some((dst, src1, src2)), ..self }),
    {
        Instruction { sub: Some((dst, src1, src2)), ..self }
    }

    /// Sets the `mul` slot, replacing what it held.
    pub fn with_mul(self, dst: Reg, src1: Reg, src2: Reg) -> (r: Self)
        ensures
            r == (Instruction { mul: Some((dst, src1, src2)), ..self }),
    {
        Instruction { mul: Some((dst, src1, src2)), ..self }
    }
}

} // verus!
