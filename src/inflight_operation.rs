//! Issued operations waiting for their completion cycle.

use crate::expr::{ExprWrapper, Poly};
use crate::types::{Addr, Const, Reg};
use std::cmp::Ordering;
use vstd::prelude::*;

verus! {

/// Number of cycles between the issue of each opcode and its write.
pub struct OperationLatency;

impl OperationLatency {
    pub const LDI: u64 = 1;
    pub const LDR: u64 = 5;
    pub const STR: u64 = 5;
    pub const ADD: u64 = 2;
    pub const SUB: u64 = 2;
    pub const MUL: u64 = 10;
}

/// Where an operation writes.
pub enum Dest {
    Register(u32),
    Memory(u32),
}

/// Model of an in-flight operation.
pub struct PendingWrite {
    pub dest: Dest,
    pub value: Poly,
    pub complete_by: int,
    pub issued_at: int,
}

/// The eventual write of an in-flight operation. Two outputs are equal when
/// they write the same register or the same memory cell, whatever the value.
#[derive(Debug)]
pub enum OperationOutput {
    WriteToRegister(Reg, ExprWrapper),
    WriteToMemory(Addr, ExprWrapper),
}

impl OperationOutput {
    /// Where this output writes.
    pub open spec fn dest(&self) -> Dest {
        match self {
            OperationOutput::WriteToRegister(r, _) => Dest::Register(r.0),
            OperationOutput::WriteToMemory(a, _) => Dest::Memory(a.0),
        }
    }

    /// What this output writes.
    pub open spec fn value(&self) -> Poly {
        match self {
            OperationOutput::WriteToRegister(_, v) => v@,
            OperationOutput::WriteToMemory(_, v) => v@,
        }
    }
}

/// Destination order: every register before every memory cell, then by number.
pub open spec fn dest_lt(a: Dest, b: Dest) -> bool {
    match (a, b) {
        (Dest::Register(x), Dest::Register(y)) => x < y,
        (Dest::Memory(x), Dest::Memory(y)) => x < y,
        (Dest::Register(_), Dest::Memory(_)) => true,
        (Dest::Memory(_), Dest::Register(_)) => false,
    }
}

impl Clone for OperationOutput {
    fn clone(&self) -> (r: Self)
        ensures
            r == *self,
    {
        match self {
            OperationOutput::WriteToRegister(r, v) => OperationOutput::WriteToRegister(*r, v.clone()),
            OperationOutput::WriteToMemory(a, v) => OperationOutput::WriteToMemory(*a, v.clone()),
        }
    }
}

impl PartialEq for OperationOutput {
    fn eq(&self, other: &Self) -> (r: bool)
        ensures
            r == (self.dest() == other.dest()),
    {
        match (self, other) {
            (OperationOutput::WriteToRegister(a, _), OperationOutput::WriteToRegister(b, _)) => a.0 == b.0,
            (OperationOutput::WriteToMemory(a, _), OperationOutput::WriteToMemory(b, _)) => a.0 == b.0,
            _ => false,
        }
    }
}

impl vstd::std_specs::cmp::PartialEqSpecImpl for OperationOutput {
    open spec fn obeys_eq_spec() -> bool {
        true
    }

    open spec fn eq_spec(&self, other: &Self) -> bool {
        self.dest() == other.dest()
    }
}

impl Eq for OperationOutput {}

/// An issued operation: what it writes, the cycle by whose end it retires,
/// and the cycle at which it was issued.
#[derive(Debug)]
pub struct InflightOperation {
    pub output: OperationOutput,
    pub complete_by: u64,
    pub started_at: u64,
}

impl View for InflightOperation {
    type V = PendingWrite;

    open spec fn view(&self) -> PendingWrite {
        PendingWrite {
            dest: self.output.dest(),
            value: self.output.value(),
            complete_by: self.complete_by as int,
            issued_at: self.started_at as int,
        }
    }
}

impl Clone for InflightOperation {
    fn clone(&self) -> (r: Self)
        ensures
            r == *self,
    {
        InflightOperation {
            output: self.output.clone(),
            complete_by: self.complete_by,
            started_at: self.started_at,
        }
    }
}

/// Order of two destinations under `dest_lt`.
pub open spec fn dest_cmp(a: Dest, b: Dest) -> Ordering {
    if dest_lt(a, b) {
        Ordering::Less
    } else if a == b {
        Ordering::Equal
    } else {
        Ordering::Greater
    }
}

impl PartialOrd for OperationOutput {
    fn partial_cmp(&self, other: &Self) -> (r: Option<Ordering>)
        ensures
            r == Some(dest_cmp(self.dest(), other.dest())),
    {
        let r = match (self, other) {
            (OperationOutput::WriteToRegister(a, _), OperationOutput::WriteToRegister(b, _)) => {
                if a.0 < b.0 {
                    Ordering::Less
                } else if a.0 == b.0 {
                    Ordering::Equal
                } else {
                    Ordering::Greater
                }
            },
            (OperationOutput::WriteToMemory(a, _), OperationOutput::WriteToMemory(b, _)) => {
                if a.0 < b.0 {
                    Ordering::Less
                } else if a.0 == b.0 {
                    Ordering::Equal
                } else {
                    Ordering::Greater
                }
            },
            (OperationOutput::WriteToRegister(_, _), OperationOutput::WriteToMemory(_, _)) => Ordering::Less,
            (OperationOutput::WriteToMemory(_, _), OperationOutput::WriteToRegister(_, _)) => Ordering::Greater,
        };
        Some(r)
    }
}

impl vstd::std_specs::cmp::PartialOrdSpecImpl for OperationOutput {
    open spec fn obeys_partial_cmp_spec() -> bool {
        true
    }

    open spec fn partial_cmp_spec(&self, other: &Self) -> Option<Ordering> {
        Some(dest_cmp(self.dest(), other.dest()))
    }
}

/// Order of in-flight operations as kept in a max-heap: the one that
/// completes first is the greatest; at equal completion, by destination.
pub open spec fn inflight_cmp(a: PendingWrite, b: PendingWrite) -> Ordering {
    if a.complete_by < b.complete_by {
        Ordering::Greater
    } else if a.complete_by > b.complete_by {
        Ordering::Less
    } else {
        dest_cmp(a.dest, b.dest)
    }
}

impl PartialEq for InflightOperation {
    fn eq(&self, other: &Self) -> (r: bool)
        ensures
            r == (self.complete_by == other.complete_by && self.output.dest() == other.output.dest()),
    {
        self.complete_by == other.complete_by && self.output == other.output
    }
}

impl vstd::std_specs::cmp::PartialEqSpecImpl for InflightOperation {
    open spec fn obeys_eq_spec() -> bool {
        true
    }

    open spec fn eq_spec(&self, other: &Self) -> bool {
        self.complete_by == other.complete_by && self.output.dest() == other.output.dest()
    }
}

impl Eq for InflightOperation {}

impl PartialOrd for InflightOperation {
    fn partial_cmp(&self, other: &Self) -> (r: Option<Ordering>)
        ensures
            r == Some(inflight_cmp(self@, other@)),
    {
        if self.complete_by < other.complete_by {
            Some(Ordering::Greater)
        } else if self.complete_by > other.complete_by {
            Some(Ordering::Less)
        } else {
            self.output.partial_cmp(&other.output)
        }
    }
}

impl vstd::std_specs::cmp::PartialOrdSpecImpl for InflightOperation {
    open spec fn obeys_partial_cmp_spec() -> bool {
        true
    }

    open spec fn partial_cmp_spec(&self, other: &Self) -> Option<Ordering> {
        Some(inflight_cmp(self@, other@))
    }
}

impl InflightOperation {
    /// `ldi dst c` issued at `cycle`.
    pub fn from_ldi(cycle: u64, dst: Reg, constant: Const) -> (r: Self)
        requires
            cycle + OperationLatency::LDI <= u64::MAX,
        ensures
            r@ == (PendingWrite {
                dest: Dest::Register(dst.0),
                value: Poly::Num(constant.0),
                complete_by: cycle + OperationLatency::LDI,
                issued_at: cycle as int,
            }),
            r.output is WriteToRegister && r.output->WriteToRegister_0 == dst,
    {
        InflightOperation {
            output: OperationOutput::WriteToRegister(dst, ExprWrapper::from_const(constant.0)),
            complete_by: cycle + OperationLatency::LDI,
            started_at: cycle,
        }
    }

    /// `ldr dst addr` issued at `cycle`, where the cell held `addr_value`.
    pub fn from_ldr(cycle: u64, dst: Reg, addr_value: &ExprWrapper) -> (r: Self)
        requires
            cycle + OperationLatency::LDR <= u64::MAX,
        ensures
            r@ == (PendingWrite {
                dest: Dest::Register(dst.0),
                value: addr_value@,
                complete_by: cycle + OperationLatency::LDR,
                issued_at: cycle as int,
            }),
            r.output is WriteToRegister && r.output->WriteToRegister_0 == dst,
    {
        InflightOperation {
            output: OperationOutput::WriteToRegister(dst, addr_value.clone()),
            complete_by: cycle + OperationLatency::LDR,
            started_at: cycle,
        }
    }

    /// `str src addr` issued at `cycle`, where `src` held `src_value`.
    pub fn from_str(cycle: u64, src_value: &ExprWrapper, addr: Addr) -> (r: Self)
        requires
            cycle + OperationLatency::STR <= u64::MAX,
        ensures
            r@ == (PendingWrite {
                dest: Dest::Memory(addr.0),
                value: src_value@,
                complete_by: cycle + OperationLatency::STR,
                issued_at: cycle as int,
            }),
            r.output is WriteToMemory && r.output->WriteToMemory_0 == addr,
    {
        InflightOperation {
            output: OperationOutput::WriteToMemory(addr, src_value.clone()),
            complete_by: cycle + OperationLatency::STR,
            started_at: cycle,
        }
    }

    /// `add dst src1 src2` issued at `cycle`: writes `src2 + src1`.
    pub fn from_add(cycle: u64, dst: Reg, src1_value: &ExprWrapper, src2_value: &ExprWrapper) -> (r: Self)
        requires
            cycle + OperationLatency::ADD <= u64::MAX,
        ensures
            r@ == (PendingWrite {
                dest: Dest::Register(dst.0),
                value: Poly::Add(Box::new(src2_value@), Box::new(src1_value@)),
                complete_by: cycle + OperationLatency::ADD,
                issued_at: cycle as int,
            }),
            r.output is WriteToRegister && r.output->WriteToRegister_0 == dst,
    {
        InflightOperation {
            output: OperationOutput::WriteToRegister(dst, src2_value.plus(src1_value)),
            complete_by: cycle + OperationLatency::ADD,
            started_at: cycle,
        }
    }

    /// `sub dst src1 src2` issued at `cycle`: writes `src1 - src2`.
    pub fn from_sub(cycle: u64, dst: Reg, src1_value: &ExprWrapper, src2_value: &ExprWrapper) -> (r: Self)
        requires
            cycle + OperationLatency::SUB <= u64::MAX,
        ensures
            r@ == (PendingWrite {
                dest: Dest::Register(dst.0),
                value: Poly::Sub(Box::new(src1_value@), Box::new(src2_value@)),
                complete_by: cycle + OperationLatency::SUB,
                issued_at: cycle as int,
            }),
            r.output is WriteToRegister && r.output->WriteToRegister_0 == dst,
    {
        InflightOperation {
            output: OperationOutput::WriteToRegister(dst, src1_value.minus(src2_value)),
            complete_by: cycle + OperationLatency::SUB,
            started_at: cycle,
        }
    }

    /// `mul dst src1 src2` issued at `cycle`: writes `src1 * src2`.
    pub fn from_mul(cycle: u64, dst: Reg, src1_value: &ExprWrapper, src2_value: &ExprWrapper) -> (r: Self)
        requires
            cycle + OperationLatency::MUL <= u64::MAX,
        ensures
            r@ == (PendingWrite {
                dest: Dest::Register(dst.0),
                value: Poly::Mul(Box::new(src1_value@), Box::new(src2_value@)),
                complete_by: cycle + OperationLatency::MUL,
                issued_at: cycle as int,
            }),
            r.output is WriteToRegister && r.output->WriteToRegister_0 == dst,
    {
        InflightOperation {
            output: OperationOutput::WriteToRegister(dst, src1_value.times(src2_value)),
            complete_by: cycle + OperationLatency::MUL,
            started_at: cycle,
        }
    }

    pub fn get_output(&self) -> (r: &OperationOutput)
        ensures
            *r == self.output,
    {
        &self.output
    }

    pub fn get_complete_by(&self) -> (r: u64)
        ensures
            r == self.complete_by,
    {
        self.complete_by
    }

    /// The cycle at which the operation was issued.
    pub fn get_instruction(&self) -> (r: u64)
        ensures
            r == self.started_at,
    {
        self.started_at
    }
}

} // verus!
