//! The cycle-accurate execution engine.

use std::collections::HashMap;

use crate::expr::{ExprWrapper, Poly};
use crate::inflight_operation::{
    dest_lt, Dest, InflightOperation, OperationLatency, OperationOutput, PendingWrite,
};
use crate::instruction::Instruction;
use crate::types::{Addr, Const, Reg};
use vstd::prelude::*;

verus! {

pub const REGISTER_COUNT: usize = 8;

/// Why a computation stopped.
#[derive(Debug, Clone, Copy, PartialEq, Eq, Structural)]
pub enum ComputeError {
    /// The machine has already run a program.
    Terminated,
    /// An operation names a register outside `0..8`.
    InvalidRegister { reg: Reg, pc: u64 },
    /// An operation reads a register that was never written.
    UninitializedRegister { reg: Reg, pc: u64 },
    /// `ldr` reads a memory cell that holds nothing.
    UninitializedMemory { addr: Addr, pc: u64 },
    /// Two operations write one register at the end of cycle `pc`; they
    /// were issued at cycles `inst1` and `inst2`.
    RegisterDataRace { reg: Reg, pc: u64, inst1: u64, inst2: u64 },
    /// Two operations write one memory cell at the end of cycle `pc`.
    MemoryDataRace { addr: Addr, pc: u64, inst1: u64, inst2: u64 },
}

/// Model of the machine's state.
pub struct MachineModel {
    /// Register contents; `None` until first written.
    pub regs: Seq<Option<Poly>>,
    /// Memory cells that hold a value.
    pub mem: Map<u32, Poly>,
    /// The current cycle.
    pub pc: u64,
    /// In-flight operations, in the order they were issued.
    pub pending: Seq<PendingWrite>,
    pub allow_data_race: bool,
}

/// The write of an operation issued now that retires after `latency` cycles.
pub open spec fn write_at(m: MachineModel, dest: Dest, value: Poly, latency: u64) -> PendingWrite {
    PendingWrite { dest, value, complete_by: m.pc + latency, issued_at: m.pc as int }
}

/// Reading a source register at issue.
pub open spec fn read_reg(m: MachineModel, r: Reg) -> Result<Poly, ComputeError> {
    if r.0 >= REGISTER_COUNT {
        Err(ComputeError::InvalidRegister { reg: r, pc: m.pc })
    } else if m.regs[r.0 as int] is Some {
        Ok(m.regs[r.0 as int]->Some_0)
    } else {
        Err(ComputeError::UninitializedRegister { reg: r, pc: m.pc })
    }
}

/// Reading a memory cell at issue.
pub open spec fn read_mem(m: MachineModel, a: Addr) -> Result<Poly, ComputeError> {
    if m.mem.contains_key(a.0) {
        Ok(m.mem[a.0])
    } else {
        Err(ComputeError::UninitializedMemory { addr: a, pc: m.pc })
    }
}

/// `ldi dst c`: the destination is checked, the constant is the value.
pub open spec fn issue_ldi(m: MachineModel, slot: Option<(Reg, Const)>) -> Result<Option<PendingWrite>, ComputeError> {
    match slot {
        None => Ok(None),
        Some((dst, c)) => if dst.0 >= REGISTER_COUNT {
            Err(ComputeError::InvalidRegister { reg: dst, pc: m.pc })
        } else {
            Ok(Some(write_at(m, Dest::Register(dst.0), Poly::Num(c.0), OperationLatency::LDI)))
        },
    }
}

/// `ldr dst addr`: the destination is checked, then the cell is read.
pub open spec fn issue_ldr(m: MachineModel, slot: Option<(Reg, Addr)>) -> Result<Option<PendingWrite>, ComputeError> {
    match slot {
        None => Ok(None),
        Some((dst, a)) => if dst.0 >= REGISTER_COUNT {
            Err(ComputeError::InvalidRegister { reg: dst, pc: m.pc })
        } else {
            match read_mem(m, a) {
                Err(e) => Err(e),
                Ok(v) => Ok(Some(write_at(m, Dest::Register(dst.0), v, OperationLatency::LDR))),
            }
        },
    }
}

/// `str src addr`: the source register is read.
pub open spec fn issue_str(m: MachineModel, slot: Option<(Reg, Addr)>) -> Result<Option<PendingWrite>, ComputeError> {
    match slot {
        None => Ok(None),
        Some((src, a)) => match read_reg(m, src) {
            Err(e) => Err(e),
            Ok(v) => Ok(Some(write_at(m, Dest::Memory(a.0), v, OperationLatency::STR))),
        },
    }
}

/// The three register-to-register opcodes.
pub enum Arith {
    Add,
    Sub,
    Mul,
}

/// What an arithmetic opcode writes, from the values of `src1` and `src2`.
pub open spec fn arith_value(op: Arith, v1: Poly, v2: Poly) -> Poly {
    match op {
        Arith::Add => Poly::Add(Box::new(v2), Box::new(v1)),
        Arith::Sub => Poly::Sub(Box::new(v1), Box::new(v2)),
        Arith::Mul => Poly::Mul(Box::new(v1), Box::new(v2)),
    }
}

/// Cycles from issue to write of an arithmetic opcode.
pub open spec fn arith_latency(op: Arith) -> u64 {
    match op {
        Arith::Add => OperationLatency::ADD,
        Arith::Sub => OperationLatency::SUB,
        Arith::Mul => OperationLatency::MUL,
    }
}

/// The destination is checked first, then `src1`, then `src2`.
pub open spec fn issue_arith(m: MachineModel, op: Arith, slot: Option<(Reg, Reg, Reg)>) -> Result<Option<PendingWrite>, ComputeError> {
    match slot {
        None => Ok(None),
        Some((dst, s1, s2)) => if dst.0 >= REGISTER_COUNT {
            Err(ComputeError::InvalidRegister { reg: dst, pc: m.pc })
        } else {
            match read_reg(m, s1) {
                Err(e) => Err(e),
                Ok(v1) => match read_reg(m, s2) {
                    Err(e) => Err(e),
                    Ok(v2) => Ok(Some(write_at(m, Dest::Register(dst.0), arith_value(op, v1, v2), arith_latency(op)))),
                },
            }
        },
    }
}

/// Appends the outcome of one slot to those of the slots before it; the
/// first failure wins.
pub open spec fn then_issue(
    acc: Result<Seq<PendingWrite>, ComputeError>,
    next: Result<Option<PendingWrite>, ComputeError>,
) -> Result<Seq<PendingWrite>, ComputeError> {
    match acc {
        Err(e) => Err(e),
        Ok(ws) => match next {
            Err(e) => Err(e),
            Ok(None) => Ok(ws),
            Ok(Some(w)) => Ok(ws.push(w)),
        },
    }
}

/// The operations that an instruction issues at cycle `m.pc`, in slot
/// order. Every operand is read from `m`, the state at the start of the cycle.
pub open spec fn issued(m: MachineModel, inst: Instruction) -> Result<Seq<PendingWrite>, ComputeError> {
    let a = then_issue(Ok(Seq::empty()), issue_ldi(m, inst.ldi));
    let b = then_issue(a, issue_ldr(m, inst.ldr));
    let c = then_issue(b, issue_str(m, inst.str));
    let d = then_issue(c, issue_arith(m, Arith::Add, inst.add));
    let e = then_issue(d, issue_arith(m, Arith::Sub, inst.sub));
    then_issue(e, issue_arith(m, Arith::Mul, inst.mul))
}

/// The writes of `p` that retire at the end of the cycle before `t`, in issue order.
pub open spec fn due_writes(p: Seq<PendingWrite>, t: int) -> Seq<PendingWrite>
    decreases p.len(),
{
    if p.len() == 0 {
        Seq::empty()
    } else if p.last().complete_by == t {
        due_writes(p.drop_last(), t).push(p.last())
    } else {
        due_writes(p.drop_last(), t)
    }
}

/// The writes of `p` that stay in flight.
pub open spec fn later_writes(p: Seq<PendingWrite>, t: int) -> Seq<PendingWrite>
    decreases p.len(),
{
    if p.len() == 0 {
        Seq::empty()
    } else if p.last().complete_by != t {
        later_writes(p.drop_last(), t).push(p.last())
    } else {
        later_writes(p.drop_last(), t)
    }
}

/// How many of the first `n` writes of `d` go to `x`.
pub open spec fn count_to(d: Seq<PendingWrite>, x: Dest, n: int) -> nat
    decreases n,
{
    if n <= 0 {
        0
    } else {
        count_to(d, x, n - 1) + if d[n - 1].dest == x { 1nat } else { 0nat }
    }
}

/// Index of the first write to `x` among the first `n` of `d`; -1 if none.
pub open spec fn first_to(d: Seq<PendingWrite>, x: Dest, n: int) -> int
    decreases n,
{
    if n <= 0 {
        -1
    } else if first_to(d, x, n - 1) < 0 && d[n - 1].dest == x {
        n - 1
    } else {
        first_to(d, x, n - 1)
    }
}

/// Among the first `n` writes of `d`, the index of the second write to the
/// smallest destination that is written twice; -1 if none is.
pub open spec fn race_pick(d: Seq<PendingWrite>, n: int) -> int
    decreases n,
{
    if n <= 0 {
        -1
    } else {
        let k = race_pick(d, n - 1);
        if count_to(d, d[n - 1].dest, n - 1) == 1 && (k < 0 || dest_lt(d[n - 1].dest, d[k].dest)) {
            n - 1
        } else {
            k
        }
    }
}

/// The race reported between the first two writers of `d[k].dest`.
pub open spec fn race_error(pc: u64, d: Seq<PendingWrite>, k: int) -> ComputeError {
    let j = first_to(d, d[k].dest, k);
    match d[k].dest {
        Dest::Register(r) => ComputeError::RegisterDataRace {
            reg: Reg(r),
            pc,
            inst1: d[j].issued_at as u64,
            inst2: d[k].issued_at as u64,
        },
        Dest::Memory(a) => ComputeError::MemoryDataRace {
            addr: Addr(a),
            pc,
            inst1: d[j].issued_at as u64,
            inst2: d[k].issued_at as u64,
        },
    }
}

/// Registers and memory after the writes `d`, applied in order.
pub open spec fn apply_writes(regs: Seq<Option<Poly>>, mem: Map<u32, Poly>, d: Seq<PendingWrite>) -> (Seq<Option<Poly>>, Map<u32, Poly>)
    decreases d.len(),
{
    if d.len() == 0 {
        (regs, mem)
    } else {
        let (r, m) = apply_writes(regs, mem, d.drop_last());
        match d.last().dest {
            Dest::Register(i) => (r.update(i as int, Some(d.last().value)), m),
            Dest::Memory(a) => (r, m.insert(a, d.last().value)),
        }
    }
}

/// The end of cycle `m.pc`: every operation due retires, and the clock
/// advances. Two writes to one destination are a race, fatal unless races
/// are allowed; then the one issued last wins.
pub open spec fn retire(m: MachineModel) -> Result<MachineModel, ComputeError> {
    let d = due_writes(m.pending, m.pc + 1);
    let k = race_pick(d, d.len() as int);
    if k >= 0 && !m.allow_data_race {
        Err(race_error(m.pc, d, k))
    } else {
        let (regs, mem) = apply_writes(m.regs, m.mem, d);
        Ok(MachineModel {
            regs,
            mem,
            pc: (m.pc + 1) as u64,
            pending: later_writes(m.pending, m.pc + 1),
            allow_data_race: m.allow_data_race,
        })
    }
}

/// One instruction: issue at cycle `m.pc`, then the end of that cycle.
pub open spec fn step(m: MachineModel, inst: Instruction) -> Result<MachineModel, ComputeError> {
    match issued(m, inst) {
        Err(e) => Err(e),
        Ok(ws) => retire(MachineModel { pending: m.pending + ws, ..m }),
    }
}

/// The state after the instructions of `p`, one per cycle.
pub open spec fn run(m: MachineModel, p: Seq<Instruction>) -> Result<MachineModel, ComputeError>
    decreases p.len(),
{
    if p.len() == 0 {
        Ok(m)
    } else {
        match run(m, p.drop_last()) {
            Err(e) => Err(e),
            Ok(m1) => step(m1, p.last()),
        }
    }
}

/// Ends cycles until nothing is in flight, for at most `fuel` cycles; no
/// operation stays in flight longer than `OperationLatency::MUL` cycles.
pub open spec fn drain(m: MachineModel, fuel: nat) -> Result<MachineModel, ComputeError>
    decreases fuel,
{
    if m.pending.len() == 0 || fuel == 0 {
        Ok(m)
    } else {
        match retire(m) {
            Err(e) => Err(e),
            Ok(m1) => drain(m1, (fuel - 1) as nat),
        }
    }
}

/// What running `p` from `m` yields: the final value of register 0 and the
/// final state.
pub open spec fn outcome(m: MachineModel, p: Seq<Instruction>) -> Result<(Poly, MachineModel), ComputeError> {
    match run(m, p) {
        Err(e) => Err(e),
        Ok(m1) => match drain(m1, OperationLatency::MUL as nat) {
            Err(e) => Err(e),
            Ok(m2) => match m2.regs[0] {
                Some(v) => Ok((v, m2)),
                None => Err(ComputeError::UninitializedRegister { reg: Reg(0), pc: m2.pc }),
            },
        },
    }
}

/// Model of a register's content.
pub open spec fn opt_view(o: Option<ExprWrapper>) -> Option<Poly> {
    match o {
        Some(e) => Some(e@),
        None => None,
    }
}

/// Model of the result of a register or memory read.
pub open spec fn ref_result_view(r: Result<&ExprWrapper, ComputeError>) -> Result<Poly, ComputeError> {
    match r {
        Ok(e) => Ok(e@),
        Err(e) => Err(e),
    }
}

/// A machine with eight registers, a sparse 32-bit memory and a clock. It
/// runs one program.
pub struct Machine {
    regs: Vec<Option<ExprWrapper>>,
    mem: HashMap<u32, ExprWrapper>,
    pc: u64,
    /// In-flight operations, in issue order.
    pending_operations: Vec<InflightOperation>,
    allow_data_race: bool,
    terminated: bool,
}

impl View for Machine {
    type V = MachineModel;

    closed spec fn view(&self) -> MachineModel {
        MachineModel {
            regs: self.regs@.map_values(|o: Option<ExprWrapper>| opt_view(o)),
            mem: self.mem@.map_values(|e: ExprWrapper| e@),
            pc: self.pc,
            pending: self.pending_operations@.map_values(|op: InflightOperation| op@),
            allow_data_race: self.allow_data_race,
        }
    }
}

/// Every in-flight operation retires within the next `OperationLatency::MUL`
/// cycles, and writes a valid register if any.
pub open spec fn in_flight_ok(m: MachineModel) -> bool {
    forall|i: int| 0 <= i < m.pending.len() ==> {
        &&& m.pc < #[trigger] m.pending[i].complete_by <= m.pc + OperationLatency::MUL
        &&& m.pending[i].issued_at <= m.pc
        &&& (m.pending[i].dest matches Dest::Register(r) ==> r < REGISTER_COUNT)
    }
}

impl Machine {
    /// Whether the machine has already run a program.
    pub closed spec fn is_terminated(&self) -> bool {
        self.terminated
    }

    /// Eight registers; in-flight operations as `in_flight_ok` says; a machine
    /// that has not run yet is at cycle 0 with nothing in flight.
    pub closed spec fn wf(&self) -> bool {
        &&& self.regs@.len() == REGISTER_COUNT
        &&& in_flight_ok(self@)
        &&& !self.terminated ==> self.pc == 0 && self.pending_operations@.len() == 0
    }

    /// A fresh machine: empty registers, memory `mem`, clock at 0.
    pub fn new(mem: HashMap<u32, ExprWrapper>) -> (r: Self)
        ensures
            r.wf(),
            !r.is_terminated(),
            r@ == (MachineModel {
                regs: Seq::new(REGISTER_COUNT as nat, |i: int| None),
                mem: mem@.map_values(|e: ExprWrapper| e@),
                pc: 0,
                pending: Seq::empty(),
                allow_data_race: false,
            }),
    {
        let mut regs: Vec<Option<ExprWrapper>> = Vec::new();
        let mut i: usize = 0;
        while i < REGISTER_COUNT
            invariant
                i <= REGISTER_COUNT,
                regs@.len() == i,
                forall|j: int| 0 <= j < i ==> regs@[j] is None,
            decreases REGISTER_COUNT - i,
        {
            regs.push(None);
            i = i + 1;
        }
        let r = Machine {
            regs,
            mem,
            pc: 0,
            pending_operations: Vec::new(),
            allow_data_race: false,
            terminated: false,
        };
        assert(r@.regs =~= Seq::new(REGISTER_COUNT as nat, |i: int| None));
        assert(r@.pending =~= Seq::empty());
        r
    }

    /// Sets whether simultaneous writes to one destination are tolerated.
    pub fn allow_data_race(&mut self, allow: bool)
        ensures
            final(self)@ == (MachineModel { allow_data_race: allow, ..old(self)@ }),
            final(self).is_terminated() == old(self).is_terminated(),
            old(self).wf() ==> final(self).wf(),
    {
        self.allow_data_race = allow;
    }

    /// The clock: the number of cycles ended so far.
    pub fn pc(&self) -> (r: u64)
        ensures
            r == self@.pc,
    {
        self.pc
    }

    /// `Ok(reg)` when `reg` names one of the eight registers.
    fn validated_register(&self, reg: Reg) -> (r: Result<Reg, ComputeError>)
        ensures
            r == (if reg.0 >= REGISTER_COUNT {
                Err(ComputeError::InvalidRegister { reg, pc: self@.pc })
            } else {
                Ok(reg)
            }),
    {
        if reg.0 >= REGISTER_COUNT as u32 {
            return Err(ComputeError::InvalidRegister { reg, pc: self.pc });
        }
        Ok(reg)
    }

    /// The value of register `reg`.
    fn get_register_value(&self, reg: Reg) -> (r: Result<&ExprWrapper, ComputeError>)
        requires
            self.wf(),
        ensures
            ref_result_view(r) == read_reg(self@, reg),
    {
        if reg.0 >= REGISTER_COUNT as u32 {
            return Err(ComputeError::InvalidRegister { reg, pc: self.pc });
        }
        match &self.regs[reg.0 as usize] {
            Some(v) => Ok(v),
            None => Err(ComputeError::UninitializedRegister { reg, pc: self.pc }),
        }
    }

    /// The value of memory cell `addr`.
    pub fn get_address_value(&self, addr: &Addr) -> (r: Result<&ExprWrapper, ComputeError>)
        ensures
            ref_result_view(r) == read_mem(self@, *addr),
    {
        broadcast use vstd::std_specs::hash::group_hash_axioms;

        match self.mem.get(&addr.0) {
            Some(v) => Ok(v),
            None => Err(ComputeError::UninitializedMemory { addr: *addr, pc: self.pc }),
        }
    }

    /// Puts `op` in flight.
    fn push_op(&mut self, op: InflightOperation)
        requires
            old(self).wf(),
            old(self).is_terminated(),
            old(self)@.pc < op@.complete_by <= old(self)@.pc + OperationLatency::MUL,
            op@.issued_at <= old(self)@.pc,
            op@.dest matches Dest::Register(r) ==> r < REGISTER_COUNT,
        ensures
            final(self).wf(),
            final(self)@ == (MachineModel { pending: old(self)@.pending.push(op@), ..old(self)@ }),
            final(self).regs@.len() == old(self).regs@.len(),
            final(self).terminated == old(self).terminated,
    {
        let ghost before = self.pending_operations@;
        self.pending_operations.push(op);
        assert(self.pending_operations@.map_values(|op: InflightOperation| op@) =~= before.map_values(
            |op: InflightOperation| op@,
        ).push(op@));
    }

    /// Issues the operations of `instruction` at the current cycle, reading
    /// every operand now.
    fn begin_execution(&mut self, instruction: &Instruction) -> (r: Result<(), ComputeError>)
        requires
            old(self).wf(),
            old(self).is_terminated(),
            old(self)@.pc + OperationLatency::MUL <= u64::MAX,
        ensures
            final(self).is_terminated(),
            final(self).wf(),
            match issued(old(self)@, *instruction) {
                Ok(ws) => r is Ok && final(self)@ == (MachineModel {
                    pending: old(self)@.pending + ws,
                    ..old(self)@
                }),
                Err(e) => r == Err::<(), ComputeError>(e),
            },
    {
        let ghost m = self@;
        let ghost mut acc: Seq<PendingWrite> = Seq::empty();
        if let Some((dst, constant)) = instruction.ldi {
            let dst = match self.validated_register(dst) {
                Ok(d) => d,
                Err(e) => return Err(e),
            };
            let op = InflightOperation::from_ldi(self.pc, dst, constant);
            proof {
                acc = acc.push(op@);
            }
            self.push_op(op);
        }
        assert(then_issue(Ok(Seq::empty()), issue_ldi(m, instruction.ldi)) == Ok::<Seq<PendingWrite>, ComputeError>(acc));
        assert(self@ == (MachineModel { pending: m.pending + acc, ..m })) by {
            assert(m.pending + acc =~= self@.pending);
        }
        let ghost acc1 = acc;
        if let Some((dst, addr)) = instruction.ldr {
            let dst = match self.validated_register(dst) {
                Ok(d) => d,
                Err(e) => return Err(e),
            };
            let value = match self.get_address_value(&addr) {
                Ok(v) => v,
                Err(e) => return Err(e),
            };
            let op = InflightOperation::from_ldr(self.pc, dst, value);
            proof {
                acc = acc.push(op@);
            }
            self.push_op(op);
        }
        assert(then_issue(Ok(acc1), issue_ldr(m, instruction.ldr)) == Ok::<Seq<PendingWrite>, ComputeError>(acc));
        assert(self@ == (MachineModel { pending: m.pending + acc, ..m })) by {
            assert(m.pending + acc =~= self@.pending);
        }
        let ghost acc2 = acc;
        if let Some((src, addr)) = instruction.str {
            let value = match self.get_register_value(src) {
                Ok(v) => v,
                Err(e) => return Err(e),
            };
            let op = InflightOperation::from_str(self.pc, value, addr);
            proof {
                acc = acc.push(op@);
            }
            self.push_op(op);
        }
        assert(then_issue(Ok(acc2), issue_str(m, instruction.str)) == Ok::<Seq<PendingWrite>, ComputeError>(acc));
        assert(self@ == (MachineModel { pending: m.pending + acc, ..m })) by {
            assert(m.pending + acc =~= self@.pending);
        }
        let ghost acc3 = acc;
        if let Some((dst, src1, src2)) = instruction.add {
            let dst = match self.validated_register(dst) {
                Ok(d) => d,
                Err(e) => return Err(e),
            };
            let v1 = match self.get_register_value(src1) {
                Ok(v) => v,
                Err(e) => return Err(e),
            };
            let v2 = match self.get_register_value(src2) {
                Ok(v) => v,
                Err(e) => return Err(e),
            };
            let op = InflightOperation::from_add(self.pc, dst, v1, v2);
            proof {
                acc = acc.push(op@);
            }
            self.push_op(op);
        }
        assert(then_issue(Ok(acc3), issue_arith(m, Arith::Add, instruction.add)) == Ok::<Seq<PendingWrite>, ComputeError>(acc));
        assert(self@ == (MachineModel { pending: m.pending + acc, ..m })) by {
            assert(m.pending + acc =~= self@.pending);
        }
        let ghost acc4 = acc;
        if let Some((dst, src1, src2)) = instruction.sub {
            let dst = match self.validated_register(dst) {
                Ok(d) => d,
                Err(e) => return Err(e),
            };
            let v1 = match self.get_register_value(src1) {
                Ok(v) => v,
                Err(e) => return Err(e),
            };
            let v2 = match self.get_register_value(src2) {
                Ok(v) => v,
                Err(e) => return Err(e),
            };
            let op = InflightOperation::from_sub(self.pc, dst, v1, v2);
            proof {
                acc = acc.push(op@);
            }
            self.push_op(op);
        }
        assert(then_issue(Ok(acc4), issue_arith(m, Arith::Sub, instruction.sub)) == Ok::<Seq<PendingWrite>, ComputeError>(acc));
        assert(self@ == (MachineModel { pending: m.pending + acc, ..m })) by {
            assert(m.pending + acc =~= self@.pending);
        }
        let ghost acc5 = acc;
        if let Some((dst, src1, src2)) = instruction.mul {
            let dst = match self.validated_register(dst) {
                Ok(d) => d,
                Err(e) => return Err(e),
            };
            let v1 = match self.get_register_value(src1) {
                Ok(v) => v,
                Err(e) => return Err(e),
            };
            let v2 = match self.get_register_value(src2) {
                Ok(v) => v,
                Err(e) => return Err(e),
            };
            let op = InflightOperation::from_mul(self.pc, dst, v1, v2);
            proof {
                acc = acc.push(op@);
            }
            self.push_op(op);
        }
        assert(then_issue(Ok(acc5), issue_arith(m, Arith::Mul, instruction.mul)) == Ok::<Seq<PendingWrite>, ComputeError>(acc));
        assert(self@ == (MachineModel { pending: m.pending + acc, ..m })) by {
            assert(m.pending + acc =~= self@.pending);
        }
        Ok(())
    }

    /// Ends the current cycle: retires every operation due now, in issue
    /// order, and advances the clock.
    fn end_cycle(&mut self) -> (r: Result<(), ComputeError>)
        requires
            old(self).wf(),
            old(self).is_terminated(),
            old(self)@.pc < u64::MAX,
        ensures
            final(self).is_terminated(),
            match retire(old(self)@) {
                Ok(m) => r is Ok && final(self)@ == m && final(self).wf(),
                Err(e) => r == Err::<(), ComputeError>(e),
            },
    {
        let ghost m = self@;
        let target: u64 = self.pc + 1;
        let mut due: Vec<InflightOperation> = Vec::new();
        let mut later: Vec<InflightOperation> = Vec::new();
        let n = self.pending_operations.len();
        let mut i: usize = 0;
        while i < n
            invariant
                i <= n,
                n == self.pending_operations@.len(),
                self@ == m,
                self.wf(),
                target == m.pc + 1,
                due@.map_values(|o: InflightOperation| o@) == due_writes(m.pending.take(i as int), target as int),
                later@.map_values(|o: InflightOperation| o@) == later_writes(m.pending.take(i as int), target as int),
                forall|j: int| 0 <= j < due@.len() ==> (#[trigger] due@[j]@.dest matches Dest::Register(r) ==> r < REGISTER_COUNT),
                forall|j: int| 0 <= j < later@.len() ==> {
                    &&& target < #[trigger] later@[j]@.complete_by <= m.pc + OperationLatency::MUL
                    &&& later@[j]@.issued_at <= m.pc
                    &&& (later@[j]@.dest matches Dest::Register(r) ==> r < REGISTER_COUNT)
                },
            decreases n - i,
        {
            let op = self.pending_operations[i].clone();
            let ghost prefix = m.pending.take(i as int + 1);
            assert(prefix.drop_last() =~= m.pending.take(i as int));
            assert(prefix.last() == m.pending[i as int]);
            let ghost due_before = due@;
            let ghost later_before = later@;
            if op.complete_by == target {
                due.push(op);
                assert(due@.map_values(|o: InflightOperation| o@) =~= due_before.map_values(
                    |o: InflightOperation| o@,
                ).push(m.pending[i as int]));
            } else {
                later.push(op);
                assert(later@.map_values(|o: InflightOperation| o@) =~= later_before.map_values(
                    |o: InflightOperation| o@,
                ).push(m.pending[i as int]));
            }
            i = i + 1;
        }
        assert(m.pending.take(n as int) =~= m.pending);
        let ghost d = due_writes(m.pending, target as int);
        assert(forall|j: int| 0 <= j < due@.len() ==> due@[j]@ == d[j]);

        // The race that a heap ordered by destination would meet first.
        let dn = due.len();
        let mut found = false;
        let mut best_k: usize = 0;
        let mut best_j: usize = 0;
        let mut k: usize = 0;
        while k < dn
            invariant
                k <= dn,
                dn == due@.len(),
                dn == d.len(),
                forall|j: int| 0 <= j < due@.len() ==> #[trigger] due@[j]@ == d[j],
                found ==> race_pick(d, k as int) == best_k && best_k < k && best_j == first_to(
                    d,
                    d[best_k as int].dest,
                    best_k as int,
                ) && best_j < best_k,
                !found ==> race_pick(d, k as int) == -1,
                best_k <= k,
            decreases dn - k,
        {
            let mut cnt: usize = 0;
            let mut first: usize = 0;
            let mut j: usize = 0;
            while j < k
                invariant
                    j <= k,
                    k < dn,
                    dn == due@.len(),
                    dn == d.len(),
                    forall|x: int| 0 <= x < due@.len() ==> #[trigger] due@[x]@ == d[x],
                    cnt == count_to(d, d[k as int].dest, j as int),
                    cnt <= j,
                    cnt == 0 ==> first_to(d, d[k as int].dest, j as int) == -1,
                    cnt > 0 ==> first_to(d, d[k as int].dest, j as int) == first && first < j,
                decreases k - j,
            {
                assert(due@[j as int]@ == d[j as int]);
                assert(due@[k as int]@ == d[k as int]);
                if due[j].output == due[k].output {
                    if cnt == 0 {
                        first = j;
                    }
                    cnt = cnt + 1;
                }
                j = j + 1;
            }
            assert(due@[k as int]@ == d[k as int]);
            assert(due@[best_k as int]@ == d[best_k as int]);
            if cnt == 1 && (!found || due[k].output < due[best_k].output) {
                found = true;
                best_k = k;
                best_j = first;
            }
            k = k + 1;
        }
        if found && !self.allow_data_race {
            let err = match &due[best_k].output {
                OperationOutput::WriteToRegister(reg, _) => ComputeError::RegisterDataRace {
                    reg: *reg,
                    pc: self.pc,
                    inst1: due[best_j].started_at,
                    inst2: due[best_k].started_at,
                },
                OperationOutput::WriteToMemory(addr, _) => ComputeError::MemoryDataRace {
                    addr: *addr,
                    pc: self.pc,
                    inst1: due[best_j].started_at,
                    inst2: due[best_k].started_at,
                },
            };
            return Err(err);
        }

        // Apply the writes in issue order: the last writer of a destination wins.
        let mut a: usize = 0;
        while a < dn
            invariant
                a <= dn,
                dn == due@.len(),
                dn == d.len(),
                forall|j: int| 0 <= j < due@.len() ==> #[trigger] due@[j]@ == d[j],
                forall|j: int| 0 <= j < due@.len() ==> (#[trigger] due@[j]@.dest matches Dest::Register(r) ==> r < REGISTER_COUNT),
                self.regs@.len() == REGISTER_COUNT,
                (self@.regs, self@.mem) == apply_writes(m.regs, m.mem, d.take(a as int)),
                self.pc == m.pc,
                self.terminated,
                self.allow_data_race == m.allow_data_race,
            decreases dn - a,
        {
            let ghost regs_before = self.regs@;
            let ghost mem_before = self.mem@;
            assert(d.take(a as int + 1).drop_last() =~= d.take(a as int));
            assert(due@[a as int]@ == d[a as int]);
            assert(due@[a as int]@.dest matches Dest::Register(r) ==> r < REGISTER_COUNT);
            match &due[a].output {
                OperationOutput::WriteToRegister(reg, v) => {
                    self.regs[reg.0 as usize] = Some(v.clone());
                    assert(self.regs@.map_values(|o: Option<ExprWrapper>| opt_view(o)) =~= regs_before.map_values(
                        |o: Option<ExprWrapper>| opt_view(o),
                    ).update(reg.0 as int, Some(v@)));
                },
                OperationOutput::WriteToMemory(addr, v) => {
                    broadcast use vstd::std_specs::hash::group_hash_axioms;

                    self.mem.insert(addr.0, v.clone());
                    assert(self.mem@.map_values(|e: ExprWrapper| e@) =~= mem_before.map_values(
                        |e: ExprWrapper| e@,
                    ).insert(addr.0, v@));
                },
            }
            a = a + 1;
        }
        assert(d.take(dn as int) =~= d);
        self.pending_operations = later;
        self.pc = self.pc + 1;
        Ok(())
    }

    /// Runs `program`: one instruction per cycle, then cycles until nothing
    /// is in flight. Returns the final value of register 0. A machine runs
    /// one program: every later call fails with `Terminated`.
    #[verifier::loop_isolation(false)]
    pub fn compute(&mut self, program: &Vec<Instruction>) -> (r: Result<ExprWrapper, ComputeError>)
        requires
            old(self).wf(),
            program@.len() + OperationLatency::MUL < u64::MAX,
        ensures
            final(self).is_terminated(),
            old(self).is_terminated() ==> r == Err::<ExprWrapper, ComputeError>(ComputeError::Terminated)
                && final(self)@ == old(self)@ && final(self).wf(),
            !old(self).is_terminated() ==> match outcome(old(self)@, program@) {
                Ok((v, m)) => r matches Ok(e) && e@ == v && final(self)@ == m && final(self).wf(),
                Err(e) => r == Err::<ExprWrapper, ComputeError>(e),
            },
    {
        if self.terminated {
            return Err(ComputeError::Terminated);
        }
        self.terminated = true;
        let ghost m0 = self@;
        let n = program.len();
        let mut i: usize = 0;
        while i < n
            invariant
                i <= n,
                n == program@.len(),
                n + OperationLatency::MUL < u64::MAX,
                self.wf(),
                self.is_terminated(),
                self@.pc == i,
                run(m0, program@.take(i as int)) == Ok::<MachineModel, ComputeError>(self@),
            decreases n - i,
        {
            assert(program@.take(i as int + 1).drop_last() =~= program@.take(i as int));
            assert(program@.take(i as int + 1).last() == program@[i as int]);
            match self.begin_execution(&program[i]) {
                Ok(()) => {},
                Err(e) => {
                    proof {
                        lemma_run_stops(m0, program@, i as int + 1);
                    }
                    return Err(e);
                },
            }
            match self.end_cycle() {
                Ok(()) => {},
                Err(e) => {
                    proof {
                        lemma_run_stops(m0, program@, i as int + 1);
                    }
                    return Err(e);
                },
            }
            i = i + 1;
        }
        assert(program@.take(n as int) =~= program@);
        let ghost m1 = self@;
        let start: u64 = self.pc;
        while self.pending_operations.len() > 0
            invariant
                self.wf(),
                self.is_terminated(),
                start == m1.pc,
                start + OperationLatency::MUL < u64::MAX,
                start <= self@.pc <= start + OperationLatency::MUL,
                forall|j: int| 0 <= j < self@.pending.len() ==> #[trigger] self@.pending[j].complete_by <= start + OperationLatency::MUL,
                drain(self@, (start + OperationLatency::MUL - self@.pc) as nat) == drain(m1, OperationLatency::MUL as nat),
            decreases start + OperationLatency::MUL - self@.pc,
        {
            let ghost before = self@;
            assert(before.pending.len() > 0);
            assert(before.pc < before.pending[0].complete_by);
            match self.end_cycle() {
                Ok(()) => {},
                Err(e) => return Err(e),
            }
            proof {
                lemma_later_bounded(before.pending, before.pc + 1, start + OperationLatency::MUL);
            }
        }
        match self.get_register_value(Reg(0)) {
            Ok(v) => Ok(v.clone()),
            Err(e) => Err(e),
        }
    }
}

/// Once a prefix of the program fails, the whole program fails the same way.
proof fn lemma_run_stops(m: MachineModel, p: Seq<Instruction>, i: int)
    requires
        0 <= i <= p.len(),
        run(m, p.take(i)) is Err,
    ensures
        run(m, p) == run(m, p.take(i)),
    decreases p.len() - i,
{
    if i < p.len() {
        assert(p.take(i + 1).drop_last() =~= p.take(i));
        lemma_run_stops(m, p, i + 1);
    } else {
        assert(p.take(i) =~= p);
    }
}

/// Operations that stay in flight keep their completion cycles.
proof fn lemma_later_bounded(p: Seq<PendingWrite>, t: int, bound: int)
    requires
        forall|j: int| 0 <= j < p.len() ==> #[trigger] p[j].complete_by <= bound,
    ensures
        forall|j: int| 0 <= j < later_writes(p, t).len() ==> #[trigger] later_writes(p, t)[j].complete_by <= bound,
    decreases p.len(),
{
    if p.len() > 0 {
        let q = p.drop_last();
        assert(forall|j: int| 0 <= j < q.len() ==> q[j] == p[j]);
        lemma_later_bounded(q, t, bound);
    }
}


/// Every operation retires its opcode's latency after the cycle at which it
/// issued.
pub proof fn lemma_completion_cycle(m: MachineModel, inst: Instruction)
    ensures
        issue_ldi(m, inst.ldi) matches Ok(Some(w)) ==> w.issued_at == m.pc && w.complete_by == w.issued_at + OperationLatency::LDI,
        issue_ldr(m, inst.ldr) matches Ok(Some(w)) ==> w.issued_at == m.pc && w.complete_by == w.issued_at + OperationLatency::LDR,
        issue_str(m, inst.str) matches Ok(Some(w)) ==> w.issued_at == m.pc && w.complete_by == w.issued_at + OperationLatency::STR,
        issue_arith(m, Arith::Add, inst.add) matches Ok(Some(w)) ==> w.issued_at == m.pc && w.complete_by == w.issued_at + OperationLatency::ADD,
        issue_arith(m, Arith::Sub, inst.sub) matches Ok(Some(w)) ==> w.issued_at == m.pc && w.complete_by == w.issued_at + OperationLatency::SUB,
        issue_arith(m, Arith::Mul, inst.mul) matches Ok(Some(w)) ==> w.issued_at == m.pc && w.complete_by == w.issued_at + OperationLatency::MUL,
{
}

/// The value of the last write to `x` among `d`, if any.
pub open spec fn last_write_to(d: Seq<PendingWrite>, x: Dest) -> Option<Poly>
    decreases d.len(),
{
    if d.len() == 0 {
        None
    } else if d.last().dest == x {
        Some(d.last().value)
    } else {
        last_write_to(d.drop_last(), x)
    }
}

/// Operands are bound at issue: what an arithmetic operation or a store will
/// write is computed from the registers of the cycle at which it issued.
pub proof fn lemma_operands_read_at_issue(m: MachineModel, op: Arith, dst: Reg, src1: Reg, src2: Reg, addr: Addr)
    ensures
        issue_arith(m, op, Some((dst, src1, src2))) is Ok ==> issue_arith(m, op, Some((dst, src1, src2)))
            == Ok::<Option<PendingWrite>, ComputeError>(Some(write_at(
                m,
                Dest::Register(dst.0),
                arith_value(op, m.regs[src1.0 as int]->Some_0, m.regs[src2.0 as int]->Some_0),
                arith_latency(op),
            ))),
        issue_str(m, Some((src1, addr))) is Ok ==> issue_str(m, Some((src1, addr)))
            == Ok::<Option<PendingWrite>, ComputeError>(Some(write_at(
                m,
                Dest::Memory(addr.0),
                m.regs[src1.0 as int]->Some_0,
                OperationLatency::STR,
            ))),
{
}

proof fn lemma_due_registers_valid(p: Seq<PendingWrite>, t: int)
    requires
        forall|j: int| 0 <= j < p.len() ==> (#[trigger] p[j].dest matches Dest::Register(x) ==> x < REGISTER_COUNT),
    ensures
        forall|j: int| 0 <= j < due_writes(p, t).len() ==> (#[trigger] due_writes(p, t)[j].dest matches Dest::Register(x) ==> x < REGISTER_COUNT),
    decreases p.len(),
{
    if p.len() > 0 {
        let q = p.drop_last();
        assert(forall|j: int| 0 <= j < q.len() ==> q[j] == p[j]);
        lemma_due_registers_valid(q, t);
    }
}

proof fn lemma_apply_register(regs: Seq<Option<Poly>>, mem: Map<u32, Poly>, d: Seq<PendingWrite>, r: u32)
    requires
        r < regs.len(),
        forall|j: int| 0 <= j < d.len() ==> (#[trigger] d[j].dest matches Dest::Register(x) ==> x < regs.len()),
    ensures
        apply_writes(regs, mem, d).0.len() == regs.len(),
        apply_writes(regs, mem, d).0[r as int] == match last_write_to(d, Dest::Register(r)) {
            Some(v) => Some(v),
            None => regs[r as int],
        },
    decreases d.len(),
{
    if d.len() > 0 {
        let q = d.drop_last();
        assert(forall|j: int| 0 <= j < q.len() ==> q[j] == d[j]);
        assert(d.last() == d[d.len() - 1]);
        lemma_apply_register(regs, mem, q, r);
    }
}

/// Retirement writes the values captured at issue: after the end of a cycle
/// each register holds what the last operation due to write it captured when
/// it issued, or what it held before if none was due.
pub proof fn lemma_retire_writes_issued_values(m: MachineModel, r: u32)
    requires
        in_flight_ok(m),
        m.regs.len() == REGISTER_COUNT,
        r < REGISTER_COUNT,
        retire(m) is Ok,
    ensures
        retire(m)->Ok_0.regs[r as int] == match last_write_to(due_writes(m.pending, m.pc + 1), Dest::Register(r)) {
            Some(v) => Some(v),
            None => m.regs[r as int],
        },
{
    assert forall|j: int| 0 <= j < m.pending.len() implies (#[trigger] m.pending[j].dest matches Dest::Register(
        x,
    ) ==> x < REGISTER_COUNT) by {
        assert(m.pc < m.pending[j].complete_by);
    }
    lemma_due_registers_valid(m.pending, m.pc + 1);
    lemma_apply_register(m.regs, m.mem, due_writes(m.pending, m.pc + 1), r);
}

} // verus!
