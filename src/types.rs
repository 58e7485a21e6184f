//! Primitive operand types of the machine.

use vstd::prelude::*;

verus! {

/// Register id; the machine has registers `0..=7`.
#[derive(Debug, Clone, Copy, PartialEq, Eq, Structural, Hash)]
pub struct Reg(pub u32);

/// Memory address, anywhere in the 32-bit range.
#[derive(Debug, Clone, Copy, PartialEq, Eq, Structural, Hash)]
pub struct Addr(pub u32);

/// 32-bit numeric constant.
#[derive(Debug, Clone, Copy, PartialEq, Eq, Structural)]
pub struct Const(pub u32);

} // verus!
