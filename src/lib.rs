//! Polynomial Evaluation Machine: a cycle-accurate simulator of a small
//! register-and-memory machine whose values are symbolic expressions.

pub mod expr;
pub mod inflight_operation;
pub mod instruction;
pub mod machine;
pub mod parser;
pub mod types;

pub use expr::ExprWrapper;
pub use inflight_operation::{InflightOperation, OperationLatency, OperationOutput};
pub use instruction::Instruction;
pub use machine::{ComputeError, Machine};
pub use types::{Addr, Const, Reg};
