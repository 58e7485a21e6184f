use std::collections::HashMap;

use pem::machine::REGISTER_COUNT;
use pem::{Addr, ComputeError, Const, ExprWrapper, Instruction, Machine, Reg};

#[test]
fn test_str() {
    let mut machine = Machine::new(HashMap::new());
    let program = Vec::from([
        Instruction::new().with_ldi(Reg(0), Const(1)),
        Instruction::new().with_str(Reg(0), Addr(0)),
    ]);
    let expr = machine.compute(&program).unwrap();
    assert_eq!(expr.weak_eval(), "1".to_string());
    assert_eq!(expr.strong_eval(), "1".to_string());
    machine
        .get_address_value(&Addr(0))
        .map(|v| {
            assert_eq!(v.weak_eval(), "1".to_string());
        })
        .expect("Memory address 0 should be initialized");
    assert_eq!(machine.pc(), 6);
}

#[test]
fn test_add() {
    let mut machine = Machine::new(HashMap::new());
    let program = Vec::from([
        Instruction::new().with_ldi(Reg(0), Const(1)),
        Instruction::new().with_ldi(Reg(1), Const(8)),
        Instruction::new().with_add(Reg(0), Reg(0), Reg(1)),
    ]);
    let expr = machine.compute(&program).unwrap();
    assert_eq!(expr.weak_eval(), "(8 + 1)".to_string());
    assert_eq!(expr.strong_eval(), "9".to_string());
    assert_eq!(machine.pc(), 4);
}

#[test]
fn test_sub() {
    let mut machine = Machine::new(HashMap::new());
    let program = Vec::from([
        Instruction::new().with_ldi(Reg(0), Const(1)),
        Instruction::new().with_ldi(Reg(1), Const(8)),
        Instruction::new().with_sub(Reg(0), Reg(1), Reg(0)),
    ]);
    let expr = machine.compute(&program).unwrap();
    assert_eq!(expr.weak_eval(), "(8 - 1)".to_string());
    assert_eq!(expr.strong_eval(), "7".to_string());
    assert_eq!(machine.pc(), 4);
}

#[test]
fn test_mul() {
    let mut machine = Machine::new(HashMap::new());
    let program = Vec::from([
        Instruction::new().with_ldi(Reg(0), Const(2)),
        Instruction::new().with_ldi(Reg(1), Const(8)),
        Instruction::new().with_mul(Reg(0), Reg(0), Reg(1)),
    ]);
    let expr = machine.compute(&program).unwrap();
    assert_eq!(expr.weak_eval(), "(2 * 8)".to_string());
    assert_eq!(expr.strong_eval(), "16".to_string());
    assert_eq!(machine.pc(), 12);
}

#[test]
fn test_example_program() {
    let mut machine =
        Machine::new(HashMap::from_iter(('A'..='Z').enumerate().map(|(i, c)| {
            (i as u32, ExprWrapper::from_symbolic_variable(c.to_string()))
        })));
    let program = Vec::from([
        Instruction::new()
            .with_ldi(Reg(0), Const(1))
            .with_ldr(Reg(1), Addr(0)),
        Instruction::new()
            .with_ldi(Reg(2), Const(2))
            .with_ldr(Reg(3), Addr(1)),
        Instruction::new(),
        Instruction::new(),
        Instruction::new(),
        Instruction::new().with_add(Reg(0), Reg(0), Reg(1)),
        Instruction::new().with_add(Reg(2), Reg(2), Reg(3)),
        Instruction::new(),
        Instruction::new().with_mul(Reg(0), Reg(0), Reg(2)),
    ]);
    let expr = machine.compute(&program).unwrap();
    assert_eq!(expr.weak_eval(), "((A + 1) * (B + 2))".to_string());
    assert_eq!(expr.strong_eval(), "(A + 1) * (B + 2)".to_string());
    assert_eq!(machine.pc(), 18);
}

#[test]
fn test_long_polynomial() {
    let mut machine =
        Machine::new(HashMap::from_iter(('A'..='Z').enumerate().map(|(i, c)| {
            (i as u32, ExprWrapper::from_symbolic_variable(c.to_string()))
        })));
    let program = Vec::from([
        Instruction::new()
            .with_ldi(Reg(3), Const(4))
            .with_ldr(Reg(6), Addr(2)),
        Instruction::new()
            .with_ldi(Reg(2), Const(3))
            .with_ldr(Reg(7), Addr(3)),
        Instruction::new()
            .with_ldi(Reg(1), Const(2))
            .with_ldr(Reg(5), Addr(1)),
        Instruction::new()
            .with_ldi(Reg(0), Const(1))
            .with_ldr(Reg(4), Addr(0)),
        Instruction::new(),
        Instruction::new().with_mul(Reg(3), Reg(3), Reg(6)),
        Instruction::new().with_sub(Reg(3), Reg(6), Reg(7)),
        Instruction::new().with_add(Reg(1), Reg(1), Reg(5)),
        Instruction::new().with_add(Reg(0), Reg(0), Reg(4)),
        Instruction::new().with_add(Reg(2), Reg(2), Reg(3)),
        Instruction::new().with_mul(Reg(1), Reg(0), Reg(1)),
        Instruction::new(),
        Instruction::new(),
        Instruction::new(),
        Instruction::new(),
        Instruction::new().with_mul(Reg(3), Reg(3), Reg(7)),
        Instruction::new(),
        Instruction::new(),
        Instruction::new(),
        Instruction::new(),
        Instruction::new().with_mul(Reg(1), Reg(1), Reg(2)),
        Instruction::new(),
        Instruction::new(),
        Instruction::new(),
        Instruction::new(),
        Instruction::new(),
        Instruction::new(),
        Instruction::new(),
        Instruction::new(),
        Instruction::new(),
        Instruction::new().with_add(Reg(0), Reg(3), Reg(1)),
    ]);
    let expr = machine.compute(&program).unwrap();
    assert_eq!(
        expr.weak_eval(),
        "((((A + 1) * (B + 2)) * ((C - D) + 3)) + ((4 * C) * D))".to_string()
    );
    assert_eq!(
        expr.strong_eval(),
        "(A + 1) * (B + 2) * (C - D + 3) + 4 * C * D".to_string()
    );
    assert_eq!(machine.pc(), 32);
}

#[test]
fn test_uninitialized_0_register() {
    let mut machine = Machine::new(HashMap::new());
    let program = Vec::new();
    assert!(machine
        .compute(&program)
        .is_err_and(|e| e == ComputeError::UninitializedRegister { reg: Reg(0), pc: 0 }));
}

#[test]
fn test_terminated() {
    let mut machine = Machine::new(HashMap::new());
    let program = Vec::from([Instruction::new().with_ldi(Reg(0), Const(0))]);
    assert!(machine.compute(&program).is_ok());
    assert!(machine
        .compute(&program)
        .is_err_and(|e| e == ComputeError::Terminated));
}

#[test]
fn test_invalid_register() {
    let mut machine = Machine::new(HashMap::new());
    let reg = REGISTER_COUNT as u32;
    let program = Vec::from([Instruction::new().with_ldi(Reg(reg), Const(0))]);
    assert!(machine.compute(&program).is_err_and(|e| e
        == ComputeError::InvalidRegister {
            reg: Reg(reg),
            pc: 0
        }));
}

#[test]
fn test_uninitialized_register() {
    let mut machine = Machine::new(HashMap::new());
    let program = Vec::from([Instruction::new().with_add(Reg(0), Reg(0), Reg(0))]);
    assert!(machine
        .compute(&program)
        .is_err_and(|e| e == ComputeError::UninitializedRegister { reg: Reg(0), pc: 0 }));
}

#[test]
fn test_uninitialized_memory() {
    let mut machine = Machine::new(HashMap::new());
    let program = Vec::from([Instruction::new().with_ldr(Reg(0), Addr(0))]);
    assert!(machine.compute(&program).is_err_and(|e| e
        == ComputeError::UninitializedMemory {
            addr: Addr(0),
            pc: 0
        }));
}

#[test]
fn test_register_data_race() {
    let mut machine = Machine::new(HashMap::new());
    let program = Vec::from([
        Instruction::new().with_ldi(Reg(0), Const(1)),
        Instruction::new().with_add(Reg(1), Reg(0), Reg(0)),
        Instruction::new().with_ldi(Reg(1), Const(3)),
    ]);
    assert!(machine.compute(&program).is_err_and(|e| e
        == ComputeError::RegisterDataRace {
            reg: Reg(1),
            pc: 2,
            inst1: 1,
            inst2: 2
        }));
}

#[test]
fn test_memory_data_race() {
    println!("Memory data race is not possible with the current operation set");
}
