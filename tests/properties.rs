use std::collections::HashMap;

use pem::expr::{EvaluatedExpr, EvaluatedExprKind, Precedence};
use pem::{
    Addr, ComputeError, Const, ExprWrapper, InflightOperation, Instruction, Machine,
    OperationLatency, OperationOutput, Reg,
};

fn sym(s: &str) -> ExprWrapper {
    ExprWrapper::from_symbolic_variable(s.to_string())
}

fn num(n: u32) -> ExprWrapper {
    ExprWrapper::from_const(n)
}

#[test]
fn second_compute_fails_even_after_a_failure_at_the_first_cycle() {
    let mut machine = Machine::new(HashMap::new());
    let program = vec![Instruction::new().with_ldi(Reg(8), Const(0))];
    assert_eq!(
        machine.compute(&program).unwrap_err(),
        ComputeError::InvalidRegister { reg: Reg(8), pc: 0 }
    );
    assert_eq!(machine.compute(&Vec::new()).unwrap_err(), ComputeError::Terminated);
}

#[test]
fn second_compute_fails_after_an_empty_program() {
    let mut machine = Machine::new(HashMap::new());
    assert_eq!(
        machine.compute(&Vec::new()).unwrap_err(),
        ComputeError::UninitializedRegister { reg: Reg(0), pc: 0 }
    );
    let program = vec![Instruction::new().with_ldi(Reg(0), Const(1))];
    assert_eq!(machine.compute(&program).unwrap_err(), ComputeError::Terminated);
}

#[test]
fn completion_cycle_is_issue_cycle_plus_latency() {
    let one = num(1);
    let ops = [
        (InflightOperation::from_ldi(7, Reg(0), Const(1)), OperationLatency::LDI),
        (InflightOperation::from_ldr(7, Reg(0), &one), OperationLatency::LDR),
        (InflightOperation::from_str(7, &one, Addr(3)), OperationLatency::STR),
        (InflightOperation::from_add(7, Reg(0), &one, &one), OperationLatency::ADD),
        (InflightOperation::from_sub(7, Reg(0), &one, &one), OperationLatency::SUB),
        (InflightOperation::from_mul(7, Reg(0), &one, &one), OperationLatency::MUL),
    ];
    let expected = [8, 12, 12, 9, 9, 17];
    for ((op, latency), want) in ops.iter().zip(expected) {
        assert_eq!(op.get_complete_by(), want);
        assert_eq!(op.get_complete_by(), op.get_instruction() + latency);
        assert_eq!(op.get_instruction(), 7);
    }
}

#[test]
fn operands_are_read_when_an_operation_issues() {
    // `str` reads r0 at cycle 1 (value 2); r0 becomes 9 before the store retires.
    let mut machine = Machine::new(HashMap::new());
    let program = vec![
        Instruction::new().with_ldi(Reg(0), Const(2)),
        Instruction::new().with_str(Reg(0), Addr(0)),
        Instruction::new().with_ldi(Reg(0), Const(9)),
        Instruction::new(),
        Instruction::new(),
        Instruction::new(),
        Instruction::new().with_ldr(Reg(0), Addr(0)),
    ];
    let expr = machine.compute(&program).unwrap();
    assert_eq!(expr.weak_eval(), "2");
    assert_eq!(machine.pc(), 11);
    assert_eq!(machine.get_address_value(&Addr(0)).unwrap().weak_eval(), "2");
}

#[test]
fn add_result_is_built_from_the_issue_cycle_values() {
    let out = InflightOperation::from_add(0, Reg(1), &sym("X"), &sym("Y"));
    let OperationOutput::WriteToRegister(reg, value) = out.get_output() else {
        panic!("Expected WriteToRegister, got {:?}", out.get_output());
    };
    assert_eq!(*reg, Reg(1));
    assert_eq!(value.weak_eval(), "(Y + X)");
}

#[test]
fn numeric_tree_folds_to_wrapping_value() {
    // (4000000000 + 500000000) * 3 - 7, in 32-bit wrapping arithmetic.
    let e = num(4_000_000_000).plus(&num(500_000_000)).times(&num(3)).minus(&num(7));
    let expected = 4_000_000_000u32
        .wrapping_add(500_000_000)
        .wrapping_mul(3)
        .wrapping_sub(7);
    assert_eq!(e.strong_eval(), expected.to_string());
    assert_eq!(
        e.weak_eval(),
        "(((4000000000 + 500000000) * 3) - 7)"
    );
}

#[test]
fn numeric_renderings_agree() {
    // Reading the weak text as ordinary arithmetic gives the strong text's number.
    let e = num(9).times(&num(10)).minus(&num(7).plus(&num(8)).minus(&num(6).times(&num(3))));
    assert_eq!(e.weak_eval(), "((9 * 10) - ((7 + 8) - (6 * 3)))");
    assert_eq!(e.strong_eval(), "93");
    assert_eq!(90 - ((7 + 8) - 18), 93);
}

#[test]
fn wrapping_boundaries() {
    assert_eq!(num(200).plus(&num(u32::MAX)).strong_eval(), "199");
    assert_eq!(num(1).minus(&num(2)).strong_eval(), "4294967295");
    assert_eq!(num(3_000_000_000).times(&num(2)).strong_eval(), "1705032704");
    assert_eq!(num(0).strong_eval(), "0");
    assert_eq!(num(u32::MAX).weak_eval(), "4294967295");
}

#[test]
fn strong_eval_partial_folding_on_handles() {
    assert_eq!(num(1).plus(&num(2)).minus(&sym("A")).strong_eval(), "3 - A");
    assert_eq!(num(1).plus(&num(2).minus(&sym("A"))).strong_eval(), "1 + 2 - A");
    assert_eq!(sym("A").plus(&sym("B").minus(&sym("C"))).strong_eval(), "A + B - C");
    assert_eq!(sym("A").plus(&sym("B")).minus(&sym("C")).strong_eval(), "A + B - C");
    let e = sym("A")
        .times(&sym("B"))
        .minus(&sym("C").plus(&sym("D")).minus(&sym("E").times(&num(12))));
    assert_eq!(e.strong_eval(), "A * B - (C + D - E * 12)");
}

#[test]
fn strong_eval_parenthesises_sums_under_products() {
    let e = sym("A").minus(&sym("B")).times(&sym("C").plus(&sym("D")));
    assert_eq!(e.strong_eval(), "(A - B) * (C + D)");
    let e = sym("A").minus(&sym("B").minus(&sym("C")));
    assert_eq!(e.strong_eval(), "A - (B - C)");
    let e = sym("A").minus(&sym("B").times(&sym("C")));
    assert_eq!(e.strong_eval(), "A - B * C");
}

#[test]
fn operators_on_handles_share_operands() {
    let a = sym("A");
    let b = num(4);
    let sum = &a + &b;
    let diff = &sum - &a;
    let prod = &diff * &sum;
    assert_eq!(prod.weak_eval(), "(((A + 4) - A) * (A + 4))");
    assert_eq!(prod.eval(), prod.weak_eval());
    let copy = prod.clone();
    assert_eq!(copy.strong_eval(), "(A + 4 - A) * (A + 4)");
}

#[test]
fn evaluated_expr_text() {
    let e = EvaluatedExpr::from("A") * (EvaluatedExpr::from(1) + EvaluatedExpr::from("B"));
    assert_eq!(e.to_text(), "A * (1 + B)");
    assert_eq!(e.precedence, Precedence::Mul);
    assert!(matches!(e.kind, EvaluatedExprKind::Value(_)));
    assert_eq!(EvaluatedExpr::from(42).to_text(), "42");
}

#[test]
fn allowed_race_lets_the_last_issued_writer_win() {
    let mut machine = Machine::new(HashMap::new());
    machine.allow_data_race(true);
    let program = vec![
        Instruction::new().with_ldi(Reg(0), Const(1)),
        Instruction::new().with_add(Reg(0), Reg(0), Reg(0)),
        Instruction::new().with_ldi(Reg(0), Const(3)),
    ];
    assert_eq!(machine.compute(&program).unwrap().weak_eval(), "3");
    assert_eq!(machine.pc(), 3);
}

#[test]
fn race_reported_on_smallest_destination() {
    let mut machine = Machine::new(HashMap::from([(0u32, sym("A"))]));
    let program = vec![
        Instruction::new()
            .with_ldi(Reg(0), Const(1))
            .with_ldr(Reg(2), Addr(0)),
        Instruction::new(),
        Instruction::new(),
        Instruction::new()
            .with_add(Reg(2), Reg(0), Reg(0))
            .with_sub(Reg(1), Reg(0), Reg(0)),
        Instruction::new().with_ldi(Reg(1), Const(7)),
    ];
    assert_eq!(
        machine.compute(&program).unwrap_err(),
        ComputeError::RegisterDataRace {
            reg: Reg(1),
            pc: 4,
            inst1: 3,
            inst2: 4
        }
    );
}

#[test]
fn invalid_source_register_is_reported() {
    let mut machine = Machine::new(HashMap::new());
    let program = vec![
        Instruction::new().with_ldi(Reg(0), Const(1)),
        Instruction::new().with_str(Reg(9), Addr(0)),
    ];
    assert_eq!(
        machine.compute(&program).unwrap_err(),
        ComputeError::InvalidRegister { reg: Reg(9), pc: 1 }
    );
}

#[test]
fn slots_are_checked_in_order() {
    // ldr fails before add's uninitialised source is looked at.
    let mut machine = Machine::new(HashMap::new());
    let program = vec![Instruction::new()
        .with_add(Reg(0), Reg(5), Reg(5))
        .with_ldr(Reg(0), Addr(4))];
    assert_eq!(
        machine.compute(&program).unwrap_err(),
        ComputeError::UninitializedMemory { addr: Addr(4), pc: 0 }
    );
}

#[test]
fn operations_of_one_instruction_see_the_cycle_start() {
    // ldi r0 and add r1 r0 r0 in one instruction: add cannot see the new r0.
    let mut machine = Machine::new(HashMap::new());
    let program = vec![Instruction::new()
        .with_ldi(Reg(0), Const(1))
        .with_add(Reg(1), Reg(0), Reg(0))];
    assert_eq!(
        machine.compute(&program).unwrap_err(),
        ComputeError::UninitializedRegister { reg: Reg(0), pc: 0 }
    );
}
