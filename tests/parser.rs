use std::collections::HashMap;

use pem::parser::{parse_program, parse_startup_memory, ParseError};
use pem::{Addr, Const, ComputeError, ExprWrapper, Machine, Reg};

const EXAMPLE_PROGRAM: &str = "# (A + 1) * (B + 2)
ldi 0 1
ldr 1 0
;
ldi 2 2
ldr 3 1
;
;
;
;
add 0 0 1
;
add 2 2 3
;
;
mul 0 0 2
;
";

#[test]
fn parse_example_program_runs() {
    let program = parse_program(EXAMPLE_PROGRAM).unwrap();
    assert_eq!(program.len(), 9);
    assert_eq!(program[0].ldi, Some((Reg(0), Const(1))));
    assert_eq!(program[0].ldr, Some((Reg(1), Addr(0))));
    assert_eq!(program[2].ldi, None);
    assert_eq!(program[8].mul, Some((Reg(0), Reg(0), Reg(2))));
    let memory = parse_startup_memory("0 A\n1 B\n").unwrap();
    let mut machine = Machine::new(memory);
    let expr = machine.compute(&program).unwrap();
    assert_eq!(expr.weak_eval(), "((A + 1) * (B + 2))");
    assert_eq!(expr.strong_eval(), "(A + 1) * (B + 2)");
    assert_eq!(machine.pc(), 18);
}

#[test]
fn parse_program_skips_blank_and_comment_lines() {
    let program = parse_program("\n#note\n  \t\nldi 0 7\n\n;\n# trailing\n").unwrap();
    assert_eq!(program.len(), 1);
    assert_eq!(program[0].ldi, Some((Reg(0), Const(7))));
}

#[test]
fn parse_program_accepts_crlf_and_extra_blanks() {
    let program = parse_program("sub  1\t2 3\r\n;\r\n").unwrap();
    assert_eq!(program.len(), 1);
    assert_eq!(program[0].sub, Some((Reg(1), Reg(2), Reg(3))));
}

#[test]
fn parse_program_lone_semicolon_is_a_bubble() {
    let program = parse_program(";\n;\n").unwrap();
    assert_eq!(program.len(), 2);
    assert_eq!(program[1].add, None);
}

#[test]
fn parse_program_same_slot_twice_keeps_the_last() {
    let program = parse_program("ldi 0 1\nldi 0 2\n;\n").unwrap();
    assert_eq!(program[0].ldi, Some((Reg(0), Const(2))));
}

#[test]
fn parse_program_missing_semicolon() {
    assert_eq!(parse_program("ldi 0 1\n;\nldi 1 2\n").unwrap_err(), ParseError::MissingSemicolon);
}

#[test]
fn parse_program_invalid_operation() {
    assert_eq!(
        parse_program("ldi 0 1\njmp 4\n;\n").unwrap_err(),
        ParseError::InvalidOperation { line: 2 }
    );
}

#[test]
fn parse_program_invalid_operands() {
    assert_eq!(
        parse_program("add 0 1\n;\n").unwrap_err(),
        ParseError::InvalidOperands { line: 1 }
    );
    assert_eq!(
        parse_program(";\nldr 0 1 2\n;\n").unwrap_err(),
        ParseError::InvalidOperands { line: 2 }
    );
}

#[test]
fn parse_program_numbers_follow_u32_parsing() {
    let program = parse_program("ldi 0 +4294967295\n;\n").unwrap();
    assert_eq!(program[0].ldi, Some((Reg(0), Const(4294967295))));
    assert_eq!(
        parse_program("ldi 0 4294967296\n;\n").unwrap_err(),
        ParseError::InvalidNumber { line: 1 }
    );
    assert_eq!(
        parse_program("ldi r0 1\n;\n").unwrap_err(),
        ParseError::InvalidNumber { line: 1 }
    );
    assert_eq!(
        parse_program("ldi 0 -1\n;\n").unwrap_err(),
        ParseError::InvalidNumber { line: 1 }
    );
}

#[test]
fn parse_startup_memory_reads_rest_of_line_as_symbol() {
    let memory = parse_startup_memory("3 x y\r\n\n7 z\n3 w").unwrap();
    assert_eq!(memory.len(), 2);
    assert_eq!(memory[&3].weak_eval(), "w");
    assert_eq!(memory[&7].weak_eval(), "z");
    let memory = parse_startup_memory("5 B C\n").unwrap();
    assert_eq!(memory[&5].strong_eval(), "B C");
}

#[test]
fn parse_startup_memory_errors() {
    assert_eq!(
        parse_startup_memory("0 A\n1\n").unwrap_err(),
        ParseError::MissingValue { line: 2 }
    );
    assert_eq!(
        parse_startup_memory("x A\n").unwrap_err(),
        ParseError::InvalidNumber { line: 1 }
    );
}

#[test]
fn parsed_memory_feeds_the_machine() {
    let memory: HashMap<u32, ExprWrapper> = parse_startup_memory("9 Q\n").unwrap();
    let program = parse_program("ldr 0 9\n;\n").unwrap();
    let mut machine = Machine::new(memory);
    assert_eq!(machine.compute(&program).unwrap().weak_eval(), "Q");
    assert_eq!(machine.compute(&program).unwrap_err(), ComputeError::Terminated);
}
