use regvm::vm::{StepOutcome, VM};

#[test]
fn test_create_vm() {
    let test_vm = VM::new();
    assert_eq!(test_vm.registers[0], 0)
}

#[test]
fn test_opcode_hlt() {
    let mut test_vm = VM::new();
    let test_bytes = vec![0, 0, 0, 0];
    test_vm.program = test_bytes;
    test_vm.run();
    assert_eq!(test_vm.pc, 1);
}

#[test]
fn test_opcode_igl() {
    let mut test_vm = VM::new();
    let test_bytes = vec![200, 0, 0, 0];
    test_vm.program = test_bytes;
    test_vm.run();
    assert_eq!(test_vm.pc, 1);
}

#[test]
fn test_opcode_load() {
    let mut test_vm = VM::new();
    test_vm.program = vec![1, 0, 1, 244];
    test_vm.run();
    assert_eq!(test_vm.registers[0], 500);
}

#[test]
fn test_opcode_add() {
    let mut test_vm = VM::new();
    /*
     * LOAD $0 #10
     * LOAD $1 #15
     * ADD $0 $1 $2
     */
    let instruction1 = vec![1, 0, 0, 10];
    let instruction2 = vec![1, 1, 0, 15];
    let instruction3 = vec![2, 0, 1, 2];
    test_vm.program = vec![];
    test_vm.program.extend(&instruction1);
    test_vm.program.extend(&instruction2);
    test_vm.program.extend(&instruction3);
    test_vm.run();
    assert_eq!(test_vm.registers[0], 10);
    assert_eq!(test_vm.registers[1], 15);
    assert_eq!(test_vm.registers[2], 25);
}

#[test]
fn test_opcode_sub() {
    /*
    LOAD $0 #10
    LOAD $1 #2
    SUB $0 $1 $2
    */
    let mut test_vm = VM::new();
    let instruction1 = vec![1, 0, 0, 10];
    let instruction2 = vec![1, 1, 0, 2];
    let instruction3 = vec![3, 0, 1, 2];
    test_vm.program = vec![];
    test_vm.program.extend(&instruction1);
    test_vm.program.extend(&instruction2);
    test_vm.program.extend(&instruction3);
    test_vm.run();
    assert_eq!(test_vm.registers[2], 8);
}

#[test]
fn test_opcode_mul() {
    /*
    LOAD $0 #2
    LOAD $1 #4
    MUL $0 $1 $2
    */
    let mut test_vm = VM::new();
    let instruction1 = vec![1, 0, 0, 2];
    let instruction2 = vec![1, 1, 0, 4];
    let instruction3 = vec![4, 0, 1, 2];
    test_vm.program = vec![];
    test_vm.program.extend(&instruction1);
    test_vm.program.extend(&instruction2);
    test_vm.program.extend(&instruction3);
    test_vm.run();
    assert_eq!(test_vm.registers[2], 8);
}

#[test]
fn test_opcode_div() {
    /*
    LOAD $0 #8
    LOAD $1 #5
    DIV $0 $1 $2
    */
    let mut test_vm = VM::new();
    let instruction1 = vec![1, 0, 0, 8];
    let instruction2 = vec![1, 1, 0, 5];
    let instruction3 = vec![5, 0, 1, 2];
    test_vm.program = vec![];
    test_vm.program.extend(&instruction1);
    test_vm.program.extend(&instruction2);
    test_vm.program.extend(&instruction3);
    test_vm.run();
    assert_eq!(test_vm.registers[2], 1);
    assert_eq!(test_vm.remainder, 3);
}

#[test]
fn test_fresh_machine_state() {
    let test_vm = VM::new();
    for i in 0..32 {
        assert_eq!(test_vm.registers[i], 0);
    }
    assert_eq!(test_vm.pc, 0);
    assert_eq!(test_vm.remainder, 0);
    assert_eq!(test_vm.program.len(), 0);
}

#[test]
fn test_empty_program_halts_in_place() {
    let mut test_vm = VM::new();
    test_vm.run();
    assert_eq!(test_vm.pc, 0);
    for i in 0..32 {
        assert_eq!(test_vm.registers[i], 0);
    }
}

#[test]
fn test_step_outcomes() {
    let mut test_vm = VM::new();
    assert_eq!(test_vm.execute_instruction(), StepOutcome::EndOfProgram);
    test_vm.program = vec![0, 0, 0, 0];
    assert_eq!(test_vm.execute_instruction(), StepOutcome::Halt);

    let mut igl_vm = VM::new();
    igl_vm.program = vec![200, 0, 0, 0];
    assert_eq!(igl_vm.execute_instruction(), StepOutcome::IllegalOpcode(200));
}

#[test]
fn test_truncated_load_halts_gracefully() {
    // A LOAD needs three operand bytes; only two are present.
    let mut test_vm = VM::new();
    test_vm.program = vec![1, 0, 1];
    test_vm.run();
    assert_eq!(test_vm.pc, 1);
    for i in 0..32 {
        assert_eq!(test_vm.registers[i], 0);
    }
}

#[test]
fn test_truncated_add_halts_gracefully() {
    let mut test_vm = VM::new();
    test_vm.program = vec![2, 0];
    assert_eq!(test_vm.execute_instruction(), StepOutcome::TruncatedInstruction);
    assert_eq!(test_vm.pc, 1);
}

#[test]
fn test_invalid_register_faults() {
    // ADD reading source register 40, past the bank of 32.
    let mut test_vm = VM::new();
    test_vm.program = vec![2, 40, 0, 0];
    assert_eq!(test_vm.execute_instruction(), StepOutcome::InvalidRegister(40));
    assert_eq!(test_vm.pc, 4);
    for i in 0..32 {
        assert_eq!(test_vm.registers[i], 0);
    }

    // LOAD into destination register 32, just past the bank.
    let mut load_vm = VM::new();
    load_vm.program = vec![1, 32, 1, 244];
    assert_eq!(load_vm.execute_instruction(), StepOutcome::InvalidRegister(32));
    assert_eq!(load_vm.pc, 4);
    for i in 0..32 {
        assert_eq!(load_vm.registers[i], 0);
    }
}

#[test]
fn test_divide_by_zero_faults() {
    /*
    LOAD $0 #8
    DIV $0 $1 $2    ($1 still holds zero)
    */
    let mut test_vm = VM::new();
    test_vm.program = vec![1, 0, 0, 8, 5, 0, 1, 2];
    test_vm.run();
    assert_eq!(test_vm.pc, 8);
    assert_eq!(test_vm.registers[2], 0);
    assert_eq!(test_vm.remainder, 0);
}

#[test]
fn test_mul_overflow_wraps() {
    /*
    LOAD $0 #65535
    LOAD $1 #65535
    MUL $0 $1 $2
    */
    let mut test_vm = VM::new();
    test_vm.program = vec![1, 0, 255, 255, 1, 1, 255, 255, 4, 0, 1, 2];
    test_vm.run();
    // 65535 * 65535 = 4294836225 wraps to -131071 in 32 bits.
    assert_eq!(test_vm.registers[2], -131071);
}

#[test]
fn test_div_negative_dividend() {
    /*
    LOAD $1 #10
    LOAD $3 #3
    SUB $0 $1 $2    (0 - 10 = -10)
    DIV $2 $3 $4    (-10 / 3)
    */
    let mut test_vm = VM::new();
    test_vm.program = vec![1, 1, 0, 10, 1, 3, 0, 3, 3, 0, 1, 2, 5, 2, 3, 4];
    test_vm.run();
    assert_eq!(test_vm.registers[2], -10);
    assert_eq!(test_vm.registers[4], -3);
    // The remainder -1 is reinterpreted as unsigned 32-bit.
    assert_eq!(test_vm.remainder, 4294967295);
}

#[test]
fn test_run_once_steps_one_instruction() {
    let mut test_vm = VM::new();
    test_vm.program = vec![1, 0, 0, 10, 1, 1, 0, 15, 2, 0, 1, 2];
    test_vm.run_once();
    assert_eq!(test_vm.pc, 4);
    assert_eq!(test_vm.registers[0], 10);
    assert_eq!(test_vm.registers[1], 0);
}

#[test]
fn test_run_is_deterministic() {
    let program = vec![1, 0, 0, 10, 1, 1, 0, 15, 2, 0, 1, 2, 5, 2, 1, 3];
    let mut first = VM::new();
    first.program = program.clone();
    first.run();
    let mut second = VM::new();
    second.program = program;
    second.run();
    for i in 0..32 {
        assert_eq!(first.registers[i], second.registers[i]);
    }
    assert_eq!(first.pc, second.pc);
    assert_eq!(first.remainder, second.remainder);
}
