//! Tests for the virtual machine: one opcode at a time, driven through the
//! public step interface.

use regvm::opcode::OpCode;
use regvm::vm::{StepOutcome, VmError, VM};

/// Step until the machine halts or a step fails, like an operator's run
/// command.
fn run(vm: &mut VM) {
    loop {
        match vm.step() {
            Ok(StepOutcome::Halted) => return,
            Ok(StepOutcome::Executed { done, .. }) => {
                if done {
                    return;
                }
            }
            Err(_) => return,
        }
    }
}

fn run_once(vm: &mut VM) -> Result<(), VmError> {
    vm.step()?;
    Ok(())
}

fn run_for(vm: &mut VM, n: usize) -> Result<(), VmError> {
    for _ in 0..n {
        run_once(vm)?;
    }
    Ok(())
}

fn with_program(mut vm: VM, program: Vec<u8>) -> VM {
    vm.program = program;
    vm
}

fn expand(num: u16) -> [u8; 2] {
    [(num >> 8) as u8, num as u8]
}

fn create_load_unchecked(vm: &mut VM, register: u8, number: [u8; 2]) {
    vm.program.extend(vec![OpCode::LOAD.to_byte(), register]);
    vm.program.extend(number);
}

#[test]
fn test_create_vm() {
    let test_vm = VM::new();
    assert_eq!(test_vm.registers.registers[0], 0);
}

#[test]
fn test_hlt() {
    let mut test_vm = with_program(VM::new(), vec![OpCode::HLT.to_byte(), 0, 0, 0]);
    run(&mut test_vm);
    assert_eq!(test_vm.pc, 4);
}

#[test]
fn test_igl() {
    let mut test_vm = with_program(VM::new(), vec![OpCode::IGL.to_byte(), 0, 0, 0]);
    run(&mut test_vm);
    assert_eq!(test_vm.pc, 4);
}

#[test]
fn test_load() -> Result<(), VmError> {
    let mut program: Vec<u8> = vec![OpCode::LOAD.to_byte(), 0];
    program.extend(expand(500));

    let mut test_vm = with_program(VM::new(), program);
    run_once(&mut test_vm)?;
    assert_eq!(test_vm.registers.registers[0], 500);
    Ok(())
}

#[test]
fn test_add() {
    let mut test_vm = VM::new();
    create_load_unchecked(&mut test_vm, 0, expand(10));
    create_load_unchecked(&mut test_vm, 1, expand(15));

    test_vm.program.extend(vec![OpCode::ADD.to_byte(), 0, 1, 2]);
    run(&mut test_vm);
    assert_eq!(test_vm.registers.registers[2], 25);
}

#[test]
fn test_sub() {
    let mut test_vm = VM::new();
    create_load_unchecked(&mut test_vm, 0, expand(10));
    create_load_unchecked(&mut test_vm, 1, expand(15));

    test_vm.program.extend(vec![OpCode::SUB.to_byte(), 1, 0, 2]);
    run(&mut test_vm);
    assert_eq!(test_vm.registers.registers[2], 5);
}

#[test]
fn test_mul() {
    let mut test_vm = VM::new();
    create_load_unchecked(&mut test_vm, 0, expand(2));
    create_load_unchecked(&mut test_vm, 1, expand(15));

    test_vm.program.extend(vec![OpCode::MUL.to_byte(), 0, 1, 2]);
    run(&mut test_vm);
    assert_eq!(test_vm.registers.registers[2], 30);
}

#[test]
fn test_div() {
    let mut test_vm = VM::new();
    create_load_unchecked(&mut test_vm, 0, expand(30));
    create_load_unchecked(&mut test_vm, 1, expand(15));

    test_vm.program.extend(vec![OpCode::DIV.to_byte(), 0, 1, 2]);

    run(&mut test_vm);
    assert_eq!(test_vm.registers.registers[2], 2);
}

#[test]
fn test_div_remainder() {
    let mut test_vm = VM::new();
    create_load_unchecked(&mut test_vm, 0, expand(6));
    create_load_unchecked(&mut test_vm, 1, expand(4));

    test_vm.program.extend(vec![OpCode::DIV.to_byte(), 0, 1, 2]);

    run(&mut test_vm);
    assert_eq!(test_vm.remainder, 2);
}

#[test]
fn test_jmp() -> Result<(), VmError> {
    let mut test_vm = VM::new();
    create_load_unchecked(&mut test_vm, 1, [0, 0]);
    test_vm.program.extend(vec![OpCode::JMP.to_byte(), 1, 0, 0]);
    run_for(&mut test_vm, 2)?;
    assert_eq!(test_vm.pc, 0);
    Ok(())
}

#[test]
fn test_jmpf() -> Result<(), VmError> {
    let mut test_vm = VM::new();
    create_load_unchecked(&mut test_vm, 0, expand(4));
    test_vm.program.extend(vec![OpCode::JMPF.to_byte(), 0, 0, 0]);
    create_load_unchecked(&mut test_vm, 0, expand(15));

    run_for(&mut test_vm, 3)?;
    assert_eq!(test_vm.pc, 12);
    assert_eq!(test_vm.registers.registers[0], 4);
    Ok(())
}

#[test]
fn test_jmpb() -> Result<(), VmError> {
    let mut test_vm = VM::new();
    test_vm.pc = 4;
    create_load_unchecked(&mut test_vm, 0, expand(0));
    create_load_unchecked(&mut test_vm, 0, expand(12));
    test_vm.program.extend(vec![OpCode::JMPB.to_byte(), 0, 0, 0]);

    run_for(&mut test_vm, 3)?;
    assert_eq!(test_vm.registers.registers[0], 0);
    Ok(())
}

#[test]
fn test_eq_true() -> Result<(), VmError> {
    let mut test_vm = VM::new();
    create_load_unchecked(&mut test_vm, 0, expand(10));
    create_load_unchecked(&mut test_vm, 1, expand(10));
    test_vm.program.extend(vec![OpCode::EQ.to_byte(), 0, 1, 0]);
    run_for(&mut test_vm, 3)?;
    assert_eq!(test_vm.equal_flag, true);
    Ok(())
}

#[test]
fn test_eq_false() {
    let mut test_vm = VM::new();
    create_load_unchecked(&mut test_vm, 0, expand(20));
    create_load_unchecked(&mut test_vm, 1, expand(10));
    test_vm.program.extend(vec![OpCode::EQ.to_byte(), 0, 1, 0]);
    run(&mut test_vm);
    assert_eq!(test_vm.equal_flag, false);
}

#[test]
fn test_jeq() -> Result<(), VmError> {
    let mut test_vm = VM::new();
    test_vm.registers.registers[0] = 7;
    test_vm.equal_flag = true;
    test_vm.program = vec![OpCode::JEQ.to_byte(), 0, 0, 0];
    run_once(&mut test_vm)?;
    assert_eq!(test_vm.pc, 7);
    Ok(())
}

#[test]
fn test_jne() -> Result<(), VmError> {
    let mut test_vm = VM::new();
    test_vm.registers.registers[0] = 7;
    test_vm.equal_flag = false;
    test_vm.program = vec![OpCode::JNE.to_byte(), 0, 0, 0];
    run_once(&mut test_vm)?;
    assert_eq!(test_vm.pc, 7);
    Ok(())
}

#[test]
fn test_aloc() -> Result<(), VmError> {
    let mut test_vm = VM::new();
    test_vm.registers.registers[0] = 1024;
    test_vm.program = vec![OpCode::ALOC.to_byte(), 0, 0, 0];
    run_once(&mut test_vm)?;
    assert_eq!(test_vm.heap.len(), 1024);
    Ok(())
}

#[test]
fn reset_restores_the_initial_state() {
    let mut vm = VM::new();
    create_load_unchecked(&mut vm, 3, expand(77));
    vm.program.extend(vec![OpCode::ALOC.to_byte(), 3, 0, 0]);
    run(&mut vm);
    assert_ne!(vm.registers.registers[3], 0);
    assert_ne!(vm.heap.len(), 0);

    vm.reset();
    let fresh = VM::new();
    assert_eq!(vm.registers.registers, fresh.registers.registers);
    assert_eq!(vm.pc, fresh.pc);
    assert_eq!(vm.program, fresh.program);
    assert_eq!(vm.heap, fresh.heap);
    assert_eq!(vm.remainder, fresh.remainder);
    assert_eq!(vm.equal_flag, fresh.equal_flag);
}

#[test]
fn register_index_out_of_range_fails_cleanly() {
    let mut vm = VM::new();
    vm.program = vec![OpCode::INC.to_byte(), 40, 0, 0];
    assert_eq!(vm.step(), Err(VmError::RegisterOutOfBounds { index: 40 }));
    assert_eq!(vm.pc, 4);
}

#[test]
fn divide_by_zero_fails_cleanly() {
    let mut vm = VM::new();
    create_load_unchecked(&mut vm, 0, expand(9));
    vm.program.extend(vec![OpCode::DIV.to_byte(), 0, 1, 2]);
    assert!(run_once(&mut vm).is_ok());
    assert_eq!(run_once(&mut vm), Err(VmError::DivideByZero));
    assert_eq!(vm.registers.registers[2], 0);
}

#[test]
fn negative_allocation_fails_cleanly() {
    let mut vm = VM::new();
    vm.registers.registers[0] = -1;
    vm.program = vec![OpCode::ALOC.to_byte(), 0, 0, 0];
    assert_eq!(vm.step(), Err(VmError::NegativeAllocation { requested: -1 }));
    assert_eq!(vm.heap.len(), 0);
}

#[test]
fn truncated_instruction_fails_cleanly() {
    let mut vm = VM::new();
    vm.program = vec![OpCode::LOAD.to_byte(), 0];
    assert_eq!(vm.step(), Err(VmError::TruncatedInstruction));
    assert_eq!(vm.pc, 0);
}

#[test]
fn unimplemented_opcode_fails_cleanly() {
    let mut vm = VM::new();
    vm.program = vec![OpCode::PRTS.to_byte(), 0, 0, 0];
    assert_eq!(
        vm.step(),
        Err(VmError::UnrecognizedOpcode {
            code: OpCode::PRTS.to_byte()
        })
    );
    assert_eq!(vm.pc, 4);
}

#[test]
fn insert_splices_at_an_offset() {
    let mut vm = VM::new();
    vm.add_program(vec![OpCode::HLT.to_byte(), 0, 0, 0]);
    let patch = vec![OpCode::NOP.to_byte(), 9, 9, 9];
    vm.insert_into_program(&patch, 0);
    assert_eq!(
        vm.read_program(),
        &vec![OpCode::NOP.to_byte(), 9, 9, 9, OpCode::HLT.to_byte(), 0, 0, 0]
    );
}

#[test]
fn conv_u8s_i16_is_big_endian_and_signed() {
    assert_eq!(VM::conv_u8s_i16(&[0x00, 0x64]), 100);
    assert_eq!(VM::conv_u8s_i16(&[0xFF, 0x9C]), -100);
    assert_eq!(VM::conv_u8s_i16(&[0x80, 0x00]), i16::MIN);
}

#[test]
fn division_overflow_fails_cleanly() {
    let mut vm = VM::new();
    vm.registers.registers[0] = i32::MIN;
    vm.registers.registers[1] = -1;
    vm.program = vec![OpCode::DIV.to_byte(), 0, 1, 2];
    assert_eq!(vm.step(), Err(VmError::DivisionOverflow));
    assert_eq!(vm.registers.registers[2], 0);
}
