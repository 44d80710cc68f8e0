//! Tests for the two generations of the instruction model and the opcode
//! tables.

use regvm::instruction;
use regvm::opcode;
use regvm::opcode::Tou8Vec;

#[test]
fn instruction_test_create_instruction() {
    let instruction = instruction::Instruction::new(instruction::OpCode::HLT);
    assert_eq!(instruction.opcode, instruction::OpCode::HLT);
}

#[test]
fn opcode_test_create_instruction() {
    let instruction = opcode::Instruction::new(opcode::OpCode::HLT, vec![]);
    assert_eq!(instruction.opcode, opcode::OpCode::HLT);
}

#[test]
fn parser_test_str_to_opcode() {
    let code = instruction::OpCode::from_string("load");
    assert_eq!(code, instruction::OpCode::LOAD);
    let code = instruction::OpCode::from_string("illegal");
    assert_eq!(code, instruction::OpCode::IGL);
}

#[test]
fn opcode_bytes_round_trip() {
    assert_eq!(opcode::OpCode::LOAD.to_byte(), 0);
    assert_eq!(opcode::OpCode::HLT.to_byte(), 5);
    assert_eq!(opcode::OpCode::NEQ.to_byte(), 10);
    assert_eq!(opcode::OpCode::JNE.to_byte(), 48);
    assert_eq!(opcode::OpCode::IGL.to_byte(), 100);
    assert_eq!(opcode::OpCode::from_byte(5), opcode::OpCode::HLT);
    assert_eq!(opcode::OpCode::from_byte(100), opcode::OpCode::IGL);
    assert_eq!(opcode::OpCode::from_byte(77), opcode::OpCode::IGL);
    let code = opcode::OpCode::from_byte(17);
    assert_eq!(opcode::OpCode::from_byte(code.to_byte()), code);
}

#[test]
fn mnemonic_lookup_is_case_insensitive() {
    assert_eq!(opcode::OpCode::from_string("LOAD"), opcode::OpCode::LOAD);
    assert_eq!(opcode::OpCode::from_string("JmPf"), opcode::OpCode::JMPF);
    assert_eq!(instruction::OpCode::from_string("ne"), instruction::OpCode::NE);
}

#[test]
fn padded_names_fill_four_columns() {
    assert_eq!(opcode::OpCode::EQ.padded(), "EQ  ");
    assert_eq!(opcode::OpCode::LOAD.padded(), "LOAD");
    assert_eq!(opcode::OpCode::LOADF64.padded(), "LOADF64");
}

#[test]
fn decoded_instructions_convert_back_to_bytes() {
    let instruction = opcode::Instruction::new(opcode::OpCode::ADD, vec![0, 1, 2]);
    assert_eq!(instruction.to_u8_vec(), vec![1, 0, 1, 2]);
    assert_eq!(*instruction.opcode(), opcode::OpCode::ADD);
    assert_eq!(instruction.operands(), &vec![0, 1, 2]);
}

#[test]
fn legacy_byte_mapping_lacks_the_long_jump() {
    assert_eq!(instruction::OpCode::from_byte(48), instruction::OpCode::JNE);
    assert_eq!(instruction::OpCode::from_byte(49), instruction::OpCode::IGL);
}
