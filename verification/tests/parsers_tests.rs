//! Tests for the line grammar: token recognisers, instruction and directive
//! lines, and whole programs.

use regvm::assembler::instruction::AssemblerInstruction;
use regvm::assembler::parser::parsers::{
    directive, instruction, integer_operand, label_declaration, label_usage, opcode, program,
    register,
};
use regvm::assembler::parser::token::Token;
use regvm::assembler::SymbolTable;
use regvm::opcode::OpCode;

#[test]
fn test_parse_register() {
    let result = register("$0 ");
    assert_eq!(result.is_some(), true);
    let result = register("0 ");
    assert_eq!(result.is_some(), false);
    let result = register("$a ");
    assert_eq!(result.is_some(), false);
}

#[test]
fn test_parse_integer_operand() {
    // Test a valid integer operand
    let result = integer_operand("#10 ");
    assert_eq!(result.is_some(), true);
    let (tok, used) = result.unwrap();
    assert_eq!(&"#10 "[used..], " ");
    assert_eq!(
        tok,
        Token::IntegerOperand {
            value: 10,
            sign_bit: false
        }
    );

    // Test an invalid one (missing the #)
    let result = integer_operand("10 ");
    assert_eq!(result.is_some(), false);
}

#[test]
fn test_parse_opcode() {
    // First tests that the opcode is detected and parsed correctly
    let result = opcode("load ");
    assert_eq!(result.is_some(), true);
    let (token, used) = result.unwrap();
    assert_eq!(token, Token::Op { code: OpCode::LOAD });
    assert_eq!(&"load "[used..], " ");

    // Tests that an invalid opcode isn't recognized
    let result = opcode("aold ");
    assert_eq!(result.is_some(), false);
}

#[test]
fn test_program_to_bytes() {
    let result = program("load $0 #100\n");
    assert_eq!(result.is_some(), true);
    let (program, _) = result.unwrap();
    let bytecode = program.to_bytes(&SymbolTable::new()).unwrap();
    assert_eq!(bytecode.len(), 4);
}

#[test]
fn test_str_to_opcode() {
    let opcode = OpCode::from_string("load");
    assert_eq!(opcode, OpCode::LOAD);
    let opcode = OpCode::from_string("illegal");
    assert_eq!(opcode, OpCode::IGL);
}

#[test]
fn test_parse_label_declaration() {
    let result = label_declaration("test:");
    assert_eq!(result.is_some(), true);
    let (token, _) = result.unwrap();
    assert_eq!(
        token,
        Token::LabelDeclaration {
            name: b"test".to_vec()
        }
    );
    let result = label_declaration("test");
    assert_eq!(result.is_some(), false);
}

#[test]
fn test_parse_label_usage() {
    let result = label_usage("@test");
    assert_eq!(result.is_some(), true);
    let (token, _) = result.unwrap();
    assert_eq!(
        token,
        Token::LabelUsage {
            name: b"test".to_vec()
        }
    );
    let result = label_usage("test");
    assert_eq!(result.is_some(), false);
}

#[test]
fn test_parse_instruction_form_one() {
    let result = instruction("load $0 #100\n");
    assert_eq!(
        result,
        Some((
            AssemblerInstruction::new(
                Some(Token::Op { code: OpCode::LOAD }),
                [
                    Some(Token::Register { id: 0 }),
                    Some(Token::IntegerOperand {
                        value: 100,
                        sign_bit: false
                    }),
                    None
                ],
                None,
                None
            ),
            13
        ))
    );
}

#[test]
fn test_parse_instruction_form_two() {
    let result = instruction("hlt\n");
    assert_eq!(
        result,
        Some((
            AssemblerInstruction::new(
                Some(Token::Op { code: OpCode::HLT }),
                [None, None, None],
                None,
                None
            ),
            4
        ))
    );
}

#[test]
fn labels_fold_usage_but_not_declaration() {
    let (token, _) = label_usage("@TEST").unwrap();
    assert_eq!(
        token,
        Token::LabelUsage {
            name: b"test".to_vec()
        }
    );
    let (token, _) = label_declaration("TEST:").unwrap();
    assert_eq!(
        token,
        Token::LabelDeclaration {
            name: b"TEST".to_vec()
        }
    );
}

#[test]
fn hex_and_separator_integers_parse() {
    let (tok, _) = integer_operand("0x10 ").unwrap();
    assert_eq!(
        tok,
        Token::IntegerOperand {
            value: 16,
            sign_bit: false
        }
    );
    let (tok, _) = integer_operand("-#1_00 ").unwrap();
    assert_eq!(
        tok,
        Token::IntegerOperand {
            value: 100,
            sign_bit: true
        }
    );
    // the magnitude must fit sixteen bits
    assert!(integer_operand("#65536 ").is_none());
    assert!(integer_operand("#65535 ").is_some());
}

#[test]
fn register_values_beyond_a_byte_fail() {
    assert!(register("$255 ").is_some());
    assert!(register("$256 ").is_none());
}

#[test]
fn directive_line_parses_bare_headers() {
    let result = directive(".data\n");
    assert!(result.is_some());
    let (rec, used) = result.unwrap();
    assert_eq!(used, 6);
    assert_eq!(
        rec.directive,
        Some(Token::Directive {
            name: b"data".to_vec()
        })
    );
    assert!(rec.opcode.is_none());
}

#[test]
fn string_directive_takes_an_attached_string() {
    let result = directive(".asciiz'hello'\n");
    assert!(result.is_some());
    let (rec, _) = result.unwrap();
    assert_eq!(
        rec.operands[0],
        Some(Token::IRString {
            name: b"hello".to_vec()
        })
    );
}

#[test]
fn label_line_attaches_to_the_following_instruction() {
    let result = instruction("test:\n    inc $0\n");
    assert!(result.is_some());
    let (rec, _) = result.unwrap();
    assert_eq!(
        rec.label,
        Some(Token::LabelDeclaration {
            name: b"test".to_vec()
        })
    );
    assert_eq!(rec.opcode, Some(Token::Op { code: OpCode::INC }));
}
