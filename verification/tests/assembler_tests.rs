//! Tests for the assembler: the symbol table, the two passes, the section
//! rules, and whole-program scenarios.

use regvm::assembler::{Assembler, AssemblerError, Symbol, SymbolTable, SymbolType};
use regvm::vm::{StepOutcome, VM};

fn run(vm: &mut VM) {
    loop {
        match vm.step() {
            Ok(StepOutcome::Halted) => return,
            Ok(StepOutcome::Executed { done, .. }) => {
                if done {
                    return;
                }
            }
            Err(_) => return,
        }
    }
}

#[test]
fn test_symbol_table() {
    let mut sym = SymbolTable::new();
    let new_symbol = Symbol::new("test", SymbolType::Label, 12);
    sym.add_symbol(new_symbol);
    assert_eq!(sym.symbols.len(), 1);
    let v = sym.get_symbol_offset("test");
    assert_eq!(true, v.is_some());
    let v = v.unwrap();
    assert_eq!(v, 12);
    let v = sym.get_symbol_offset("does_not_exist");
    assert_eq!(v.is_some(), false);
}

#[test]
fn test_assemble_program() {
    let mut assembler = Assembler::new();
    let test_string = r".data
.code
    load $0 #100
    load $1 #1
    load $2 #0
test:
    inc $0
    neq $0 $2
    jeq @test
    hlt";
    let mut vm = VM::new();
    let bytecode = assembler.assemble(test_string).expect("assembly should succeed");
    assert_eq!(assembler.bytecode.len(), 28);
    vm.add_program(bytecode);
    assert_eq!(vm.program_len(), 28);
}

#[test]
fn rebinding_a_symbol_offset_changes_every_entry() {
    let mut sym = SymbolTable::new();
    sym.add_symbol(Symbol::new("a", SymbolType::Label, 4));
    sym.add_symbol(Symbol::new("b", SymbolType::Label, 8));
    sym.set_symbol_offset("a", 20);
    assert_eq!(sym.get_symbol_offset("a"), Some(20));
    assert_eq!(sym.get_symbol_offset("b"), Some(8));
    assert_eq!(sym.has_symbol("a"), true);
    assert_eq!(sym.has_symbol("c"), false);
}

#[test]
fn minimal_program_assembles_to_one_padded_instruction() {
    // Boundary: the smallest complete program is a single halt.
    let mut assembler = Assembler::new();
    let bytecode = assembler.assemble(".data\n.code\nhlt\n").expect("should assemble");
    assert_eq!(bytecode, vec![5, 0, 0, 0]);

    let mut vm = VM::new();
    vm.add_program(bytecode);
    run(&mut vm);
    assert_eq!(*vm.read_pc(), 4);
    assert!(vm.read_registers().iter().all(|r| *r == 0));
}

#[test]
fn end_to_end_loop_runs_within_a_step_budget() {
    // The branch target is the label's section-relative offset, but the
    // jump takes it as a register index and a byte address, so the counting
    // loop leaves the program instead of iterating; the harness bounds the
    // step count rather than trusting the program to halt itself.
    let source = ".data\n.code\nload $0 #100\nload $1 #1\nload $2 #0\ntest: inc $0\nneq $0 $2\njeq @test\nhlt\n";
    let mut assembler = Assembler::new();
    let bytecode = assembler.assemble(source).expect("should assemble");
    assert_eq!(bytecode.len(), 28);

    let mut vm = VM::new();
    vm.add_program(bytecode);
    assert!(vm.run_for(100).is_ok());
    assert_eq!(vm.read_registers()[0], 101);
    assert_eq!(vm.equal_flag, true);
    assert_eq!(*vm.read_pc(), 101);
}

#[test]
fn forward_label_reference_resolves_to_the_declaration_offset() {
    // Round-trip: `jeq @target` stands before `target:`, and the resolved
    // offset is the one determined by the declaration's position alone.
    let mut assembler = Assembler::new();
    let bytecode = assembler
        .assemble(".data\n.code\njeq @target\ntarget: hlt\n")
        .expect("should assemble");
    // record index 3, section opened at record 1: offset = 3*4 - (1*4 + 4)
    assert_eq!(bytecode[0..4], [15, 0, 4, 0]);

    let mut second = Assembler::new();
    let bytecode2 = second
        .assemble(".data\n.code\ntarget: hlt\njeq @target\n")
        .expect("should assemble");
    // the same formula with the declaration at record 2: offset 0
    assert_eq!(bytecode2[4..8], [15, 0, 0, 0]);
}

#[test]
fn duplicate_labels_yield_an_error_and_no_bytecode() {
    let mut assembler = Assembler::new();
    let result = assembler.assemble(".data\n.code\ntest: hlt\ntest: hlt\n");
    let errors = result.expect_err("duplicate labels must fail");
    assert!(errors
        .iter()
        .any(|e| matches!(e, AssemblerError::SymbolAlreadyDeclared { name } if name == b"test")));
    assert_eq!(assembler.bytecode.len(), 0);
}

#[test]
fn missing_or_extra_sections_are_insufficient() {
    let mut assembler = Assembler::new();
    let errors = assembler.assemble(".code\nhlt\n").expect_err("one section only");
    assert_eq!(errors, vec![AssemblerError::InsufficientSections]);

    let mut second = Assembler::new();
    let errors = second
        .assemble(".data\n.code\n.code\nhlt\n")
        .expect_err("three sections");
    assert_eq!(errors, vec![AssemblerError::InsufficientSections]);
}

#[test]
fn integer_operands_encode_big_endian() {
    // `#100` becomes 0x00 0x64; `-#100` the two's-complement bytes of -100.
    let mut assembler = Assembler::new();
    let bytecode = assembler
        .assemble(".data\n.code\nload $0 #100\nhlt\n")
        .expect("should assemble");
    assert_eq!(bytecode[0..4], [0, 0, 0x00, 0x64]);

    let mut second = Assembler::new();
    let bytecode2 = second
        .assemble(".data\n.code\nload $0 -#100\nhlt\n")
        .expect("should assemble");
    assert_eq!(bytecode2[0..4], [0, 0, 0xFF, 0x9C]);
}

#[test]
fn unparseable_text_is_a_parse_error() {
    let mut assembler = Assembler::new();
    let errors = assembler.assemble("???\n").expect_err("not a program");
    assert!(matches!(errors[0], AssemblerError::ParseError { .. }));
}

#[test]
fn unknown_section_headers_are_errors() {
    let mut assembler = Assembler::new();
    let errors = assembler.assemble(".bss\n.code\nhlt\n").expect_err("bad header");
    assert!(errors
        .iter()
        .any(|e| matches!(e, AssemblerError::UnknownSectionHeader { header } if header == b"bss")));
}

#[test]
fn unknown_directives_with_operands_are_errors() {
    let mut assembler = Assembler::new();
    let errors = assembler
        .assemble(".data\n.code\n.bogus'x'\nhlt\n")
        .expect_err("bad directive");
    assert!(errors.iter().any(
        |e| matches!(e, AssemblerError::UnknownDirectiveFound { directive } if directive == b"bogus")
    ));
}

#[test]
fn labels_before_any_section_are_errors() {
    let mut assembler = Assembler::new();
    let errors = assembler
        .assemble("early: hlt\n.data\n.code\nhlt\n")
        .expect_err("label without a segment");
    assert!(errors
        .iter()
        .any(|e| matches!(e, AssemblerError::NoSegmentDeclarationFound { .. })));
}

#[test]
fn unresolved_label_usages_are_errors() {
    let mut assembler = Assembler::new();
    let errors = assembler
        .assemble(".data\n.code\njeq @missing\nhlt\n")
        .expect_err("missing label");
    assert!(errors
        .iter()
        .any(|e| matches!(e, AssemblerError::SymbolNotFound { name } if name == b"missing")));
    assert_eq!(assembler.bytecode.len(), 0);
}

#[test]
fn last_instruction_is_the_final_four_bytes() {
    let mut assembler = Assembler::new();
    assert_eq!(assembler.last_instruction(), Vec::<u8>::new());
    assembler.assemble(".data\n.code\nload $0 #1\nhlt\n")
        .expect("should assemble");
    assert_eq!(assembler.last_instruction(), vec![5, 0, 0, 0]);
}

#[test]
fn string_constants_all_share_the_read_only_offset() {
    // The read-only offset counter never advances, so every string the
    // first pass binds resolves to offset zero; kept as observed.
    let mut assembler = Assembler::new();
    let bytecode = assembler
        .assemble(".data\n.code\ntest: hlt\n.asciiz'one'\njeq @test\n")
        .expect("should assemble");
    assert_eq!(bytecode.len(), 8);
}

#[test]
fn string_in_an_instruction_operand_cannot_encode() {
    let mut assembler = Assembler::new();
    let errors = assembler
        .assemble(".data\n.code\nload 'oops'\nhlt\n")
        .expect_err("strings are not instruction operands");
    assert!(errors
        .iter()
        .any(|e| matches!(e, AssemblerError::OpcodeInOperandField)));
}
