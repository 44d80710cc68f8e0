//! Tests for the session state behind the interactive shell.

use regvm::repl::REPL;

#[test]
fn fresh_sessions_start_empty() {
    let repl = REPL::new();
    assert_eq!(repl.command_buffer.len(), 0);
    assert_eq!(repl.assembler.bytecode.len(), 0);
    assert_eq!(*repl.vm.read_pc(), 0);
}

#[test]
fn failed_assembly_resets_the_session() {
    let mut repl = REPL::new();
    repl.vm.registers.registers[0] = 5;
    repl.command_buffer.push("    load $0 #5".to_string());
    let result = repl.assemble_from("???\n");
    assert!(result.is_err());
    assert_eq!(repl.vm.registers.registers[0], 0);
    assert_eq!(repl.command_buffer.len(), 0);
}

#[test]
fn successive_lines_accumulate_into_one_program() {
    let mut repl = REPL::new();
    let _ = repl.assemble_from("    .data\n");
    let _ = repl.assemble_from("    .code\n");
    let ok = repl.assemble_from("    load $0 #7\n").expect("line assembles");
    assert_eq!(ok.len(), 4);
    assert_eq!(repl.assembler.last_instruction(), vec![0, 0, 0, 7]);
}
