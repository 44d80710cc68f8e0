//! The state behind an interactive session: one assembler and one machine,
//! plus the lines entered so far. The terminal loop itself lives outside the
//! library; everything here is plain computation.

use vstd::prelude::*;

verus! {

use vstd::string::StringSliceAdditionalSpecFns;
use crate::assembler::{
    asm_init,
    asm_wf,
    assemble_post,
    assemble_room,
    errs_view,
    Assembler,
    AssemblerError,
};
use crate::vm::{initial_vm, VM};

/// The session state: the accumulating assembler, the machine the assembled
/// code runs on, and the command history.
pub struct REPL {
    pub command_buffer: Vec<String>,
    pub assembler: Assembler,
    pub vm: VM,
}

impl REPL {
    /// A fresh session.
    pub fn new() -> (r: Self)
        ensures
            r.command_buffer@.len() == 0,
            r.assembler@ == asm_init(),
            r.vm@ == initial_vm(),
    {
        Self { command_buffer: Vec::new(), assembler: Assembler::new(), vm: VM::new() }
    }

    /// Assemble more program text; when that fails, the machine is reset and
    /// the history cleared, so the session starts over from the errors.
    pub fn assemble_from(&mut self, program: &str) -> (r: Result<Vec<u8>, Vec<AssemblerError>>)
        requires
            asm_wf(old(self).assembler@),
            assemble_room(old(self).assembler@, program.spec_bytes()),
        ensures
            asm_wf(final(self).assembler@),
            assemble_post(
                old(self).assembler@,
                program.spec_bytes(),
                final(self).assembler@,
                match r {
                    Ok(v) => Ok(v@),
                    Err(es) => Err(errs_view(es)),
                },
            ),
            r is Ok ==> final(self).vm == old(self).vm && final(self).command_buffer
                == old(self).command_buffer,
            r is Err ==> final(self).vm@ == initial_vm() && final(self).command_buffer@.len() == 0,
    {
        match self.assembler.assemble(program) {
            Ok(bytecode) => Ok(bytecode),
            Err(e) => {
                self.vm.reset();
                self.command_buffer.clear();
                Err(e)
            },
        }
    }
}

} // verus!
