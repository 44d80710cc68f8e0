//! The virtual machine: a register file, program counter, growable heap and
//! comparison flag, driven by a fetch-decode-execute loop over a flat stream
//! of 4-byte instructions.

use vstd::prelude::*;

verus! {

use crate::opcode::{opcode_of_byte, Instruction, OpCode};
use vstd::arithmetic::div_mod::{
    lemma_div_is_ordered_by_denominator,
    lemma_div_nonincreasing,
    lemma_div_pos_is_pos,
    lemma_mod_bound,
};

/// The failures a single execution step can report. Errors are values; the
/// machine never panics.
#[derive(Clone, Copy, Debug, PartialEq, Eq, Structural)]
pub enum VmError {
    /// An operand named a register outside the fixed register file.
    RegisterOutOfBounds { index: usize },
    /// The fetched opcode byte has no execution semantics.
    UnrecognizedOpcode { code: u8 },
    /// Integer division with a zero divisor.
    DivideByZero,
    /// Integer division whose quotient does not fit a 32-bit register.
    DivisionOverflow,
    /// A heap allocation was requested with a negative byte count.
    NegativeAllocation { requested: i32 },
    /// A heap allocation would push the heap past the address space.
    HeapOverflow,
    /// Fewer than four bytes remain at the program counter.
    TruncatedInstruction,
}

/// The fixed file of 32 general-purpose registers.
#[derive(Debug)]
pub struct RegisterSet {
    pub registers: [i32; 32],
}

impl View for RegisterSet {
    type V = Seq<i32>;

    open spec fn view(&self) -> Seq<i32> {
        self.registers@
    }
}

impl RegisterSet {
    /// A register file with every register zero.
    pub fn new() -> (r: Self)
        ensures
            r@ == Seq::new(32, |i: int| 0i32),
    {
        let r = RegisterSet { registers: [0; 32] };
        proof {
            assert(r@ =~= Seq::new(32, |i: int| 0i32));
        }
        r
    }

    /// Read one register, or report the index as out of range.
    pub fn get(&self, index: usize) -> (r: Result<&i32, VmError>)
        ensures
            match r {
                Ok(v) => index < 32 && *v == self@[index as int],
                Err(e) => index >= 32 && e == (VmError::RegisterOutOfBounds { index }),
            },
    {
        if index < 32 {
            Ok(&self.registers[index])
        } else {
            Err(VmError::RegisterOutOfBounds { index })
        }
    }

    /// Write one register, or report the index as out of range.
    pub fn set(&mut self, index: usize, value: i32) -> (r: Result<(), VmError>)
        ensures
            match r {
                Ok(()) => index < 32 && final(self)@ == old(self)@.update(index as int, value),
                Err(e) => index >= 32 && final(self)@ == old(self)@ && e == (
                VmError::RegisterOutOfBounds { index }),
            },
    {
        if index < 32 {
            self.registers[index] = value;
            Ok(())
        } else {
            Err(VmError::RegisterOutOfBounds { index })
        }
    }

    /// Add one to a register, wrapping at the register width.
    pub fn inc(&mut self, index: usize) -> (r: Result<(), VmError>)
        ensures
            match r {
                Ok(()) => index < 32 && final(self)@ == old(self)@.update(
                    index as int,
                    old(self)@[index as int].wrapping_add(1),
                ),
                Err(e) => index >= 32 && final(self)@ == old(self)@ && e == (
                VmError::RegisterOutOfBounds { index }),
            },
    {
        if index < 32 {
            self.registers[index] = self.registers[index].wrapping_add(1);
            Ok(())
        } else {
            Err(VmError::RegisterOutOfBounds { index })
        }
    }

    /// Subtract one from a register, wrapping at the register width.
    pub fn dec(&mut self, index: usize) -> (r: Result<(), VmError>)
        ensures
            match r {
                Ok(()) => index < 32 && final(self)@ == old(self)@.update(
                    index as int,
                    old(self)@[index as int].wrapping_sub(1),
                ),
                Err(e) => index >= 32 && final(self)@ == old(self)@ && e == (
                VmError::RegisterOutOfBounds { index }),
            },
    {
        if index < 32 {
            self.registers[index] = self.registers[index].wrapping_sub(1);
            Ok(())
        } else {
            Err(VmError::RegisterOutOfBounds { index })
        }
    }
}

/// The machine state as mathematics: what the contracts speak of.
pub ghost struct VmSnap {
    pub registers: Seq<i32>,
    pub pc: int,
    pub program: Seq<u8>,
    pub heap: Seq<u8>,
    pub remainder: u32,
    pub equal_flag: bool,
}

/// What one step reports, abstracted from the exec-side outcome value.
pub ghost enum StepSpec {
    /// The program counter stood at or past the end: nothing was fetched.
    Halted,
    /// An instruction was fetched and executed; `done` marks a halt request.
    Executed { op: OpCode, operands: Seq<u8>, done: bool },
    /// An instruction was fetched but execution failed.
    Failed { e: VmError },
}

/// The signed 16-bit value held by two big-endian immediate bytes.
pub open spec fn imm16_val(b1: u8, b2: u8) -> int {
    let w = b1 * 256 + b2;
    if w < 32768 {
        w
    } else {
        w - 65536
    }
}

/// Rust's truncating quotient, which rounds toward zero.
pub open spec fn t_div(x: int, d: int) -> int {
    if x == 0 {
        0
    } else if x > 0 && d > 0 {
        x / d
    } else if x < 0 && d < 0 {
        (x * -1) / (d * -1)
    } else if x < 0 {
        ((x * -1) / d) * -1
    } else {
        (x / (d * -1)) * -1
    }
}

/// Rust's truncating remainder, which keeps the dividend's sign.
pub open spec fn t_rem(x: int, d: int) -> int {
    if x == 0 {
        0
    } else if x > 0 && d > 0 {
        x % d
    } else if x < 0 && d < 0 {
        ((x * -1) % (d * -1)) * -1
    } else if x < 0 {
        ((x * -1) % d) * -1
    } else {
        x % (d * -1)
    }
}

/// The fixed spacing of one instruction in the byte stream.
pub open spec fn fetched(s: VmSnap) -> VmSnap {
    VmSnap { pc: s.pc + 4, ..s }
}

/// The complete step relation of the machine: the state after one step and
/// what the step reports, for every starting state.
pub open spec fn step_result(s: VmSnap) -> (VmSnap, StepSpec) {
    if s.pc >= s.program.len() {
        (s, StepSpec::Halted)
    } else if s.pc + 4 > s.program.len() {
        (s, StepSpec::Failed { e: VmError::TruncatedInstruction })
    } else {
        let code = s.program[s.pc];
        let op = opcode_of_byte(code);
        let o0 = s.program[s.pc + 1];
        let o1 = s.program[s.pc + 2];
        let o2 = s.program[s.pc + 3];
        let s1 = fetched(s);
        let ran = StepSpec::Executed { op, operands: seq![o0, o1, o2], done: false };
        let halt = StepSpec::Executed { op, operands: seq![o0, o1, o2], done: true };
        match op {
            OpCode::LOAD => {
                if o0 >= 32 {
                    (s1, StepSpec::Failed { e: VmError::RegisterOutOfBounds { index: o0 as usize } })
                } else {
                    (
                        VmSnap {
                            registers: s1.registers.update(o0 as int, imm16_val(o1, o2) as i32),
                            ..s1
                        },
                        ran,
                    )
                }
            },
            OpCode::INC => {
                if o0 >= 32 {
                    (s1, StepSpec::Failed { e: VmError::RegisterOutOfBounds { index: o0 as usize } })
                } else {
                    (
                        VmSnap {
                            registers: s1.registers.update(
                                o0 as int,
                                s1.registers[o0 as int].wrapping_add(1),
                            ),
                            ..s1
                        },
                        ran,
                    )
                }
            },
            OpCode::DEC => {
                if o0 >= 32 {
                    (s1, StepSpec::Failed { e: VmError::RegisterOutOfBounds { index: o0 as usize } })
                } else {
                    (
                        VmSnap {
                            registers: s1.registers.update(
                                o0 as int,
                                s1.registers[o0 as int].wrapping_sub(1),
                            ),
                            ..s1
                        },
                        ran,
                    )
                }
            },
            OpCode::JMP => {
                if o0 >= 32 {
                    (s1, StepSpec::Failed { e: VmError::RegisterOutOfBounds { index: o0 as usize } })
                } else {
                    (VmSnap { pc: s1.registers[o0 as int] as usize as int, ..s1 }, ran)
                }
            },
            OpCode::JMPF => {
                if o0 >= 32 {
                    (s1, StepSpec::Failed { e: VmError::RegisterOutOfBounds { index: o0 as usize } })
                } else {
                    (
                        VmSnap {
                            pc: (s1.pc as usize).wrapping_add(
                                s1.registers[o0 as int] as usize,
                            ) as int,
                            ..s1
                        },
                        ran,
                    )
                }
            },
            OpCode::JMPB => {
                if o0 >= 32 {
                    (s1, StepSpec::Failed { e: VmError::RegisterOutOfBounds { index: o0 as usize } })
                } else {
                    (
                        VmSnap {
                            pc: (s1.pc as usize).wrapping_sub(
                                s1.registers[o0 as int] as usize,
                            ) as int,
                            ..s1
                        },
                        ran,
                    )
                }
            },
            OpCode::ADD => {
                if o0 >= 32 {
                    (s1, StepSpec::Failed { e: VmError::RegisterOutOfBounds { index: o0 as usize } })
                } else if o1 >= 32 {
                    (s1, StepSpec::Failed { e: VmError::RegisterOutOfBounds { index: o1 as usize } })
                } else if o2 >= 32 {
                    (s1, StepSpec::Failed { e: VmError::RegisterOutOfBounds { index: o2 as usize } })
                } else {
                    (
                        VmSnap {
                            registers: s1.registers.update(
                                o2 as int,
                                s1.registers[o0 as int].wrapping_add(s1.registers[o1 as int]),
                            ),
                            ..s1
                        },
                        ran,
                    )
                }
            },
            OpCode::SUB => {
                if o0 >= 32 {
                    (s1, StepSpec::Failed { e: VmError::RegisterOutOfBounds { index: o0 as usize } })
                } else if o1 >= 32 {
                    (s1, StepSpec::Failed { e: VmError::RegisterOutOfBounds { index: o1 as usize } })
                } else if o2 >= 32 {
                    (s1, StepSpec::Failed { e: VmError::RegisterOutOfBounds { index: o2 as usize } })
                } else {
                    (
                        VmSnap {
                            registers: s1.registers.update(
                                o2 as int,
                                s1.registers[o0 as int].wrapping_sub(s1.registers[o1 as int]),
                            ),
                            ..s1
                        },
                        ran,
                    )
                }
            },
            OpCode::MUL => {
                if o0 >= 32 {
                    (s1, StepSpec::Failed { e: VmError::RegisterOutOfBounds { index: o0 as usize } })
                } else if o1 >= 32 {
                    (s1, StepSpec::Failed { e: VmError::RegisterOutOfBounds { index: o1 as usize } })
                } else if o2 >= 32 {
                    (s1, StepSpec::Failed { e: VmError::RegisterOutOfBounds { index: o2 as usize } })
                } else {
                    (
                        VmSnap {
                            registers: s1.registers.update(
                                o2 as int,
                                s1.registers[o0 as int].wrapping_mul(s1.registers[o1 as int]),
                            ),
                            ..s1
                        },
                        ran,
                    )
                }
            },
            OpCode::DIV => {
                if o0 >= 32 {
                    (s1, StepSpec::Failed { e: VmError::RegisterOutOfBounds { index: o0 as usize } })
                } else if o1 >= 32 {
                    (s1, StepSpec::Failed { e: VmError::RegisterOutOfBounds { index: o1 as usize } })
                } else {
                    let x = s1.registers[o0 as int];
                    let d = s1.registers[o1 as int];
                    if d == 0 {
                        (s1, StepSpec::Failed { e: VmError::DivideByZero })
                    } else if x == i32::MIN && d == -1 {
                        (s1, StepSpec::Failed { e: VmError::DivisionOverflow })
                    } else if o2 >= 32 {
                        (
                            s1,
                            StepSpec::Failed { e: VmError::RegisterOutOfBounds { index: o2 as usize } },
                        )
                    } else {
                        (
                            VmSnap {
                                registers: s1.registers.update(
                                    o2 as int,
                                    t_div(x as int, d as int) as i32,
                                ),
                                remainder: t_rem(x as int, d as int) as i32 as u32,
                                ..s1
                            },
                            ran,
                        )
                    }
                }
            },
            OpCode::EQ => {
                if o0 >= 32 {
                    (s1, StepSpec::Failed { e: VmError::RegisterOutOfBounds { index: o0 as usize } })
                } else if o1 >= 32 {
                    (s1, StepSpec::Failed { e: VmError::RegisterOutOfBounds { index: o1 as usize } })
                } else {
                    (
                        VmSnap {
                            equal_flag: s1.registers[o0 as int] == s1.registers[o1 as int],
                            ..s1
                        },
                        ran,
                    )
                }
            },
            OpCode::NEQ => {
                if o0 >= 32 {
                    (s1, StepSpec::Failed { e: VmError::RegisterOutOfBounds { index: o0 as usize } })
                } else if o1 >= 32 {
                    (s1, StepSpec::Failed { e: VmError::RegisterOutOfBounds { index: o1 as usize } })
                } else {
                    (
                        VmSnap {
                            equal_flag: s1.registers[o0 as int] != s1.registers[o1 as int],
                            ..s1
                        },
                        ran,
                    )
                }
            },
            OpCode::JEQ => {
                if !s1.equal_flag {
                    (s1, ran)
                } else if o0 >= 32 {
                    (s1, StepSpec::Failed { e: VmError::RegisterOutOfBounds { index: o0 as usize } })
                } else {
                    (VmSnap { pc: s1.registers[o0 as int] as usize as int, ..s1 }, ran)
                }
            },
            OpCode::JNE => {
                if s1.equal_flag {
                    (s1, ran)
                } else if o0 >= 32 {
                    (s1, StepSpec::Failed { e: VmError::RegisterOutOfBounds { index: o0 as usize } })
                } else {
                    (VmSnap { pc: s1.registers[o0 as int] as usize as int, ..s1 }, ran)
                }
            },
            OpCode::ALOC => {
                if o0 >= 32 {
                    (s1, StepSpec::Failed { e: VmError::RegisterOutOfBounds { index: o0 as usize } })
                } else {
                    let v = s1.registers[o0 as int];
                    if v < 0 {
                        (s1, StepSpec::Failed { e: VmError::NegativeAllocation { requested: v } })
                    } else if s1.heap.len() + v > usize::MAX {
                        (s1, StepSpec::Failed { e: VmError::HeapOverflow })
                    } else {
                        (
                            VmSnap {
                                heap: s1.heap + Seq::new(v as nat, |i: int| 0u8),
                                ..s1
                            },
                            ran,
                        )
                    }
                }
            },
            OpCode::HLT => (s1, halt),
            _ => (s1, StepSpec::Failed { e: VmError::UnrecognizedOpcode { code } }),
        }
    }
}

/// The state every register-machine starts from and `reset` returns to.
pub open spec fn initial_vm() -> VmSnap {
    VmSnap {
        registers: Seq::new(32, |i: int| 0i32),
        pc: 0,
        program: Seq::empty(),
        heap: Seq::empty(),
        remainder: 0,
        equal_flag: false,
    }
}

/// What a single step hands back to the caller.
#[derive(Debug, PartialEq, Clone)]
pub enum StepOutcome {
    /// The program counter stood at or past the end of the program.
    Halted,
    /// An instruction ran; `done` is set when it asked the machine to halt.
    Executed { instruction: Instruction, done: bool },
}

/// The exec-side outcome agrees with the spec-side step report.
pub open spec fn outcome_matches(r: Result<StepOutcome, VmError>, out: StepSpec) -> bool {
    match out {
        StepSpec::Halted => r == Ok::<StepOutcome, VmError>(StepOutcome::Halted),
        StepSpec::Executed { op, operands, done } => match r {
            Ok(StepOutcome::Executed { instruction, done: d }) => instruction.opcode == op
                && instruction.operands@ == operands && d == done,
            _ => false,
        },
        StepSpec::Failed { e } => r == Err::<StepOutcome, VmError>(e),
    }
}

/// The state and result after at most `n` steps, stopping early only on a
/// failure; halted states step to themselves.
pub open spec fn run_for_spec(s: VmSnap, n: nat) -> (VmSnap, Result<(), VmError>)
    decreases n,
{
    if n == 0 {
        (s, Ok(()))
    } else {
        let (s1, out) = step_result(s);
        match out {
            StepSpec::Failed { e } => (s1, Err(e)),
            _ => run_for_spec(s1, (n - 1) as nat),
        }
    }
}

/// The virtual machine: 32 signed 32-bit registers, a byte-indexed program
/// counter, the program buffer, a grow-only heap, the remainder of the last
/// division, and the comparison flag.
#[derive(Debug)]
pub struct VM {
    pub registers: RegisterSet,
    pub pc: usize,
    pub program: Vec<u8>,
    pub heap: Vec<u8>,
    pub remainder: u32,
    pub equal_flag: bool,
}

impl View for VM {
    type V = VmSnap;

    open spec fn view(&self) -> VmSnap {
        VmSnap {
            registers: self.registers@,
            pc: self.pc as int,
            program: self.program@,
            heap: self.heap@,
            remainder: self.remainder,
            equal_flag: self.equal_flag,
        }
    }
}

impl VM {
    /// A fresh machine in the initial state.
    pub fn new() -> (r: Self)
        ensures
            r@ == initial_vm(),
    {
        let r = VM {
            registers: RegisterSet::new(),
            program: Vec::new(),
            heap: Vec::new(),
            pc: 0,
            remainder: 0,
            equal_flag: false,
        };
        proof {
            assert(r@.program =~= initial_vm().program);
            assert(r@.heap =~= initial_vm().heap);
        }
        r
    }

    /// Read access to the program counter.
    pub fn read_pc(&self) -> (r: &usize)
        ensures
            r == &self.pc,
    {
        &self.pc
    }

    /// The length of the loaded program in bytes.
    pub fn program_len(&self) -> (r: usize)
        ensures
            r == self.program@.len(),
    {
        self.program.len()
    }

    /// Read access to the program buffer.
    pub fn read_program(&self) -> (r: &Vec<u8>)
        ensures
            r == &self.program,
    {
        &self.program
    }

    /// Read access to the register file.
    pub fn read_registers(&self) -> (r: &[i32])
        ensures
            r@ == self.registers@,
    {
        self.registers.registers.as_slice()
    }

    /// Read access to the heap buffer.
    pub fn read_heap(&self) -> (r: &Vec<u8>)
        ensures
            r == &self.heap,
    {
        &self.heap
    }

    /// Append assembled bytes to the program buffer.
    pub fn add_program(&mut self, command: Vec<u8>)
        ensures
            final(self)@ == (VmSnap { program: old(self)@.program + command@, ..old(self)@ }),
    {
        let mut tail = command;
        self.program.append(&mut tail);
    }

    /// Splice bytes into the program buffer at a byte offset.
    pub fn insert_into_program(&mut self, bytes: &Vec<u8>, offset: usize)
        requires
            offset <= old(self)@.program.len(),
        ensures
            final(self)@ == (VmSnap {
                program: old(self)@.program.subrange(0, offset as int) + bytes@ + old(
                    self,
                )@.program.subrange(offset as int, old(self)@.program.len() as int),
                ..old(self)@
            }),
    {
        let n = self.program.len();
        let m = bytes.len();
        let mut out: Vec<u8> = Vec::new();
        let mut i: usize = 0;
        while i < offset
            invariant
                offset <= n == self.program@.len(),
                m == bytes@.len(),
                i <= offset,
                out@ == self.program@.subrange(0, i as int),
            decreases offset - i,
        {
            out.push(self.program[i]);
            proof {
                assert(out@ =~= self.program@.subrange(0, i + 1));
            }
            i += 1;
        }
        let mut j: usize = 0;
        while j < m
            invariant
                offset <= n == self.program@.len(),
                m == bytes@.len(),
                j <= m,
                out@ == self.program@.subrange(0, offset as int) + bytes@.take(j as int),
            decreases m - j,
        {
            out.push(bytes[j]);
            proof {
                assert(out@ =~= self.program@.subrange(0, offset as int) + bytes@.take(j + 1));
            }
            j += 1;
        }
        let mut k: usize = offset;
        while k < n
            invariant
                offset <= k <= n == self.program@.len(),
                m == bytes@.len(),
                out@ == self.program@.subrange(0, offset as int) + bytes@ + self.program@.subrange(
                    offset as int,
                    k as int,
                ),
            decreases n - k,
        {
            out.push(self.program[k]);
            proof {
                assert(out@ =~= self.program@.subrange(0, offset as int) + bytes@
                    + self.program@.subrange(offset as int, k + 1));
            }
            k += 1;
        }
        proof {
            assert(bytes@.take(m as int) =~= bytes@);
        }
        self.program = out;
    }

    /// Return the machine to the exact state of a freshly constructed one.
    pub fn reset(&mut self)
        ensures
            final(self)@ == initial_vm(),
    {
        self.pc = 0;
        self.registers = RegisterSet::new();
        self.remainder = 0;
        self.program = Vec::new();
        self.heap = Vec::new();
        self.equal_flag = false;
        proof {
            assert(final(self)@.program =~= initial_vm().program);
            assert(final(self)@.heap =~= initial_vm().heap);
        }
    }

    /// Decode the opcode byte at the program counter and advance past it.
    fn decode_opcode(&mut self) -> (r: OpCode)
        requires
            old(self)@.pc < old(self)@.program.len(),
        ensures
            final(self)@ == (VmSnap { pc: old(self)@.pc + 1, ..old(self)@ }),
            r == opcode_of_byte(old(self)@.program[old(self)@.pc]),
    {
        let n = self.program.len();
        let opcode = OpCode::from_byte(self.program[self.pc]);
        self.pc = self.pc + 1;
        opcode
    }

    /// Fetch one whole instruction: the opcode byte and, unconditionally, the
    /// three operand bytes that pad every instruction to four bytes.
    fn get_next_instruction(&mut self) -> (r: Instruction)
        requires
            old(self)@.pc + 4 <= old(self)@.program.len(),
        ensures
            final(self)@ == fetched(old(self)@),
            r.opcode == opcode_of_byte(old(self)@.program[old(self)@.pc]),
            r.operands@ == seq![
                old(self)@.program[old(self)@.pc + 1],
                old(self)@.program[old(self)@.pc + 2],
                old(self)@.program[old(self)@.pc + 3],
            ],
    {
        let opcode = self.decode_opcode();
        let n = self.program.len();
        let p = self.pc;
        let mut operands: Vec<u8> = Vec::new();
        operands.push(self.program[p]);
        operands.push(self.program[p + 1]);
        operands.push(self.program[p + 2]);
        self.pc = p + 3;
        proof {
            assert(operands@ =~= seq![
                old(self)@.program[old(self)@.pc + 1],
                old(self)@.program[old(self)@.pc + 2],
                old(self)@.program[old(self)@.pc + 3],
            ]);
        }
        Instruction::new(opcode, operands)
    }

    /// The signed 16-bit value held by the first two bytes, most significant
    /// first.
    pub fn conv_u8s_i16(bytes: &[u8]) -> (r: i16)
        requires
            bytes@.len() >= 2,
        ensures
            r as int == imm16_val(bytes@[0], bytes@[1]),
    {
        let b0 = bytes[0];
        let b1 = bytes[1];
        let w: u16 = ((b0 as u16) << 8) | (b1 as u16);
        proof {
            assert(w == b0 * 256 + b1) by (bit_vector)
                requires
                    w == ((b0 as u16) << 8) | (b1 as u16),
            ;
        }
        let v = #[verifier::truncate] (w as i16);
        proof {
            assert(v as int == if w < 32768 {
                w as int
            } else {
                w - 65536
            }) by (bit_vector)
                requires
                    v == w as i16,
            ;
        }
        v
    }

    /// Execute exactly one step of the machine, per the step relation.
    fn execute_instruction(&mut self) -> (r: Result<StepOutcome, VmError>)
        ensures
            final(self)@ == step_result(old(self)@).0,
            outcome_matches(r, step_result(old(self)@).1),
    {
        if self.pc >= self.program.len() {
            return Ok(StepOutcome::Halted);
        }
        if self.program.len() - self.pc < 4 {
            return Err(VmError::TruncatedInstruction);
        }
        let instruction = self.get_next_instruction();
        let o0 = instruction.operands[0];
        let o1 = instruction.operands[1];
        let o2 = instruction.operands[2];
        let opcode = instruction.opcode;
        let mut done = false;
        match opcode {
            OpCode::LOAD => {
                let pair: [u8; 2] = [o1, o2];
                let imm = Self::conv_u8s_i16(pair.as_slice());
                match self.registers.set(o0 as usize, imm as i32) {
                    Ok(()) => (),
                    Err(e) => {
                        return Err(e);
                    },
                }
            },
            OpCode::INC => {
                match self.registers.inc(o0 as usize) {
                    Ok(()) => (),
                    Err(e) => {
                        return Err(e);
                    },
                }
            },
            OpCode::DEC => {
                match self.registers.dec(o0 as usize) {
                    Ok(()) => (),
                    Err(e) => {
                        return Err(e);
                    },
                }
            },
            OpCode::JMP => {
                match self.registers.get(o0 as usize) {
                    Ok(v) => {
                        let target = #[verifier::truncate] (*v as usize);
                        self.pc = target;
                    },
                    Err(e) => {
                        return Err(e);
                    },
                }
            },
            OpCode::JMPF => {
                match self.registers.get(o0 as usize) {
                    Ok(v) => {
                        let delta = #[verifier::truncate] (*v as usize);
                        self.pc = self.pc.wrapping_add(delta);
                    },
                    Err(e) => {
                        return Err(e);
                    },
                }
            },
            OpCode::JMPB => {
                match self.registers.get(o0 as usize) {
                    Ok(v) => {
                        let delta = #[verifier::truncate] (*v as usize);
                        self.pc = self.pc.wrapping_sub(delta);
                    },
                    Err(e) => {
                        return Err(e);
                    },
                }
            },
            OpCode::ADD => {
                let a = match self.registers.get(o0 as usize) {
                    Ok(v) => *v,
                    Err(e) => {
                        return Err(e);
                    },
                };
                let b = match self.registers.get(o1 as usize) {
                    Ok(v) => *v,
                    Err(e) => {
                        return Err(e);
                    },
                };
                match self.registers.set(o2 as usize, a.wrapping_add(b)) {
                    Ok(()) => (),
                    Err(e) => {
                        return Err(e);
                    },
                }
            },
            OpCode::SUB => {
                let a = match self.registers.get(o0 as usize) {
                    Ok(v) => *v,
                    Err(e) => {
                        return Err(e);
                    },
                };
                let b = match self.registers.get(o1 as usize) {
                    Ok(v) => *v,
                    Err(e) => {
                        return Err(e);
                    },
                };
                match self.registers.set(o2 as usize, a.wrapping_sub(b)) {
                    Ok(()) => (),
                    Err(e) => {
                        return Err(e);
                    },
                }
            },
            OpCode::MUL => {
                let a = match self.registers.get(o0 as usize) {
                    Ok(v) => *v,
                    Err(e) => {
                        return Err(e);
                    },
                };
                let b = match self.registers.get(o1 as usize) {
                    Ok(v) => *v,
                    Err(e) => {
                        return Err(e);
                    },
                };
                match self.registers.set(o2 as usize, a.wrapping_mul(b)) {
                    Ok(()) => (),
                    Err(e) => {
                        return Err(e);
                    },
                }
            },
            OpCode::DIV => {
                let a = match self.registers.get(o0 as usize) {
                    Ok(v) => *v,
                    Err(e) => {
                        return Err(e);
                    },
                };
                let b = match self.registers.get(o1 as usize) {
                    Ok(v) => *v,
                    Err(e) => {
                        return Err(e);
                    },
                };
                if b == 0 {
                    return Err(VmError::DivideByZero);
                }
                if a == i32::MIN && b == -1 {
                    return Err(VmError::DivisionOverflow);
                }
                proof {
                    lemma_t_div_fits(a as int, b as int);
                }
                let q = a.checked_div(b).unwrap();
                let rem = a.checked_rem(b).unwrap();
                match self.registers.set(o2 as usize, q) {
                    Ok(()) => (),
                    Err(e) => {
                        return Err(e);
                    },
                }
                let rem_u = #[verifier::truncate] (rem as u32);
                self.remainder = rem_u;
            },
            OpCode::EQ => {
                let a = match self.registers.get(o0 as usize) {
                    Ok(v) => *v,
                    Err(e) => {
                        return Err(e);
                    },
                };
                let b = match self.registers.get(o1 as usize) {
                    Ok(v) => *v,
                    Err(e) => {
                        return Err(e);
                    },
                };
                self.equal_flag = a == b;
            },
            OpCode::NEQ => {
                let a = match self.registers.get(o0 as usize) {
                    Ok(v) => *v,
                    Err(e) => {
                        return Err(e);
                    },
                };
                let b = match self.registers.get(o1 as usize) {
                    Ok(v) => *v,
                    Err(e) => {
                        return Err(e);
                    },
                };
                self.equal_flag = a != b;
            },
            OpCode::JEQ => {
                if self.equal_flag {
                    match self.registers.get(o0 as usize) {
                        Ok(v) => {
                            #[verifier::truncate]
                            let target = *v as usize;
                            self.pc = target;
                        },
                        Err(e) => {
                            return Err(e);
                        },
                    }
                }
            },
            OpCode::JNE => {
                if !self.equal_flag {
                    match self.registers.get(o0 as usize) {
                        Ok(v) => {
                            #[verifier::truncate]
                            let target = *v as usize;
                            self.pc = target;
                        },
                        Err(e) => {
                            return Err(e);
                        },
                    }
                }
            },
            OpCode::ALOC => {
                let v = match self.registers.get(o0 as usize) {
                    Ok(v) => *v,
                    Err(e) => {
                        return Err(e);
                    },
                };
                if v < 0 {
                    return Err(VmError::NegativeAllocation { requested: v });
                }
                let count = v as usize;
                if count > usize::MAX - self.heap.len() {
                    return Err(VmError::HeapOverflow);
                }
                let new_len = self.heap.len() + count;
                self.heap.resize(new_len, 0);
                proof {
                    assert(self.heap@ =~= old(self)@.heap + Seq::new(v as nat, |i: int| 0u8));
                }
            },
            OpCode::HLT => {
                done = true;
            },
            _ => {
                let ghost s0 = old(self)@;
                proof {
                    assert(step_result(s0).1 == (StepSpec::Failed {
                        e: VmError::UnrecognizedOpcode { code: s0.program[s0.pc] },
                    }));
                }
                return Err(VmError::UnrecognizedOpcode { code: self.program[self.pc - 4] });
            },
        }
        Ok(StepOutcome::Executed { instruction, done })
    }

    /// Execute exactly one instruction and report what happened.
    pub fn step(&mut self) -> (r: Result<StepOutcome, VmError>)
        ensures
            final(self)@ == step_result(old(self)@).0,
            outcome_matches(r, step_result(old(self)@).1),
    {
        self.execute_instruction()
    }

    /// Step at most `max_steps` times, stopping early only on a failure.
    pub fn run_for(&mut self, max_steps: usize) -> (r: Result<(), VmError>)
        ensures
            (final(self)@, r) == run_for_spec(old(self)@, max_steps as nat),
    {
        let mut i: usize = 0;
        while i < max_steps
            invariant
                i <= max_steps,
                run_for_spec(old(self)@, max_steps as nat) == run_for_spec(
                    self@,
                    (max_steps - i) as nat,
                ),
            decreases max_steps - i,
        {
            match self.execute_instruction() {
                Err(e) => {
                    return Err(e);
                },
                _ => (),
            }
            i += 1;
        }
        Ok(())
    }
}

/// For an admissible division the truncating quotient and remainder fit the
/// register width.
proof fn lemma_t_div_fits(x: int, d: int)
    requires
        -0x8000_0000 <= x <= 0x7fff_ffff,
        -0x8000_0000 <= d <= 0x7fff_ffff,
        d != 0,
        !(x == -0x8000_0000 && d == -1),
    ensures
        -0x8000_0000 <= t_div(x, d) <= 0x7fff_ffff,
        -0x8000_0000 <= t_rem(x, d) <= 0x7fff_ffff,
{
    if x == 0 {
    } else if x > 0 && d > 0 {
        lemma_div_pos_is_pos(x, d);
        lemma_div_nonincreasing(x, d);
        lemma_mod_bound(x, d);
    } else if x < 0 && d < 0 {
        let xp = x * -1;
        let dp = d * -1;
        lemma_div_pos_is_pos(xp, dp);
        lemma_div_nonincreasing(xp, dp);
        lemma_mod_bound(xp, dp);
        if xp == 0x8000_0000 {
            lemma_div_is_ordered_by_denominator(xp, 2, dp);
        }
    } else if x < 0 {
        let xp = x * -1;
        lemma_div_pos_is_pos(xp, d);
        lemma_div_nonincreasing(xp, d);
        lemma_mod_bound(xp, d);
    } else {
        let dp = d * -1;
        lemma_div_pos_is_pos(x, dp);
        lemma_div_nonincreasing(x, dp);
        lemma_mod_bound(x, dp);
    }
}

} // verus!
