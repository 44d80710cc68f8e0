//! The first generation of the instruction model: an opcode enumeration
//! with hand-written byte and name mappings, and a record holding just the
//! opcode. The newer model in the sibling module supersedes it; this one is
//! kept because parts of the assembler surface still speak its types.

use vstd::prelude::*;

verus! {

use vstd::string::StringSliceAdditionalSpecFns;
use crate::text::{lower_bytes, to_lower, bytes_eq};

/// The operation selector of the first-generation instruction model. It
/// differs from the current table in one mnemonic and in lacking the long
/// jump.
#[derive(Clone, Copy, Debug, PartialEq, Eq, Structural)]
#[allow(non_camel_case_types)]
pub enum OpCode {
    LOAD,
    ADD,
    SUB,
    MUL,
    DIV,
    HLT,
    JMP,
    JMPF,
    JMPB,
    EQ,
    NE,
    GTE,
    LTE,
    LT,
    GT,
    JEQ,
    NOP,
    ALOC,
    INC,
    DEC,
    DJMPE,
    PRTS,
    LOADF64,
    ADDF64,
    SUBF64,
    MULF64,
    DIVF64,
    EQF64,
    NEQF64,
    GTF64,
    GTEF64,
    LTF64,
    LTEF64,
    SHL,
    SHR,
    AND,
    OR,
    XOR,
    NOT,
    LUI,
    CLOOP,
    LOOP,
    LOADM,
    SETM,
    PUSH,
    POP,
    CALL,
    RET,
    JNE,
    IGL,
}

/// The opcode a wire byte decodes to in this generation; unassigned bytes
/// decode to the `IGL` sentinel.
pub open spec fn legacy_opcode_of_byte(b: u8) -> OpCode {
    if b == 0 {
        OpCode::LOAD
    } else if b == 1 {
        OpCode::ADD
    } else if b == 2 {
        OpCode::SUB
    } else if b == 3 {
        OpCode::MUL
    } else if b == 4 {
        OpCode::DIV
    } else if b == 5 {
        OpCode::HLT
    } else if b == 6 {
        OpCode::JMP
    } else if b == 7 {
        OpCode::JMPF
    } else if b == 8 {
        OpCode::JMPB
    } else if b == 9 {
        OpCode::EQ
    } else if b == 10 {
        OpCode::NE
    } else if b == 11 {
        OpCode::GTE
    } else if b == 12 {
        OpCode::LTE
    } else if b == 13 {
        OpCode::LT
    } else if b == 14 {
        OpCode::GT
    } else if b == 15 {
        OpCode::JEQ
    } else if b == 16 {
        OpCode::NOP
    } else if b == 17 {
        OpCode::ALOC
    } else if b == 18 {
        OpCode::INC
    } else if b == 19 {
        OpCode::DEC
    } else if b == 20 {
        OpCode::DJMPE
    } else if b == 21 {
        OpCode::PRTS
    } else if b == 22 {
        OpCode::LOADF64
    } else if b == 23 {
        OpCode::ADDF64
    } else if b == 24 {
        OpCode::SUBF64
    } else if b == 25 {
        OpCode::MULF64
    } else if b == 26 {
        OpCode::DIVF64
    } else if b == 27 {
        OpCode::EQF64
    } else if b == 28 {
        OpCode::NEQF64
    } else if b == 29 {
        OpCode::GTF64
    } else if b == 30 {
        OpCode::GTEF64
    } else if b == 31 {
        OpCode::LTF64
    } else if b == 32 {
        OpCode::LTEF64
    } else if b == 33 {
        OpCode::SHL
    } else if b == 34 {
        OpCode::SHR
    } else if b == 35 {
        OpCode::AND
    } else if b == 36 {
        OpCode::OR
    } else if b == 37 {
        OpCode::XOR
    } else if b == 38 {
        OpCode::NOT
    } else if b == 39 {
        OpCode::LUI
    } else if b == 40 {
        OpCode::CLOOP
    } else if b == 41 {
        OpCode::LOOP
    } else if b == 42 {
        OpCode::LOADM
    } else if b == 43 {
        OpCode::SETM
    } else if b == 44 {
        OpCode::PUSH
    } else if b == 45 {
        OpCode::POP
    } else if b == 46 {
        OpCode::CALL
    } else if b == 47 {
        OpCode::RET
    } else if b == 48 {
        OpCode::JNE
    } else {
        OpCode::IGL
    }
}

/// The lower-case mnemonic lookup of this generation.
pub open spec fn legacy_opcode_for_name(name: Seq<u8>) -> OpCode {
    if name == "load".spec_bytes() {
        OpCode::LOAD
    } else if name == "add".spec_bytes() {
        OpCode::ADD
    } else if name == "sub".spec_bytes() {
        OpCode::SUB
    } else if name == "mul".spec_bytes() {
        OpCode::MUL
    } else if name == "div".spec_bytes() {
        OpCode::DIV
    } else if name == "hlt".spec_bytes() {
        OpCode::HLT
    } else if name == "jmp".spec_bytes() {
        OpCode::JMP
    } else if name == "jmpf".spec_bytes() {
        OpCode::JMPF
    } else if name == "jmpb".spec_bytes() {
        OpCode::JMPB
    } else if name == "eq".spec_bytes() {
        OpCode::EQ
    } else if name == "ne".spec_bytes() {
        OpCode::NE
    } else if name == "gte".spec_bytes() {
        OpCode::GTE
    } else if name == "lte".spec_bytes() {
        OpCode::LTE
    } else if name == "lt".spec_bytes() {
        OpCode::LT
    } else if name == "gt".spec_bytes() {
        OpCode::GT
    } else if name == "jeq".spec_bytes() {
        OpCode::JEQ
    } else if name == "nop".spec_bytes() {
        OpCode::NOP
    } else if name == "aloc".spec_bytes() {
        OpCode::ALOC
    } else if name == "inc".spec_bytes() {
        OpCode::INC
    } else if name == "dec".spec_bytes() {
        OpCode::DEC
    } else if name == "djmpe".spec_bytes() {
        OpCode::DJMPE
    } else if name == "prts".spec_bytes() {
        OpCode::PRTS
    } else if name == "loadf64".spec_bytes() {
        OpCode::LOADF64
    } else if name == "addf64".spec_bytes() {
        OpCode::ADDF64
    } else if name == "subf64".spec_bytes() {
        OpCode::SUBF64
    } else if name == "mulf64".spec_bytes() {
        OpCode::MULF64
    } else if name == "divf64".spec_bytes() {
        OpCode::DIVF64
    } else if name == "eqf64".spec_bytes() {
        OpCode::EQF64
    } else if name == "neqf64".spec_bytes() {
        OpCode::NEQF64
    } else if name == "gtf64".spec_bytes() {
        OpCode::GTF64
    } else if name == "gtef64".spec_bytes() {
        OpCode::GTEF64
    } else if name == "ltf64".spec_bytes() {
        OpCode::LTF64
    } else if name == "ltef64".spec_bytes() {
        OpCode::LTEF64
    } else if name == "shl".spec_bytes() {
        OpCode::SHL
    } else if name == "shr".spec_bytes() {
        OpCode::SHR
    } else if name == "and".spec_bytes() {
        OpCode::AND
    } else if name == "or".spec_bytes() {
        OpCode::OR
    } else if name == "xor".spec_bytes() {
        OpCode::XOR
    } else if name == "not".spec_bytes() {
        OpCode::NOT
    } else if name == "lui".spec_bytes() {
        OpCode::LUI
    } else if name == "cloop".spec_bytes() {
        OpCode::CLOOP
    } else if name == "loop".spec_bytes() {
        OpCode::LOOP
    } else if name == "loadm".spec_bytes() {
        OpCode::LOADM
    } else if name == "setm".spec_bytes() {
        OpCode::SETM
    } else if name == "push".spec_bytes() {
        OpCode::PUSH
    } else if name == "pop".spec_bytes() {
        OpCode::POP
    } else if name == "call".spec_bytes() {
        OpCode::CALL
    } else if name == "ret".spec_bytes() {
        OpCode::RET
    } else if name == "jne".spec_bytes() {
        OpCode::JNE
    } else {
        OpCode::IGL
    }
}

impl OpCode {
    /// The opcode a wire byte decodes to.
    pub fn from_byte(b: u8) -> (r: OpCode)
        ensures
            r == legacy_opcode_of_byte(b),
    {
        match b {
            0 => OpCode::LOAD,
            1 => OpCode::ADD,
            2 => OpCode::SUB,
            3 => OpCode::MUL,
            4 => OpCode::DIV,
            5 => OpCode::HLT,
            6 => OpCode::JMP,
            7 => OpCode::JMPF,
            8 => OpCode::JMPB,
            9 => OpCode::EQ,
            10 => OpCode::NE,
            11 => OpCode::GTE,
            12 => OpCode::LTE,
            13 => OpCode::LT,
            14 => OpCode::GT,
            15 => OpCode::JEQ,
            16 => OpCode::NOP,
            17 => OpCode::ALOC,
            18 => OpCode::INC,
            19 => OpCode::DEC,
            20 => OpCode::DJMPE,
            21 => OpCode::PRTS,
            22 => OpCode::LOADF64,
            23 => OpCode::ADDF64,
            24 => OpCode::SUBF64,
            25 => OpCode::MULF64,
            26 => OpCode::DIVF64,
            27 => OpCode::EQF64,
            28 => OpCode::NEQF64,
            29 => OpCode::GTF64,
            30 => OpCode::GTEF64,
            31 => OpCode::LTF64,
            32 => OpCode::LTEF64,
            33 => OpCode::SHL,
            34 => OpCode::SHR,
            35 => OpCode::AND,
            36 => OpCode::OR,
            37 => OpCode::XOR,
            38 => OpCode::NOT,
            39 => OpCode::LUI,
            40 => OpCode::CLOOP,
            41 => OpCode::LOOP,
            42 => OpCode::LOADM,
            43 => OpCode::SETM,
            44 => OpCode::PUSH,
            45 => OpCode::POP,
            46 => OpCode::CALL,
            47 => OpCode::RET,
            48 => OpCode::JNE,
            _ => OpCode::IGL,
        }
    }

    /// Case-insensitive mnemonic lookup; an unknown name answers `IGL`.
    pub fn from_string(s: &str) -> (r: OpCode)
        ensures
            r == legacy_opcode_for_name(lower_bytes(s.spec_bytes())),
    {
        let low = to_lower(s.as_bytes());
        if bytes_eq(low.as_slice(), "load".as_bytes()) {
            OpCode::LOAD
        } else if bytes_eq(low.as_slice(), "add".as_bytes()) {
            OpCode::ADD
        } else if bytes_eq(low.as_slice(), "sub".as_bytes()) {
            OpCode::SUB
        } else if bytes_eq(low.as_slice(), "mul".as_bytes()) {
            OpCode::MUL
        } else if bytes_eq(low.as_slice(), "div".as_bytes()) {
            OpCode::DIV
        } else if bytes_eq(low.as_slice(), "hlt".as_bytes()) {
            OpCode::HLT
        } else if bytes_eq(low.as_slice(), "jmp".as_bytes()) {
            OpCode::JMP
        } else if bytes_eq(low.as_slice(), "jmpf".as_bytes()) {
            OpCode::JMPF
        } else if bytes_eq(low.as_slice(), "jmpb".as_bytes()) {
            OpCode::JMPB
        } else if bytes_eq(low.as_slice(), "eq".as_bytes()) {
            OpCode::EQ
        } else if bytes_eq(low.as_slice(), "ne".as_bytes()) {
            OpCode::NE
        } else if bytes_eq(low.as_slice(), "gte".as_bytes()) {
            OpCode::GTE
        } else if bytes_eq(low.as_slice(), "lte".as_bytes()) {
            OpCode::LTE
        } else if bytes_eq(low.as_slice(), "lt".as_bytes()) {
            OpCode::LT
        } else if bytes_eq(low.as_slice(), "gt".as_bytes()) {
            OpCode::GT
        } else if bytes_eq(low.as_slice(), "jeq".as_bytes()) {
            OpCode::JEQ
        } else if bytes_eq(low.as_slice(), "nop".as_bytes()) {
            OpCode::NOP
        } else if bytes_eq(low.as_slice(), "aloc".as_bytes()) {
            OpCode::ALOC
        } else if bytes_eq(low.as_slice(), "inc".as_bytes()) {
            OpCode::INC
        } else if bytes_eq(low.as_slice(), "dec".as_bytes()) {
            OpCode::DEC
        } else if bytes_eq(low.as_slice(), "djmpe".as_bytes()) {
            OpCode::DJMPE
        } else if bytes_eq(low.as_slice(), "prts".as_bytes()) {
            OpCode::PRTS
        } else if bytes_eq(low.as_slice(), "loadf64".as_bytes()) {
            OpCode::LOADF64
        } else if bytes_eq(low.as_slice(), "addf64".as_bytes()) {
            OpCode::ADDF64
        } else if bytes_eq(low.as_slice(), "subf64".as_bytes()) {
            OpCode::SUBF64
        } else if bytes_eq(low.as_slice(), "mulf64".as_bytes()) {
            OpCode::MULF64
        } else if bytes_eq(low.as_slice(), "divf64".as_bytes()) {
            OpCode::DIVF64
        } else if bytes_eq(low.as_slice(), "eqf64".as_bytes()) {
            OpCode::EQF64
        } else if bytes_eq(low.as_slice(), "neqf64".as_bytes()) {
            OpCode::NEQF64
        } else if bytes_eq(low.as_slice(), "gtf64".as_bytes()) {
            OpCode::GTF64
        } else if bytes_eq(low.as_slice(), "gtef64".as_bytes()) {
            OpCode::GTEF64
        } else if bytes_eq(low.as_slice(), "ltf64".as_bytes()) {
            OpCode::LTF64
        } else if bytes_eq(low.as_slice(), "ltef64".as_bytes()) {
            OpCode::LTEF64
        } else if bytes_eq(low.as_slice(), "shl".as_bytes()) {
            OpCode::SHL
        } else if bytes_eq(low.as_slice(), "shr".as_bytes()) {
            OpCode::SHR
        } else if bytes_eq(low.as_slice(), "and".as_bytes()) {
            OpCode::AND
        } else if bytes_eq(low.as_slice(), "or".as_bytes()) {
            OpCode::OR
        } else if bytes_eq(low.as_slice(), "xor".as_bytes()) {
            OpCode::XOR
        } else if bytes_eq(low.as_slice(), "not".as_bytes()) {
            OpCode::NOT
        } else if bytes_eq(low.as_slice(), "lui".as_bytes()) {
            OpCode::LUI
        } else if bytes_eq(low.as_slice(), "cloop".as_bytes()) {
            OpCode::CLOOP
        } else if bytes_eq(low.as_slice(), "loop".as_bytes()) {
            OpCode::LOOP
        } else if bytes_eq(low.as_slice(), "loadm".as_bytes()) {
            OpCode::LOADM
        } else if bytes_eq(low.as_slice(), "setm".as_bytes()) {
            OpCode::SETM
        } else if bytes_eq(low.as_slice(), "push".as_bytes()) {
            OpCode::PUSH
        } else if bytes_eq(low.as_slice(), "pop".as_bytes()) {
            OpCode::POP
        } else if bytes_eq(low.as_slice(), "call".as_bytes()) {
            OpCode::CALL
        } else if bytes_eq(low.as_slice(), "ret".as_bytes()) {
            OpCode::RET
        } else if bytes_eq(low.as_slice(), "jne".as_bytes()) {
            OpCode::JNE
        } else {
            OpCode::IGL
        }
    }
}

/// The first-generation instruction record: an opcode and nothing else.
#[derive(Debug, PartialEq, Eq, Structural)]
pub struct Instruction {
    pub opcode: OpCode,
}

impl Instruction {
    /// A record from its opcode.
    pub fn new(opcode: OpCode) -> (r: Instruction)
        ensures
            r.opcode == opcode,
    {
        Instruction { opcode }
    }
}

} // verus!
