//! The instruction-set surface: the opcode enumeration, its wire byte
//! values, its mnemonic table, and the decoded-instruction record the
//! virtual machine hands back for display.

use vstd::prelude::*;

verus! {

use vstd::string::StringSliceAdditionalSpecFns;
use crate::text::{lower_bytes, to_lower, bytes_eq};

/// The operation selector occupying the first byte of every instruction.
/// Only part of this surface has execution semantics; the rest is encodable
/// but fails at execute time.
#[derive(Clone, Copy, Debug, PartialEq, Eq, Structural)]
#[allow(non_camel_case_types)]
pub enum OpCode {
    LOAD,
    ADD,
    SUB,
    MUL,
    DIV,
    HLT,
    JMP,
    JMPF,
    JMPB,
    EQ,
    NEQ,
    GTE,
    LTE,
    LT,
    GT,
    JEQ,
    NOP,
    ALOC,
    INC,
    DEC,
    DJMPE,
    PRTS,
    LOADF64,
    ADDF64,
    SUBF64,
    MULF64,
    DIVF64,
    EQF64,
    NEQF64,
    GTF64,
    GTEF64,
    LTF64,
    LTEF64,
    SHL,
    SHR,
    AND,
    OR,
    XOR,
    NOT,
    LUI,
    CLOOP,
    LOOP,
    LOADM,
    SETM,
    PUSH,
    POP,
    CALL,
    RET,
    JNE,
    JMPL,
    IGL,
}

/// The wire byte each opcode encodes to.
pub open spec fn byte_of_opcode(op: OpCode) -> u8 {
    match op {
        OpCode::LOAD => 0,
        OpCode::ADD => 1,
        OpCode::SUB => 2,
        OpCode::MUL => 3,
        OpCode::DIV => 4,
        OpCode::HLT => 5,
        OpCode::JMP => 6,
        OpCode::JMPF => 7,
        OpCode::JMPB => 8,
        OpCode::EQ => 9,
        OpCode::NEQ => 10,
        OpCode::GTE => 11,
        OpCode::LTE => 12,
        OpCode::LT => 13,
        OpCode::GT => 14,
        OpCode::JEQ => 15,
        OpCode::NOP => 16,
        OpCode::ALOC => 17,
        OpCode::INC => 18,
        OpCode::DEC => 19,
        OpCode::DJMPE => 20,
        OpCode::PRTS => 21,
        OpCode::LOADF64 => 22,
        OpCode::ADDF64 => 23,
        OpCode::SUBF64 => 24,
        OpCode::MULF64 => 25,
        OpCode::DIVF64 => 26,
        OpCode::EQF64 => 27,
        OpCode::NEQF64 => 28,
        OpCode::GTF64 => 29,
        OpCode::GTEF64 => 30,
        OpCode::LTF64 => 31,
        OpCode::LTEF64 => 32,
        OpCode::SHL => 33,
        OpCode::SHR => 34,
        OpCode::AND => 35,
        OpCode::OR => 36,
        OpCode::XOR => 37,
        OpCode::NOT => 38,
        OpCode::LUI => 39,
        OpCode::CLOOP => 40,
        OpCode::LOOP => 41,
        OpCode::LOADM => 42,
        OpCode::SETM => 43,
        OpCode::PUSH => 44,
        OpCode::POP => 45,
        OpCode::CALL => 46,
        OpCode::RET => 47,
        OpCode::JNE => 48,
        OpCode::JMPL => 49,
        OpCode::IGL => 100,
    }
}

/// The opcode a wire byte decodes to; bytes with no assigned opcode decode
/// to the `IGL` sentinel rather than failing.
pub open spec fn opcode_of_byte(b: u8) -> OpCode {
    if b == 0 {
        OpCode::LOAD
    } else if b == 1 {
        OpCode::ADD
    } else if b == 2 {
        OpCode::SUB
    } else if b == 3 {
        OpCode::MUL
    } else if b == 4 {
        OpCode::DIV
    } else if b == 5 {
        OpCode::HLT
    } else if b == 6 {
        OpCode::JMP
    } else if b == 7 {
        OpCode::JMPF
    } else if b == 8 {
        OpCode::JMPB
    } else if b == 9 {
        OpCode::EQ
    } else if b == 10 {
        OpCode::NEQ
    } else if b == 11 {
        OpCode::GTE
    } else if b == 12 {
        OpCode::LTE
    } else if b == 13 {
        OpCode::LT
    } else if b == 14 {
        OpCode::GT
    } else if b == 15 {
        OpCode::JEQ
    } else if b == 16 {
        OpCode::NOP
    } else if b == 17 {
        OpCode::ALOC
    } else if b == 18 {
        OpCode::INC
    } else if b == 19 {
        OpCode::DEC
    } else if b == 20 {
        OpCode::DJMPE
    } else if b == 21 {
        OpCode::PRTS
    } else if b == 22 {
        OpCode::LOADF64
    } else if b == 23 {
        OpCode::ADDF64
    } else if b == 24 {
        OpCode::SUBF64
    } else if b == 25 {
        OpCode::MULF64
    } else if b == 26 {
        OpCode::DIVF64
    } else if b == 27 {
        OpCode::EQF64
    } else if b == 28 {
        OpCode::NEQF64
    } else if b == 29 {
        OpCode::GTF64
    } else if b == 30 {
        OpCode::GTEF64
    } else if b == 31 {
        OpCode::LTF64
    } else if b == 32 {
        OpCode::LTEF64
    } else if b == 33 {
        OpCode::SHL
    } else if b == 34 {
        OpCode::SHR
    } else if b == 35 {
        OpCode::AND
    } else if b == 36 {
        OpCode::OR
    } else if b == 37 {
        OpCode::XOR
    } else if b == 38 {
        OpCode::NOT
    } else if b == 39 {
        OpCode::LUI
    } else if b == 40 {
        OpCode::CLOOP
    } else if b == 41 {
        OpCode::LOOP
    } else if b == 42 {
        OpCode::LOADM
    } else if b == 43 {
        OpCode::SETM
    } else if b == 44 {
        OpCode::PUSH
    } else if b == 45 {
        OpCode::POP
    } else if b == 46 {
        OpCode::CALL
    } else if b == 47 {
        OpCode::RET
    } else if b == 48 {
        OpCode::JNE
    } else if b == 49 {
        OpCode::JMPL
    } else if b == 100 {
        OpCode::IGL
    } else {
        OpCode::IGL
    }
}

/// The lower-case mnemonic each opcode answers to; lookup is
/// case-insensitive because the input is folded first.
pub open spec fn opcode_for_name(name: Seq<u8>) -> OpCode {
    if name == "load".spec_bytes() {
        OpCode::LOAD
    } else if name == "add".spec_bytes() {
        OpCode::ADD
    } else if name == "sub".spec_bytes() {
        OpCode::SUB
    } else if name == "mul".spec_bytes() {
        OpCode::MUL
    } else if name == "div".spec_bytes() {
        OpCode::DIV
    } else if name == "hlt".spec_bytes() {
        OpCode::HLT
    } else if name == "jmp".spec_bytes() {
        OpCode::JMP
    } else if name == "jmpf".spec_bytes() {
        OpCode::JMPF
    } else if name == "jmpb".spec_bytes() {
        OpCode::JMPB
    } else if name == "eq".spec_bytes() {
        OpCode::EQ
    } else if name == "neq".spec_bytes() {
        OpCode::NEQ
    } else if name == "gte".spec_bytes() {
        OpCode::GTE
    } else if name == "lte".spec_bytes() {
        OpCode::LTE
    } else if name == "lt".spec_bytes() {
        OpCode::LT
    } else if name == "gt".spec_bytes() {
        OpCode::GT
    } else if name == "jeq".spec_bytes() {
        OpCode::JEQ
    } else if name == "nop".spec_bytes() {
        OpCode::NOP
    } else if name == "aloc".spec_bytes() {
        OpCode::ALOC
    } else if name == "inc".spec_bytes() {
        OpCode::INC
    } else if name == "dec".spec_bytes() {
        OpCode::DEC
    } else if name == "djmpe".spec_bytes() {
        OpCode::DJMPE
    } else if name == "prts".spec_bytes() {
        OpCode::PRTS
    } else if name == "loadf64".spec_bytes() {
        OpCode::LOADF64
    } else if name == "addf64".spec_bytes() {
        OpCode::ADDF64
    } else if name == "subf64".spec_bytes() {
        OpCode::SUBF64
    } else if name == "mulf64".spec_bytes() {
        OpCode::MULF64
    } else if name == "divf64".spec_bytes() {
        OpCode::DIVF64
    } else if name == "eqf64".spec_bytes() {
        OpCode::EQF64
    } else if name == "neqf64".spec_bytes() {
        OpCode::NEQF64
    } else if name == "gtf64".spec_bytes() {
        OpCode::GTF64
    } else if name == "gtef64".spec_bytes() {
        OpCode::GTEF64
    } else if name == "ltf64".spec_bytes() {
        OpCode::LTF64
    } else if name == "ltef64".spec_bytes() {
        OpCode::LTEF64
    } else if name == "shl".spec_bytes() {
        OpCode::SHL
    } else if name == "shr".spec_bytes() {
        OpCode::SHR
    } else if name == "and".spec_bytes() {
        OpCode::AND
    } else if name == "or".spec_bytes() {
        OpCode::OR
    } else if name == "xor".spec_bytes() {
        OpCode::XOR
    } else if name == "not".spec_bytes() {
        OpCode::NOT
    } else if name == "lui".spec_bytes() {
        OpCode::LUI
    } else if name == "cloop".spec_bytes() {
        OpCode::CLOOP
    } else if name == "loop".spec_bytes() {
        OpCode::LOOP
    } else if name == "loadm".spec_bytes() {
        OpCode::LOADM
    } else if name == "setm".spec_bytes() {
        OpCode::SETM
    } else if name == "push".spec_bytes() {
        OpCode::PUSH
    } else if name == "pop".spec_bytes() {
        OpCode::POP
    } else if name == "call".spec_bytes() {
        OpCode::CALL
    } else if name == "ret".spec_bytes() {
        OpCode::RET
    } else if name == "jne".spec_bytes() {
        OpCode::JNE
    } else if name == "jmpl".spec_bytes() {
        OpCode::JMPL
    } else if name == "igl".spec_bytes() {
        OpCode::IGL
    } else {
        OpCode::IGL
    }
}

/// The display name of each opcode, padded with spaces to at least four
/// columns so listings line up.
pub open spec fn padded_name(op: OpCode) -> Seq<char> {
    match op {
        OpCode::LOAD => "LOAD"@,
        OpCode::ADD => "ADD "@,
        OpCode::SUB => "SUB "@,
        OpCode::MUL => "MUL "@,
        OpCode::DIV => "DIV "@,
        OpCode::HLT => "HLT "@,
        OpCode::JMP => "JMP "@,
        OpCode::JMPF => "JMPF"@,
        OpCode::JMPB => "JMPB"@,
        OpCode::EQ => "EQ  "@,
        OpCode::NEQ => "NEQ "@,
        OpCode::GTE => "GTE "@,
        OpCode::LTE => "LTE "@,
        OpCode::LT => "LT  "@,
        OpCode::GT => "GT  "@,
        OpCode::JEQ => "JEQ "@,
        OpCode::NOP => "NOP "@,
        OpCode::ALOC => "ALOC"@,
        OpCode::INC => "INC "@,
        OpCode::DEC => "DEC "@,
        OpCode::DJMPE => "DJMPE"@,
        OpCode::PRTS => "PRTS"@,
        OpCode::LOADF64 => "LOADF64"@,
        OpCode::ADDF64 => "ADDF64"@,
        OpCode::SUBF64 => "SUBF64"@,
        OpCode::MULF64 => "MULF64"@,
        OpCode::DIVF64 => "DIVF64"@,
        OpCode::EQF64 => "EQF64"@,
        OpCode::NEQF64 => "NEQF64"@,
        OpCode::GTF64 => "GTF64"@,
        OpCode::GTEF64 => "GTEF64"@,
        OpCode::LTF64 => "LTF64"@,
        OpCode::LTEF64 => "LTEF64"@,
        OpCode::SHL => "SHL "@,
        OpCode::SHR => "SHR "@,
        OpCode::AND => "AND "@,
        OpCode::OR => "OR  "@,
        OpCode::XOR => "XOR "@,
        OpCode::NOT => "NOT "@,
        OpCode::LUI => "LUI "@,
        OpCode::CLOOP => "CLOOP"@,
        OpCode::LOOP => "LOOP"@,
        OpCode::LOADM => "LOADM"@,
        OpCode::SETM => "SETM"@,
        OpCode::PUSH => "PUSH"@,
        OpCode::POP => "POP "@,
        OpCode::CALL => "CALL"@,
        OpCode::RET => "RET "@,
        OpCode::JNE => "JNE "@,
        OpCode::JMPL => "JMPL"@,
        OpCode::IGL => "IGL "@,
    }
}

impl OpCode {
    /// The wire byte this opcode encodes to.
    pub fn to_byte(self) -> (r: u8)
        ensures
            r == byte_of_opcode(self),
    {
        match self {
            OpCode::LOAD => 0,
            OpCode::ADD => 1,
            OpCode::SUB => 2,
            OpCode::MUL => 3,
            OpCode::DIV => 4,
            OpCode::HLT => 5,
            OpCode::JMP => 6,
            OpCode::JMPF => 7,
            OpCode::JMPB => 8,
            OpCode::EQ => 9,
            OpCode::NEQ => 10,
            OpCode::GTE => 11,
            OpCode::LTE => 12,
            OpCode::LT => 13,
            OpCode::GT => 14,
            OpCode::JEQ => 15,
            OpCode::NOP => 16,
            OpCode::ALOC => 17,
            OpCode::INC => 18,
            OpCode::DEC => 19,
            OpCode::DJMPE => 20,
            OpCode::PRTS => 21,
            OpCode::LOADF64 => 22,
            OpCode::ADDF64 => 23,
            OpCode::SUBF64 => 24,
            OpCode::MULF64 => 25,
            OpCode::DIVF64 => 26,
            OpCode::EQF64 => 27,
            OpCode::NEQF64 => 28,
            OpCode::GTF64 => 29,
            OpCode::GTEF64 => 30,
            OpCode::LTF64 => 31,
            OpCode::LTEF64 => 32,
            OpCode::SHL => 33,
            OpCode::SHR => 34,
            OpCode::AND => 35,
            OpCode::OR => 36,
            OpCode::XOR => 37,
            OpCode::NOT => 38,
            OpCode::LUI => 39,
            OpCode::CLOOP => 40,
            OpCode::LOOP => 41,
            OpCode::LOADM => 42,
            OpCode::SETM => 43,
            OpCode::PUSH => 44,
            OpCode::POP => 45,
            OpCode::CALL => 46,
            OpCode::RET => 47,
            OpCode::JNE => 48,
            OpCode::JMPL => 49,
            OpCode::IGL => 100,
        }
    }

    /// The opcode a wire byte decodes to; unassigned bytes decode to `IGL`.
    pub fn from_byte(b: u8) -> (r: OpCode)
        ensures
            r == opcode_of_byte(b),
    {
        match b {
            0 => OpCode::LOAD,
            1 => OpCode::ADD,
            2 => OpCode::SUB,
            3 => OpCode::MUL,
            4 => OpCode::DIV,
            5 => OpCode::HLT,
            6 => OpCode::JMP,
            7 => OpCode::JMPF,
            8 => OpCode::JMPB,
            9 => OpCode::EQ,
            10 => OpCode::NEQ,
            11 => OpCode::GTE,
            12 => OpCode::LTE,
            13 => OpCode::LT,
            14 => OpCode::GT,
            15 => OpCode::JEQ,
            16 => OpCode::NOP,
            17 => OpCode::ALOC,
            18 => OpCode::INC,
            19 => OpCode::DEC,
            20 => OpCode::DJMPE,
            21 => OpCode::PRTS,
            22 => OpCode::LOADF64,
            23 => OpCode::ADDF64,
            24 => OpCode::SUBF64,
            25 => OpCode::MULF64,
            26 => OpCode::DIVF64,
            27 => OpCode::EQF64,
            28 => OpCode::NEQF64,
            29 => OpCode::GTF64,
            30 => OpCode::GTEF64,
            31 => OpCode::LTF64,
            32 => OpCode::LTEF64,
            33 => OpCode::SHL,
            34 => OpCode::SHR,
            35 => OpCode::AND,
            36 => OpCode::OR,
            37 => OpCode::XOR,
            38 => OpCode::NOT,
            39 => OpCode::LUI,
            40 => OpCode::CLOOP,
            41 => OpCode::LOOP,
            42 => OpCode::LOADM,
            43 => OpCode::SETM,
            44 => OpCode::PUSH,
            45 => OpCode::POP,
            46 => OpCode::CALL,
            47 => OpCode::RET,
            48 => OpCode::JNE,
            49 => OpCode::JMPL,
            _ => OpCode::IGL,
        }
    }

    /// Case-insensitive mnemonic lookup; an unknown name answers `IGL`.
    pub fn from_string(s: &str) -> (r: OpCode)
        ensures
            r == opcode_for_name(lower_bytes(s.spec_bytes())),
    {
        Self::from_name_bytes(s.as_bytes())
    }

    /// The same lookup over the raw bytes of a name.
    pub fn from_name_bytes(name: &[u8]) -> (r: OpCode)
        ensures
            r == opcode_for_name(lower_bytes(name@)),
    {
        let low = to_lower(name);
        if bytes_eq(low.as_slice(), "load".as_bytes()) {
            OpCode::LOAD
        } else if bytes_eq(low.as_slice(), "add".as_bytes()) {
            OpCode::ADD
        } else if bytes_eq(low.as_slice(), "sub".as_bytes()) {
            OpCode::SUB
        } else if bytes_eq(low.as_slice(), "mul".as_bytes()) {
            OpCode::MUL
        } else if bytes_eq(low.as_slice(), "div".as_bytes()) {
            OpCode::DIV
        } else if bytes_eq(low.as_slice(), "hlt".as_bytes()) {
            OpCode::HLT
        } else if bytes_eq(low.as_slice(), "jmp".as_bytes()) {
            OpCode::JMP
        } else if bytes_eq(low.as_slice(), "jmpf".as_bytes()) {
            OpCode::JMPF
        } else if bytes_eq(low.as_slice(), "jmpb".as_bytes()) {
            OpCode::JMPB
        } else if bytes_eq(low.as_slice(), "eq".as_bytes()) {
            OpCode::EQ
        } else if bytes_eq(low.as_slice(), "neq".as_bytes()) {
            OpCode::NEQ
        } else if bytes_eq(low.as_slice(), "gte".as_bytes()) {
            OpCode::GTE
        } else if bytes_eq(low.as_slice(), "lte".as_bytes()) {
            OpCode::LTE
        } else if bytes_eq(low.as_slice(), "lt".as_bytes()) {
            OpCode::LT
        } else if bytes_eq(low.as_slice(), "gt".as_bytes()) {
            OpCode::GT
        } else if bytes_eq(low.as_slice(), "jeq".as_bytes()) {
            OpCode::JEQ
        } else if bytes_eq(low.as_slice(), "nop".as_bytes()) {
            OpCode::NOP
        } else if bytes_eq(low.as_slice(), "aloc".as_bytes()) {
            OpCode::ALOC
        } else if bytes_eq(low.as_slice(), "inc".as_bytes()) {
            OpCode::INC
        } else if bytes_eq(low.as_slice(), "dec".as_bytes()) {
            OpCode::DEC
        } else if bytes_eq(low.as_slice(), "djmpe".as_bytes()) {
            OpCode::DJMPE
        } else if bytes_eq(low.as_slice(), "prts".as_bytes()) {
            OpCode::PRTS
        } else if bytes_eq(low.as_slice(), "loadf64".as_bytes()) {
            OpCode::LOADF64
        } else if bytes_eq(low.as_slice(), "addf64".as_bytes()) {
            OpCode::ADDF64
        } else if bytes_eq(low.as_slice(), "subf64".as_bytes()) {
            OpCode::SUBF64
        } else if bytes_eq(low.as_slice(), "mulf64".as_bytes()) {
            OpCode::MULF64
        } else if bytes_eq(low.as_slice(), "divf64".as_bytes()) {
            OpCode::DIVF64
        } else if bytes_eq(low.as_slice(), "eqf64".as_bytes()) {
            OpCode::EQF64
        } else if bytes_eq(low.as_slice(), "neqf64".as_bytes()) {
            OpCode::NEQF64
        } else if bytes_eq(low.as_slice(), "gtf64".as_bytes()) {
            OpCode::GTF64
        } else if bytes_eq(low.as_slice(), "gtef64".as_bytes()) {
            OpCode::GTEF64
        } else if bytes_eq(low.as_slice(), "ltf64".as_bytes()) {
            OpCode::LTF64
        } else if bytes_eq(low.as_slice(), "ltef64".as_bytes()) {
            OpCode::LTEF64
        } else if bytes_eq(low.as_slice(), "shl".as_bytes()) {
            OpCode::SHL
        } else if bytes_eq(low.as_slice(), "shr".as_bytes()) {
            OpCode::SHR
        } else if bytes_eq(low.as_slice(), "and".as_bytes()) {
            OpCode::AND
        } else if bytes_eq(low.as_slice(), "or".as_bytes()) {
            OpCode::OR
        } else if bytes_eq(low.as_slice(), "xor".as_bytes()) {
            OpCode::XOR
        } else if bytes_eq(low.as_slice(), "not".as_bytes()) {
            OpCode::NOT
        } else if bytes_eq(low.as_slice(), "lui".as_bytes()) {
            OpCode::LUI
        } else if bytes_eq(low.as_slice(), "cloop".as_bytes()) {
            OpCode::CLOOP
        } else if bytes_eq(low.as_slice(), "loop".as_bytes()) {
            OpCode::LOOP
        } else if bytes_eq(low.as_slice(), "loadm".as_bytes()) {
            OpCode::LOADM
        } else if bytes_eq(low.as_slice(), "setm".as_bytes()) {
            OpCode::SETM
        } else if bytes_eq(low.as_slice(), "push".as_bytes()) {
            OpCode::PUSH
        } else if bytes_eq(low.as_slice(), "pop".as_bytes()) {
            OpCode::POP
        } else if bytes_eq(low.as_slice(), "call".as_bytes()) {
            OpCode::CALL
        } else if bytes_eq(low.as_slice(), "ret".as_bytes()) {
            OpCode::RET
        } else if bytes_eq(low.as_slice(), "jne".as_bytes()) {
            OpCode::JNE
        } else if bytes_eq(low.as_slice(), "jmpl".as_bytes()) {
            OpCode::JMPL
        } else {
            OpCode::IGL
        }
    }

    /// The display name, space-padded to at least four columns.
    pub fn padded(self) -> (r: String)
        ensures
            r@ == padded_name(self),
    {
        match self {
            OpCode::LOAD => "LOAD".to_owned(),
            OpCode::ADD => "ADD ".to_owned(),
            OpCode::SUB => "SUB ".to_owned(),
            OpCode::MUL => "MUL ".to_owned(),
            OpCode::DIV => "DIV ".to_owned(),
            OpCode::HLT => "HLT ".to_owned(),
            OpCode::JMP => "JMP ".to_owned(),
            OpCode::JMPF => "JMPF".to_owned(),
            OpCode::JMPB => "JMPB".to_owned(),
            OpCode::EQ => "EQ  ".to_owned(),
            OpCode::NEQ => "NEQ ".to_owned(),
            OpCode::GTE => "GTE ".to_owned(),
            OpCode::LTE => "LTE ".to_owned(),
            OpCode::LT => "LT  ".to_owned(),
            OpCode::GT => "GT  ".to_owned(),
            OpCode::JEQ => "JEQ ".to_owned(),
            OpCode::NOP => "NOP ".to_owned(),
            OpCode::ALOC => "ALOC".to_owned(),
            OpCode::INC => "INC ".to_owned(),
            OpCode::DEC => "DEC ".to_owned(),
            OpCode::DJMPE => "DJMPE".to_owned(),
            OpCode::PRTS => "PRTS".to_owned(),
            OpCode::LOADF64 => "LOADF64".to_owned(),
            OpCode::ADDF64 => "ADDF64".to_owned(),
            OpCode::SUBF64 => "SUBF64".to_owned(),
            OpCode::MULF64 => "MULF64".to_owned(),
            OpCode::DIVF64 => "DIVF64".to_owned(),
            OpCode::EQF64 => "EQF64".to_owned(),
            OpCode::NEQF64 => "NEQF64".to_owned(),
            OpCode::GTF64 => "GTF64".to_owned(),
            OpCode::GTEF64 => "GTEF64".to_owned(),
            OpCode::LTF64 => "LTF64".to_owned(),
            OpCode::LTEF64 => "LTEF64".to_owned(),
            OpCode::SHL => "SHL ".to_owned(),
            OpCode::SHR => "SHR ".to_owned(),
            OpCode::AND => "AND ".to_owned(),
            OpCode::OR => "OR  ".to_owned(),
            OpCode::XOR => "XOR ".to_owned(),
            OpCode::NOT => "NOT ".to_owned(),
            OpCode::LUI => "LUI ".to_owned(),
            OpCode::CLOOP => "CLOOP".to_owned(),
            OpCode::LOOP => "LOOP".to_owned(),
            OpCode::LOADM => "LOADM".to_owned(),
            OpCode::SETM => "SETM".to_owned(),
            OpCode::PUSH => "PUSH".to_owned(),
            OpCode::POP => "POP ".to_owned(),
            OpCode::CALL => "CALL".to_owned(),
            OpCode::RET => "RET ".to_owned(),
            OpCode::JNE => "JNE ".to_owned(),
            OpCode::JMPL => "JMPL".to_owned(),
            OpCode::IGL => "IGL ".to_owned(),
        }
    }
}

/// A decoded instruction: the opcode and the raw operand bytes fetched with
/// it, kept for display by the caller that drives the machine.
#[derive(Debug, PartialEq, Clone)]
pub struct Instruction {
    pub opcode: OpCode,
    pub operands: Vec<u8>,
}

/// Conversion of a decoded instruction back to its wire bytes.
pub trait Tou8Vec {
    /// The byte sequence the value converts to.
    spec fn u8_vec_spec(&self) -> Seq<u8>;

    fn to_u8_vec(&self) -> (r: Vec<u8>)
        ensures
            r@ == self.u8_vec_spec(),
    ;
}

impl Tou8Vec for Instruction {
    open spec fn u8_vec_spec(&self) -> Seq<u8> {
        seq![byte_of_opcode(self.opcode)] + self.operands@
    }

    fn to_u8_vec(&self) -> (r: Vec<u8>)
        ensures
            r@ == self.u8_vec_spec(),
    {
        let mut v: Vec<u8> = Vec::new();
        v.push(self.opcode.to_byte());
        let n = self.operands.len();
        let mut i: usize = 0;
        while i < n
            invariant
                n == self.operands@.len(),
                i <= n,
                v@ == seq![byte_of_opcode(self.opcode)] + self.operands@.take(i as int),
            decreases n - i,
        {
            v.push(self.operands[i]);
            proof {
                assert(v@ =~= seq![byte_of_opcode(self.opcode)] + self.operands@.take(i + 1));
            }
            i += 1;
        }
        proof {
            assert(self.operands@.take(n as int) =~= self.operands@);
        }
        v
    }
}

impl Instruction {
    /// A decoded instruction from its parts.
    pub fn new(opcode: OpCode, operands: Vec<u8>) -> (r: Instruction)
        ensures
            r.opcode == opcode,
            r.operands@ == operands@,
    {
        Instruction { opcode, operands }
    }

    /// Read access to the opcode.
    pub fn opcode(&self) -> (r: &OpCode)
        ensures
            r == &self.opcode,
    {
        &self.opcode
    }

    /// Read access to the raw operand bytes.
    pub fn operands(&self) -> (r: &Vec<u8>)
        ensures
            r == &self.operands,
    {
        &self.operands
    }
}

} // verus!
