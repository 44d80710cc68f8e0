//! The token alphabet of the assembly grammar. Tokens are immutable once
//! produced; names are raw bytes of the source text.

use vstd::prelude::*;

verus! {

use crate::opcode::OpCode;

/// The ghost mirror of a token, over byte sequences.
pub ghost enum SpecToken {
    Op { code: OpCode },
    Register { id: u8 },
    IntegerOperand { value: u16, sign_bit: bool },
    LabelDeclaration { name: Seq<u8> },
    LabelUsage { name: Seq<u8> },
    Directive { name: Seq<u8> },
    IRString { name: Seq<u8> },
}

/// One lexical unit of the grammar: an opcode, a register (`$n`), a signed
/// 16-bit integer operand (`#n` or hex), a label declaration (`name:`), a
/// label usage (`@name`), a directive (`.name`), or a quoted string.
#[derive(Debug, PartialEq, Clone)]
pub enum Token {
    Op { code: OpCode },
    Register { id: u8 },
    IntegerOperand { value: u16, sign_bit: bool },
    LabelDeclaration { name: Vec<u8> },
    LabelUsage { name: Vec<u8> },
    Directive { name: Vec<u8> },
    IRString { name: Vec<u8> },
}

impl View for Token {
    type V = SpecToken;

    open spec fn view(&self) -> SpecToken {
        match self {
            Token::Op { code } => SpecToken::Op { code: *code },
            Token::Register { id } => SpecToken::Register { id: *id },
            Token::IntegerOperand { value, sign_bit } => (SpecToken::IntegerOperand {
                value: *value,
                sign_bit: *sign_bit,
            }),
            Token::LabelDeclaration { name } => (SpecToken::LabelDeclaration { name: name@ }),
            Token::LabelUsage { name } => (SpecToken::LabelUsage { name: name@ }),
            Token::Directive { name } => (SpecToken::Directive { name: name@ }),
            Token::IRString { name } => (SpecToken::IRString { name: name@ }),
        }
    }
}

} // verus!
