//! One parsed source line: an optional label declaration, an optional
//! opcode, up to three operand slots and an optional directive — and its
//! encoding into the fixed 4-byte wire format.

use vstd::prelude::*;

verus! {

use crate::assembler::parser::token::{SpecToken, Token};
use crate::assembler::{AssemblerError, SpecAsmError, SymbolTable, SpecSymbol, sym_lookup};
use crate::opcode::byte_of_opcode;
use crate::text::copy_bytes;

/// The ghost mirror of one instruction record.
pub ghost struct SpecInstruction {
    pub opcode: Option<SpecToken>,
    pub operands: Seq<Option<SpecToken>>,
    pub label: Option<SpecToken>,
    pub directive: Option<SpecToken>,
}

/// The view of one optional token slot.
pub open spec fn opt_token_view(o: Option<Token>) -> Option<SpecToken> {
    match o {
        Some(t) => Some(t@),
        None => None,
    }
}

/// One instruction record as parsed: exactly one of a label-only line, a
/// directive line, or an opcode line, with up to three operand slots.
#[derive(Debug, PartialEq, Clone)]
pub struct AssemblerInstruction {
    pub opcode: Option<Token>,
    pub operands: [Option<Token>; 3],
    pub label: Option<Token>,
    pub directive: Option<Token>,
}

impl View for AssemblerInstruction {
    type V = SpecInstruction;

    open spec fn view(&self) -> SpecInstruction {
        SpecInstruction {
            opcode: opt_token_view(self.opcode),
            operands: Seq::new(3, |i: int| opt_token_view(self.operands@[i])),
            label: opt_token_view(self.label),
            directive: opt_token_view(self.directive),
        }
    }
}

/// The two big-endian bytes of an integer operand: the 16-bit magnitude,
/// negated in two's complement when the sign flag is set.
pub open spec fn int_operand_bytes(value: u16, sign_bit: bool) -> Seq<u8> {
    let m: u16 = if sign_bit {
        (0u16).wrapping_sub(value)
    } else {
        value
    };
    seq![(m >> 8) as u8, m as u8]
}

/// The two big-endian bytes of a resolved label offset: its low 16 bits.
pub open spec fn label_operand_bytes(offset: u32) -> Seq<u8> {
    seq![(offset >> 8) as u8, offset as u8]
}

/// The bytes one operand token encodes to, or the error it raises.
pub open spec fn sp_operand_bytes(t: SpecToken, syms: Seq<SpecSymbol>) -> Result<
    Seq<u8>,
    SpecAsmError,
> {
    match t {
        SpecToken::Register { id } => Ok(seq![id]),
        SpecToken::IntegerOperand { value, sign_bit } => Ok(int_operand_bytes(value, sign_bit)),
        SpecToken::LabelUsage { name } => match sym_lookup(syms, name) {
            Some(Some(offset)) => Ok(label_operand_bytes(offset)),
            _ => Err(SpecAsmError::SymbolNotFound { name }),
        },
        _ => Err(SpecAsmError::OpcodeInOperandField),
    }
}

/// The bytes one operand slot contributes: an empty slot contributes none.
pub open spec fn sp_slot_bytes(o: Option<SpecToken>, syms: Seq<SpecSymbol>) -> Result<
    Seq<u8>,
    SpecAsmError,
> {
    match o {
        None => Ok(Seq::empty()),
        Some(t) => sp_operand_bytes(t, syms),
    }
}

/// The bytes of the three operand slots in order; the first error wins.
pub open spec fn sp_operands_bytes(ops: Seq<Option<SpecToken>>, syms: Seq<SpecSymbol>) -> Result<
    Seq<u8>,
    SpecAsmError,
> {
    match sp_slot_bytes(ops[0], syms) {
        Err(e) => Err(e),
        Ok(b0) => match sp_slot_bytes(ops[1], syms) {
            Err(e) => Err(e),
            Ok(b1) => match sp_slot_bytes(ops[2], syms) {
                Err(e) => Err(e),
                Ok(b2) => Ok(b0 + b1 + b2),
            },
        },
    }
}

/// Zero-padding up to the fixed four-byte instruction width. Bytes beyond
/// four are kept: over-length records are the caller's error and are not
/// checked at encode time.
pub open spec fn pad4(b: Seq<u8>) -> Seq<u8> {
    if b.len() >= 4 {
        b
    } else {
        b + Seq::new((4 - b.len()) as nat, |i: int| 0u8)
    }
}

/// The bytes one whole record encodes to: the opcode byte where the record
/// has one, then the operand slots, padded to four bytes.
pub open spec fn sp_record_bytes(rec: SpecInstruction, syms: Seq<SpecSymbol>) -> Result<
    Seq<u8>,
    SpecAsmError,
> {
    match rec.opcode {
        Some(SpecToken::Op { code }) => match sp_operands_bytes(rec.operands, syms) {
            Err(e) => Err(e),
            Ok(bs) => Ok(pad4(seq![byte_of_opcode(code)] + bs)),
        },
        Some(_) => Err(SpecAsmError::NonOpcodeInOpcodeField),
        None => match sp_operands_bytes(rec.operands, syms) {
            Err(e) => Err(e),
            Ok(bs) => Ok(pad4(bs)),
        },
    }
}

impl AssemblerInstruction {
    /// A record from its four parts.
    pub fn new(
        opcode: Option<Token>,
        operands: [Option<Token>; 3],
        label: Option<Token>,
        directive: Option<Token>,
    ) -> (r: Self)
        ensures
            r@.opcode == opt_token_view(opcode),
            r@.operands == Seq::new(3, |i: int| opt_token_view(operands@[i])),
            r@.label == opt_token_view(label),
            r@.directive == opt_token_view(directive),
    {
        Self { opcode, operands, label, directive }
    }

    /// Whether the record carries a label declaration.
    pub fn is_label(&self) -> (r: bool)
        ensures
            r == (self@.label is Some),
    {
        self.label.is_some()
    }

    /// Whether the record carries a directive.
    pub fn is_directive(&self) -> (r: bool)
        ensures
            r == (self@.directive is Some),
    {
        self.directive.is_some()
    }

    /// Whether the record carries an opcode.
    pub fn is_instruction(&self) -> (r: bool)
        ensures
            r == (self@.opcode is Some),
    {
        self.opcode.is_some()
    }

    /// Whether any operand slot is populated.
    pub fn has_operands(&self) -> (r: bool)
        ensures
            r == (self@.operands[0] is Some || self@.operands[1] is Some || self@.operands[2]
                is Some),
    {
        self.operands[0].is_some() || self.operands[1].is_some() || self.operands[2].is_some()
    }

    /// The directive's name, when the record carries a directive token.
    pub fn directive_name(&self) -> (r: Option<&Vec<u8>>)
        ensures
            match self@.directive {
                Some(SpecToken::Directive { name }) => r matches Some(v) && v@ == name,
                _ => r is None,
            },
    {
        match &self.directive {
            Some(Token::Directive { name }) => Some(name),
            _ => None,
        }
    }

    /// The string constant in the first operand slot, when one stands there.
    pub fn get_string_constant(&self) -> (r: Option<Vec<u8>>)
        ensures
            match self@.operands[0] {
                Some(SpecToken::IRString { name }) => r matches Some(v) && v@ == name,
                _ => r is None,
            },
    {
        match &self.operands[0] {
            Some(Token::IRString { name }) => Some(copy_bytes(name)),
            _ => None,
        }
    }

    /// The name of the attached label token, declaration or usage.
    pub fn label_name(&self) -> (r: Option<&Vec<u8>>)
        ensures
            match self@.label {
                Some(SpecToken::LabelUsage { name }) => r matches Some(v) && v@ == name,
                Some(SpecToken::LabelDeclaration { name }) => r matches Some(v) && v@ == name,
                _ => r is None,
            },
    {
        match &self.label {
            Some(Token::LabelUsage { name }) => Some(name),
            Some(Token::LabelDeclaration { name }) => Some(name),
            _ => None,
        }
    }

    /// Append the bytes one operand token encodes to, consulting the symbol
    /// table for label usages; on an error the buffer is left unchanged.
    pub fn extract_operand(t: &Token, results: &mut Vec<u8>, symbols: &SymbolTable) -> (r: Result<
        (),
        AssemblerError,
    >)
        ensures
            match r {
                Ok(()) => sp_operand_bytes(t@, symbols@) matches Ok(bs) && final(results)@
                    == old(results)@ + bs,
                Err(e) => sp_operand_bytes(t@, symbols@) matches Err(se) && e@ == se
                    && final(results)@ == old(results)@,
            },
    {
        match t {
            Token::Register { id } => {
                results.push(*id);
                proof {
                    assert(final(results)@ =~= old(results)@ + seq![*id]);
                }
                Ok(())
            },
            Token::IntegerOperand { value, sign_bit } => {
                let m: u16 = if *sign_bit {
                    (0u16).wrapping_sub(*value)
                } else {
                    *value
                };
                let hi = #[verifier::truncate] ((m >> 8) as u8);
                let lo = #[verifier::truncate] (m as u8);
                results.push(hi);
                results.push(lo);
                proof {
                    assert(final(results)@ =~= old(results)@ + int_operand_bytes(
                        *value,
                        *sign_bit,
                    ));
                }
                Ok(())
            },
            Token::LabelUsage { name } => {
                match symbols.get_symbol_offset_bytes(name.as_slice()) {
                    Some(offset) => {
                        let hi = #[verifier::truncate] ((offset >> 8) as u8);
                        let lo = #[verifier::truncate] (offset as u8);
                        results.push(hi);
                        results.push(lo);
                        proof {
                            assert(final(results)@ =~= old(results)@ + label_operand_bytes(offset));
                        }
                        Ok(())
                    },
                    None => Err(AssemblerError::SymbolNotFound { name: copy_bytes(name) }),
                }
            },
            _ => Err(AssemblerError::OpcodeInOperandField),
        }
    }

    /// The bytes this record encodes to: the opcode byte, each populated
    /// operand slot in order, zero-padded to the four-byte width.
    pub fn to_bytes(&self, symbols: &SymbolTable) -> (r: Result<Vec<u8>, AssemblerError>)
        ensures
            match r {
                Ok(v) => sp_record_bytes(self@, symbols@) matches Ok(bs) && v@ == bs,
                Err(e) => sp_record_bytes(self@, symbols@) matches Err(se) && e@ == se,
            },
    {
        let mut results: Vec<u8> = Vec::new();
        match &self.opcode {
            Some(token) => {
                match token {
                    Token::Op { code } => {
                        results.push(code.to_byte());
                    },
                    _ => {
                        return Err(AssemblerError::NonOpcodeInOpcodeField);
                    },
                }
            },
            None => (),
        }
        let ghost base = results@;
        let ghost ops = self@.operands;
        match &self.operands[0] {
            Some(token) => {
                match Self::extract_operand(token, &mut results, symbols) {
                    Ok(()) => (),
                    Err(e) => {
                        return Err(e);
                    },
                }
            },
            None => (),
        }
        proof {
            assert(sp_slot_bytes(ops[0], symbols@) matches Ok(b) && results@ == base + b);
        }
        match &self.operands[1] {
            Some(token) => {
                match Self::extract_operand(token, &mut results, symbols) {
                    Ok(()) => (),
                    Err(e) => {
                        return Err(e);
                    },
                }
            },
            None => (),
        }
        match &self.operands[2] {
            Some(token) => {
                match Self::extract_operand(token, &mut results, symbols) {
                    Ok(()) => (),
                    Err(e) => {
                        return Err(e);
                    },
                }
            },
            None => (),
        }
        proof {
            let b0 = sp_slot_bytes(ops[0], symbols@)->Ok_0;
            let b1 = sp_slot_bytes(ops[1], symbols@)->Ok_0;
            let b2 = sp_slot_bytes(ops[2], symbols@)->Ok_0;
            assert(results@ == base + b0 + b1 + b2);
            assert(base + (b0 + b1 + b2) =~= base + b0 + b1 + b2);
        }
        let ghost encoded = results@;
        while results.len() < 4
            invariant
                encoded.len() < 4 ==> results@ == encoded + Seq::new(
                    (results@.len() - encoded.len()) as nat,
                    |i: int| 0u8,
                ) && results@.len() <= 4,
                encoded.len() >= 4 ==> results@ == encoded,
                results@.len() >= encoded.len(),
            decreases 4 - results@.len(),
        {
            results.push(0);
            proof {
                if encoded.len() < 4 {
                    assert(results@ =~= encoded + Seq::new(
                        (results@.len() - encoded.len()) as nat,
                        |i: int| 0u8,
                    ));
                }
            }
        }
        proof {
            if encoded.len() < 4 {
                assert(results@ =~= pad4(encoded));
            }
        }
        Ok(results)
    }
}

/// An ordered sequence of instruction records: the parse result, in
/// execution and layout order.
#[derive(Debug, PartialEq, Clone)]
pub struct Program {
    pub instructions: Vec<AssemblerInstruction>,
}

impl View for Program {
    type V = Seq<SpecInstruction>;

    open spec fn view(&self) -> Seq<SpecInstruction> {
        Seq::new(self.instructions@.len(), |i: int| self.instructions@[i]@)
    }
}

/// The bytes a whole program encodes to, record by record; the first error
/// wins.
pub open spec fn sp_program_bytes(recs: Seq<SpecInstruction>, syms: Seq<SpecSymbol>) -> Result<
    Seq<u8>,
    SpecAsmError,
>
    decreases recs.len(),
{
    if recs.len() == 0 {
        Ok(Seq::empty())
    } else {
        match sp_record_bytes(recs[0], syms) {
            Err(e) => Err(e),
            Ok(b) => match sp_program_bytes(recs.skip(1), syms) {
                Err(e) => Err(e),
                Ok(rest) => Ok(b + rest),
            },
        }
    }
}

impl Program {
    /// The bytes every record of the program encodes to, in order.
    pub fn to_bytes(&self, symbols: &SymbolTable) -> (r: Result<Vec<u8>, AssemblerError>)
        ensures
            match r {
                Ok(v) => sp_program_bytes(self@, symbols@) matches Ok(bs) && v@ == bs,
                Err(e) => sp_program_bytes(self@, symbols@) matches Err(se) && e@ == se,
            },
    {
        let mut results: Vec<u8> = Vec::new();
        let n = self.instructions.len();
        let mut i: usize = 0;
        proof {
            assert(self@.skip(0) =~= self@);
        }
        while i < n
            invariant
                n == self.instructions@.len(),
                i <= n,
                sp_program_bytes(self@, symbols@) matches Ok(_) ==> sp_program_bytes(
                    self@.skip(i as int),
                    symbols@,
                ) matches Ok(rest) && sp_program_bytes(self@, symbols@)->Ok_0 == results@ + rest,
                sp_program_bytes(self@, symbols@) matches Err(_) ==> sp_program_bytes(
                    self@.skip(i as int),
                    symbols@,
                ) == sp_program_bytes(self@, symbols@),
            decreases n - i,
        {
            proof {
                assert(self@.skip(i as int)[0] == self@[i as int]);
                assert(self@.skip(i as int).skip(1) =~= self@.skip(i + 1));
            }
            match self.instructions[i].to_bytes(symbols) {
                Ok(mut b) => {
                    proof {
                        let whole = sp_program_bytes(self@.skip(i as int), symbols@);
                        assert(whole matches Ok(_) ==> sp_program_bytes(self@, symbols@)
                            matches Ok(_));
                    }
                    results.append(&mut b);
                },
                Err(e) => {
                    return Err(e);
                },
            }
            proof {
                if sp_program_bytes(self@, symbols@) matches Ok(w) {
                    let b = sp_record_bytes(self@[i as int], symbols@)->Ok_0;
                    let rest = sp_program_bytes(self@.skip(i + 1), symbols@)->Ok_0;
                    assert(results@ + (b + rest) =~= (results@ + b) + rest);
                }
            }
            i += 1;
        }
        proof {
            assert(self@.skip(n as int) =~= Seq::<SpecInstruction>::empty());
            if sp_program_bytes(self@, symbols@) matches Ok(w) {
                assert(results@ + Seq::<u8>::empty() =~= results@);
            }
        }
        Ok(results)
    }
}

} // verus!
