//! The assembler: parse, then a first pass that discovers symbols and
//! sections, then a second pass that generates code. One assembler instance
//! owns the program text, the symbol table and the accumulated errors.

pub mod instruction;
pub mod laws;
pub mod parser;

use vstd::prelude::*;

verus! {

use vstd::string::StringSliceAdditionalSpecFns;
use vstd::string::StrSliceExecFns;
use crate::text::{bytes_eq, copy_bytes, is_blank_byte, lower_bytes};
use crate::assembler::instruction::{
    sp_record_bytes,
    AssemblerInstruction,
    Program,
    SpecInstruction,
};
use crate::assembler::parser::token::SpecToken;
use crate::assembler::parser::parsers::{
    lemma_line_advances,
    lemma_scan_end,
    sp_line,
    sp_parse_program,
    sp_program_rest,
};

/// The strictly forward-moving phase of one assembly.
#[derive(Debug, PartialEq, Eq, Structural)]
pub enum AssemblerPhase {
    Parse,
    First,
    Second,
}

/// The ghost mirror of an assembler error, over byte sequences.
pub ghost enum SpecAsmError {
    NoSegmentDeclarationFound { instruction: u32 },
    StringConstantDeclaredWithoutLabel { instruction: u32 },
    SymbolAlreadyDeclared { name: Seq<u8> },
    UnknownDirectiveFound { directive: Seq<u8> },
    NonOpcodeInOpcodeField,
    InsufficientSections,
    UnknownSectionHeader { header: Seq<u8> },
    ParseError { error: Seq<u8> },
    SymbolNotFound { name: Seq<u8> },
    OpcodeInOperandField,
}

/// Everything that can go wrong while assembling. Errors are collected, not
/// thrown; a phase only runs when the previous phase left this list empty.
#[derive(Debug, PartialEq, Clone)]
pub enum AssemblerError {
    /// A label was declared before any section header was seen.
    NoSegmentDeclarationFound { instruction: u32 },
    /// A string constant stood in a record with no label to bind it to.
    StringConstantDeclaredWithoutLabel { instruction: u32 },
    /// A second declaration of a name already in the symbol table.
    SymbolAlreadyDeclared { name: Vec<u8> },
    /// A directive with operands whose name is not recognised.
    UnknownDirectiveFound { directive: Vec<u8> },
    /// Something other than an opcode token stood in the opcode field.
    NonOpcodeInOpcodeField,
    /// The program did not declare exactly two sections.
    InsufficientSections,
    /// A bare directive whose name is neither `data` nor `code`.
    UnknownSectionHeader { header: Vec<u8> },
    /// The source text could not be parsed; carries the offending text.
    ParseError { error: Vec<u8> },
    /// A label usage whose name the symbol table does not hold.
    SymbolNotFound { name: Vec<u8> },
    /// An opcode or directive token stood in an operand slot.
    OpcodeInOperandField,
}

impl View for AssemblerError {
    type V = SpecAsmError;

    open spec fn view(&self) -> SpecAsmError {
        match self {
            AssemblerError::NoSegmentDeclarationFound { instruction } => (
            SpecAsmError::NoSegmentDeclarationFound { instruction: *instruction }),
            AssemblerError::StringConstantDeclaredWithoutLabel { instruction } => (
            SpecAsmError::StringConstantDeclaredWithoutLabel { instruction: *instruction }),
            AssemblerError::SymbolAlreadyDeclared { name } => (SpecAsmError::SymbolAlreadyDeclared {
                name: name@,
            }),
            AssemblerError::UnknownDirectiveFound { directive } => (
            SpecAsmError::UnknownDirectiveFound { directive: directive@ }),
            AssemblerError::NonOpcodeInOpcodeField => SpecAsmError::NonOpcodeInOpcodeField,
            AssemblerError::InsufficientSections => SpecAsmError::InsufficientSections,
            AssemblerError::UnknownSectionHeader { header } => (SpecAsmError::UnknownSectionHeader {
                header: header@,
            }),
            AssemblerError::ParseError { error } => (SpecAsmError::ParseError { error: error@ }),
            AssemblerError::SymbolNotFound { name } => (SpecAsmError::SymbolNotFound {
                name: name@,
            }),
            AssemblerError::OpcodeInOperandField => SpecAsmError::OpcodeInOperandField,
        }
    }
}

impl AssemblerError {
    /// An exact structural copy.
    pub fn duplicate(&self) -> (r: AssemblerError)
        ensures
            r@ == self@,
    {
        match self {
            AssemblerError::NoSegmentDeclarationFound { instruction } => (
            AssemblerError::NoSegmentDeclarationFound { instruction: *instruction }),
            AssemblerError::StringConstantDeclaredWithoutLabel { instruction } => (
            AssemblerError::StringConstantDeclaredWithoutLabel { instruction: *instruction }),
            AssemblerError::SymbolAlreadyDeclared { name } => (
            AssemblerError::SymbolAlreadyDeclared { name: copy_bytes(name) }),
            AssemblerError::UnknownDirectiveFound { directive } => (
            AssemblerError::UnknownDirectiveFound { directive: copy_bytes(directive) }),
            AssemblerError::NonOpcodeInOpcodeField => AssemblerError::NonOpcodeInOpcodeField,
            AssemblerError::InsufficientSections => AssemblerError::InsufficientSections,
            AssemblerError::UnknownSectionHeader { header } => (
            AssemblerError::UnknownSectionHeader { header: copy_bytes(header) }),
            AssemblerError::ParseError { error } => (AssemblerError::ParseError {
                error: copy_bytes(error),
            }),
            AssemblerError::SymbolNotFound { name } => (AssemblerError::SymbolNotFound {
                name: copy_bytes(name),
            }),
            AssemblerError::OpcodeInOperandField => AssemblerError::OpcodeInOperandField,
        }
    }
}

/// A declared region of the program: `data` or `code`, each anchored at the
/// byte offset at which its header directive appeared.
#[derive(Debug, PartialEq, Eq, Structural, Clone, Copy)]
pub enum AssemblerSection {
    Data { starting_instruction: u32 },
    Code { starting_instruction: u32 },
    Unknown,
}

/// The section a (lower-case) header name opens at a given offset.
pub open spec fn sp_section_new(name: Seq<u8>, starting_instruction: u32) -> AssemblerSection {
    if name == "data".spec_bytes() {
        AssemblerSection::Data { starting_instruction }
    } else if name == "code".spec_bytes() {
        AssemblerSection::Code { starting_instruction }
    } else {
        AssemblerSection::Unknown
    }
}

impl AssemblerSection {
    /// The section a header name opens; an unrecognised name gives `Unknown`.
    pub fn new(name: &str, starting_instruction: u32) -> (r: Self)
        ensures
            r == sp_section_new(name.spec_bytes(), starting_instruction),
    {
        Self::from_bytes(name.as_bytes(), starting_instruction)
    }

    /// The same lookup over raw header bytes.
    pub fn from_bytes(name: &[u8], starting_instruction: u32) -> (r: Self)
        ensures
            r == sp_section_new(name@, starting_instruction),
    {
        if bytes_eq(name, "data".as_bytes()) {
            AssemblerSection::Data { starting_instruction }
        } else if bytes_eq(name, "code".as_bytes()) {
            AssemblerSection::Code { starting_instruction }
        } else {
            AssemblerSection::Unknown
        }
    }

    /// The byte offset the section was opened at, where it has one.
    pub open spec fn spec_start(self) -> Option<u32> {
        match self {
            AssemblerSection::Data { starting_instruction } => Some(starting_instruction),
            AssemblerSection::Code { starting_instruction } => Some(starting_instruction),
            AssemblerSection::Unknown => None,
        }
    }
}

/// The kind of thing a symbol names; labels are the only kind so far.
#[derive(Debug, PartialEq, Eq, Structural, Clone, Copy)]
pub enum SymbolType {
    Label,
}

/// The ghost mirror of a symbol.
pub ghost struct SpecSymbol {
    pub name: Seq<u8>,
    pub offset: Option<u32>,
    pub symbol_type: SymbolType,
}

/// A named offset resolved between the two assembler passes.
#[derive(Debug)]
pub struct Symbol {
    pub name: Vec<u8>,
    pub offset: Option<u32>,
    pub symbol_type: SymbolType,
}

impl View for Symbol {
    type V = SpecSymbol;

    open spec fn view(&self) -> SpecSymbol {
        SpecSymbol { name: self.name@, offset: self.offset, symbol_type: self.symbol_type }
    }
}

impl Symbol {
    /// A resolved symbol.
    pub fn new(name: &str, symbol_type: SymbolType, offset: u32) -> (r: Self)
        ensures
            r@ == (SpecSymbol { name: name.spec_bytes(), offset: Some(offset), symbol_type }),
    {
        Symbol { name: name.as_bytes_vec(), offset: Some(offset), symbol_type }
    }

    /// A resolved symbol named by raw bytes.
    pub fn from_bytes(name: Vec<u8>, symbol_type: SymbolType, offset: u32) -> (r: Self)
        ensures
            r@ == (SpecSymbol { name: name@, offset: Some(offset), symbol_type }),
    {
        Symbol { name, offset: Some(offset), symbol_type }
    }
}

/// The offset of the first symbol with the given name: `None` when the name
/// is absent, `Some(o)` when present with offset field `o`.
pub open spec fn sym_lookup(syms: Seq<SpecSymbol>, name: Seq<u8>) -> Option<Option<u32>>
    decreases syms.len(),
{
    if syms.len() == 0 {
        None
    } else if syms[0].name == name {
        Some(syms[0].offset)
    } else {
        sym_lookup(syms.skip(1), name)
    }
}

/// Whether any symbol bears the given name.
pub open spec fn sym_has(syms: Seq<SpecSymbol>, name: Seq<u8>) -> bool {
    sym_lookup(syms, name) is Some
}

/// All symbols of the given name rebound to the given offset.
pub open spec fn sym_rebind(syms: Seq<SpecSymbol>, name: Seq<u8>, offset: u32) -> Seq<SpecSymbol> {
    syms.map_values(
        |s: SpecSymbol|
            if s.name == name {
                SpecSymbol { offset: Some(offset), ..s }
            } else {
                s
            },
    )
}

/// The name-to-symbol mapping built in the first pass and read in the
/// second. Add is append-only; a later rebind may change an offset.
#[derive(Debug)]
pub struct SymbolTable {
    pub symbols: Vec<Symbol>,
}

impl View for SymbolTable {
    type V = Seq<SpecSymbol>;

    open spec fn view(&self) -> Seq<SpecSymbol> {
        Seq::new(self.symbols@.len(), |i: int| self.symbols@[i]@)
    }
}

impl SymbolTable {
    /// An empty table.
    pub fn new() -> (r: Self)
        ensures
            r@ == Seq::<SpecSymbol>::empty(),
    {
        let r = SymbolTable { symbols: Vec::new() };
        proof {
            assert(r@ =~= Seq::<SpecSymbol>::empty());
        }
        r
    }

    /// Append a symbol; names are not checked here, the caller does that.
    pub fn add_symbol(&mut self, symbol: Symbol)
        ensures
            final(self)@ == old(self)@.push(symbol@),
    {
        self.symbols.push(symbol);
        proof {
            assert(final(self)@ =~= old(self)@.push(symbol@));
        }
    }

    /// Whether the table holds a symbol of this name.
    pub fn has_symbol(&self, name: &str) -> (r: bool)
        ensures
            r == sym_has(self@, name.spec_bytes()),
    {
        self.has_symbol_bytes(name.as_bytes())
    }

    /// The same lookup over raw name bytes.
    pub fn has_symbol_bytes(&self, name: &[u8]) -> (r: bool)
        ensures
            r == sym_has(self@, name@),
    {
        let n = self.symbols.len();
        let mut i: usize = 0;
        proof {
            assert(self@.skip(0) =~= self@);
        }
        while i < n
            invariant
                n == self.symbols@.len(),
                i <= n,
                sym_lookup(self@, name@) == sym_lookup(self@.skip(i as int), name@),
            decreases n - i,
        {
            proof {
                assert(self@.skip(i as int)[0] == self.symbols@[i as int]@);
                assert(self@.skip(i as int).skip(1) =~= self@.skip(i + 1));
            }
            if bytes_eq(self.symbols[i].name.as_slice(), name) {
                return true;
            }
            i += 1;
        }
        proof {
            assert(self@.skip(n as int) =~= Seq::<SpecSymbol>::empty());
        }
        false
    }

    /// The offset of the first symbol of this name, or `None` when the name
    /// is absent or the symbol holds no offset.
    pub fn get_symbol_offset(&self, name: &str) -> (r: Option<u32>)
        ensures
            r == match sym_lookup(self@, name.spec_bytes()) {
                Some(o) => o,
                None => None,
            },
    {
        self.get_symbol_offset_bytes(name.as_bytes())
    }

    /// The same lookup over raw name bytes.
    pub fn get_symbol_offset_bytes(&self, name: &[u8]) -> (r: Option<u32>)
        ensures
            r == match sym_lookup(self@, name@) {
                Some(o) => o,
                None => None,
            },
    {
        let n = self.symbols.len();
        let mut i: usize = 0;
        proof {
            assert(self@.skip(0) =~= self@);
        }
        while i < n
            invariant
                n == self.symbols@.len(),
                i <= n,
                sym_lookup(self@, name@) == sym_lookup(self@.skip(i as int), name@),
            decreases n - i,
        {
            proof {
                assert(self@.skip(i as int)[0] == self.symbols@[i as int]@);
                assert(self@.skip(i as int).skip(1) =~= self@.skip(i + 1));
            }
            if bytes_eq(self.symbols[i].name.as_slice(), name) {
                return self.symbols[i].offset;
            }
            i += 1;
        }
        proof {
            assert(self@.skip(n as int) =~= Seq::<SpecSymbol>::empty());
        }
        None
    }

    /// Rebind every symbol of this name to the given offset.
    pub fn set_symbol_offset(&mut self, name: &str, offset: u32)
        ensures
            final(self)@ == sym_rebind(old(self)@, name.spec_bytes(), offset),
    {
        self.set_symbol_offset_bytes(name.as_bytes(), offset)
    }

    /// The same rebinding over raw name bytes.
    pub fn set_symbol_offset_bytes(&mut self, name: &[u8], offset: u32)
        ensures
            final(self)@ == sym_rebind(old(self)@, name@, offset),
    {
        let n = self.symbols.len();
        let mut i: usize = 0;
        while i < n
            invariant
                n == self.symbols@.len(),
                i <= n,
                self@.len() == old(self)@.len(),
                forall|j: int|
                    0 <= j < n ==> #[trigger] self@[j] == if j < i {
                        sym_rebind(old(self)@, name@, offset)[j]
                    } else {
                        old(self)@[j]
                    },
            decreases n - i,
        {
            let ghost pre = self@;
            let matched = bytes_eq(self.symbols[i].name.as_slice(), name);
            if matched {
                let fresh = copy_bytes(&self.symbols[i].name);
                let kind = self.symbols[i].symbol_type;
                self.symbols.set(
                    i,
                    Symbol { name: fresh, offset: Some(offset), symbol_type: kind },
                );
            }
            proof {
                assert(forall|j: int| 0 <= j < n && j != i ==> self@[j] == pre[j]);
                assert(pre[i as int] == old(self)@[i as int]);
                assert(sym_rebind(old(self)@, name@, offset)[i as int] == if old(
                    self,
                )@[i as int].name == name@ {
                    SpecSymbol { offset: Some(offset), ..old(self)@[i as int] }
                } else {
                    old(self)@[i as int]
                });
                if matched {
                    assert(self@[i as int] == (SpecSymbol {
                        name: pre[i as int].name,
                        offset: Some(offset),
                        symbol_type: pre[i as int].symbol_type,
                    }));
                }
                assert(self@[i as int] == if matched {
                    sym_rebind(old(self)@, name@, offset)[i as int]
                } else {
                    old(self)@[i as int]
                });
                assert forall|j: int| 0 <= j < n implies self@[j] == (if j <= i {
                    sym_rebind(old(self)@, name@, offset)[j]
                } else {
                    old(self)@[j]
                }) by {
                    if j < i {
                        assert(pre[j] == sym_rebind(old(self)@, name@, offset)[j]);
                    } else if j > i {
                        assert(pre[j] == old(self)@[j]);
                    }
                }
            }
            i += 1;
        }
        proof {
            assert(final(self)@ =~= sym_rebind(old(self)@, name@, offset));
        }
    }
}


/// The first line break at or after `pos`, or the text's end.
pub open spec fn nl_end(s: Seq<u8>, pos: int) -> int {
    crate::assembler::parser::parsers::scan_end(s, pos, |b: u8| b != '\n' as u8)
}

/// A line with its carriage return stripped, as the line splitter does.
pub open spec fn strip_cr(line: Seq<u8>) -> Seq<u8> {
    if line.len() > 0 && line[line.len() - 1] == '\r' as u8 {
        line.take(line.len() - 1)
    } else {
        line
    }
}

/// A line holding nothing but whitespace.
pub open spec fn is_blank_line(line: Seq<u8>) -> bool {
    forall|i: int| 0 <= i < line.len() ==> is_blank_byte(line[i])
}

/// The text normalised for parsing: split into lines, carriage returns
/// stripped, blank lines dropped, and every kept line closed with a line
/// break.
pub open spec fn normalize_from(s: Seq<u8>, pos: int) -> Seq<u8>
    decreases s.len() - pos,
    when 0 <= pos <= s.len()
{
    if pos >= s.len() {
        Seq::empty()
    } else {
        let k = nl_end(s, pos);
        if pos <= k <= s.len() {
            let line = strip_cr(s.subrange(pos, k));
            let rest = if k + 1 <= s.len() {
                normalize_from(s, k + 1)
            } else {
                Seq::empty()
            };
            if is_blank_line(line) {
                rest
            } else {
                line + seq!['\n' as u8] + rest
            }
        } else {
            Seq::empty()
        }
    }
}

/// The whole text normalised.
pub open spec fn normalize(s: Seq<u8>) -> Seq<u8> {
    normalize_from(s, 0)
}

/// Normalisation never grows the text by more than one closing line break.
pub proof fn lemma_normalize_len(s: Seq<u8>, pos: int)
    requires
        0 <= pos <= s.len(),
    ensures
        normalize_from(s, pos).len() <= s.len() - pos + 1,
    decreases s.len() - pos,
{
    if pos < s.len() {
        lemma_scan_end(s, pos, |b: u8| b != '\n' as u8);
        let k = nl_end(s, pos);
        if k + 1 <= s.len() {
            lemma_normalize_len(s, k + 1);
        }
    }
}

/// A parse yields at most one record per byte of text.
pub proof fn lemma_program_count(s: Seq<u8>, pos: int)
    requires
        0 <= pos <= s.len(),
    ensures
        crate::assembler::parser::parsers::sp_program_rest(s, pos).0.len() <= s.len() - pos,
    decreases s.len() - pos,
{
    lemma_line_advances(s, pos);
    match sp_line(s, pos) {
        None => {},
        Some((rec, p2)) => {
            lemma_program_count(s, p2);
        },
    }
}

/// Whether a byte is ASCII whitespace, executably.
fn blank_range(s: &[u8], from: usize, to: usize) -> (r: bool)
    requires
        from <= to <= s@.len(),
    ensures
        r == is_blank_line(s@.subrange(from as int, to as int)),
{
    let mut i = from;
    while i < to
        invariant
            from <= i <= to <= s@.len(),
            forall|j: int| from <= j < i ==> is_blank_byte(s@[j]),
        decreases to - i,
    {
        let b = s[i];
        if !(b == ' ' as u8 || b == '\t' as u8 || b == '\r' as u8 || b == '\n' as u8 || b == 0x0b
            || b == 0x0c) {
            proof {
                assert(!is_blank_byte(s@.subrange(from as int, to as int)[i - from]));
            }
            return false;
        }
        i += 1;
    }
    proof {
        assert(forall|j: int|
            0 <= j < to - from ==> is_blank_byte(#[trigger] s@.subrange(from as int, to as int)[j]));
    }
    true
}

/// Scan up to the next line break.
fn scan_to_nl(s: &[u8], pos: usize) -> (r: usize)
    requires
        pos <= s@.len(),
    ensures
        r == nl_end(s@, pos as int),
        pos <= r <= s@.len(),
{
    proof {
        lemma_scan_end(s@, pos as int, |b: u8| b != '\n' as u8);
    }
    let n = s.len();
    let mut i = pos;
    while i < n && s[i] != '\n' as u8
        invariant
            pos <= i <= n == s@.len(),
            nl_end(s@, pos as int) == nl_end(s@, i as int),
        decreases n - i,
    {
        i += 1;
    }
    i
}

/// The text normalised for parsing, executably.
fn normalize_bytes(s: &[u8]) -> (r: Vec<u8>)
    ensures
        r@ == normalize(s@),
{
    let n = s.len();
    let mut out: Vec<u8> = Vec::new();
    let mut pos: usize = 0;
    while pos < n
        invariant
            pos <= n == s@.len(),
            out@ + normalize_from(s@, pos as int) == normalize(s@),
        decreases n - pos,
    {
        let k = scan_to_nl(s, pos);
        let line_to = if k > pos && s[k - 1] == '\r' as u8 {
            k - 1
        } else {
            k
        };
        proof {
            assert(strip_cr(s@.subrange(pos as int, k as int)) =~= s@.subrange(
                pos as int,
                line_to as int,
            ));
        }
        if !blank_range(s, pos, line_to) {
            let mut piece = crate::assembler::parser::parsers::bytes_range(s, pos, line_to);
            out.append(&mut piece);
            out.push('\n' as u8);
        }
        pos = if k < n {
            k + 1
        } else {
            n
        };
    }
    proof {
        assert(out@ + Seq::<u8>::empty() =~= out@);
    }
    out
}


/// The mid-pass state of symbol and section discovery.
pub ghost struct P1State {
    pub symbols: Seq<SpecSymbol>,
    pub sections: Seq<AssemblerSection>,
    pub current_section: Option<AssemblerSection>,
    pub errors: Seq<SpecAsmError>,
    pub ro_offset: u32,
    pub idx: int,
}

/// The name a label token carries, for either token kind.
pub open spec fn token_label_name(t: SpecToken) -> Option<Seq<u8>> {
    match t {
        SpecToken::LabelUsage { name } => Some(name),
        SpecToken::LabelDeclaration { name } => Some(name),
        _ => None,
    }
}

/// The name a directive token carries.
pub open spec fn token_directive_name(t: SpecToken) -> Seq<u8> {
    match t {
        SpecToken::Directive { name } => name,
        _ => Seq::empty(),
    }
}

/// First-pass handling of a record's label declaration: requires an open
/// section; a fresh name is bound to `index*4 - (section start + 4)`, a
/// repeated name is an error. The bias of one instruction width in the
/// offset is part of the wire-compatible behaviour and is kept as is.
pub open spec fn p1_process_label(st: P1State, rec: SpecInstruction) -> P1State {
    match token_label_name(rec.label->Some_0) {
        None => (P1State {
            errors: st.errors.push(
                SpecAsmError::StringConstantDeclaredWithoutLabel { instruction: st.idx as u32 },
            ),
            ..st
        }),
        Some(name) => {
            if sym_has(st.symbols, name) {
                P1State { errors: st.errors.push(SpecAsmError::SymbolAlreadyDeclared { name }), ..st }
            } else {
                match st.current_section->Some_0.spec_start() {
                    None => st,
                    Some(start) => (P1State {
                        symbols: st.symbols.push(
                            SpecSymbol {
                                name,
                                offset: Some((4 * st.idx - (start + 4)) as u32),
                                symbol_type: SymbolType::Label,
                            },
                        ),
                        ..st
                    }),
                }
            }
        },
    }
}

/// First-pass handling of a record's directive. With operands only the
/// string directive is known: it rebinds the attached label to the
/// read-only offset counter, which never advances, so every string resolves
/// to the same offset; this is kept as is. Without operands the name opens
/// a section.
pub open spec fn p1_process_directive(st: P1State, rec: SpecInstruction, first: bool) -> P1State {
    let name = token_directive_name(rec.directive->Some_0);
    let has_ops = rec.operands[0] is Some || rec.operands[1] is Some || rec.operands[2] is Some;
    if has_ops {
        if name == "asciiz".spec_bytes() {
            if !first {
                st
            } else {
                match rec.operands[0] {
                    Some(SpecToken::IRString { .. }) => {
                        match rec.label {
                            Some(lt) => match token_label_name(lt) {
                                Some(lname) => (P1State {
                                    symbols: sym_rebind(st.symbols, lname, st.ro_offset),
                                    ..st
                                }),
                                None => st,
                            },
                            None => st,
                        }
                    },
                    _ => st,
                }
            }
        } else {
            P1State {
                errors: st.errors.push(SpecAsmError::UnknownDirectiveFound { directive: name }),
                ..st
            }
        }
    } else {
        let sec = sp_section_new(name, (4 * st.idx) as u32);
        if sec is Unknown {
            P1State { errors: st.errors.push(SpecAsmError::UnknownSectionHeader { header: name }), ..st }
        } else {
            P1State { sections: st.sections.push(sec), current_section: Some(sec), ..st }
        }
    }
}

/// The first pass over one record: its label, then its directive, then the
/// running index moves one instruction width on.
pub open spec fn p1_step(st: P1State, rec: SpecInstruction) -> P1State {
    let st1 = if rec.label is Some {
        if st.current_section is Some {
            p1_process_label(st, rec)
        } else {
            P1State {
                errors: st.errors.push(
                    SpecAsmError::NoSegmentDeclarationFound { instruction: st.idx as u32 },
                ),
                ..st
            }
        }
    } else {
        st
    };
    let st2 = if rec.directive is Some {
        p1_process_directive(st1, rec, true)
    } else {
        st1
    };
    P1State { idx: st2.idx + 1, ..st2 }
}

/// The whole first pass, record by record.
pub open spec fn p1_run(st: P1State, recs: Seq<SpecInstruction>) -> P1State
    decreases recs.len(),
{
    if recs.len() == 0 {
        st
    } else {
        p1_run(p1_step(st, recs[0]), recs.skip(1))
    }
}

/// The first pass touches neither the read-only offset counter nor goes
/// backward in the running index, and any section it leaves open starts at
/// least one instruction width behind the index.
pub proof fn lemma_p1_run_frame(st: P1State, recs: Seq<SpecInstruction>)
    requires
        section_behind(st.current_section, st.idx),
        0 <= st.idx,
        4 * (st.idx + recs.len()) <= u32::MAX,
    ensures
        p1_run(st, recs).idx == st.idx + recs.len(),
        p1_run(st, recs).ro_offset == st.ro_offset,
        section_behind(p1_run(st, recs).current_section, p1_run(st, recs).idx),
        p1_run(st, recs).errors.len() >= st.errors.len(),
    decreases recs.len(),
{
    if recs.len() > 0 {
        let st2 = p1_step(st, recs[0]);
        assert(4 * st.idx <= u32::MAX);
        assert((4 * st.idx) as u32 == 4 * st.idx);
        assert(section_behind(st2.current_section, st2.idx));
        lemma_p1_run_frame(st2, recs.skip(1));
    }
}

/// An open section starts at least one instruction width behind the index.
pub open spec fn section_behind(sec: Option<AssemblerSection>, idx: int) -> bool {
    match sec {
        Some(c) => match c.spec_start() {
            Some(start) => start + 4 <= 4 * idx,
            None => true,
        },
        None => true,
    }
}

/// The second pass over the records that carry opcodes: the encoded bytes,
/// or the first encoding error together with how many records were passed
/// before it.
pub ghost struct P2Result {
    pub bytes: Result<Seq<u8>, SpecAsmError>,
    pub steps: int,
}

/// The whole second pass, record by record; only records with an opcode
/// contribute bytes, and the first error stops the pass.
pub open spec fn p2_run(recs: Seq<SpecInstruction>, syms: Seq<SpecSymbol>) -> P2Result
    decreases recs.len(),
{
    if recs.len() == 0 {
        P2Result { bytes: Ok(Seq::empty()), steps: 0 }
    } else {
        if recs[0].opcode is Some {
            match sp_record_bytes(recs[0], syms) {
                Err(e) => P2Result { bytes: Err(e), steps: 0 },
                Ok(b) => {
                    let r = p2_run(recs.skip(1), syms);
                    match r.bytes {
                        Err(e) => P2Result { bytes: Err(e), steps: r.steps + 1 },
                        Ok(rest) => P2Result { bytes: Ok(b + rest), steps: r.steps + 1 },
                    }
                },
            }
        } else {
            let r = p2_run(recs.skip(1), syms);
            match r.bytes {
                Err(e) => P2Result { bytes: Err(e), steps: r.steps + 1 },
                Ok(rest) => P2Result { bytes: Ok(rest), steps: r.steps + 1 },
            }
        }
    }
}

/// The second pass counts at most one step per record.
pub proof fn lemma_p2_steps(recs: Seq<SpecInstruction>, syms: Seq<SpecSymbol>)
    ensures
        0 <= p2_run(recs, syms).steps <= recs.len(),
    decreases recs.len(),
{
    if recs.len() > 0 {
        lemma_p2_steps(recs.skip(1), syms);
    }
}


/// Extending the record sequence by one extends the first-pass fold by one
/// step.
pub proof fn lemma_p1_run_snoc(st: P1State, recs: Seq<SpecInstruction>, i: int)
    requires
        0 <= i < recs.len(),
    ensures
        p1_run(st, recs.take(i + 1)) == p1_step(p1_run(st, recs.take(i)), recs[i]),
    decreases i,
{
    if i == 0 {
        assert(recs.take(1) =~= seq![recs[0]]);
        assert(recs.take(0) =~= Seq::<SpecInstruction>::empty());
        assert(recs.take(1).skip(1) =~= Seq::<SpecInstruction>::empty());
        assert(p1_run(st, recs.take(0)) == st);
        assert(recs.take(1)[0] == recs[0]);
        assert(p1_run(st, recs.take(1)) == p1_run(
            p1_step(st, recs[0]),
            recs.take(1).skip(1),
        ));
        assert(p1_run(p1_step(st, recs[0]), Seq::<SpecInstruction>::empty()) == p1_step(
            st,
            recs[0],
        ));
    } else {
        assert(recs.take(i + 1)[0] == recs[0]);
        assert(recs.take(i + 1).skip(1) =~= recs.skip(1).take(i));
        assert(recs.take(i)[0] == recs[0]);
        assert(recs.take(i).skip(1) =~= recs.skip(1).take(i - 1));
        lemma_p1_run_snoc(p1_step(st, recs[0]), recs.skip(1), i - 1);
        assert(recs.skip(1)[i - 1] == recs[i]);
        assert(p1_run(st, recs.take(i + 1)) == p1_run(
            p1_step(st, recs[0]),
            recs.skip(1).take(i),
        ));
        assert(p1_run(st, recs.take(i)) == p1_run(
            p1_step(st, recs[0]),
            recs.skip(1).take(i - 1),
        ));
    }
}

/// The assembler state as mathematics.
pub ghost struct AsmView {
    pub phase: AssemblerPhase,
    pub symbols: Seq<SpecSymbol>,
    pub ro: Seq<u8>,
    pub code: Seq<u8>,
    pub program: Seq<SpecInstruction>,
    pub bytecode: Seq<u8>,
    pub ro_offset: u32,
    pub sections: Seq<AssemblerSection>,
    pub current_section: Option<AssemblerSection>,
    pub current_instruction: int,
    pub errors: Seq<SpecAsmError>,
}

/// The view of an error list.
pub open spec fn errs_view(v: Vec<AssemblerError>) -> Seq<SpecAsmError> {
    Seq::new(v@.len(), |i: int| v@[i]@)
}

/// The first-pass slice of the assembler state.
pub open spec fn p1_view(a: AsmView) -> P1State {
    P1State {
        symbols: a.symbols,
        sections: a.sections,
        current_section: a.current_section,
        errors: a.errors,
        ro_offset: a.ro_offset,
        idx: a.current_instruction,
    }
}

/// The first-pass starting state: fresh symbols and sections, everything
/// else carried over.
pub open spec fn p1_init(a: AsmView) -> P1State {
    P1State {
        symbols: Seq::empty(),
        sections: Seq::empty(),
        current_section: a.current_section,
        errors: a.errors,
        ro_offset: a.ro_offset,
        idx: a.current_instruction,
    }
}

/// The assembler state the rest of the machine-wide state is unchanged
/// against, after a first-pass helper ran.
pub open spec fn p1_frame(a: AsmView, b: AsmView) -> bool {
    a.phase == b.phase && a.ro == b.ro && a.code == b.code && a.program == b.program && a.bytecode
        == b.bytecode && a.current_instruction == b.current_instruction
}

/// The machine limit under which one assembly cannot overflow the running
/// 32-bit instruction index.
pub open spec fn assemble_room(a: AsmView, raw: Seq<u8>) -> bool {
    0 <= a.current_instruction && a.current_instruction + 2 * (a.code.len() + raw.len()) + 4
        <= 0x3FFF_FFFF
}

/// One label's handling in the first pass, including the guard that a
/// section must be open.
pub open spec fn p1_label_full(st: P1State, rec: SpecInstruction) -> P1State {
    if st.current_section is Some {
        p1_process_label(st, rec)
    } else {
        P1State {
            errors: st.errors.push(
                SpecAsmError::NoSegmentDeclarationFound { instruction: st.idx as u32 },
            ),
            ..st
        }
    }
}

/// The assembler: the single owner of the program text, the parse result,
/// the symbol table, the section list and the error list for one stream of
/// assemblies.
#[derive(Debug)]
pub struct Assembler {
    pub phase: AssemblerPhase,
    pub symbols: SymbolTable,
    pub ro: Vec<u8>,
    pub code: Vec<u8>,
    pub program: Program,
    pub bytecode: Vec<u8>,
    pub ro_offset: u32,
    pub sections: Vec<AssemblerSection>,
    pub current_section: Option<AssemblerSection>,
    pub current_instruction: u32,
    pub errors: Vec<AssemblerError>,
}

impl View for Assembler {
    type V = AsmView;

    open spec fn view(&self) -> AsmView {
        AsmView {
            phase: self.phase,
            symbols: self.symbols@,
            ro: self.ro@,
            code: self.code@,
            program: self.program@,
            bytecode: self.bytecode@,
            ro_offset: self.ro_offset,
            sections: self.sections@,
            current_section: self.current_section,
            current_instruction: self.current_instruction as int,
            errors: errs_view(self.errors),
        }
    }
}

/// The state a fresh assembler starts in.
pub open spec fn asm_init() -> AsmView {
    AsmView {
        phase: AssemblerPhase::Parse,
        symbols: Seq::empty(),
        ro: Seq::empty(),
        code: Seq::empty(),
        program: Seq::empty(),
        bytecode: Seq::empty(),
        ro_offset: 0,
        sections: Seq::empty(),
        current_section: None,
        current_instruction: 0,
        errors: Seq::empty(),
    }
}

impl Assembler {
    /// A fresh assembler with nothing assembled yet.
    pub fn new() -> (r: Assembler)
        ensures
            r@ == asm_init(),
    {
        let r = Assembler {
            phase: AssemblerPhase::Parse,
            symbols: SymbolTable::new(),
            ro: Vec::new(),
            code: Vec::new(),
            program: Program { instructions: Vec::new() },
            bytecode: Vec::new(),
            ro_offset: 0,
            sections: Vec::new(),
            current_section: None,
            current_instruction: 0,
            errors: Vec::new(),
        };
        proof {
            assert(r@.ro =~= asm_init().ro);
            assert(r@.code =~= asm_init().code);
            assert(r@.program =~= asm_init().program);
            assert(r@.bytecode =~= asm_init().bytecode);
            assert(r@.sections =~= asm_init().sections);
            assert(r@.errors =~= asm_init().errors);
        }
        r
    }

    /// An exact copy of the accumulated error list.
    fn duplicate_errors(&self) -> (r: Vec<AssemblerError>)
        ensures
            errs_view(r) == self@.errors,
    {
        let mut out: Vec<AssemblerError> = Vec::new();
        let n = self.errors.len();
        let mut i: usize = 0;
        while i < n
            invariant
                n == self.errors@.len(),
                i <= n,
                out@.len() == i,
                forall|j: int| 0 <= j < i ==> out@[j]@ == self.errors@[j]@,
            decreases n - i,
        {
            out.push(self.errors[i].duplicate());
            i += 1;
        }
        proof {
            assert(errs_view(out) =~= self@.errors);
        }
        out
    }

    /// The generated bytecode, as a fresh copy.
    fn get_bytecode(&self) -> (r: Vec<u8>)
        ensures
            r@ == self@.bytecode,
    {
        copy_bytes(&self.bytecode)
    }

    /// The pending errors: none, or a copy of the accumulated list.
    fn check_errors(&self) -> (r: Result<(), Vec<AssemblerError>>)
        ensures
            match r {
                Ok(()) => self@.errors.len() == 0,
                Err(es) => self@.errors.len() > 0 && errs_view(es) == self@.errors,
            },
    {
        if self.errors.is_empty() {
            Ok(())
        } else {
            Err(self.duplicate_errors())
        }
    }

    /// The last generated instruction: the final four bytecode bytes, or
    /// nothing when less than one instruction has been generated.
    pub fn last_instruction(&self) -> (r: Vec<u8>)
        ensures
            self@.bytecode.len() >= 4 ==> r@ == self@.bytecode.subrange(
                self@.bytecode.len() - 4,
                self@.bytecode.len() as int,
            ),
            self@.bytecode.len() < 4 ==> r@ == Seq::<u8>::empty(),
    {
        let len = self.bytecode.len();
        if len >= 4 {
            let mut out: Vec<u8> = Vec::new();
            out.push(self.bytecode[len - 4]);
            out.push(self.bytecode[len - 3]);
            out.push(self.bytecode[len - 2]);
            out.push(self.bytecode[len - 1]);
            proof {
                assert(out@ =~= self@.bytecode.subrange(
                    self@.bytecode.len() - 4,
                    self@.bytecode.len() as int,
                ));
            }
            out
        } else {
            let out: Vec<u8> = Vec::new();
            proof {
                assert(out@ =~= Seq::<u8>::empty());
            }
            out
        }
    }

    /// The parse phase: normalise the accumulated text, parse it into the
    /// program, and move to the first pass; a failed parse records the
    /// offending remainder and stays in the parse phase.
    fn process_parse_phase(&mut self)
        ensures
            final(self)@.code == normalize(old(self)@.code),
            final(self)@.ro == old(self)@.ro,
            final(self)@.ro_offset == old(self)@.ro_offset,
            final(self)@.symbols == old(self)@.symbols,
            final(self)@.sections == old(self)@.sections,
            final(self)@.current_section == old(self)@.current_section,
            final(self)@.current_instruction == old(self)@.current_instruction,
            final(self)@.bytecode == old(self)@.bytecode,
            match sp_parse_program(normalize(old(self)@.code)) {
                Ok(recs) => final(self)@.program == recs && final(self)@.phase
                    == AssemblerPhase::First && final(self)@.errors == old(self)@.errors,
                Err(rest) => final(self)@.program == old(self)@.program && final(self)@.phase
                    == old(self)@.phase && final(self)@.errors == old(self)@.errors.push(
                    SpecAsmError::ParseError { error: rest },
                ),
            },
    {
        let normalized = normalize_bytes(self.code.as_slice());
        self.code = normalized;
        let text = self.code.as_slice();
        match crate::assembler::parser::parsers::program_bytes(text) {
            Some((program, end)) => {
                if end == self.code.len() {
                    self.program = program;
                    self.phase = AssemblerPhase::First;
                } else {
                    let rest = crate::assembler::parser::parsers::bytes_range(
                        text,
                        end,
                        self.code.len(),
                    );
                    self.errors.push(AssemblerError::ParseError { error: rest });
                    proof {
                        assert(errs_view(self.errors) =~= old(self)@.errors.push(
                            SpecAsmError::ParseError {
                                error: normalize(old(self)@.code).subrange(
                                    end as int,
                                    normalize(old(self)@.code).len() as int,
                                ),
                            },
                        ));
                    }
                }
            },
            None => {
                let rest = crate::assembler::parser::parsers::bytes_range(
                    text,
                    0,
                    self.code.len(),
                );
                proof {
                    assert(normalize(old(self)@.code).subrange(
                        0,
                        normalize(old(self)@.code).len() as int,
                    ) =~= normalize(old(self)@.code));
                }
                self.errors.push(AssemblerError::ParseError { error: rest });
                proof {
                    assert(errs_view(self.errors) =~= old(self)@.errors.push(
                        SpecAsmError::ParseError { error: normalize(old(self)@.code) },
                    ));
                }
            },
        }
    }
}


impl Assembler {
    /// First-pass label handling: bind a fresh name to its biased offset,
    /// or record why that could not be done.
    fn process_label_declaration(&mut self, i: &AssemblerInstruction)
        requires
            i@.label is Some,
            section_behind(old(self)@.current_section, old(self)@.current_instruction),
            4 * old(self)@.current_instruction <= u32::MAX,
        ensures
            p1_view(final(self)@) == p1_label_full(p1_view(old(self)@), i@),
            p1_frame(final(self)@, old(self)@),
    {
        let ghost st0 = p1_view(self@);
        let name = match i.label_name() {
            Some(n) => n,
            None => {
                match &self.current_section {
                    Some(_) => {
                        self.errors.push(
                            AssemblerError::StringConstantDeclaredWithoutLabel {
                                instruction: self.current_instruction,
                            },
                        );
                    },
                    None => {
                        self.errors.push(
                            AssemblerError::NoSegmentDeclarationFound {
                                instruction: self.current_instruction,
                            },
                        );
                    },
                }
                proof {
                    assert(errs_view(self.errors) =~= p1_label_full(st0, i@).errors);
                }
                return;
            },
        };
        let start: u32 = match &self.current_section {
            Some(AssemblerSection::Code { starting_instruction }) => *starting_instruction,
            Some(AssemblerSection::Data { starting_instruction }) => *starting_instruction,
            Some(AssemblerSection::Unknown) => {
                if self.symbols.has_symbol_bytes(name.as_slice()) {
                    let owned = copy_bytes(name);
                    self.errors.push(AssemblerError::SymbolAlreadyDeclared { name: owned });
                    proof {
                        assert(errs_view(self.errors) =~= p1_label_full(st0, i@).errors);
                    }
                }
                return;
            },
            None => {
                self.errors.push(
                    AssemblerError::NoSegmentDeclarationFound {
                        instruction: self.current_instruction,
                    },
                );
                proof {
                    assert(errs_view(self.errors) =~= p1_label_full(st0, i@).errors);
                }
                return;
            },
        };
        if self.symbols.has_symbol_bytes(name.as_slice()) {
            let owned = copy_bytes(name);
            self.errors.push(AssemblerError::SymbolAlreadyDeclared { name: owned });
            proof {
                assert(errs_view(self.errors) =~= p1_label_full(st0, i@).errors);
            }
            return;
        }
        let offset: u32 = (self.current_instruction * 4) - (start + 4);
        let owned = copy_bytes(name);
        self.symbols.add_symbol(Symbol::from_bytes(owned, SymbolType::Label, offset));
    }

    /// First-pass section-header handling: a recognised name opens a new
    /// section at the current byte offset; any other name is an error.
    fn process_section_header(&mut self, name: &[u8])
        requires
            4 * old(self)@.current_instruction <= u32::MAX,
        ensures
            ({
                let st0 = p1_view(old(self)@);
                let sec = sp_section_new(name@, (4 * st0.idx) as u32);
                p1_view(final(self)@) == if sec is Unknown {
                    P1State {
                        errors: st0.errors.push(
                            SpecAsmError::UnknownSectionHeader { header: name@ },
                        ),
                        ..st0
                    }
                } else {
                    P1State { sections: st0.sections.push(sec), current_section: Some(sec), ..st0 }
                }
            }),
            p1_frame(final(self)@, old(self)@),
    {
        let new_section = AssemblerSection::from_bytes(name, self.current_instruction * 4);
        match new_section {
            AssemblerSection::Unknown => {
                let mut owned: Vec<u8> = Vec::new();
                owned.extend_from_slice(name);
                proof {
                    assert(owned@ =~= name@);
                }
                self.errors.push(AssemblerError::UnknownSectionHeader { header: owned });
                proof {
                    let st0 = p1_view(old(self)@);
                    assert(errs_view(self.errors) =~= st0.errors.push(
                        SpecAsmError::UnknownSectionHeader { header: name@ },
                    ));
                }
            },
            _ => {
                self.sections.push(new_section);
                self.current_section = Some(new_section);
                proof {
                    let st0 = p1_view(old(self)@);
                    assert(self@.sections =~= st0.sections.push(new_section));
                }
            },
        }
    }

    /// First-pass string-directive handling: rebind the attached label to
    /// the read-only offset counter; records without a label or without a
    /// string constant are skipped. Outside the first pass this does
    /// nothing.
    fn handle_asciiz(&mut self, i: &AssemblerInstruction)
        ensures
            ({
                let st0 = p1_view(old(self)@);
                let first = old(self)@.phase == AssemblerPhase::First;
                p1_view(final(self)@) == if !first {
                    st0
                } else {
                    match i@.operands[0] {
                        Some(SpecToken::IRString { .. }) => match i@.label {
                            Some(lt) => match token_label_name(lt) {
                                Some(lname) => (P1State {
                                    symbols: sym_rebind(st0.symbols, lname, st0.ro_offset),
                                    ..st0
                                }),
                                None => st0,
                            },
                            None => st0,
                        },
                        _ => st0,
                    }
                }
            }),
            p1_frame(final(self)@, old(self)@),
    {
        let is_first = match self.phase {
            AssemblerPhase::First => true,
            _ => false,
        };
        if !is_first {
            return;
        }
        match i.get_string_constant() {
            Some(_) => {
                match i.label_name() {
                    Some(name) => {
                        let ro = self.ro_offset;
                        self.symbols.set_symbol_offset_bytes(name.as_slice(), ro);
                    },
                    None => {},
                }
            },
            None => {},
        }
    }

    /// First-pass directive handling: dispatch on the directive's name.
    fn process_directive(&mut self, i: &AssemblerInstruction)
        requires
            i@.directive is Some,
            4 * old(self)@.current_instruction <= u32::MAX,
        ensures
            p1_view(final(self)@) == p1_process_directive(
                p1_view(old(self)@),
                i@,
                old(self)@.phase == AssemblerPhase::First,
            ),
            p1_frame(final(self)@, old(self)@),
    {
        let ghost st0 = p1_view(self@);
        let has_ops = i.has_operands();
        match i.directive_name() {
            Some(name) => {
                if has_ops {
                    if bytes_eq(name.as_slice(), "asciiz".as_bytes()) {
                        self.handle_asciiz(i);
                    } else {
                        let owned = copy_bytes(name);
                        self.errors.push(
                            AssemblerError::UnknownDirectiveFound { directive: owned },
                        );
                        proof {
                            assert(errs_view(self.errors) =~= st0.errors.push(
                                SpecAsmError::UnknownDirectiveFound {
                                    directive: token_directive_name(i@.directive->Some_0),
                                },
                            ));
                        }
                    }
                } else {
                    let start_name = copy_bytes(name);
                    self.process_section_header(start_name.as_slice());
                }
            },
            None => {
                let empty_name: Vec<u8> = Vec::new();
                proof {
                    assert(empty_name@ =~= token_directive_name(i@.directive->Some_0));
                    reveal_strlit("asciiz");
                    assert(vstd::string::is_ascii("asciiz"));
                    vstd::string::is_ascii_spec_bytes("asciiz");
                    assert("asciiz".spec_bytes().len() == "asciiz"@.len());
                    assert(token_directive_name(i@.directive->Some_0) != "asciiz".spec_bytes());
                }
                if has_ops {
                    self.errors.push(
                        AssemblerError::UnknownDirectiveFound { directive: empty_name },
                    );
                    proof {
                        assert(errs_view(self.errors) =~= st0.errors.push(
                            SpecAsmError::UnknownDirectiveFound {
                                directive: token_directive_name(i@.directive->Some_0),
                            },
                        ));
                    }
                } else {
                    self.process_section_header(empty_name.as_slice());
                }
            },
        }
    }

    /// The first pass: reset the symbol table and the section list, then
    /// discover symbols and sections record by record; ends in the second
    /// phase.
    fn process_first_phase(&mut self)
        requires
            old(self)@.phase == AssemblerPhase::First,
            section_behind(old(self)@.current_section, old(self)@.current_instruction),
            0 <= old(self)@.current_instruction,
            4 * (old(self)@.current_instruction + old(self)@.program.len()) <= u32::MAX,
        ensures
            ({
                let res = p1_run(p1_init(old(self)@), old(self)@.program);
                final(self)@ == (AsmView {
                    phase: AssemblerPhase::Second,
                    symbols: res.symbols,
                    sections: res.sections,
                    current_section: res.current_section,
                    errors: res.errors,
                    current_instruction: res.idx,
                    ..old(self)@
                })
            }),
    {
        self.symbols = SymbolTable::new();
        self.sections = Vec::new();
        proof {
            assert(self@.sections =~= Seq::<AssemblerSection>::empty());
        }
        let mut prog = Program { instructions: Vec::new() };
        core::mem::swap(&mut prog, &mut self.program);
        let ghost recs = old(self)@.program;
        let ghost init = p1_init(old(self)@);
        proof {
            assert(prog@ == recs);
            assert(recs.take(0) =~= Seq::<SpecInstruction>::empty());
            assert(p1_view(self@) == p1_run(init, recs.take(0)));
        }
        let n = prog.instructions.len();
        let mut idx: usize = 0;
        while idx < n
            invariant
                old(self)@.phase == AssemblerPhase::First,
                init == p1_init(old(self)@),
                recs == old(self)@.program,
                n == prog@.len(),
                prog@ == recs,
                idx <= n,
                0 <= init.idx,
                4 * (init.idx + n) <= u32::MAX,
                section_behind(init.current_section, init.idx),
                p1_view(self@) == p1_run(init, recs.take(idx as int)),
                self@.phase == old(self)@.phase,
                self@.ro == old(self)@.ro,
                self@.code == old(self)@.code,
                self@.bytecode == old(self)@.bytecode,
                self@.program.len() == 0,
            decreases n - idx,
        {
            let ghost st_before = p1_run(init, recs.take(idx as int));
            proof {
                lemma_p1_run_frame(init, recs.take(idx as int));
                lemma_p1_run_snoc(init, recs, idx as int);
                assert(recs.take(idx as int).len() == idx);
            }
            let rec = &prog.instructions[idx];
            proof {
                assert(rec@ == recs[idx as int]);
            }
            let ghost st1 = if recs[idx as int].label is Some {
                p1_label_full(st_before, recs[idx as int])
            } else {
                st_before
            };
            if rec.is_label() {
                self.process_label_declaration(rec);
            }
            proof {
                assert(p1_view(self@) == st1);
            }
            let ghost st2 = if recs[idx as int].directive is Some {
                p1_process_directive(st1, recs[idx as int], true)
            } else {
                st1
            };
            if rec.is_directive() {
                proof {
                    assert(self@.phase == AssemblerPhase::First);
                }
                self.process_directive(rec);
            }
            proof {
                assert(p1_view(self@) == st2);
            }
            self.current_instruction = self.current_instruction + 1;
            proof {
                assert(p1_view(self@) == p1_step(st_before, recs[idx as int]));
            }
            idx += 1;
        }
        proof {
            assert(recs.take(n as int) =~= recs);
            lemma_p1_run_frame(init, recs);
        }
        core::mem::swap(&mut prog, &mut self.program);
        self.phase = AssemblerPhase::Second;
    }

    /// The second pass: with exactly two sections declared, encode every
    /// record that carries an opcode; the first encoding error aborts
    /// generation and the old bytecode stands.
    fn process_second_phase(&mut self)
        requires
            0 <= old(self)@.current_instruction,
            old(self)@.current_instruction + old(self)@.program.len() <= u32::MAX,
        ensures
            old(self)@.sections.len() != 2 ==> final(self)@ == (AsmView {
                errors: old(self)@.errors.push(SpecAsmError::InsufficientSections),
                ..old(self)@
            }),
            old(self)@.sections.len() == 2 ==> ({
                let r = p2_run(old(self)@.program, old(self)@.symbols);
                match r.bytes {
                    Ok(bs) => final(self)@ == (AsmView {
                        bytecode: bs,
                        current_instruction: old(self)@.current_instruction + old(
                            self,
                        )@.program.len(),
                        ..old(self)@
                    }),
                    Err(e) => final(self)@ == (AsmView {
                        errors: old(self)@.errors.push(e),
                        current_instruction: old(self)@.current_instruction + r.steps,
                        ..old(self)@
                    }),
                }
            }),
    {
        if self.sections.len() != 2 {
            self.errors.push(AssemblerError::InsufficientSections);
            proof {
                assert(errs_view(self.errors) =~= old(self)@.errors.push(
                    SpecAsmError::InsufficientSections,
                ));
            }
            return;
        }
        let ghost recs = self@.program;
        let ghost syms = self@.symbols;
        let mut generated: Vec<u8> = Vec::new();
        let n = self.program.instructions.len();
        let mut i: usize = 0;
        proof {
            assert(recs.skip(0) =~= recs);
            lemma_p2_steps(recs, syms);
        }
        while i < n
            invariant
                old(self)@.sections.len() == 2,
                recs == old(self)@.program,
                syms == old(self)@.symbols,
                n == self.program@.len(),
                self@.program == recs,
                self@.symbols == syms,
                i <= n,
                old(self)@.current_instruction + n <= u32::MAX,
                self@.current_instruction == old(self)@.current_instruction + i,
                p2_run(recs, syms).bytes matches Ok(_) ==> p2_run(recs.skip(i as int), syms).bytes
                    matches Ok(rest) && p2_run(recs, syms).bytes->Ok_0 == generated@ + rest,
                p2_run(recs, syms).bytes matches Err(_) ==> p2_run(recs.skip(i as int), syms).bytes
                    == p2_run(recs, syms).bytes && p2_run(recs, syms).steps == i + p2_run(
                    recs.skip(i as int),
                    syms,
                ).steps,
                self@.phase == old(self)@.phase,
                self@.ro == old(self)@.ro,
                self@.code == old(self)@.code,
                self@.bytecode == old(self)@.bytecode,
                self@.sections == old(self)@.sections,
                self@.current_section == old(self)@.current_section,
                self@.errors == old(self)@.errors,
                self@.ro_offset == old(self)@.ro_offset,
            decreases n - i,
        {
            proof {
                assert(recs.skip(i as int)[0] == recs[i as int]);
                assert(recs.skip(i as int).skip(1) =~= recs.skip(i + 1));
                lemma_p2_steps(recs.skip(i + 1), syms);
            }
            let rec = &self.program.instructions[i];
            if rec.is_instruction() {
                let ghost gpre = generated@;
                match rec.to_bytes(&self.symbols) {
                    Ok(mut b) => {
                        generated.append(&mut b);
                        proof {
                            if p2_run(recs, syms).bytes matches Ok(w) {
                                let bb = sp_record_bytes(recs[i as int], syms)->Ok_0;
                                let rest = p2_run(recs.skip(i + 1), syms).bytes->Ok_0;
                                assert(gpre + (bb + rest) =~= gpre + bb + rest);
                            }
                        }
                    },
                    Err(e) => {
                        proof {
                            assert(p2_run(recs.skip(i as int), syms).bytes == Err::<
                                Seq<u8>,
                                SpecAsmError,
                            >(e@));
                            assert(p2_run(recs.skip(i as int), syms).steps == 0);
                        }
                        self.errors.push(e);
                        proof {
                            let r = p2_run(recs, syms);
                            assert(r.bytes matches Err(_));
                            assert(r.steps == i);
                            assert(errs_view(self.errors) =~= old(self)@.errors.push(
                                r.bytes->Err_0,
                            ));
                            assert(self@.current_instruction == old(self)@.current_instruction
                                + r.steps);
                        }
                        return;
                    },
                }
            }
            self.current_instruction = self.current_instruction + 1;
            i += 1;
        }
        proof {
            assert(recs.skip(n as int) =~= Seq::<SpecInstruction>::empty());
            if p2_run(recs, syms).bytes matches Ok(w) {
                assert(generated@ + Seq::<u8>::empty() =~= generated@);
            }
        }
        self.bytecode = generated;
    }
}


/// The assembler's own invariant: the running index never moves backward
/// past an open section's start.
pub open spec fn asm_wf(a: AsmView) -> bool {
    0 <= a.current_instruction && section_behind(a.current_section, a.current_instruction)
}

impl Assembler {
    /// Whether one more assembly of `raw` stays within the running
    /// instruction index's 32-bit budget; `assemble` asks its callers for
    /// exactly this.
    pub fn has_room(&self, raw: &str) -> (r: bool)
        ensures
            r == assemble_room(self@, raw.spec_bytes()),
    {
        let bytes = raw.as_bytes();
        let used: u128 = (self.current_instruction as u128) + 2 * ((self.code.len() as u128) + (
        bytes.len() as u128)) + 4;
        used <= 0x3FFF_FFFF
    }

    /// Assemble the accumulated program text plus `raw`: parse, discover
    /// symbols and sections, then generate code. The whole byte buffer is
    /// returned on success; otherwise every error found in the first phase
    /// that reported any, and the bytecode of the last successful assembly
    /// stands. The error list of a previous call is cleared first, so that
    /// one call answers for exactly one program text.
    pub fn assemble(&mut self, raw: &str) -> (r: Result<Vec<u8>, Vec<AssemblerError>>)
        requires
            asm_wf(old(self)@),
            assemble_room(old(self)@, raw.spec_bytes()),
        ensures
            asm_wf(final(self)@),
            assemble_post(
                old(self)@,
                raw.spec_bytes(),
                final(self)@,
                match r {
                    Ok(v) => Ok(v@),
                    Err(es) => Err(errs_view(es)),
                },
            ),
    {
        let ghost a0 = self@;
        self.errors = Vec::new();
        self.phase = AssemblerPhase::Parse;
        let mut rb = raw.as_bytes_vec();
        self.code.append(&mut rb);
        proof {
            assert(errs_view(self.errors) =~= Seq::<SpecAsmError>::empty());
            assert(self@.code == a0.code + raw.spec_bytes());
            lemma_normalize_len(self@.code, 0);
        }
        let ghost merged = self@.code;
        self.process_parse_phase();
        proof {
            if sp_parse_program(normalize(merged)) matches Ok(recs) {
                lemma_program_count(normalize(merged), 0);
            }
        }
        if !self.errors.is_empty() {
            let es = self.duplicate_errors();
            proof {
                assert(errs_view(self.errors) =~= seq![
                    SpecAsmError::ParseError {
                        error: sp_parse_program(normalize(merged))->Err_0,
                    },
                ]);
            }
            return Err(es);
        }
        proof {
            assert(errs_view(self.errors).len() == 0);
            assert(sp_parse_program(normalize(merged)) matches Ok(_));
            let recs = sp_parse_program(normalize(merged))->Ok_0;
            assert(recs.len() <= normalize(merged).len());
            assert(normalize(merged).len() <= merged.len() + 1);
            assert(self@.phase == AssemblerPhase::First);
            assert(self@.program == recs);
            assert(self@.current_instruction == a0.current_instruction);
            assert(4 * (self@.current_instruction + self@.program.len()) <= u32::MAX);
        }
        let ghost pre1 = self@;
        self.process_first_phase();
        proof {
            let recs = sp_parse_program(normalize(merged))->Ok_0;
            let init = p1_init(pre1);
            lemma_p1_run_frame(init, recs);
            assert(self@.current_instruction == a0.current_instruction + recs.len());
            assert(section_behind(self@.current_section, self@.current_instruction));
            lemma_p2_steps(recs, self@.symbols);
        }
        if !self.errors.is_empty() {
            let es = self.duplicate_errors();
            return Err(es);
        }
        self.process_second_phase();
        proof {
            assert(section_behind(self@.current_section, self@.current_instruction));
        }
        if !self.errors.is_empty() {
            let es = self.duplicate_errors();
            proof {
                let recs = sp_parse_program(normalize(merged))->Ok_0;
                let p1 = p1_run(
                    P1State {
                        symbols: Seq::empty(),
                        sections: Seq::empty(),
                        current_section: a0.current_section,
                        errors: Seq::empty(),
                        ro_offset: a0.ro_offset,
                        idx: a0.current_instruction,
                    },
                    recs,
                );
                if p1.sections.len() != 2 {
                    assert(errs_view(es) =~= seq![SpecAsmError::InsufficientSections]);
                } else {
                    assert(errs_view(es) =~= seq![p2_run(recs, p1.symbols).bytes->Err_0]);
                }
            }
            return Err(es);
        }
        proof {
            assert(errs_view(self.errors) =~= Seq::<SpecAsmError>::empty());
        }
        let out = self.get_bytecode();
        Ok(out)
    }
}


/// Exactly what one `assemble` call does: the outcome and the whole state
/// after, as a function of the state before and the appended text.
pub open spec fn assemble_post(
    a0: AsmView,
    raw: Seq<u8>,
    a1: AsmView,
    rr: Result<Seq<u8>, Seq<SpecAsmError>>,
) -> bool {
            &&& asm_wf(a1)
            &&& a1.code == normalize(a0.code + raw)
            &&& a1.ro == a0.ro
            &&& a1.ro_offset == a0.ro_offset
            &&& ({
                let norm = normalize(a0.code + raw);
                match sp_parse_program(norm) {
                    Err(rest) => {
                        &&& rr matches Err(es2) && es2 == seq![
                            SpecAsmError::ParseError { error: rest },
                        ]
                        &&& a1.errors == seq![SpecAsmError::ParseError { error: rest }]
                        &&& a1.phase == AssemblerPhase::Parse
                        &&& a1.program == a0.program
                        &&& a1.symbols == a0.symbols
                        &&& a1.sections == a0.sections
                        &&& a1.current_section == a0.current_section
                        &&& a1.bytecode == a0.bytecode
                        &&& a1.current_instruction == a0.current_instruction
                    },
                    Ok(recs) => {
                        let p1 = p1_run(
                            P1State {
                                symbols: Seq::empty(),
                                sections: Seq::empty(),
                                current_section: a0.current_section,
                                errors: Seq::empty(),
                                ro_offset: a0.ro_offset,
                                idx: a0.current_instruction,
                            },
                            recs,
                        );
                        &&& a1.program == recs
                        &&& a1.symbols == p1.symbols
                        &&& a1.sections == p1.sections
                        &&& a1.current_section == p1.current_section
                        &&& a1.phase == AssemblerPhase::Second
                        &&& if p1.errors.len() > 0 {
                            &&& rr matches Err(es2) && es2 == p1.errors
                            &&& a1.errors == p1.errors
                            &&& a1.bytecode == a0.bytecode
                            &&& a1.current_instruction == p1.idx
                        } else if p1.sections.len() != 2 {
                            &&& rr matches Err(es2) && es2 == seq![
                                SpecAsmError::InsufficientSections,
                            ]
                            &&& a1.errors == seq![SpecAsmError::InsufficientSections]
                            &&& a1.bytecode == a0.bytecode
                            &&& a1.current_instruction == p1.idx
                        } else {
                            let p2 = p2_run(recs, p1.symbols);
                            match p2.bytes {
                                Err(e) => {
                                    &&& rr matches Err(es2) && es2 == seq![e]
                                    &&& a1.errors == seq![e]
                                    &&& a1.bytecode == a0.bytecode
                                    &&& a1.current_instruction == p1.idx + p2.steps
                                },
                                Ok(bs) => {
                                    &&& rr matches Ok(v2) && v2 == bs
                                    &&& a1.bytecode == bs
                                    &&& a1.errors == Seq::<SpecAsmError>::empty()
                                    &&& a1.current_instruction == p1.idx + recs.len()
                                },
                            }
                        }
                    },
                }
            })
}

} // verus!
