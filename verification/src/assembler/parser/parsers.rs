//! The grammar, as byte-level recognisers with a full mathematical mirror:
//! each parser either fails or returns the token it recognised together with
//! the position just past it. A line is an instruction (optional label, an
//! opcode, up to three whitespace-separated operands) or a directive; a
//! program is one or more lines.

use vstd::prelude::*;

verus! {

use vstd::string::StringSliceAdditionalSpecFns;
use crate::assembler::instruction::{AssemblerInstruction, Program, SpecInstruction};
use crate::assembler::parser::token::{SpecToken, Token};
use crate::opcode::{opcode_for_name, OpCode};
use crate::text::{
    is_alpha_byte,
    is_digit_byte,
    is_hex_byte,
    is_space_byte,
    hex_val,
    lower_bytes,
    to_lower,
};

/// The end of the run of bytes satisfying `p`, scanning from `pos`.
pub open spec fn scan_end(s: Seq<u8>, pos: int, p: spec_fn(u8) -> bool) -> int
    decreases s.len() - pos,
    when 0 <= pos <= s.len()
{
    if pos < s.len() && p(s[pos]) {
        scan_end(s, pos + 1, p)
    } else {
        pos
    }
}

/// Bounds and contents of a scanned run.
pub proof fn lemma_scan_end(s: Seq<u8>, pos: int, p: spec_fn(u8) -> bool)
    requires
        0 <= pos <= s.len(),
    ensures
        pos <= scan_end(s, pos, p) <= s.len(),
        forall|j: int| pos <= j < scan_end(s, pos, p) ==> p(s[j]),
        scan_end(s, pos, p) < s.len() ==> !p(s[scan_end(s, pos, p)]),
    decreases s.len() - pos,
{
    if pos < s.len() && p(s[pos]) {
        lemma_scan_end(s, pos + 1, p);
    }
}

/// The end of the alphabetic run at `pos`.
pub open spec fn alpha_end(s: Seq<u8>, pos: int) -> int {
    scan_end(s, pos, |b: u8| is_alpha_byte(b))
}

/// The end of the horizontal-whitespace run at `pos`.
pub open spec fn space_end(s: Seq<u8>, pos: int) -> int {
    scan_end(s, pos, |b: u8| is_space_byte(b))
}

/// The end of the decimal-digit run at `pos`.
pub open spec fn digit_end(s: Seq<u8>, pos: int) -> int {
    scan_end(s, pos, |b: u8| is_digit_byte(b))
}

/// The end of the decimal-digit-or-underscore run at `pos`.
pub open spec fn numrun_end(s: Seq<u8>, pos: int) -> int {
    scan_end(s, pos, |b: u8| is_digit_byte(b) || b == '_' as u8)
}

/// The end of the hex-digit-or-underscore run at `pos`.
pub open spec fn hexrun_end(s: Seq<u8>, pos: int) -> int {
    scan_end(s, pos, |b: u8| is_hex_byte(b) || b == '_' as u8)
}

/// The position of the next single quote at or after `pos`, or the text's
/// end when there is none.
pub open spec fn quote_pos(s: Seq<u8>, pos: int) -> int {
    scan_end(s, pos, |b: u8| b != '\'' as u8)
}

/// The numeric value of a digit run, underscores skipped, in the given base.
pub open spec fn run_value(s: Seq<u8>, from: int, to: int, base: nat) -> nat
    decreases to - from,
    when from <= to
{
    if to <= from {
        0
    } else if s[to - 1] == '_' as u8 {
        run_value(s, from, to - 1, base)
    } else {
        run_value(s, from, to - 1, base) * base + hex_val(s[to - 1])
    }
}

/// A digit run's value only grows as the run extends.
pub proof fn lemma_run_value_mono(s: Seq<u8>, from: int, mid: int, to: int, base: nat)
    requires
        from <= mid <= to,
        base >= 1,
    ensures
        run_value(s, from, to, base) >= run_value(s, from, mid, base),
    decreases to - mid,
{
    if mid < to {
        lemma_run_value_mono(s, from, mid, to - 1, base);
        let prev = run_value(s, from, to - 1, base);
        if s[to - 1] != '_' as u8 {
            assert(prev * base >= prev * 1) by (nonlinear_arith)
                requires
                    base >= 1,
                    prev >= 0,
            ;
        }
    }
}

/// A register token: `$` followed by decimal digits whose value fits a byte.
pub open spec fn sp_register(s: Seq<u8>, pos: int) -> Option<(SpecToken, int)> {
    if pos < s.len() && s[pos] == '$' as u8 {
        let e = digit_end(s, pos + 1);
        if e > pos + 1 {
            let v = run_value(s, pos + 1, e, 10);
            if v <= 255 {
                Some((SpecToken::Register { id: v as u8 }, e))
            } else {
                None
            }
        } else {
            None
        }
    } else {
        None
    }
}

/// An integer operand: an optional leading minus that only sets the sign
/// flag, then either `0x`/`0X` with hex digits or `#` with decimal digits,
/// with underscore separators allowed after the first digit; the magnitude
/// must fit 16 bits.
pub open spec fn sp_integer_operand(s: Seq<u8>, pos: int) -> Option<(SpecToken, int)> {
    let sign = pos < s.len() && s[pos] == '-' as u8;
    let p = if sign {
        pos + 1
    } else {
        pos
    };
    if p + 2 < s.len() && s[p] == '0' as u8 && (s[p + 1] == 'x' as u8 || s[p + 1] == 'X' as u8)
        && is_hex_byte(s[p + 2]) {
        let e = hexrun_end(s, p + 2);
        let v = run_value(s, p + 2, e, 16);
        if v <= 65535 {
            Some((SpecToken::IntegerOperand { value: v as u16, sign_bit: sign }, e))
        } else {
            None
        }
    } else if p + 1 < s.len() && s[p] == '#' as u8 && is_digit_byte(s[p + 1]) {
        let e = numrun_end(s, p + 1);
        let v = run_value(s, p + 1, e, 10);
        if v <= 65535 {
            Some((SpecToken::IntegerOperand { value: v as u16, sign_bit: sign }, e))
        } else {
            None
        }
    } else {
        None
    }
}

/// A label declaration: letters, a colon, optional spaces, an optional line
/// break. The name is kept as written.
pub open spec fn sp_label_declaration(s: Seq<u8>, pos: int) -> Option<(SpecToken, int)> {
    let e = alpha_end(s, pos);
    if e > pos && e < s.len() && s[e] == ':' as u8 {
        let p2 = space_end(s, e + 1);
        let p3 = if p2 < s.len() && s[p2] == '\n' as u8 {
            p2 + 1
        } else {
            p2
        };
        Some((SpecToken::LabelDeclaration { name: s.subrange(pos, e) }, p3))
    } else {
        None
    }
}

/// A label usage: `@` and letters; the name is folded to lower case.
pub open spec fn sp_label_usage(s: Seq<u8>, pos: int) -> Option<(SpecToken, int)> {
    if pos < s.len() && s[pos] == '@' as u8 {
        let e = alpha_end(s, pos + 1);
        if e > pos + 1 {
            Some((SpecToken::LabelUsage { name: lower_bytes(s.subrange(pos + 1, e)) }, e))
        } else {
            None
        }
    } else {
        None
    }
}

/// A string constant: the bytes between two single quotes, unprocessed.
pub open spec fn sp_irstring(s: Seq<u8>, pos: int) -> Option<(SpecToken, int)> {
    if pos < s.len() && s[pos] == '\'' as u8 {
        let e = quote_pos(s, pos + 1);
        if e < s.len() {
            Some((SpecToken::IRString { name: s.subrange(pos + 1, e) }, e + 1))
        } else {
            None
        }
    } else {
        None
    }
}

/// An operand: the first of register, integer, label usage or string to
/// match wins.
pub open spec fn sp_operand(s: Seq<u8>, pos: int) -> Option<(SpecToken, int)> {
    if sp_register(s, pos) is Some {
        sp_register(s, pos)
    } else if sp_integer_operand(s, pos) is Some {
        sp_integer_operand(s, pos)
    } else if sp_label_usage(s, pos) is Some {
        sp_label_usage(s, pos)
    } else {
        sp_irstring(s, pos)
    }
}

/// An opcode: letters looked up case-insensitively; an unknown mnemonic is
/// a parse failure, not an `IGL` token.
pub open spec fn sp_opcode(s: Seq<u8>, pos: int) -> Option<(SpecToken, int)> {
    let e = alpha_end(s, pos);
    if e > pos {
        let op = opcode_for_name(lower_bytes(s.subrange(pos, e)));
        if op is IGL {
            None
        } else {
            Some((SpecToken::Op { code: op }, e))
        }
    } else {
        None
    }
}

/// One optional operand preceded by mandatory whitespace; on failure
/// nothing is consumed.
pub open spec fn sp_opt_sp_operand(s: Seq<u8>, pos: int) -> (Option<SpecToken>, int) {
    if pos < s.len() && is_space_byte(s[pos]) {
        let p = space_end(s, pos);
        match sp_operand(s, p) {
            Some((t, e)) => (Some(t), e),
            None => (None, pos),
        }
    } else {
        (None, pos)
    }
}

/// One optional operand with no separator; on failure nothing is consumed.
pub open spec fn sp_opt_operand(s: Seq<u8>, pos: int) -> (Option<SpecToken>, int) {
    match sp_operand(s, pos) {
        Some((t, e)) => (Some(t), e),
        None => (None, pos),
    }
}

/// An instruction line: optional indentation, an optional label declaration
/// (possibly on its own line), an opcode, up to three operands each after
/// mandatory whitespace, and the terminating line break.
pub open spec fn sp_instruction(s: Seq<u8>, pos: int) -> Option<(SpecInstruction, int)> {
    let p0 = space_end(s, pos);
    let lab = sp_label_declaration(s, p0);
    let label = match lab {
        Some((t, _)) => Some(t),
        None => None,
    };
    let p1 = match lab {
        Some((_, p)) => p,
        None => p0,
    };
    let p2 = space_end(s, p1);
    match sp_opcode(s, p2) {
        None => None,
        Some((opt, p3)) => {
            let (op1, p4) = sp_opt_sp_operand(s, p3);
            let (op2, p5) = sp_opt_sp_operand(s, p4);
            let (op3, p6) = sp_opt_sp_operand(s, p5);
            if p6 < s.len() && s[p6] == '\n' as u8 {
                Some(
                    (
                        SpecInstruction {
                            opcode: Some(opt),
                            operands: seq![op1, op2, op3],
                            label,
                            directive: None,
                        },
                        p6 + 1,
                    ),
                )
            } else {
                None
            }
        },
    }
}

/// A directive line: optional indentation, a dot, a name folded to lower
/// case, up to three operands attached with no separator, optional spaces,
/// and the terminating line break.
pub open spec fn sp_directive(s: Seq<u8>, pos: int) -> Option<(SpecInstruction, int)> {
    let p0 = space_end(s, pos);
    if p0 < s.len() && s[p0] == '.' as u8 {
        let e = alpha_end(s, p0 + 1);
        if e > p0 + 1 {
            let name = lower_bytes(s.subrange(p0 + 1, e));
            let (op1, p3) = sp_opt_operand(s, e);
            let (op2, p4) = sp_opt_operand(s, p3);
            let (op3, p5) = sp_opt_operand(s, p4);
            let p6 = space_end(s, p5);
            if p6 < s.len() && s[p6] == '\n' as u8 {
                Some(
                    (
                        SpecInstruction {
                            opcode: None,
                            operands: seq![op1, op2, op3],
                            label: None,
                            directive: Some(SpecToken::Directive { name }),
                        },
                        p6 + 1,
                    ),
                )
            } else {
                None
            }
        } else {
            None
        }
    } else {
        None
    }
}

/// One source line: an instruction, or failing that a directive.
pub open spec fn sp_line(s: Seq<u8>, pos: int) -> Option<(SpecInstruction, int)> {
    if sp_instruction(s, pos) is Some {
        sp_instruction(s, pos)
    } else {
        sp_directive(s, pos)
    }
}

/// As many lines as parse, collected from `pos`; stops at the first
/// position where no line parses.
pub open spec fn sp_program_rest(s: Seq<u8>, pos: int) -> (Seq<SpecInstruction>, int)
    decreases s.len() - pos,
    when 0 <= pos <= s.len()
{
    match sp_line(s, pos) {
        None => (Seq::empty(), pos),
        Some((rec, p2)) => {
            if pos < p2 <= s.len() {
                let (rest, e) = sp_program_rest(s, p2);
                (seq![rec] + rest, e)
            } else {
                (seq![rec], p2)
            }
        },
    }
}

/// A program: one or more lines; fails only when not even one line parses.
pub open spec fn sp_program(s: Seq<u8>, pos: int) -> Option<(Seq<SpecInstruction>, int)> {
    if sp_line(s, pos) is None {
        None
    } else {
        Some(sp_program_rest(s, pos))
    }
}

/// The whole-text parse: every byte must be consumed; otherwise the
/// offending remainder is the error.
pub open spec fn sp_parse_program(b: Seq<u8>) -> Result<Seq<SpecInstruction>, Seq<u8>> {
    match sp_program(b, 0) {
        None => Err(b),
        Some((recs, e)) => {
            if e == b.len() {
                Ok(recs)
            } else {
                Err(b.subrange(e, b.len() as int))
            }
        },
    }
}

/// A successful operand parse consumes at least one byte and stays in
/// bounds.
pub proof fn lemma_operand_bounds(s: Seq<u8>, pos: int)
    requires
        0 <= pos <= s.len(),
    ensures
        sp_operand(s, pos) matches Some((_, e)) ==> pos < e <= s.len(),
        sp_opt_operand(s, pos).1 >= pos,
        sp_opt_operand(s, pos).1 <= s.len(),
        sp_opt_sp_operand(s, pos).1 >= pos,
        sp_opt_sp_operand(s, pos).1 <= s.len(),
{
    lemma_scan_end(s, pos, |b: u8| is_space_byte(b));
    if pos < s.len() {
        lemma_scan_end(s, pos + 1, |b: u8| is_digit_byte(b));
        lemma_scan_end(s, pos + 1, |b: u8| is_alpha_byte(b));
        lemma_scan_end(s, pos + 1, |b: u8| b != '\'' as u8);
        if pos + 1 <= s.len() {
            lemma_scan_end(s, pos + 1, |b: u8| is_digit_byte(b) || b == '_' as u8);
        }
        if pos + 2 <= s.len() {
            lemma_scan_end(s, pos + 2, |b: u8| is_digit_byte(b) || b == '_' as u8);
            lemma_scan_end(s, pos + 2, |b: u8| is_hex_byte(b) || b == '_' as u8);
        }
        if pos + 3 <= s.len() {
            lemma_scan_end(s, pos + 3, |b: u8| is_hex_byte(b) || b == '_' as u8);
        }
    }
    let p = space_end(s, pos);
    if p < s.len() {
        lemma_operand_tail_bounds(s, p);
    }
    if sp_operand(s, pos) is Some {
        lemma_operand_tail_bounds(s, pos);
    }
}

/// Helper: bounds for a plain operand at an in-range position.
proof fn lemma_operand_tail_bounds(s: Seq<u8>, pos: int)
    requires
        0 <= pos <= s.len(),
    ensures
        sp_operand(s, pos) matches Some((_, e)) ==> pos < e <= s.len(),
{
    if pos < s.len() {
        lemma_scan_end(s, pos + 1, |b: u8| is_digit_byte(b));
        lemma_scan_end(s, pos + 1, |b: u8| is_alpha_byte(b));
        lemma_scan_end(s, pos + 1, |b: u8| b != '\'' as u8);
        if pos + 1 < s.len() {
            lemma_scan_end(s, pos + 2, |b: u8| is_digit_byte(b) || b == '_' as u8);
            lemma_scan_end(s, pos + 2, |b: u8| is_hex_byte(b) || b == '_' as u8);
        }
        if pos + 2 < s.len() {
            lemma_scan_end(s, pos + 3, |b: u8| is_hex_byte(b) || b == '_' as u8);
        }
    }
}

/// A successful line parse consumes at least one byte and stays in bounds.
pub proof fn lemma_line_advances(s: Seq<u8>, pos: int)
    requires
        0 <= pos <= s.len(),
    ensures
        sp_line(s, pos) matches Some((_, e)) ==> pos < e <= s.len(),
{
    lemma_scan_end(s, pos, |b: u8| is_space_byte(b));
    let p0 = space_end(s, pos);
    lemma_scan_end(s, p0, |b: u8| is_alpha_byte(b));
    let lab = sp_label_declaration(s, p0);
    let ae = alpha_end(s, p0);
    if ae > p0 && ae < s.len() && s[ae] == ':' as u8 {
        lemma_scan_end(s, ae + 1, |b: u8| is_space_byte(b));
    }
    let p1 = match lab {
        Some((_, p)) => p,
        None => p0,
    };
    lemma_scan_end(s, p1, |b: u8| is_space_byte(b));
    let p2 = space_end(s, p1);
    lemma_scan_end(s, p2, |b: u8| is_alpha_byte(b));
    match sp_opcode(s, p2) {
        Some((_, p3)) => {
            lemma_operand_bounds(s, p3);
            let (_, p4) = sp_opt_sp_operand(s, p3);
            lemma_operand_bounds(s, p4);
            let (_, p5) = sp_opt_sp_operand(s, p4);
            lemma_operand_bounds(s, p5);
        },
        None => {},
    }
    if p0 < s.len() && s[p0] == '.' as u8 {
        lemma_scan_end(s, p0 + 1, |b: u8| is_alpha_byte(b));
        let e = alpha_end(s, p0 + 1);
        if e > p0 + 1 {
            lemma_operand_bounds(s, e);
            let (_, p3) = sp_opt_operand(s, e);
            lemma_operand_bounds(s, p3);
            let (_, p4) = sp_opt_operand(s, p3);
            lemma_operand_bounds(s, p4);
            let (_, p5) = sp_opt_operand(s, p4);
            lemma_scan_end(s, p5, |b: u8| is_space_byte(b));
        }
    }
}

/// A fresh vector holding the bytes of `s` between `from` and `to`.
pub fn bytes_range(s: &[u8], from: usize, to: usize) -> (r: Vec<u8>)
    requires
        from <= to <= s@.len(),
    ensures
        r@ == s@.subrange(from as int, to as int),
{
    let mut out: Vec<u8> = Vec::new();
    let mut i = from;
    while i < to
        invariant
            from <= i <= to <= s@.len(),
            out@ == s@.subrange(from as int, i as int),
        decreases to - i,
    {
        out.push(s[i]);
        proof {
            assert(out@ =~= s@.subrange(from as int, i + 1));
        }
        i += 1;
    }
    out
}

/// Scan the alphabetic run starting at `pos`.
fn scan_alpha(s: &[u8], pos: usize) -> (r: usize)
    requires
        pos <= s@.len(),
    ensures
        r == alpha_end(s@, pos as int),
        pos <= r <= s@.len(),
{
    proof {
        lemma_scan_end(s@, pos as int, |b: u8| is_alpha_byte(b));
    }
    let n = s.len();
    let mut i = pos;
    while i < n && (('A' as u8 <= s[i] && s[i] <= 'Z' as u8) || ('a' as u8 <= s[i] && s[i]
        <= 'z' as u8))
        invariant
            pos <= i <= n == s@.len(),
            alpha_end(s@, pos as int) == alpha_end(s@, i as int),
        decreases n - i,
    {
        i += 1;
    }
    i
}

/// Scan the horizontal-whitespace run starting at `pos`.
fn scan_space(s: &[u8], pos: usize) -> (r: usize)
    requires
        pos <= s@.len(),
    ensures
        r == space_end(s@, pos as int),
        pos <= r <= s@.len(),
{
    proof {
        lemma_scan_end(s@, pos as int, |b: u8| is_space_byte(b));
    }
    let n = s.len();
    let mut i = pos;
    while i < n && (s[i] == ' ' as u8 || s[i] == '\t' as u8)
        invariant
            pos <= i <= n == s@.len(),
            space_end(s@, pos as int) == space_end(s@, i as int),
        decreases n - i,
    {
        i += 1;
    }
    i
}

/// Scan the decimal-digit run starting at `pos`.
fn scan_digits(s: &[u8], pos: usize) -> (r: usize)
    requires
        pos <= s@.len(),
    ensures
        r == digit_end(s@, pos as int),
        pos <= r <= s@.len(),
{
    proof {
        lemma_scan_end(s@, pos as int, |b: u8| is_digit_byte(b));
    }
    let n = s.len();
    let mut i = pos;
    while i < n && ('0' as u8 <= s[i] && s[i] <= '9' as u8)
        invariant
            pos <= i <= n == s@.len(),
            digit_end(s@, pos as int) == digit_end(s@, i as int),
        decreases n - i,
    {
        i += 1;
    }
    i
}

/// Scan the decimal-digit-or-underscore run starting at `pos`.
fn scan_numrun(s: &[u8], pos: usize) -> (r: usize)
    requires
        pos <= s@.len(),
    ensures
        r == numrun_end(s@, pos as int),
        pos <= r <= s@.len(),
{
    proof {
        lemma_scan_end(s@, pos as int, |b: u8| is_digit_byte(b) || b == '_' as u8);
    }
    let n = s.len();
    let mut i = pos;
    while i < n && (('0' as u8 <= s[i] && s[i] <= '9' as u8) || s[i] == '_' as u8)
        invariant
            pos <= i <= n == s@.len(),
            numrun_end(s@, pos as int) == numrun_end(s@, i as int),
        decreases n - i,
    {
        i += 1;
    }
    i
}

/// Scan the hex-digit-or-underscore run starting at `pos`.
fn scan_hexrun(s: &[u8], pos: usize) -> (r: usize)
    requires
        pos <= s@.len(),
    ensures
        r == hexrun_end(s@, pos as int),
        pos <= r <= s@.len(),
{
    proof {
        lemma_scan_end(s@, pos as int, |b: u8| is_hex_byte(b) || b == '_' as u8);
    }
    let n = s.len();
    let mut i = pos;
    while i < n && (('0' as u8 <= s[i] && s[i] <= '9' as u8) || ('a' as u8 <= s[i] && s[i]
        <= 'f' as u8) || ('A' as u8 <= s[i] && s[i] <= 'F' as u8) || s[i] == '_' as u8)
        invariant
            pos <= i <= n == s@.len(),
            hexrun_end(s@, pos as int) == hexrun_end(s@, i as int),
        decreases n - i,
    {
        i += 1;
    }
    i
}

/// Scan up to the next single quote starting at `pos`.
fn scan_to_quote(s: &[u8], pos: usize) -> (r: usize)
    requires
        pos <= s@.len(),
    ensures
        r == quote_pos(s@, pos as int),
        pos <= r <= s@.len(),
{
    proof {
        lemma_scan_end(s@, pos as int, |b: u8| b != '\'' as u8);
    }
    let n = s.len();
    let mut i = pos;
    while i < n && s[i] != '\'' as u8
        invariant
            pos <= i <= n == s@.len(),
            quote_pos(s@, pos as int) == quote_pos(s@, i as int),
        decreases n - i,
    {
        i += 1;
    }
    i
}

/// The value of a digit run, capped: answers the exact value when it is at
/// most `cap`, and `None` when it exceeds the cap.
fn run_value_capped(s: &[u8], from: usize, to: usize, base: u32, cap: u32) -> (r: Option<u32>)
    requires
        from <= to <= s@.len(),
        base == 10 || base == 16,
        cap <= 65535,
        forall|j: int| from <= j < to ==> is_hex_byte(s@[j]) || s@[j] == '_' as u8,
    ensures
        match r {
            Some(v) => v == run_value(s@, from as int, to as int, base as nat) && v <= cap,
            None => run_value(s@, from as int, to as int, base as nat) > cap,
        },
{
    let mut acc: u32 = 0;
    let mut i = from;
    while i < to
        invariant
            from <= i <= to <= s@.len(),
            base == 10 || base == 16,
            cap <= 65535,
            acc == run_value(s@, from as int, i as int, base as nat),
            acc <= cap,
            forall|j: int| from <= j < to ==> is_hex_byte(s@[j]) || s@[j] == '_' as u8,
        decreases to - i,
    {
        let b = s[i];
        if b != '_' as u8 {
            let d: u32 = if '0' as u8 <= b && b <= '9' as u8 {
                (b - '0' as u8) as u32
            } else if 'a' as u8 <= b && b <= 'f' as u8 {
                (b - 'a' as u8) as u32 + 10
            } else {
                (b - 'A' as u8) as u32 + 10
            };
            proof {
                assert(acc * base <= 65535 * 16) by (nonlinear_arith)
                    requires
                        acc <= 65535,
                        0 <= base <= 16,
                ;
            }
            let next: u32 = acc * base + d;
            if next > cap {
                proof {
                    lemma_run_value_mono(s@, from as int, i + 1, to as int, base as nat);
                }
                return None;
            }
            acc = next;
        }
        i += 1;
    }
    Some(acc)
}

/// Recognise a register token at `pos`.
fn p_register(s: &[u8], pos: usize) -> (r: Option<(Token, usize)>)
    requires
        pos <= s@.len(),
    ensures
        match r {
            Some((t, e)) => sp_register(s@, pos as int) matches Some((st, se)) && t@ == st && e
                == se,
            None => sp_register(s@, pos as int) is None,
        },
        r matches Some((t, e)) ==> pos <= e <= s@.len(),
{
    if pos < s.len() && s[pos] == '$' as u8 {
        let e = scan_digits(s, pos + 1);
        if e > pos + 1 {
            proof {
                lemma_scan_end(s@, pos + 1, |b: u8| is_digit_byte(b));
            }
            match run_value_capped(s, pos + 1, e, 10, 255) {
                Some(v) => Some((Token::Register { id: v as u8 }, e)),
                None => None,
            }
        } else {
            None
        }
    } else {
        None
    }
}

/// Recognise an integer operand at `pos`.
fn p_integer_operand(s: &[u8], pos: usize) -> (r: Option<(Token, usize)>)
    requires
        pos <= s@.len(),
    ensures
        match r {
            Some((t, e)) => sp_integer_operand(s@, pos as int) matches Some((st, se)) && t@ == st
                && e == se,
            None => sp_integer_operand(s@, pos as int) is None,
        },
        r matches Some((t, e)) ==> pos <= e <= s@.len(),
{
    let sign = pos < s.len() && s[pos] == '-' as u8;
    let p = if sign {
        pos + 1
    } else {
        pos
    };
    let n = s.len();
    if n >= 3 && p <= n - 3 && s[p] == '0' as u8 && (s[p + 1] == 'x' as u8 || s[p + 1]
        == 'X' as u8) && (('0' as u8 <= s[p + 2] && s[p + 2] <= '9' as u8) || ('a' as u8 <= s[p + 2]
        && s[p + 2] <= 'f' as u8) || ('A' as u8 <= s[p + 2] && s[p + 2] <= 'F' as u8)) {
        let e = scan_hexrun(s, p + 2);
        proof {
            lemma_scan_end(s@, p + 2, |b: u8| is_hex_byte(b) || b == '_' as u8);
        }
        match run_value_capped(s, p + 2, e, 16, 65535) {
            Some(v) => Some((Token::IntegerOperand { value: v as u16, sign_bit: sign }, e)),
            None => None,
        }
    } else if n >= 2 && p <= n - 2 && s[p] == '#' as u8 && ('0' as u8 <= s[p + 1] && s[p + 1]
        <= '9' as u8) {
        let e = scan_numrun(s, p + 1);
        proof {
            lemma_scan_end(s@, p + 1, |b: u8| is_digit_byte(b) || b == '_' as u8);
        }
        match run_value_capped(s, p + 1, e, 10, 65535) {
            Some(v) => Some((Token::IntegerOperand { value: v as u16, sign_bit: sign }, e)),
            None => None,
        }
    } else {
        None
    }
}

/// Recognise a label declaration at `pos`.
fn p_label_declaration(s: &[u8], pos: usize) -> (r: Option<(Token, usize)>)
    requires
        pos <= s@.len(),
    ensures
        match r {
            Some((t, e)) => sp_label_declaration(s@, pos as int) matches Some((st, se)) && t@ == st
                && e == se,
            None => sp_label_declaration(s@, pos as int) is None,
        },
        r matches Some((t, e)) ==> pos <= e <= s@.len(),
{
    let e = scan_alpha(s, pos);
    if e > pos && e < s.len() && s[e] == ':' as u8 {
        let p2 = scan_space(s, e + 1);
        let p3 = if p2 < s.len() && s[p2] == '\n' as u8 {
            p2 + 1
        } else {
            p2
        };
        let name = bytes_range(s, pos, e);
        Some((Token::LabelDeclaration { name }, p3))
    } else {
        None
    }
}

/// Recognise a label usage at `pos`.
fn p_label_usage(s: &[u8], pos: usize) -> (r: Option<(Token, usize)>)
    requires
        pos <= s@.len(),
    ensures
        match r {
            Some((t, e)) => sp_label_usage(s@, pos as int) matches Some((st, se)) && t@ == st && e
                == se,
            None => sp_label_usage(s@, pos as int) is None,
        },
        r matches Some((t, e)) ==> pos <= e <= s@.len(),
{
    if pos < s.len() && s[pos] == '@' as u8 {
        let e = scan_alpha(s, pos + 1);
        if e > pos + 1 {
            let raw = bytes_range(s, pos + 1, e);
            let name = to_lower(raw.as_slice());
            Some((Token::LabelUsage { name }, e))
        } else {
            None
        }
    } else {
        None
    }
}

/// Recognise a string constant at `pos`.
fn p_irstring(s: &[u8], pos: usize) -> (r: Option<(Token, usize)>)
    requires
        pos <= s@.len(),
    ensures
        match r {
            Some((t, e)) => sp_irstring(s@, pos as int) matches Some((st, se)) && t@ == st && e
                == se,
            None => sp_irstring(s@, pos as int) is None,
        },
        r matches Some((t, e)) ==> pos <= e <= s@.len(),
{
    if pos < s.len() && s[pos] == '\'' as u8 {
        let e = scan_to_quote(s, pos + 1);
        if e < s.len() {
            let name = bytes_range(s, pos + 1, e);
            Some((Token::IRString { name }, e + 1))
        } else {
            None
        }
    } else {
        None
    }
}

/// Recognise any operand at `pos`.
fn p_operand(s: &[u8], pos: usize) -> (r: Option<(Token, usize)>)
    requires
        pos <= s@.len(),
    ensures
        match r {
            Some((t, e)) => sp_operand(s@, pos as int) matches Some((st, se)) && t@ == st && e
                == se,
            None => sp_operand(s@, pos as int) is None,
        },
        r matches Some((t, e)) ==> pos <= e <= s@.len(),
{
    match p_register(s, pos) {
        Some(r) => Some(r),
        None => match p_integer_operand(s, pos) {
            Some(r) => Some(r),
            None => match p_label_usage(s, pos) {
                Some(r) => Some(r),
                None => p_irstring(s, pos),
            },
        },
    }
}

/// Recognise an opcode at `pos`.
fn p_opcode(s: &[u8], pos: usize) -> (r: Option<(Token, usize)>)
    requires
        pos <= s@.len(),
    ensures
        match r {
            Some((t, e)) => sp_opcode(s@, pos as int) matches Some((st, se)) && t@ == st && e
                == se,
            None => sp_opcode(s@, pos as int) is None,
        },
        r matches Some((t, e)) ==> pos <= e <= s@.len(),
{
    let e = scan_alpha(s, pos);
    if e > pos {
        let raw = bytes_range(s, pos, e);
        let code = OpCode::from_name_bytes(raw.as_slice());
        match code {
            OpCode::IGL => None,
            _ => Some((Token::Op { code }, e)),
        }
    } else {
        None
    }
}

/// One optional operand preceded by mandatory whitespace.
fn p_opt_sp_operand(s: &[u8], pos: usize) -> (r: (Option<Token>, usize))
    requires
        pos <= s@.len(),
    ensures
        ({
            let (st, se) = sp_opt_sp_operand(s@, pos as int);
            opt_view_eq(r.0, st) && r.1 == se && r.1 <= s@.len()
        }),
{
    proof {
        lemma_operand_bounds(s@, pos as int);
    }
    if pos < s.len() && (s[pos] == ' ' as u8 || s[pos] == '\t' as u8) {
        let p = scan_space(s, pos);
        match p_operand(s, p) {
            Some((t, e)) => (Some(t), e),
            None => (None, pos),
        }
    } else {
        (None, pos)
    }
}

/// One optional operand with no separator.
fn p_opt_operand(s: &[u8], pos: usize) -> (r: (Option<Token>, usize))
    requires
        pos <= s@.len(),
    ensures
        ({
            let (st, se) = sp_opt_operand(s@, pos as int);
            opt_view_eq(r.0, st) && r.1 == se && r.1 <= s@.len()
        }),
{
    proof {
        lemma_operand_bounds(s@, pos as int);
    }
    match p_operand(s, pos) {
        Some((t, e)) => (Some(t), e),
        None => (None, pos),
    }
}

/// An optional exec token matches an optional spec token.
pub open spec fn opt_view_eq(o: Option<Token>, st: Option<SpecToken>) -> bool {
    match o {
        Some(t) => st matches Some(s) && t@ == s,
        None => st is None,
    }
}

/// Recognise an instruction line at `pos`.
#[verifier::rlimit(60)]
fn p_instruction(s: &[u8], pos: usize) -> (r: Option<(AssemblerInstruction, usize)>)
    requires
        pos <= s@.len(),
    ensures
        match r {
            Some((rec, e)) => sp_instruction(s@, pos as int) matches Some((sr, se)) && rec@ == sr
                && e == se,
            None => sp_instruction(s@, pos as int) is None,
        },
{
    let p0 = scan_space(s, pos);
    let lab = p_label_declaration(s, p0);
    let (label, p1) = match lab {
        Some((t, p)) => (Some(t), p),
        None => (None, p0),
    };
    proof {
        if sp_label_declaration(s@, p0 as int) matches Some((st, se)) {
            lemma_scan_end(s@, p0 as int, |b: u8| is_alpha_byte(b));
            let ae = alpha_end(s@, p0 as int);
            lemma_scan_end(s@, ae + 1, |b: u8| is_space_byte(b));
        }
    }
    let p2 = scan_space(s, p1);
    match p_opcode(s, p2) {
        None => None,
        Some((opt, p3)) => {
            let (op1, p4) = p_opt_sp_operand(s, p3);
            let (op2, p5) = p_opt_sp_operand(s, p4);
            let (op3, p6) = p_opt_sp_operand(s, p5);
            if p6 < s.len() && s[p6] == '\n' as u8 {
                let rec = AssemblerInstruction::new(Some(opt), [op1, op2, op3], label, None);
                proof {
                    let (sr, se) = sp_instruction(s@, pos as int)->Some_0;
                    assert(rec@.operands =~= sr.operands);
                }
                Some((rec, p6 + 1))
            } else {
                None
            }
        },
    }
}

/// Recognise a directive line at `pos`.
fn p_directive(s: &[u8], pos: usize) -> (r: Option<(AssemblerInstruction, usize)>)
    requires
        pos <= s@.len(),
    ensures
        match r {
            Some((rec, e)) => sp_directive(s@, pos as int) matches Some((sr, se)) && rec@ == sr && e
                == se,
            None => sp_directive(s@, pos as int) is None,
        },
{
    let p0 = scan_space(s, pos);
    if p0 < s.len() && s[p0] == '.' as u8 {
        let e = scan_alpha(s, p0 + 1);
        if e > p0 + 1 {
            let raw = bytes_range(s, p0 + 1, e);
            let name = to_lower(raw.as_slice());
            let (op1, p3) = p_opt_operand(s, e);
            let (op2, p4) = p_opt_operand(s, p3);
            let (op3, p5) = p_opt_operand(s, p4);
            let p6 = scan_space(s, p5);
            if p6 < s.len() && s[p6] == '\n' as u8 {
                let rec = AssemblerInstruction::new(
                    None,
                    [op1, op2, op3],
                    None,
                    Some(Token::Directive { name }),
                );
                proof {
                    let (sr, se) = sp_directive(s@, pos as int)->Some_0;
                    assert(rec@.operands =~= sr.operands);
                }
                Some((rec, p6 + 1))
            } else {
                None
            }
        } else {
            None
        }
    } else {
        None
    }
}

/// Recognise one line at `pos`.
fn p_line(s: &[u8], pos: usize) -> (r: Option<(AssemblerInstruction, usize)>)
    requires
        pos <= s@.len(),
    ensures
        match r {
            Some((rec, e)) => sp_line(s@, pos as int) matches Some((sr, se)) && rec@ == sr && e
                == se,
            None => sp_line(s@, pos as int) is None,
        },
{
    match p_instruction(s, pos) {
        Some(r) => Some(r),
        None => p_directive(s, pos),
    }
}

/// Recognise a whole program from `pos`: one or more lines.
fn p_program(s: &[u8], pos: usize) -> (r: Option<(Program, usize)>)
    requires
        pos <= s@.len(),
    ensures
        match r {
            Some((p, e)) => sp_program(s@, pos as int) matches Some((recs, se)) && p@ == recs && e
                == se && e <= s@.len(),
            None => sp_program(s@, pos as int) is None,
        },
{
    let first = p_line(s, pos);
    match first {
        None => None,
        Some((rec0, e0)) => {
            proof {
                lemma_line_advances(s@, pos as int);
            }
            let mut recs: Vec<AssemblerInstruction> = Vec::new();
            recs.push(rec0);
            let mut cur = e0;
            proof {
                assert(Seq::new(recs@.len(), |i: int| recs@[i]@) =~= seq![rec0@]);
            }
            loop
                invariant
                    pos <= cur <= s@.len(),
                    pos < cur,
                    sp_program_rest(s@, pos as int).0 =~= Seq::new(
                        recs@.len(),
                        |i: int| recs@[i]@,
                    ) + sp_program_rest(s@, cur as int).0,
                    sp_program_rest(s@, pos as int).1 == sp_program_rest(s@, cur as int).1,
                decreases s@.len() - cur,
            {
                match p_line(s, cur) {
                    None => {
                        let prog = Program { instructions: recs };
                        proof {
                            assert(sp_program_rest(s@, pos as int).0 =~= prog@);
                        }
                        return Some((prog, cur));
                    },
                    Some((rec, e)) => {
                        proof {
                            lemma_line_advances(s@, cur as int);
                        }
                        let ghost old_recs = recs@;
                        recs.push(rec);
                        proof {
                            assert(Seq::new(recs@.len(), |i: int| recs@[i]@) =~= Seq::new(
                                old_recs.len(),
                                |i: int| old_recs[i]@,
                            ).push(rec@));
                            assert(sp_program_rest(s@, cur as int).0 == seq![rec@]
                                + sp_program_rest(s@, e as int).0);
                            assert(Seq::new(old_recs.len(), |i: int| old_recs[i]@) + (seq![rec@]
                                + sp_program_rest(s@, e as int).0) =~= Seq::new(
                                old_recs.len(),
                                |i: int| old_recs[i]@,
                            ).push(rec@) + sp_program_rest(s@, e as int).0);
                        }
                        cur = e;
                    },
                }
            }
        },
    }
}

/// Recognise a whole program over raw bytes; for callers that hold the
/// text as bytes already.
pub fn program_bytes(s: &[u8]) -> (r: Option<(Program, usize)>)
    ensures
        match r {
            Some((p, e)) => sp_program(s@, 0) matches Some((recs, se)) && p@ == recs && e == se
                && e <= s@.len(),
            None => sp_program(s@, 0) is None,
        },
{
    p_program(s, 0)
}

/// Recognise a register token at the start of the text.
pub fn register(s: &str) -> (r: Option<(Token, usize)>)
    ensures
        match r {
            Some((t, e)) => sp_register(s.spec_bytes(), 0) matches Some((st, se)) && t@ == st && e
                == se,
            None => sp_register(s.spec_bytes(), 0) is None,
        },
{
    p_register(s.as_bytes(), 0)
}

/// Recognise an integer operand at the start of the text.
pub fn integer_operand(s: &str) -> (r: Option<(Token, usize)>)
    ensures
        match r {
            Some((t, e)) => sp_integer_operand(s.spec_bytes(), 0) matches Some((st, se)) && t@ == st
                && e == se,
            None => sp_integer_operand(s.spec_bytes(), 0) is None,
        },
{
    p_integer_operand(s.as_bytes(), 0)
}

/// Recognise a label declaration at the start of the text.
pub fn label_declaration(s: &str) -> (r: Option<(Token, usize)>)
    ensures
        match r {
            Some((t, e)) => sp_label_declaration(s.spec_bytes(), 0) matches Some((st, se)) && t@
                == st && e == se,
            None => sp_label_declaration(s.spec_bytes(), 0) is None,
        },
{
    p_label_declaration(s.as_bytes(), 0)
}

/// Recognise a label usage at the start of the text.
pub fn label_usage(s: &str) -> (r: Option<(Token, usize)>)
    ensures
        match r {
            Some((t, e)) => sp_label_usage(s.spec_bytes(), 0) matches Some((st, se)) && t@ == st
                && e == se,
            None => sp_label_usage(s.spec_bytes(), 0) is None,
        },
{
    p_label_usage(s.as_bytes(), 0)
}

/// Recognise a string constant at the start of the text.
pub fn irstring(s: &str) -> (r: Option<(Token, usize)>)
    ensures
        match r {
            Some((t, e)) => sp_irstring(s.spec_bytes(), 0) matches Some((st, se)) && t@ == st && e
                == se,
            None => sp_irstring(s.spec_bytes(), 0) is None,
        },
{
    p_irstring(s.as_bytes(), 0)
}

/// Recognise any operand at the start of the text.
pub fn operand(s: &str) -> (r: Option<(Token, usize)>)
    ensures
        match r {
            Some((t, e)) => sp_operand(s.spec_bytes(), 0) matches Some((st, se)) && t@ == st && e
                == se,
            None => sp_operand(s.spec_bytes(), 0) is None,
        },
{
    p_operand(s.as_bytes(), 0)
}

/// Recognise an opcode at the start of the text.
pub fn opcode(s: &str) -> (r: Option<(Token, usize)>)
    ensures
        match r {
            Some((t, e)) => sp_opcode(s.spec_bytes(), 0) matches Some((st, se)) && t@ == st && e
                == se,
            None => sp_opcode(s.spec_bytes(), 0) is None,
        },
{
    p_opcode(s.as_bytes(), 0)
}

/// Recognise an instruction line at the start of the text.
pub fn instruction(s: &str) -> (r: Option<(AssemblerInstruction, usize)>)
    ensures
        match r {
            Some((rec, e)) => sp_instruction(s.spec_bytes(), 0) matches Some((sr, se)) && rec@ == sr
                && e == se,
            None => sp_instruction(s.spec_bytes(), 0) is None,
        },
{
    p_instruction(s.as_bytes(), 0)
}

/// Recognise a directive line at the start of the text.
pub fn directive(s: &str) -> (r: Option<(AssemblerInstruction, usize)>)
    ensures
        match r {
            Some((rec, e)) => sp_directive(s.spec_bytes(), 0) matches Some((sr, se)) && rec@ == sr
                && e == se,
            None => sp_directive(s.spec_bytes(), 0) is None,
        },
{
    p_directive(s.as_bytes(), 0)
}

/// Recognise a whole program at the start of the text; returns the records
/// and the position just past the last parsed line.
pub fn program(s: &str) -> (r: Option<(Program, usize)>)
    ensures
        match r {
            Some((p, e)) => sp_program(s.spec_bytes(), 0) matches Some((recs, se)) && p@ == recs
                && e == se && e <= s.spec_bytes().len(),
            None => sp_program(s.spec_bytes(), 0) is None,
        },
{
    p_program(s.as_bytes(), 0)
}

} // verus!
