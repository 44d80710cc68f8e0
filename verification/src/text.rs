//! Byte-level text helpers shared by the lexer, the opcode table and the
//! assembler: character classes, ASCII case folding and slice comparison.

use vstd::prelude::*;

verus! {

/// An ASCII letter, as recognised by the grammar's alphabetic tokens.
pub open spec fn is_alpha_byte(b: u8) -> bool {
    ('A' as u8 <= b && b <= 'Z' as u8) || ('a' as u8 <= b && b <= 'z' as u8)
}

/// An ASCII decimal digit.
pub open spec fn is_digit_byte(b: u8) -> bool {
    '0' as u8 <= b && b <= '9' as u8
}

/// An ASCII hexadecimal digit, either case.
pub open spec fn is_hex_byte(b: u8) -> bool {
    is_digit_byte(b) || ('a' as u8 <= b && b <= 'f' as u8) || ('A' as u8 <= b && b <= 'F' as u8)
}

/// Horizontal whitespace: the separator accepted between tokens on one line.
pub open spec fn is_space_byte(b: u8) -> bool {
    b == ' ' as u8 || b == '\t' as u8
}

/// ASCII whitespace; a line holding nothing else is dropped before parsing.
pub open spec fn is_blank_byte(b: u8) -> bool {
    b == ' ' as u8 || b == '\t' as u8 || b == '\r' as u8 || b == '\n' as u8 || b == 0x0b || b
        == 0x0c
}

/// The numeric value of a hexadecimal digit byte.
pub open spec fn hex_val(b: u8) -> nat {
    if is_digit_byte(b) {
        (b - '0' as u8) as nat
    } else if 'a' as u8 <= b && b <= 'f' as u8 {
        (b - 'a' as u8 + 10) as nat
    } else {
        (b - 'A' as u8 + 10) as nat
    }
}

/// One byte folded to lower case.
pub open spec fn lower_byte(b: u8) -> u8 {
    if 'A' as u8 <= b && b <= 'Z' as u8 {
        (b + 32) as u8
    } else {
        b
    }
}

/// A byte string folded to lower case.
pub open spec fn lower_bytes(s: Seq<u8>) -> Seq<u8> {
    Seq::new(s.len(), |i: int| lower_byte(s[i]))
}

/// Exact comparison of two byte slices.
pub fn bytes_eq(a: &[u8], b: &[u8]) -> (r: bool)
    ensures
        r == (a@ == b@),
{
    if a.len() != b.len() {
        return false;
    }
    let n = a.len();
    let mut i: usize = 0;
    while i < n
        invariant
            n == a@.len() == b@.len(),
            i <= n,
            forall|j: int| 0 <= j < i ==> a@[j] == b@[j],
        decreases n - i,
    {
        if a[i] != b[i] {
            return false;
        }
        i += 1;
    }
    proof {
        assert(a@ =~= b@);
    }
    true
}

/// A fresh byte vector holding `v` folded to lower case.
pub fn to_lower(v: &[u8]) -> (r: Vec<u8>)
    ensures
        r@ == lower_bytes(v@),
{
    let mut out: Vec<u8> = Vec::new();
    let n = v.len();
    let mut i: usize = 0;
    while i < n
        invariant
            n == v@.len(),
            i <= n,
            out@.len() == i,
            forall|j: int| 0 <= j < i ==> out@[j] == lower_byte(v@[j]),
        decreases n - i,
    {
        let b = v[i];
        if 'A' as u8 <= b && b <= 'Z' as u8 {
            out.push(b + 32);
        } else {
            out.push(b);
        }
        i += 1;
    }
    proof {
        assert(out@ =~= lower_bytes(v@));
    }
    out
}

/// A fresh copy of a byte vector.
pub fn copy_bytes(v: &Vec<u8>) -> (r: Vec<u8>)
    ensures
        r@ == v@,
{
    let mut out: Vec<u8> = Vec::new();
    let n = v.len();
    let mut i: usize = 0;
    while i < n
        invariant
            n == v@.len(),
            i <= n,
            out@.len() == i,
            forall|j: int| 0 <= j < i ==> out@[j] == v@[j],
        decreases n - i,
    {
        out.push(v[i]);
        i += 1;
    }
    proof {
        assert(out@ =~= v@);
    }
    out
}

} // verus!
