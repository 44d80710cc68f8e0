//! The parser: the token alphabet and the line grammar, plus the whole-text
//! entry point.

pub mod parsers;
pub mod token;

use vstd::prelude::*;

verus! {

use vstd::string::StringSliceAdditionalSpecFns;
use crate::assembler::instruction::Program;
use crate::assembler::parser::parsers::{program, sp_parse_program};
use crate::assembler::AssemblerError;
use crate::text::copy_bytes;

/// Parse a whole program text. Unlike the line-level parsers this one owes an
/// answer for every byte: text left over after the last parsed line is a
/// parse error carrying the offending remainder.
pub fn parse_program(s: &str) -> (r: Result<Program, AssemblerError>)
    ensures
        match r {
            Ok(p) => sp_parse_program(s.spec_bytes()) matches Ok(recs) && p@ == recs,
            Err(e) => sp_parse_program(s.spec_bytes()) matches Err(rest) && e@ == (
            crate::assembler::SpecAsmError::ParseError { error: rest }),
        },
{
    let bytes = s.as_bytes();
    proof {
        assert(bytes@.subrange(0, bytes@.len() as int) =~= bytes@);
    }
    match program(s) {
        None => Err(
            AssemblerError::ParseError {
                error: crate::assembler::parser::parsers::bytes_range(bytes, 0, bytes.len()),
            },
        ),
        Some((p, end)) => {
            if end == bytes.len() {
                Ok(p)
            } else {
                Err(
                    AssemblerError::ParseError {
                        error: crate::assembler::parser::parsers::bytes_range(
                            bytes,
                            end,
                            bytes.len(),
                        ),
                    },
                )
            }
        },
    }
}

} // verus!
