//! Properties of the assembler that hold for whole classes of programs:
//! what the first pass does to symbols and sections, when assembly must
//! succeed, and which errors which malformed programs must raise.

use vstd::prelude::*;

verus! {

use vstd::string::StringSliceAdditionalSpecFns;
use crate::assembler::instruction::{sp_record_bytes, SpecInstruction};
use crate::assembler::parser::parsers::sp_parse_program;
use crate::assembler::parser::token::SpecToken;
use crate::assembler::{
    asm_init,
    assemble_post,
    normalize,
    p1_label_full,
    p1_process_directive,
    p1_process_label,
    p1_run,
    p1_step,
    p2_run,
    sp_section_new,
    sym_has,
    sym_lookup,
    sym_rebind,
    token_directive_name,
    token_label_name,
    AssemblerSection,
    P1State,
    SpecAsmError,
    SpecSymbol,
    SymbolType,
};

/// The name a record declares, when it carries a label token with one.
pub open spec fn decl_name(rec: SpecInstruction) -> Option<Seq<u8>> {
    match rec.label {
        Some(t) => token_label_name(t),
        None => None,
    }
}

/// Whether a record declares the given name.
pub open spec fn declares(rec: SpecInstruction, name: Seq<u8>) -> bool {
    decl_name(rec) == Some(name)
}

/// Whether any operand slot of a record is populated.
pub open spec fn rec_has_ops(rec: SpecInstruction) -> bool {
    rec.operands[0] is Some || rec.operands[1] is Some || rec.operands[2] is Some
}

/// A record that opens a recognised section: a bare directive named `data`
/// or `code`.
pub open spec fn is_known_header(rec: SpecInstruction) -> bool {
    &&& rec.directive is Some
    &&& !rec_has_ops(rec)
    &&& (token_directive_name(rec.directive->Some_0) == "data".spec_bytes()
        || token_directive_name(rec.directive->Some_0) == "code".spec_bytes())
}

/// How many recognised section headers a record sequence holds.
pub open spec fn header_count(recs: Seq<SpecInstruction>) -> int
    decreases recs.len(),
{
    if recs.len() == 0 {
        0
    } else {
        (if is_known_header(recs[0]) {
            1int
        } else {
            0int
        }) + header_count(recs.skip(1))
    }
}

/// Running the first pass over a split sequence is running it over the two

/// Pushing onto a sequence keeps what it contains.
pub proof fn lemma_contains_after(s1: Seq<SpecAsmError>, s2: Seq<SpecAsmError>, e: SpecAsmError)
    requires
        s1.contains(e),
        s1.is_prefix_of(s2),
    ensures
        s2.contains(e),
{
    let i = choose|i: int| 0 <= i < s1.len() && s1[i] == e;
    assert(s2[i] == e);
}

/// A first-pass step only appends to the error list.
pub proof fn lemma_p1_step_errors_prefix(st: P1State, rec: SpecInstruction)
    ensures
        st.errors.is_prefix_of(p1_step(st, rec).errors),
{
    let st1 = if rec.label is Some {
        p1_label_full(st, rec)
    } else {
        st
    };
    assert(st.errors.is_prefix_of(st1.errors)) by {
        assert(st1.errors == st.errors || st1.errors == st.errors.push(
            st1.errors[st1.errors.len() - 1],
        ));
        if st1.errors != st.errors {
            assert(st.errors.is_prefix_of(st.errors.push(st1.errors[st1.errors.len() - 1])));
        }
    }
    let st2 = if rec.directive is Some {
        p1_process_directive(st1, rec, true)
    } else {
        st1
    };
    assert(st1.errors.is_prefix_of(st2.errors)) by {
        if st2.errors != st1.errors {
            assert(st2.errors == st1.errors.push(st2.errors[st2.errors.len() - 1]));
            assert(st1.errors.is_prefix_of(st1.errors.push(st2.errors[st2.errors.len() - 1])));
        }
    }
}

/// The first pass only appends to the error list.
pub proof fn lemma_p1_errors_grow(st: P1State, recs: Seq<SpecInstruction>, e: SpecAsmError)
    requires
        st.errors.contains(e),
    ensures
        p1_run(st, recs).errors.contains(e),
    decreases recs.len(),
{
    if recs.len() > 0 {
        let st2 = p1_step(st, recs[0]);
        lemma_p1_step_errors_prefix(st, recs[0]);
        lemma_contains_after(st.errors, st2.errors, e);
        lemma_p1_errors_grow(st2, recs.skip(1), e);
    }
}

/// Looking a name up after a push: the new symbol answers only when the
/// name was absent before.
pub proof fn lemma_sym_lookup_push(syms: Seq<SpecSymbol>, sym: SpecSymbol, name: Seq<u8>)
    ensures
        sym_lookup(syms.push(sym), name) == if sym_lookup(syms, name) is Some {
            sym_lookup(syms, name)
        } else if sym.name == name {
            Some(sym.offset)
        } else {
            None
        },
    decreases syms.len(),
{
    if syms.len() == 0 {
        assert(syms.push(sym)[0] == sym);
        assert(syms.push(sym).skip(1) =~= Seq::<SpecSymbol>::empty());
        assert(sym_lookup(syms, name) is None);
        assert(sym_lookup(Seq::<SpecSymbol>::empty(), name) is None);
        if sym.name == name {
            assert(sym_lookup(syms.push(sym), name) == Some(sym.offset));
        } else {
            assert(sym_lookup(syms.push(sym), name) == sym_lookup(
                syms.push(sym).skip(1),
                name,
            ));
        }
    } else {
        assert(syms.push(sym)[0] == syms[0]);
        assert(syms.push(sym).skip(1) =~= syms.skip(1).push(sym));
        lemma_sym_lookup_push(syms.skip(1), sym, name);
        assert(syms.push(sym).len() != 0);
        if syms[0].name == name {
            assert(sym_lookup(syms.push(sym), name) == Some(syms[0].offset));
            assert(sym_lookup(syms, name) == Some(syms[0].offset));
        } else {
            assert(sym_lookup(syms.push(sym), name) == sym_lookup(
                syms.skip(1).push(sym),
                name,
            ));
            assert(sym_lookup(syms, name) == sym_lookup(syms.skip(1), name));
        }
    }
}

/// Rebinding offsets changes no membership.
pub proof fn lemma_sym_has_rebind(syms: Seq<SpecSymbol>, m: Seq<u8>, off: u32, name: Seq<u8>)
    ensures
        sym_has(sym_rebind(syms, m, off), name) == sym_has(syms, name),
    decreases syms.len(),
{
    if syms.len() > 0 {
        assert(sym_rebind(syms, m, off)[0].name == syms[0].name);
        assert(sym_rebind(syms, m, off).skip(1) =~= sym_rebind(syms.skip(1), m, off));
        lemma_sym_has_rebind(syms.skip(1), m, off, name);
    }
}

/// One first-pass step never forgets a name.
pub proof fn lemma_p1_step_keeps_name(st: P1State, rec: SpecInstruction, name: Seq<u8>)
    requires
        sym_has(st.symbols, name),
    ensures
        sym_has(p1_step(st, rec).symbols, name),
{
    let st2 = p1_step(st, rec);
    if st2.symbols != st.symbols {
        if rec.label is Some && st.current_section is Some {
            let st1 = p1_process_label(st, rec);
            if st1.symbols != st.symbols {
                match token_label_name(rec.label->Some_0) {
                    Some(n) => {
                        lemma_sym_lookup_push(
                            st.symbols,
                            st1.symbols[st1.symbols.len() - 1],
                            name,
                        );
                    },
                    None => {},
                }
            }
            if rec.directive is Some {
                let st1b = p1_process_directive(st1, rec, true);
                if st1b.symbols != st1.symbols {
                    match rec.label {
                        Some(lt) => match token_label_name(lt) {
                            Some(lname) => {
                                lemma_sym_has_rebind(st1.symbols, lname, st1.ro_offset, name);
                            },
                            None => {},
                        },
                        None => {},
                    }
                }
            }
        } else {
            if rec.directive is Some {
                let st1 = if rec.label is Some {
                    p1_label_full(st, rec)
                } else {
                    st
                };
                let st1b = p1_process_directive(st1, rec, true);
                if st1b.symbols != st1.symbols {
                    match rec.label {
                        Some(lt) => match token_label_name(lt) {
                            Some(lname) => {
                                lemma_sym_has_rebind(st1.symbols, lname, st1.ro_offset, name);
                            },
                            None => {},
                        },
                        None => {},
                    }
                }
            }
        }
    }
}


/// One step never closes an open section, and never leaves an unknown one
/// open.
pub proof fn lemma_p1_step_section(st: P1State, rec: SpecInstruction)
    requires
        !(st.current_section matches Some(AssemblerSection::Unknown)),
    ensures
        !(p1_step(st, rec).current_section matches Some(AssemblerSection::Unknown)),
        st.current_section is Some ==> p1_step(st, rec).current_section is Some,
{
}



/// The sections discovered are exactly the recognised headers, in count.
pub proof fn lemma_section_count(st: P1State, recs: Seq<SpecInstruction>)
    ensures
        p1_run(st, recs).sections.len() == st.sections.len() + header_count(recs),
    decreases recs.len(),
{
    if recs.len() > 0 {
        let st2 = p1_step(st, recs[0]);
        if is_known_header(recs[0]) {
            assert(st2.sections.len() == st.sections.len() + 1);
        } else {
            assert(st2.sections.len() == st.sections.len());
        }
        lemma_section_count(st2, recs.skip(1));
    }
}

/// Declaring two labels of the same name anywhere in one program, with a
/// section open by the time the first appears, leaves a duplicate-symbol
/// error in the first pass's error list: the second declaration never
/// silently overwrites the first.
pub proof fn theorem_duplicate_symbol(
    st: P1State,
    recs: Seq<SpecInstruction>,
    i: int,
    j: int,
    name: Seq<u8>,
)
    requires
        0 <= i < j < recs.len(),
        declares(recs[i], name),
        declares(recs[j], name),
        st.current_section is Some || (exists|h: int|
            0 <= h < i && is_known_header(#[trigger] recs[h])),
        !(st.current_section matches Some(AssemblerSection::Unknown)),
    ensures
        p1_run(st, recs).errors.contains(SpecAsmError::SymbolAlreadyDeclared { name }),
    decreases recs.len(),
{
    let st2 = p1_step(st, recs[0]);
    lemma_p1_step_section(st, recs[0]);
    if i == 0 {
        assert(st.current_section is Some);
        let st1 = p1_process_label(st, recs[0]);
        if sym_has(st.symbols, name) {
            let e = SpecAsmError::SymbolAlreadyDeclared { name };
            assert(st1.errors[st1.errors.len() - 1] == e);
            assert(st1.errors.contains(e));
            lemma_p1_step_errors_prefix_from_label(st, recs[0], e);
            lemma_p1_errors_grow(st2, recs.skip(1), e);
        } else {
            assert(sym_has(st1.symbols, name)) by {
                lemma_sym_lookup_push(st.symbols, st1.symbols[st1.symbols.len() - 1], name);
            }
            assert(sym_has(st2.symbols, name)) by {
                if st2.symbols != st1.symbols {
                    match recs[0].label {
                        Some(lt) => match token_label_name(lt) {
                            Some(lname) => {
                                lemma_sym_has_rebind(st1.symbols, lname, st1.ro_offset, name);
                            },
                            None => {},
                        },
                        None => {},
                    }
                }
            }
            assert(recs.skip(1)[j - 1] == recs[j]);
            lemma_dup_second(st2, recs.skip(1), j - 1, name);
        }
    } else {
        assert(recs.skip(1)[i - 1] == recs[i]);
        assert(recs.skip(1)[j - 1] == recs[j]);
        assert(st2.current_section is Some || (exists|h: int|
            0 <= h < i - 1 && is_known_header(#[trigger] recs.skip(1)[h]))) by {
            if !(st2.current_section is Some) {
                let h = choose|h: int| 0 <= h < i && is_known_header(#[trigger] recs[h]);
                if h == 0 {
                    assert(st2.current_section is Some);
                } else {
                    assert(recs.skip(1)[h - 1] == recs[h]);
                    assert(is_known_header(recs.skip(1)[h - 1]));
                }
            }
        }
        theorem_duplicate_symbol(st2, recs.skip(1), i - 1, j - 1, name);
    }
}

/// When the label stage of a step raises an error, the whole step keeps it.
proof fn lemma_p1_step_errors_prefix_from_label(st: P1State, rec: SpecInstruction, e: SpecAsmError)
    requires
        rec.label is Some,
        p1_label_full(st, rec).errors.contains(e),
    ensures
        p1_step(st, rec).errors.contains(e),
{
    let st1 = p1_label_full(st, rec);
    let st2 = if rec.directive is Some {
        p1_process_directive(st1, rec, true)
    } else {
        st1
    };
    assert(st1.errors.is_prefix_of(st2.errors)) by {
        if st2.errors != st1.errors {
            assert(st2.errors == st1.errors.push(st2.errors[st2.errors.len() - 1]));
            assert(st1.errors.is_prefix_of(st1.errors.push(st2.errors[st2.errors.len() - 1])));
        }
    }
    lemma_contains_after(st1.errors, st2.errors, e);
}

/// Once a name is in the table and a section is open, a later declaration
/// of the same name raises the duplicate-symbol error.
proof fn lemma_dup_second(st: P1State, recs: Seq<SpecInstruction>, j: int, name: Seq<u8>)
    requires
        0 <= j < recs.len(),
        declares(recs[j], name),
        sym_has(st.symbols, name),
        st.current_section is Some,
        !(st.current_section matches Some(AssemblerSection::Unknown)),
    ensures
        p1_run(st, recs).errors.contains(SpecAsmError::SymbolAlreadyDeclared { name }),
    decreases recs.len(),
{
    let st2 = p1_step(st, recs[0]);
    lemma_p1_step_section(st, recs[0]);
    lemma_p1_step_keeps_name(st, recs[0], name);
    if j == 0 {
        let st1 = p1_process_label(st, recs[0]);
        let e = SpecAsmError::SymbolAlreadyDeclared { name };
        assert(st1.errors[st1.errors.len() - 1] == e);
        assert(st1.errors.contains(e));
        lemma_p1_step_errors_prefix_from_label(st, recs[0], e);
        lemma_p1_errors_grow(st2, recs.skip(1), e);
    } else {
        assert(recs.skip(1)[j - 1] == recs[j]);
        lemma_dup_second(st2, recs.skip(1), j - 1, name);
    }
}


/// The wire width one operand slot contributes; slots that cannot stand in
/// an instruction record weigh too much to fit, which excludes them below.
pub open spec fn slot_width(o: Option<SpecToken>) -> int {
    match o {
        None => 0,
        Some(SpecToken::Register { .. }) => 1,
        Some(SpecToken::IntegerOperand { .. }) => 2,
        Some(SpecToken::LabelUsage { .. }) => 2,
        Some(_) => 5,
    }
}

/// Whether some record of the program declares the given name.
pub open spec fn has_decl(recs: Seq<SpecInstruction>, name: Seq<u8>) -> bool {
    exists|k: int| 0 <= k < recs.len() && declares(recs[k], name)
}

/// Every label usage in an operand slot resolves against the program's own
/// declarations.
pub open spec fn slot_resolves(recs: Seq<SpecInstruction>, o: Option<SpecToken>) -> bool {
    match o {
        Some(SpecToken::LabelUsage { name }) => has_decl(recs, name),
        _ => true,
    }
}

/// A record the second pass can always encode into exactly four bytes.
pub open spec fn record_encodable(recs: Seq<SpecInstruction>, rec: SpecInstruction) -> bool {
    rec.opcode is Some ==> {
        &&& rec.opcode->Some_0 is Op
        &&& slot_width(rec.operands[0]) + slot_width(rec.operands[1]) + slot_width(
            rec.operands[2],
        ) <= 3
        &&& slot_resolves(recs, rec.operands[0])
        &&& slot_resolves(recs, rec.operands[1])
        &&& slot_resolves(recs, rec.operands[2])
    }
}

/// A well-formed program: every label is declared under an open section
/// with a proper name and no name twice; every directive is a recognised
/// header or a string directive without an attached label; exactly two
/// recognised headers appear; and every instruction record encodes into one
/// instruction width with resolvable labels.
pub open spec fn well_formed_program(recs: Seq<SpecInstruction>) -> bool {
    &&& forall|k: int|
        0 <= k < recs.len() ==> (#[trigger] recs[k].label is Some ==> token_label_name(
            recs[k].label->Some_0,
        ) is Some && (exists|h: int| 0 <= h < k && is_known_header(#[trigger] recs[h])))
    &&& forall|k: int|
        0 <= k < recs.len() ==> (#[trigger] recs[k].directive is Some ==> recs[k].label is None
            && (if rec_has_ops(recs[k]) {
            token_directive_name(recs[k].directive->Some_0) == "asciiz".spec_bytes()
        } else {
            is_known_header(recs[k])
        }))
    &&& forall|k1: int, k2: int|
        0 <= k1 < k2 < recs.len() ==> !(#[trigger] decl_name(recs[k1]) is Some && decl_name(
            recs[k1],
        ) == #[trigger] decl_name(recs[k2]))
    &&& forall|k: int| 0 <= k < recs.len() ==> record_encodable(recs, #[trigger] recs[k])
    &&& header_count(recs) == 2
}

/// The index of the last recognised header strictly before `k`, or -1.
pub open spec fn last_header_ix(recs: Seq<SpecInstruction>, k: int) -> int
    decreases k,
{
    if k <= 0 {
        -1
    } else if is_known_header(recs[k - 1]) {
        k - 1
    } else {
        last_header_ix(recs, k - 1)
    }
}

/// The offset a label declared at record `i` resolves to: the record's byte
/// position relative to the start of the open section, biased by one
/// instruction width.
pub open spec fn label_offset(recs: Seq<SpecInstruction>, i: int) -> u32 {
    (4 * i - (4 * last_header_ix(recs, i) + 4)) as u32
}

/// The first pass starting from nothing: a fresh assembler's state.
pub open spec fn fresh_p1() -> P1State {
    P1State {
        symbols: Seq::empty(),
        sections: Seq::empty(),
        current_section: None,
        errors: Seq::empty(),
        ro_offset: 0,
        idx: 0,
    }
}

/// The invariant the first pass keeps over a well-formed program: no
/// errors, sections one per header, an open section exactly after the first
/// header, and a symbol per declared label bound to its position-determined
/// offset.
pub open spec fn p1_inv(recs: Seq<SpecInstruction>, k: int, st: P1State) -> bool {
    &&& st.errors == Seq::<SpecAsmError>::empty()
    &&& st.idx == k
    &&& st.ro_offset == 0
    &&& st.sections.len() == header_count(recs.take(k))
    &&& (st.current_section is Some <==> exists|h: int|
        0 <= h < k && is_known_header(#[trigger] recs[h]))
    &&& !(st.current_section matches Some(AssemblerSection::Unknown))
    &&& ((exists|h: int| 0 <= h < k && is_known_header(#[trigger] recs[h]))
        ==> st.current_section->Some_0.spec_start() == Some(
        (4 * last_header_ix(recs, k)) as u32,
    ))
    &&& forall|n: Seq<u8>|
        #[trigger] sym_has(st.symbols, n) <==> (exists|i: int|
            0 <= i < k && declares(#[trigger] recs[i], n))
    &&& forall|i: int, n: Seq<u8>|
        0 <= i < k && declares(#[trigger] recs[i], n) ==> #[trigger] sym_lookup(st.symbols, n)
            == Some(Some(label_offset(recs, i)))
}

/// Headers count one per record, prefix by prefix.
pub proof fn lemma_header_count_snoc(recs: Seq<SpecInstruction>, k: int)
    requires
        0 <= k < recs.len(),
    ensures
        header_count(recs.take(k + 1)) == header_count(recs.take(k)) + (if is_known_header(
            recs[k],
        ) {
            1int
        } else {
            0int
        }),
    decreases k,
{
    if k == 0 {
        assert(recs.take(1)[0] == recs[0]);
        assert(recs.take(1).skip(1) =~= Seq::<SpecInstruction>::empty());
        assert(recs.take(0) =~= Seq::<SpecInstruction>::empty());
    } else {
        assert(recs.take(k + 1)[0] == recs[0]);
        assert(recs.take(k)[0] == recs[0]);
        assert(recs.take(k + 1).skip(1) =~= recs.skip(1).take(k));
        assert(recs.take(k).skip(1) =~= recs.skip(1).take(k - 1));
        assert(recs.skip(1)[k - 1] == recs[k]);
        lemma_header_count_snoc(recs.skip(1), k - 1);
    }
}

/// The last header before `k+1` is `k` itself when `k` is a header, and
/// otherwise whatever it was before `k`.
pub proof fn lemma_last_header_snoc(recs: Seq<SpecInstruction>, k: int)
    requires
        0 <= k < recs.len(),
    ensures
        last_header_ix(recs, k + 1) == if is_known_header(recs[k]) {
            k
        } else {
            last_header_ix(recs, k)
        },
{
}

/// The first pass keeps its invariant over every prefix of a well-formed
/// program.
pub proof fn lemma_p1_preserves_inv(recs: Seq<SpecInstruction>, k: int)
    requires
        well_formed_program(recs),
        recs.len() <= 0x0FFF_FFFF,
        0 <= k <= recs.len(),
    ensures
        p1_inv(recs, k, p1_run(fresh_p1(), recs.take(k))),
    decreases k,
{
    if k == 0 {
        assert(recs.take(0) =~= Seq::<SpecInstruction>::empty());
        assert(forall|n: Seq<u8>| !sym_has(fresh_p1().symbols, n));
        assert(header_count(Seq::<SpecInstruction>::empty()) == 0);
    } else {
        lemma_p1_preserves_inv(recs, k - 1);
        let st = p1_run(fresh_p1(), recs.take(k - 1));
        let rec = recs[k - 1];
        crate::assembler::lemma_p1_run_snoc(fresh_p1(), recs, k - 1);
        let st2 = p1_step(st, rec);
        lemma_header_count_snoc(recs, k - 1);
        lemma_last_header_snoc(recs, k - 1);
        let st1 = if rec.label is Some {
            p1_label_full(st, rec)
        } else {
            st
        };
        if rec.label is Some {
            let name = token_label_name(rec.label->Some_0)->Some_0;
            assert(declares(rec, name));
            assert(exists|h: int| 0 <= h < k - 1 && is_known_header(#[trigger] recs[h]));
            assert(st.current_section is Some);
            assert(!sym_has(st.symbols, name)) by {
                if sym_has(st.symbols, name) {
                    let i = choose|i: int| 0 <= i < k - 1 && declares(#[trigger] recs[i], name);
                    assert(decl_name(recs[i]) is Some && decl_name(recs[i]) == decl_name(
                        recs[k - 1],
                    ));
                }
            }
            let start = st.current_section->Some_0.spec_start()->Some_0;
            assert(start == (4 * last_header_ix(recs, k - 1)) as u32);
            assert(0 <= last_header_ix(recs, k - 1) < k - 1) by {
                lemma_last_header_bounds(recs, k - 1);
            }
            assert(4 * (k - 1) - (start + 4) >= 0);
            let sym = SpecSymbol {
                name,
                offset: Some((4 * (k - 1) - (start + 4)) as u32),
                symbol_type: SymbolType::Label,
            };
            assert(st1.symbols == st.symbols.push(sym));
            assert(st1.errors == st.errors);
            assert(forall|n: Seq<u8>, sym2: SpecSymbol|
                sym_lookup(st.symbols, n) is Some ==> #[trigger] sym_lookup(
                    st.symbols.push(sym2),
                    n,
                ) == sym_lookup(st.symbols, n)) by {
                assert forall|n: Seq<u8>, sym2: SpecSymbol|
                    sym_lookup(st.symbols, n) is Some implies #[trigger] sym_lookup(
                    st.symbols.push(sym2),
                    n,
                ) == sym_lookup(st.symbols, n) by {
                    lemma_sym_lookup_push(st.symbols, sym2, n);
                }
            }
            lemma_sym_lookup_push(st.symbols, sym, name);
            assert(sym_lookup(st1.symbols, name) == Some(sym.offset));
            assert(sym.offset == Some(label_offset(recs, k - 1)));
            assert(forall|n: Seq<u8>|
                #[trigger] sym_has(st1.symbols, n) <==> (sym_has(st.symbols, n) || n == name))
                by {
                assert forall|n: Seq<u8>| true implies (#[trigger] sym_has(st1.symbols, n) <==> (
                sym_has(st.symbols, n) || n == name)) by {
                    lemma_sym_lookup_push(st.symbols, sym, n);
                }
            }
        }
        assert(rec.directive is Some ==> rec.label is None);
        if rec.directive is Some {
            if rec_has_ops(rec) {
                assert(p1_process_directive(st1, rec, true) == st1) by {
                    assert(token_directive_name(rec.directive->Some_0) == "asciiz".spec_bytes());
                    assert(rec.label is None);
                }
            } else {
                assert(is_known_header(rec));
                let name = token_directive_name(rec.directive->Some_0);
                let sec = sp_section_new(name, (4 * st1.idx) as u32);
                assert(!(sec is Unknown));
                assert(sec.spec_start() == Some((4 * (k - 1)) as u32));
            }
        }
        assert(p1_inv(recs, k, st2)) by {
            assert(st2.idx == st.idx + 1);
            assert(forall|i: int, n: Seq<u8>|
                0 <= i < k && declares(#[trigger] recs[i], n) ==> #[trigger] sym_lookup(
                    st2.symbols,
                    n,
                ) == Some(Some(label_offset(recs, i))));
        }
    }
}

/// The last recognised header before a label sits strictly before it and
/// at or after the start.
pub proof fn lemma_last_header_bounds(recs: Seq<SpecInstruction>, k: int)
    requires
        exists|h: int| 0 <= h < k && is_known_header(#[trigger] recs[h]),
    ensures
        0 <= last_header_ix(recs, k) < k,
        is_known_header(recs[last_header_ix(recs, k)]),
    decreases k,
{
    let h = choose|h: int| 0 <= h < k && is_known_header(#[trigger] recs[h]);
    if is_known_header(recs[k - 1]) {
    } else {
        assert(h < k - 1);
        lemma_last_header_bounds(recs, k - 1);
    }
}


/// How many records of a sequence carry an opcode.
pub open spec fn opcode_count(recs: Seq<SpecInstruction>) -> int
    decreases recs.len(),
{
    if recs.len() == 0 {
        0
    } else {
        (if recs[0].opcode is Some {
            1int
        } else {
            0int
        }) + opcode_count(recs.skip(1))
    }
}

/// A symbol table that resolves every declared name of the program.
pub open spec fn resolves_all(recs: Seq<SpecInstruction>, syms: Seq<SpecSymbol>) -> bool {
    forall|n: Seq<u8>|
        has_decl(recs, n) ==> (#[trigger] sym_lookup(syms, n) matches Some(o) && o is Some)
}

/// Over encodable records and a table that resolves every declaration, the
/// second pass succeeds and emits exactly one instruction width per opcode
/// record.
pub proof fn lemma_p2_succeeds(
    recs: Seq<SpecInstruction>,
    part: Seq<SpecInstruction>,
    syms: Seq<SpecSymbol>,
)
    requires
        forall|k: int| 0 <= k < part.len() ==> record_encodable(recs, #[trigger] part[k]),
        resolves_all(recs, syms),
    ensures
        p2_run(part, syms).bytes matches Ok(bs) && bs.len() == 4 * opcode_count(part),
    decreases part.len(),
{
    if part.len() > 0 {
        let rec = part[0];
        assert(record_encodable(recs, rec));
        lemma_p2_succeeds(recs, part.skip(1), syms);
        if rec.opcode is Some {
            assert(sp_record_bytes(rec, syms) matches Ok(b) && b.len() == 4) by {
                let code = rec.opcode->Some_0->Op_code;
                assert(crate::assembler::instruction::sp_slot_bytes(rec.operands[0], syms)
                    matches Ok(b0) && b0.len() == slot_width(rec.operands[0]));
                assert(crate::assembler::instruction::sp_slot_bytes(rec.operands[1], syms)
                    matches Ok(b1) && b1.len() == slot_width(rec.operands[1]));
                assert(crate::assembler::instruction::sp_slot_bytes(rec.operands[2], syms)
                    matches Ok(b2) && b2.len() == slot_width(rec.operands[2]));
            }
        }
    }
}

/// For all well-formed programs with recognised section headers and no
/// duplicate labels, assembly from a fresh assembler succeeds: the first
/// pass reports no errors and finds both sections, and the second pass
/// produces a buffer whose length is an exact multiple of four.
pub proof fn theorem_well_formed_assembles(recs: Seq<SpecInstruction>)
    requires
        well_formed_program(recs),
        recs.len() <= 0x0FFF_FFFF,
    ensures
        ({
            let p1 = p1_run(fresh_p1(), recs);
            &&& p1.errors.len() == 0
            &&& p1.sections.len() == 2
            &&& p2_run(recs, p1.symbols).bytes matches Ok(bs) && bs.len() == 4 * opcode_count(
                recs,
            )
            &&& (p2_run(recs, p1.symbols).bytes->Ok_0.len() % 4) == 0
        }),
{
    lemma_p1_preserves_inv(recs, recs.len() as int);
    assert(recs.take(recs.len() as int) =~= recs);
    let p1 = p1_run(fresh_p1(), recs);
    assert(resolves_all(recs, p1.symbols)) by {
        assert forall|n: Seq<u8>| has_decl(recs, n) implies (#[trigger] sym_lookup(p1.symbols, n)
            matches Some(o) && o is Some) by {
            let i = choose|i: int| 0 <= i < recs.len() && declares(#[trigger] recs[i], n);
            assert(sym_lookup(p1.symbols, n) == Some(Some(label_offset(recs, i))));
        }
    }
    lemma_p2_succeeds(recs, recs, p1.symbols);
}

/// Label resolution is order-independent: a declared name resolves to an
/// offset computed from the declaration's own position and the last section
/// header before it — where the name is used, before or after the
/// declaration, plays no part.
pub proof fn theorem_label_resolution_positional(recs: Seq<SpecInstruction>, i: int, name: Seq<u8>)
    requires
        well_formed_program(recs),
        recs.len() <= 0x0FFF_FFFF,
        0 <= i < recs.len(),
        declares(recs[i], name),
    ensures
        sym_lookup(p1_run(fresh_p1(), recs).symbols, name) == Some(
            Some(label_offset(recs, i)),
        ),
{
    lemma_p1_preserves_inv(recs, recs.len() as int);
    assert(recs.take(recs.len() as int) =~= recs);
}

/// Omitting either section header, or declaring a third, yields the
/// insufficient-sections error from a first pass that found nothing else
/// wrong.
pub proof fn theorem_insufficient_sections(st: P1State, recs: Seq<SpecInstruction>)
    requires
        st.sections.len() == 0,
        header_count(recs) != 2,
    ensures
        p1_run(st, recs).sections.len() != 2,
{
    lemma_section_count(st, recs);
}


/// For all well-formed programs, one `assemble` call on a fresh assembler
/// succeeds, and the buffer it returns is an exact multiple of the
/// four-byte instruction width.
pub proof fn theorem_assemble_call_succeeds(
    raw: Seq<u8>,
    a1: crate::assembler::AsmView,
    rr: Result<Seq<u8>, Seq<SpecAsmError>>,
)
    requires
        assemble_post(asm_init(), raw, a1, rr),
        sp_parse_program(normalize(raw)) matches Ok(recs) && well_formed_program(recs)
            && recs.len() <= 0x0FFF_FFFF,
    ensures
        rr matches Ok(bs) && bs.len() % 4 == 0 && a1.bytecode == bs,
{
    assert(asm_init().code + raw =~= raw);
    let recs = sp_parse_program(normalize(raw))->Ok_0;
    theorem_well_formed_assembles(recs);
    assert((P1State {
        symbols: Seq::empty(),
        sections: Seq::empty(),
        current_section: asm_init().current_section,
        errors: Seq::empty(),
        ro_offset: asm_init().ro_offset,
        idx: asm_init().current_instruction,
    }) == fresh_p1());
}

/// Declaring two labels of the same name anywhere in one program makes the
/// `assemble` call fail with a duplicate-symbol error among its errors, and
/// no bytecode is produced.
pub proof fn theorem_duplicate_symbol_call(
    raw: Seq<u8>,
    a1: crate::assembler::AsmView,
    rr: Result<Seq<u8>, Seq<SpecAsmError>>,
    i: int,
    j: int,
    name: Seq<u8>,
)
    requires
        assemble_post(asm_init(), raw, a1, rr),
        sp_parse_program(normalize(raw)) is Ok,
        ({
            let recs = sp_parse_program(normalize(raw))->Ok_0;
            &&& 0 <= i < j < recs.len()
            &&& declares(recs[i], name)
            &&& declares(recs[j], name)
            &&& exists|h: int| 0 <= h < i && is_known_header(#[trigger] recs[h])
        }),
    ensures
        rr matches Err(es) && es.contains(SpecAsmError::SymbolAlreadyDeclared { name }),
        a1.bytecode == asm_init().bytecode,
{
    assert(asm_init().code + raw =~= raw);
    let recs = sp_parse_program(normalize(raw))->Ok_0;
    theorem_duplicate_symbol(fresh_p1(), recs, i, j, name);
    assert((P1State {
        symbols: Seq::empty(),
        sections: Seq::empty(),
        current_section: asm_init().current_section,
        errors: Seq::empty(),
        ro_offset: asm_init().ro_offset,
        idx: asm_init().current_instruction,
    }) == fresh_p1());
    let p1 = p1_run(fresh_p1(), recs);
    assert(p1.errors.len() > 0);
}

/// Omitting either section header, or declaring a third, makes an
/// `assemble` call whose first pass found nothing else wrong fail with
/// exactly the insufficient-sections error.
pub proof fn theorem_insufficient_sections_call(
    raw: Seq<u8>,
    a1: crate::assembler::AsmView,
    rr: Result<Seq<u8>, Seq<SpecAsmError>>,
)
    requires
        assemble_post(asm_init(), raw, a1, rr),
        sp_parse_program(normalize(raw)) is Ok,
        header_count(sp_parse_program(normalize(raw))->Ok_0) != 2,
        p1_run(fresh_p1(), sp_parse_program(normalize(raw))->Ok_0).errors.len() == 0,
    ensures
        rr == Err::<Seq<u8>, Seq<SpecAsmError>>(seq![SpecAsmError::InsufficientSections]),
{
    assert(asm_init().code + raw =~= raw);
    let recs = sp_parse_program(normalize(raw))->Ok_0;
    theorem_insufficient_sections(fresh_p1(), recs);
    assert((P1State {
        symbols: Seq::empty(),
        sections: Seq::empty(),
        current_section: asm_init().current_section,
        errors: Seq::empty(),
        ro_offset: asm_init().ro_offset,
        idx: asm_init().current_instruction,
    }) == fresh_p1());
}

} // verus!
