//! Code generation: the assembler's second pass.
//!
//! [`assemble`] runs the first pass ([`parse`]) and then encodes every
//! located statement into LC-3 machine words. Label references resolve
//! against the symbol table to PC-relative offsets, measured from the address
//! after the instruction (the program counter when the offset applies), and
//! every operand is range-checked to its field width. Each `.ORIG` segment
//! becomes one single-origin [`ObjectFile`]; together they form the
//! assembled [`Image`].
use vstd::prelude::*;

use crate::bits::{signed_field, signed_field_spec, unsigned_field, unsigned_field_spec};
use crate::lexer::byte_len;
use crate::object::ObjectFile;
use crate::opcode::Opcode;
use crate::text::{decimal_text, push_decimal, push_signed, push_text, signed_text, string_from_chars};
use crate::parser::{
    find_symbol, line_text, lookup, parse, parse_error_text, parse_spec, push_line, segments_view,
    statements_view, symbols_view, Fill, FillSpec, Operation, OperationSpec, ParseError, ParseErrorSpec, Segment, SegmentSpec,
    Statement, StatementSpec, Symbol, Target, TargetSpec,
};

verus! {

/// An assembled program: one located object block per source segment.
#[derive(Debug, Clone, PartialEq, Eq)]
pub struct Image {
    /// The object blocks, one per `.ORIG` segment, in source order.
    pub blocks: Vec<ObjectFile>,
}

/// The origin and words of each block of an image.
pub open spec fn blocks_view(blocks: Seq<ObjectFile>) -> Seq<(u16, Seq<u16>)> {
    blocks.map_values(|b: ObjectFile| (b.origin, b.words@))
}

/// The reason a parsed program could not be encoded into object words.
#[derive(Debug, Clone, PartialEq, Eq)]
pub enum AsmError {
    /// The first pass (lexing and parsing) failed.
    Parse(ParseError),
    /// A label reference names no symbol of the program.
    UndefinedLabel { line: usize, label: String },
    /// A PC-relative or base offset does not fit its instruction field.
    OffsetOutOfRange { line: usize, offset: i32, bits: u32 },
    /// An `ADD`/`AND` immediate does not fit the five-bit field.
    ImmediateOutOfRange { line: usize, value: i32 },
    /// A `.FILL` word, a trap vector or a string character does not fit its
    /// field.
    ValueOutOfRange { line: usize, value: i32, bits: u32 },
}

/// An [`AsmError`] with its texts taken as characters.
pub enum AsmErrorSpec {
    Parse(ParseErrorSpec),
    UndefinedLabel { line: usize, label: Seq<char> },
    OffsetOutOfRange { line: usize, offset: i32, bits: u32 },
    ImmediateOutOfRange { line: usize, value: i32 },
    ValueOutOfRange { line: usize, value: i32, bits: u32 },
}

impl View for AsmError {
    type V = AsmErrorSpec;

    open spec fn view(&self) -> AsmErrorSpec {
        match self {
            AsmError::Parse(e) => AsmErrorSpec::Parse(e@),
            AsmError::UndefinedLabel { line, label } => AsmErrorSpec::UndefinedLabel {
                line: *line,
                label: label@,
            },
            AsmError::OffsetOutOfRange { line, offset, bits } => AsmErrorSpec::OffsetOutOfRange {
                line: *line,
                offset: *offset,
                bits: *bits,
            },
            AsmError::ImmediateOutOfRange { line, value } => AsmErrorSpec::ImmediateOutOfRange {
                line: *line,
                value: *value,
            },
            AsmError::ValueOutOfRange { line, value, bits } => AsmErrorSpec::ValueOutOfRange {
                line: *line,
                value: *value,
                bits: *bits,
            },
        }
    }
}

/// The description of an assembly error, as it is reported.
pub open spec fn asm_error_text(e: AsmErrorSpec) -> Seq<char> {
    match e {
        AsmErrorSpec::Parse(p) => parse_error_text(p),
        AsmErrorSpec::UndefinedLabel { line, label } => line_text(line) + "undefined label '"@
            + label + "'"@,
        AsmErrorSpec::OffsetOutOfRange { line, offset, bits } => line_text(line) + "offset "@
            + signed_text(offset as int) + " does not fit a "@ + decimal_text(bits as nat)
            + "-bit field"@,
        AsmErrorSpec::ImmediateOutOfRange { line, value } => line_text(line) + "immediate "@
            + signed_text(value as int) + " does not fit the 5-bit field"@,
        AsmErrorSpec::ValueOutOfRange { line, value, bits } => line_text(line) + "value "@
            + signed_text(value as int) + " does not fit a "@ + decimal_text(bits as nat)
            + "-bit field"@,
    }
}

impl AsmError {
    /// The description of this error, as it is reported.
    pub fn message(&self) -> (r: String)
        ensures
            r@ == asm_error_text(self@),
    {
        let mut out: Vec<char> = Vec::new();
        match self {
            AsmError::Parse(e) => {
                let text = e.message();
                push_text(&mut out, text.as_str());
            },
            AsmError::UndefinedLabel { line, label } => {
                push_line(&mut out, *line);
                push_text(&mut out, "undefined label '");
                push_text(&mut out, label.as_str());
                push_text(&mut out, "'");
            },
            AsmError::OffsetOutOfRange { line, offset, bits } => {
                push_line(&mut out, *line);
                push_text(&mut out, "offset ");
                push_signed(&mut out, *offset);
                push_text(&mut out, " does not fit a ");
                push_decimal(&mut out, *bits as u64);
                push_text(&mut out, "-bit field");
            },
            AsmError::ImmediateOutOfRange { line, value } => {
                push_line(&mut out, *line);
                push_text(&mut out, "immediate ");
                push_signed(&mut out, *value);
                push_text(&mut out, " does not fit the 5-bit field");
            },
            AsmError::ValueOutOfRange { line, value, bits } => {
                push_line(&mut out, *line);
                push_text(&mut out, "value ");
                push_signed(&mut out, *value);
                push_text(&mut out, " does not fit a ");
                push_decimal(&mut out, *bits as u64);
                push_text(&mut out, "-bit field");
            },
        }
        proof {
            assert(out@ =~= asm_error_text(self@));
        }
        string_from_chars(&out)
    }
}

/// The PC-relative offset a target stands for at `address`: an explicit
/// offset as written, or the distance from `address + 1` to a label.
pub open spec fn resolve_spec(target: TargetSpec, address: u16, line: usize, symbols: Seq<(Seq<char>, u16)>) -> Result<
    i32,
    AsmErrorSpec,
> {
    match target {
        TargetSpec::Offset(v) => Ok(v),
        TargetSpec::Label(name) => match lookup(symbols, name) {
            None => Err(AsmErrorSpec::UndefinedLabel { line, label: name }),
            Some(d) => Ok((d - address - 1) as i32),
        },
    }
}

/// A target's offset encoded into a `bits`-wide signed field.
pub open spec fn pc_offset_spec(
    target: TargetSpec,
    address: u16,
    bits: u32,
    line: usize,
    symbols: Seq<(Seq<char>, u16)>,
) -> Result<u16, AsmErrorSpec> {
    match resolve_spec(target, address, line, symbols) {
        Err(e) => Err(e),
        Ok(offset) => match signed_field_spec(offset, bits) {
            Some(f) => Ok(f),
            None => Err(AsmErrorSpec::OffsetOutOfRange { line, offset, bits }),
        },
    }
}

/// A `.FILL` value as a word: either a signed (`-32768..=32767`) or an
/// unsigned (`0..=65535`) writing of the bit pattern.
pub open spec fn word_spec(value: i32) -> Option<u16> {
    if 0 <= value <= 0xFFFF {
        Some(value as u16)
    } else if -0x8000 <= value < 0 {
        Some((value + 0x1_0000) as u16)
    } else {
        None
    }
}

/// The words of a `.STRINGZ` text (terminator excluded), one per character,
/// or the error for the first character wider than a word.
pub open spec fn string_words(text: Seq<char>, line: usize) -> Result<Seq<u16>, AsmErrorSpec>
    decreases text.len(),
{
    if text.len() == 0 {
        Ok(seq![])
    } else {
        match string_words(text.drop_last(), line) {
            Err(e) => Err(e),
            Ok(ws) => if (text.last() as u32) <= 0xFFFF {
                Ok(ws.push((text.last() as u32) as u16))
            } else {
                Err(AsmErrorSpec::ValueOutOfRange { line, value: (text.last() as u32) as i32, bits: 16 })
            },
        }
    }
}

/// The words a statement encodes to, or the error in it.
pub open spec fn emit_spec(s: StatementSpec, symbols: Seq<(Seq<char>, u16)>) -> Result<Seq<u16>, AsmErrorSpec> {
    let line = s.line;
    let address = s.address;
    match s.operation {
        OperationSpec::AluReg { op, dr, sr1, sr2 } => Ok(
            seq![(op.value() << 12u16) | (dr << 9u16) | (sr1 << 6u16) | sr2],
        ),
        OperationSpec::AluImm { op, dr, sr1, imm } => match signed_field_spec(imm, 5) {
            None => Err(AsmErrorSpec::ImmediateOutOfRange { line, value: imm }),
            Some(f) => Ok(seq![(op.value() << 12u16) | (dr << 9u16) | (sr1 << 6u16) | 0x20u16 | f]),
        },
        OperationSpec::Not { dr, sr } => Ok(
            seq![(Opcode::Not.value() << 12u16) | (dr << 9u16) | (sr << 6u16) | 0x3Fu16],
        ),
        OperationSpec::Branch { cond, target } => match pc_offset_spec(target, address, 9, line, symbols) {
            Err(e) => Err(e),
            Ok(f) => Ok(seq![(Opcode::Br.value() << 12u16) | (cond << 9u16) | f]),
        },
        OperationSpec::BaseReg { op, base } => Ok(seq![(op.value() << 12u16) | (base << 6u16)]),
        OperationSpec::Jsr { target } => match pc_offset_spec(target, address, 11, line, symbols) {
            Err(e) => Err(e),
            Ok(f) => Ok(seq![(Opcode::Jsr.value() << 12u16) | 0x0800u16 | f]),
        },
        OperationSpec::PcRelative { op, reg, target } => match pc_offset_spec(target, address, 9, line, symbols) {
            Err(e) => Err(e),
            Ok(f) => Ok(seq![(op.value() << 12u16) | (reg << 9u16) | f]),
        },
        OperationSpec::BaseOffset { op, reg, base, offset } => match signed_field_spec(offset, 6) {
            None => Err(AsmErrorSpec::OffsetOutOfRange { line, offset, bits: 6 }),
            Some(f) => Ok(seq![(op.value() << 12u16) | (reg << 9u16) | (base << 6u16) | f]),
        },
        OperationSpec::Trap { vector } => match unsigned_field_spec(vector, 8) {
            None => Err(AsmErrorSpec::ValueOutOfRange { line, value: vector, bits: 8 }),
            Some(f) => Ok(seq![(Opcode::Trap.value() << 12u16) | f]),
        },
        OperationSpec::Rti => Ok(seq![Opcode::Rti.value() << 12u16]),
        OperationSpec::Fill(FillSpec::Number(v)) => match word_spec(v) {
            None => Err(AsmErrorSpec::ValueOutOfRange { line, value: v, bits: 16 }),
            Some(w) => Ok(seq![w]),
        },
        OperationSpec::Fill(FillSpec::Label(name)) => match lookup(symbols, name) {
            None => Err(AsmErrorSpec::UndefinedLabel { line, label: name }),
            Some(a) => Ok(seq![a]),
        },
        OperationSpec::Blkw { count } => Ok(Seq::new(count as nat, |i: int| 0u16)),
        OperationSpec::Stringz { text } => match string_words(text, line) {
            Err(e) => Err(e),
            Ok(ws) => Ok(ws.push(0u16)),
        },
    }
}

/// The words of a run of statements, in order, or the first error.
pub open spec fn emit_all(stmts: Seq<StatementSpec>, symbols: Seq<(Seq<char>, u16)>) -> Result<Seq<u16>, AsmErrorSpec>
    decreases stmts.len(),
{
    if stmts.len() == 0 {
        Ok(seq![])
    } else {
        match emit_all(stmts.drop_last(), symbols) {
            Err(e) => Err(e),
            Ok(ws) => match emit_spec(stmts.last(), symbols) {
                Err(e) => Err(e),
                Ok(w) => Ok(ws + w),
            },
        }
    }
}

/// The blocks of a run of segments, in order, or the first error.
pub open spec fn blocks_spec(segments: Seq<SegmentSpec>, symbols: Seq<(Seq<char>, u16)>) -> Result<
    Seq<(u16, Seq<u16>)>,
    AsmErrorSpec,
>
    decreases segments.len(),
{
    if segments.len() == 0 {
        Ok(seq![])
    } else {
        match blocks_spec(segments.drop_last(), symbols) {
            Err(e) => Err(e),
            Ok(bs) => match emit_all(segments.last().statements, symbols) {
                Err(e) => Err(e),
                Ok(words) => Ok(bs.push((segments.last().origin, words))),
            },
        }
    }
}

/// The blocks a source text assembles to, or its first error.
pub open spec fn assemble_spec(source: Seq<char>) -> Result<Seq<(u16, Seq<u16>)>, AsmErrorSpec> {
    match parse_spec(source) {
        Err(e) => Err(AsmErrorSpec::Parse(e)),
        Ok(program) => blocks_spec(program.segments, program.symbols),
    }
}

/// Whether an executable result agrees with a specified one.
pub open spec fn asm_agrees<T: View>(r: Result<T, AsmError>, s: Result<T::V, AsmErrorSpec>) -> bool {
    match s {
        Ok(v) => (r matches Ok(x) && x@ == v),
        Err(e) => (r matches Err(x) && x@ == e),
    }
}

/// Resolves a PC-relative target to its `bits`-wide offset field.
fn pc_offset(target: &Target, address: u16, bits: u32, line: usize, symbols: &[Symbol]) -> (r: Result<u16, AsmError>)
    requires
        1 <= bits <= 16,
    ensures
        asm_agrees(r, pc_offset_spec(target@, address, bits, line, symbols_view(symbols@))),
{
    let offset: i32 = match target {
        Target::Offset(v) => *v,
        Target::Label(name) => match find_symbol(symbols, name.as_str()) {
            None => return Err(AsmError::UndefinedLabel { line, label: name.clone() }),
            Some(d) => (d as i32) - (address as i32) - 1,
        },
    };
    match signed_field(offset, bits) {
        Some(f) => Ok(f),
        None => Err(AsmError::OffsetOutOfRange { line, offset, bits }),
    }
}

/// Narrows a `.FILL` value to a word, accepting a signed or an unsigned
/// writing of the bit pattern.
pub fn word(value: i32) -> (r: Option<u16>)
    ensures
        r == word_spec(value),
{
    if 0 <= value && value <= 0xFFFF {
        Some(value as u16)
    } else if -0x8000 <= value && value < 0 {
        Some((value + 0x1_0000) as u16)
    } else {
        None
    }
}

/// The words of a `.STRINGZ` text, terminator excluded.
fn text_words(text: &String, line: usize) -> (r: Result<Vec<u16>, AsmError>)
    ensures
        asm_agrees(r, string_words(text@, line)),
{
    let cs = crate::text::chars_of(text.as_str());
    let mut ws: Vec<u16> = Vec::new();
    let mut k: usize = 0;
    proof {
        assert(cs@.take(0) =~= Seq::<char>::empty());
    }
    while k < cs.len()
        invariant
            k <= cs@.len(),
            cs@ == text@,
            string_words(cs@.take(k as int), line) == Ok::<Seq<u16>, AsmErrorSpec>(ws@),
        decreases cs.len() - k,
    {
        let c = cs[k];
        proof {
            assert(cs@.take(k + 1).drop_last() =~= cs@.take(k as int));
            assert(cs@.take(k + 1).last() == c);
        }
        let v = c as u32;
        if v > 0xFFFF {
            proof {
                if string_words(cs@, line) != string_words(cs@.take(k + 1), line) {
                    lemma_string_words_prefix_error(cs@, k + 1, line);
                }
            }
            return Err(AsmError::ValueOutOfRange { line, value: v as i32, bits: 16 });
        }
        ws.push(v as u16);
        k += 1;
    }
    proof {
        assert(cs@.take(cs@.len() as int) =~= cs@);
    }
    Ok(ws)
}

/// A prefix's string error is the whole text's error.
proof fn lemma_string_words_prefix_error(text: Seq<char>, n: int, line: usize)
    requires
        0 <= n <= text.len(),
        string_words(text.take(n), line) is Err,
    ensures
        string_words(text, line) == string_words(text.take(n), line),
    decreases text.len() - n,
{
    if n < text.len() {
        assert(text.take(n + 1).drop_last() =~= text.take(n));
        lemma_string_words_prefix_error(text, n + 1, line);
    } else {
        assert(text.take(n) =~= text);
    }
}

/// Encodes one statement, appending its words to `out`.
fn emit(statement: &Statement, symbols: &[Symbol], out: &mut Vec<u16>) -> (r: Result<(), AsmError>)
    ensures
        match emit_spec(statement@, symbols_view(symbols@)) {
            Ok(ws) => r is Ok && final(out)@ == old(out)@ + ws,
            Err(e) => (r matches Err(x) && x@ == e),
        },
{
    let address = statement.address;
    let line = statement.line;
    let ghost start = out@;
    match &statement.operation {
        Operation::AluReg { op, dr, sr1, sr2 } => {
            out.push((op.nibble() << 12u16) | (*dr << 9u16) | (*sr1 << 6u16) | *sr2);
        },
        Operation::AluImm { op, dr, sr1, imm } => {
            let imm5 = match signed_field(*imm, 5) {
                Some(f) => f,
                None => return Err(AsmError::ImmediateOutOfRange { line, value: *imm }),
            };
            out.push((op.nibble() << 12u16) | (*dr << 9u16) | (*sr1 << 6u16) | 0x20u16 | imm5);
        },
        Operation::Not { dr, sr } => {
            out.push((Opcode::Not.nibble() << 12u16) | (*dr << 9u16) | (*sr << 6u16) | 0x3Fu16);
        },
        Operation::Branch { cond, target } => {
            let offset = match pc_offset(target, address, 9, line, symbols) {
                Ok(f) => f,
                Err(e) => return Err(e),
            };
            out.push((Opcode::Br.nibble() << 12u16) | (*cond << 9u16) | offset);
        },
        Operation::BaseReg { op, base } => {
            out.push((op.nibble() << 12u16) | (*base << 6u16));
        },
        Operation::Jsr { target } => {
            let offset = match pc_offset(target, address, 11, line, symbols) {
                Ok(f) => f,
                Err(e) => return Err(e),
            };
            out.push((Opcode::Jsr.nibble() << 12u16) | 0x0800u16 | offset);
        },
        Operation::PcRelative { op, reg, target } => {
            let offset = match pc_offset(target, address, 9, line, symbols) {
                Ok(f) => f,
                Err(e) => return Err(e),
            };
            out.push((op.nibble() << 12u16) | (*reg << 9u16) | offset);
        },
        Operation::BaseOffset { op, reg, base, offset } => {
            let offset6 = match signed_field(*offset, 6) {
                Some(f) => f,
                None => return Err(AsmError::OffsetOutOfRange { line, offset: *offset, bits: 6 }),
            };
            out.push((op.nibble() << 12u16) | (*reg << 9u16) | (*base << 6u16) | offset6);
        },
        Operation::Trap { vector } => {
            let trapvect8 = match unsigned_field(*vector, 8) {
                Some(f) => f,
                None => return Err(AsmError::ValueOutOfRange { line, value: *vector, bits: 8 }),
            };
            out.push((Opcode::Trap.nibble() << 12u16) | trapvect8);
        },
        Operation::Rti => {
            out.push(Opcode::Rti.nibble() << 12u16);
        },
        Operation::Fill(Fill::Number(v)) => {
            match word(*v) {
                Some(w) => out.push(w),
                None => return Err(AsmError::ValueOutOfRange { line, value: *v, bits: 16 }),
            }
        },
        Operation::Fill(Fill::Label(name)) => {
            match find_symbol(symbols, name.as_str()) {
                Some(a) => out.push(a),
                None => return Err(AsmError::UndefinedLabel { line, label: name.clone() }),
            }
        },
        Operation::Blkw { count } => {
            let mut k: u16 = 0;
            while k < *count
                invariant
                    k <= *count,
                    out@ == start + Seq::new(k as nat, |i: int| 0u16),
                decreases *count - k,
            {
                out.push(0u16);
                k += 1;
                proof {
                    assert(out@ =~= start + Seq::new(k as nat, |i: int| 0u16));
                }
            }
        },
        Operation::Stringz { text } => {
            match text_words(text, line) {
                Ok(ws) => {
                    let mut k: usize = 0;
                    while k < ws.len()
                        invariant
                            k <= ws@.len(),
                            out@ == start + ws@.take(k as int),
                        decreases ws.len() - k,
                    {
                        out.push(ws[k]);
                        k += 1;
                        proof {
                            assert(out@ =~= start + ws@.take(k as int));
                        }
                    }
                    out.push(0u16);
                    proof {
                        assert(ws@.take(ws@.len() as int) =~= ws@);
                        assert(out@ =~= start + ws@.push(0u16));
                    }
                },
                Err(e) => return Err(e),
            }
        },
    }
    proof {
        assert(out@ =~= start + emit_spec(statement@, symbols_view(symbols@))->Ok_0);
    }
    Ok(())
}

/// A prefix's emission error is the whole run's error.
proof fn lemma_emit_all_prefix_error(stmts: Seq<StatementSpec>, n: int, symbols: Seq<(Seq<char>, u16)>)
    requires
        0 <= n <= stmts.len(),
        emit_all(stmts.take(n), symbols) is Err,
    ensures
        emit_all(stmts, symbols) == emit_all(stmts.take(n), symbols),
    decreases stmts.len() - n,
{
    if n < stmts.len() {
        assert(stmts.take(n + 1).drop_last() =~= stmts.take(n));
        lemma_emit_all_prefix_error(stmts, n + 1, symbols);
    } else {
        assert(stmts.take(n) =~= stmts);
    }
}

/// A prefix's block error is the whole program's error.
proof fn lemma_blocks_prefix_error(segments: Seq<SegmentSpec>, n: int, symbols: Seq<(Seq<char>, u16)>)
    requires
        0 <= n <= segments.len(),
        blocks_spec(segments.take(n), symbols) is Err,
    ensures
        blocks_spec(segments, symbols) == blocks_spec(segments.take(n), symbols),
    decreases segments.len() - n,
{
    if n < segments.len() {
        assert(segments.take(n + 1).drop_last() =~= segments.take(n));
        lemma_blocks_prefix_error(segments, n + 1, symbols);
    } else {
        assert(segments.take(n) =~= segments);
    }
}

/// Encodes one segment into its object block.
fn encode_segment(segment: &Segment, symbols: &[Symbol]) -> (r: Result<ObjectFile, AsmError>)
    ensures
        match emit_all(segment@.statements, symbols_view(symbols@)) {
            Ok(ws) => (r matches Ok(o) && o.origin == segment.origin && o.words@ == ws),
            Err(e) => (r matches Err(x) && x@ == e),
        },
{
    let ghost stmts = statements_view(segment.statements@);
    let ghost sv = symbols_view(symbols@);
    let mut words: Vec<u16> = Vec::new();
    let mut k: usize = 0;
    proof {
        assert(stmts.take(0) =~= Seq::<StatementSpec>::empty());
    }
    while k < segment.statements.len()
        invariant
            k <= segment.statements@.len(),
            stmts == statements_view(segment.statements@),
            sv == symbols_view(symbols@),
            emit_all(stmts.take(k as int), sv) == Ok::<Seq<u16>, AsmErrorSpec>(words@),
        decreases segment.statements.len() - k,
    {
        proof {
            assert(stmts.take(k + 1).drop_last() =~= stmts.take(k as int));
            assert(stmts.take(k + 1).last() == segment.statements@[k as int]@);
        }
        match emit(&segment.statements[k], symbols, &mut words) {
            Ok(()) => {},
            Err(e) => {
                proof {
                    lemma_emit_all_prefix_error(stmts, k + 1, sv);
                }
                return Err(e);
            },
        }
        k += 1;
    }
    proof {
        assert(stmts.take(stmts.len() as int) =~= stmts);
    }
    Ok(ObjectFile { origin: segment.origin, words })
}

/// Assembles LC-3 `source` into an [`Image`].
///
/// Runs both passes: [`parse`] lays out addresses and the symbol table, then
/// each statement is encoded into machine words with its label references
/// resolved and its fields range-checked. Each segment becomes one block.
///
/// Returns an [`AsmError`] for a first-pass fault, an undefined label, or a
/// value too large for its field.
pub fn assemble(source: &str) -> (r: Result<Image, AsmError>)
    requires
        byte_len(source@) < usize::MAX,
    ensures
        match assemble_spec(source@) {
            Ok(bs) => (r matches Ok(image) && blocks_view(image.blocks@) == bs),
            Err(e) => (r matches Err(x) && x@ == e),
        },
{
    let program = match parse(source) {
        Ok(p) => p,
        Err(e) => return Err(AsmError::Parse(e)),
    };
    let ghost segs = segments_view(program.segments@);
    let ghost sv = symbols_view(program.symbols@);
    let mut blocks: Vec<ObjectFile> = Vec::new();
    let mut k: usize = 0;
    proof {
        assert(segs.take(0) =~= Seq::<SegmentSpec>::empty());
        assert(blocks_view(blocks@) =~= Seq::<(u16, Seq<u16>)>::empty());
        assert(assemble_spec(source@) == blocks_spec(segs, sv));
    }
    while k < program.segments.len()
        invariant
            k <= program.segments@.len(),
            assemble_spec(source@) == blocks_spec(segs, sv),
            segs == segments_view(program.segments@),
            sv == symbols_view(program.symbols@),
            blocks_spec(segs.take(k as int), sv) == Ok::<Seq<(u16, Seq<u16>)>, AsmErrorSpec>(
                blocks_view(blocks@),
            ),
        decreases program.segments.len() - k,
    {
        proof {
            assert(segs.take(k + 1).drop_last() =~= segs.take(k as int));
            assert(segs.take(k + 1).last() == program.segments@[k as int]@);
        }
        match encode_segment(&program.segments[k], program.symbols.as_slice()) {
            Ok(block) => {
                let ghost before = blocks@;
                blocks.push(block);
                proof {
                    assert(blocks_view(blocks@) =~= blocks_view(before).push((block.origin, block.words@)));
                }
            },
            Err(e) => {
                proof {
                    lemma_blocks_prefix_error(segs, k + 1, sv);
                }
                return Err(e);
            },
        }
        k += 1;
    }
    proof {
        assert(segs.take(segs.len() as int) =~= segs);
    }
    Ok(Image { blocks })
}

/// Each segment becomes its own block: an assembled program has one block
/// per segment, in order, each at its segment's origin.
pub proof fn lemma_one_block_per_segment(segments: Seq<SegmentSpec>, symbols: Seq<(Seq<char>, u16)>)
    requires
        blocks_spec(segments, symbols) is Ok,
    ensures
        blocks_spec(segments, symbols)->Ok_0.len() == segments.len(),
        forall|i: int|
            0 <= i < segments.len() ==> #[trigger] blocks_spec(segments, symbols)->Ok_0[i].0
                == segments[i].origin,
    decreases segments.len(),
{
    if segments.len() > 0 {
        lemma_one_block_per_segment(segments.drop_last(), symbols);
        let bs = blocks_spec(segments.drop_last(), symbols)->Ok_0;
        assert forall|i: int| 0 <= i < segments.len() implies #[trigger] blocks_spec(
            segments,
            symbols,
        )->Ok_0[i].0 == segments[i].origin by {
            if i < segments.len() - 1 {
                assert(blocks_spec(segments.drop_last(), symbols)->Ok_0[i].0
                    == segments.drop_last()[i].origin);
            }
        }
    }
}

/// A statement's words are as many as it occupies: the second pass emits
/// exactly the words the first pass laid out.
pub proof fn lemma_emit_size(s: StatementSpec, symbols: Seq<(Seq<char>, u16)>)
    requires
        emit_spec(s, symbols) is Ok,
    ensures
        emit_spec(s, symbols)->Ok_0.len() == crate::parser::size_spec(s.operation),
{
    if let OperationSpec::Stringz { text } = s.operation {
        lemma_string_words_len(text, s.line);
    }
}

proof fn lemma_string_words_len(text: Seq<char>, line: usize)
    ensures
        string_words(text, line) is Ok ==> string_words(text, line)->Ok_0.len() == text.len(),
    decreases text.len(),
{
    if text.len() > 0 {
        lemma_string_words_len(text.drop_last(), line);
    }
}

} // verus!
