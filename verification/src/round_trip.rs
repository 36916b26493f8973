//! Re-assembling a listing: the assembler read back over what the
//! disassembler writes.
//!
//! A listing line names each word by the operation it decodes to, so the
//! assembler's first pass reads back, line for line, the operation the word
//! encodes, and its second pass encodes that operation into the very word.
//! The one way this can fail inside a well-placed image is a PC-relative
//! reference whose target wraps through the top or the bottom of the address
//! space onto a labelled word: the listing then names the label, and the
//! distance to the label no longer fits the field.
use vstd::prelude::*;

use crate::bits::{field_span, signed_field_spec, unsigned_field_spec};
use crate::codegen::{emit_spec, resolve_spec};
use crate::instruction::{decode_spec, field, lemma_decode_encode, Instruction};
use crate::lexer::{is_ident_char, scan_spec, Lexeme, Located};
use crate::listing::{body_text, fill_text, label_text, operation_text, pc_target, reg, sep};
use crate::opcode::{lemma_mnemonic_round_trip, Opcode};
use crate::parser::{
    after_label_spec, classify_mnemonic_spec, directive_spec, lexeme_at, line_spec, lookup,
    operation_spec, FillSpec, LineBodySpec, Mnemonic, OperationSpec, StatementSpec, TargetSpec,
};
use crate::pseudo::PseudoOp;
use crate::reading::{
    lemma_pieces_no_break, lemma_scan_comment, lemma_scan_pieces, lemma_scan_spaces, lex_prefix, no_break,
    scanned, all_ident, lexemes_of, needs_break, piece_lexemes, piece_ok, piece_text, pieces_lexemes, pieces_ok,
    pieces_text, Piece,
};
use crate::register::{
    branch_condition_spec, branch_text, lemma_branch_round_trip, lemma_register_round_trip,
    register_spec, register_text,
};
use crate::text::{pad_right, spaces, hex_char, hex2, hex4, lemma_hex2_reads, lemma_hex4_reads, lemma_hex_char_reads, upper, upper_seq};
use crate::trap::{lemma_trap_round_trip, TrapVector};

verus! {

/// The operand a listing writes for a PC-relative offset at `address`: the
/// label of the target when it carries one, the offset itself otherwise.
pub open spec fn target_operand(address: u16, offset: i16, labels: Set<u16>) -> TargetSpec {
    let t = pc_target(address, offset);
    if labels.contains(t) {
        TargetSpec::Label(label_text(t))
    } else {
        TargetSpec::Offset(offset as i32)
    }
}

/// The operation the assembler reads back from the listing line of `word`
/// at `address`.
pub open spec fn listed_operation(word: u16, address: u16, labels: Set<u16>) -> OperationSpec {
    match decode_spec(word) {
        Instruction::AluReg { op, dr, sr1, sr2 } => OperationSpec::AluReg { op, dr, sr1, sr2 },
        Instruction::AluImm { op, dr, sr1, imm } => OperationSpec::AluImm {
            op,
            dr,
            sr1,
            imm: imm as i32,
        },
        Instruction::Not { dr, sr } => OperationSpec::Not { dr, sr },
        Instruction::Branch { cond, offset } => OperationSpec::Branch {
            cond,
            target: target_operand(address, offset, labels),
        },
        Instruction::BaseReg { op, base } => OperationSpec::BaseReg { op, base },
        Instruction::Jsr { offset } => OperationSpec::Jsr { target: target_operand(address, offset, labels) },
        Instruction::PcRelative { op, reg, offset } => OperationSpec::PcRelative {
            op,
            reg,
            target: target_operand(address, offset, labels),
        },
        Instruction::BaseOffset { op, reg, base, offset } => OperationSpec::BaseOffset {
            op,
            reg,
            base,
            offset: offset as i32,
        },
        Instruction::Trap { vector } => OperationSpec::Trap { vector: vector as i32 },
        Instruction::Rti => OperationSpec::Rti,
        Instruction::Data(w) => OperationSpec::Fill(FillSpec::Number(w as i32)),
    }
}

/// The PC-relative offset a word carries, if it is a PC-relative instruction.
pub open spec fn pc_offset_of(word: u16) -> Option<i16> {
    match decode_spec(word) {
        Instruction::Branch { offset, .. } => Some(offset),
        Instruction::Jsr { offset } => Some(offset),
        Instruction::PcRelative { offset, .. } => Some(offset),
        _ => None,
    }
}

/// Whether the word at `address` reaches a labelled target only without
/// wrapping through either end of the address space.
pub open spec fn reaches_plainly(word: u16, address: u16, labels: Set<u16>) -> bool {
    match pc_offset_of(word) {
        Some(offset) => labels.contains(pc_target(address, offset)) ==> 0 <= address + 1 + offset
            < 0x1_0000,
        None => true,
    }
}

/// Whether a symbol table names every label of `labels` by its address.
pub open spec fn names_labels(symbols: Seq<(Seq<char>, u16)>, labels: Set<u16>) -> bool {
    forall|t: u16| #[trigger] labels.contains(t) ==> lookup(symbols, label_text(t)) == Some(t)
}

/// A decoded word's fields lie within their widths.
pub proof fn lemma_decoded_fields(w: u16)
    ensures
        decode_spec(w).well_formed(),
{
    let dr = (w >> 9) & 0x7;
    let sr1 = (w >> 6) & 0x7;
    assert(dr < 8 && sr1 < 8 && w & 0x7 < 8 && w & 0xFF < 256 && -16 <= (crate::bits::spec_sign_extend(
        w & 0x1F,
        5,
    ) as i16) < 16 && -32 <= (crate::bits::spec_sign_extend(w & 0x3F, 6) as i16) < 32 && -256 <= (
    crate::bits::spec_sign_extend(w & 0x1FF, 9) as i16) < 256 && -1024 <= (crate::bits::spec_sign_extend(
        w & 0x7FF,
        11,
    ) as i16) < 1024) by (bit_vector)
        requires
            dr == (w >> 9) & 0x7,
            sr1 == (w >> 6) & 0x7,
    ;
    assert(field(w, 0x1F, 5) == crate::bits::spec_sign_extend(w & 0x1F, 5) as i16);
    assert(field(w, 0x3F, 6) == crate::bits::spec_sign_extend(w & 0x3F, 6) as i16);
    assert(field(w, 0x1FF, 9) == crate::bits::spec_sign_extend(w & 0x1FF, 9) as i16);
    assert(field(w, 0x7FF, 11) == crate::bits::spec_sign_extend(w & 0x7FF, 11) as i16);
}

/// An in-range signed value fits its field as its low bits.
proof fn lemma_signed_field_low_bits(v: i16)
    ensures
        -16 <= v < 16 ==> signed_field_spec(v as i32, 5) == Some((v as u16) & 0x1F),
        -32 <= v < 32 ==> signed_field_spec(v as i32, 6) == Some((v as u16) & 0x3F),
        -256 <= v < 256 ==> signed_field_spec(v as i32, 9) == Some((v as u16) & 0x1FF),
        -1024 <= v < 1024 ==> signed_field_spec(v as i32, 11) == Some((v as u16) & 0x7FF),
{
    reveal_with_fuel(field_span, 12);
    assert(field_span(5) == 32);
    assert(field_span(6) == 64);
    assert(field_span(9) == 512);
    assert(field_span(11) == 2048);
    assert((-16 <= v < 0 ==> ((v + 32) as u16) == ((v as u16) & 0x1F)) && (0 <= v < 16 ==> (v as u16) == ((v as u16)
        & 0x1F)) && (-32 <= v < 0 ==> ((v + 64) as u16) == ((v as u16) & 0x3F)) && (0 <= v < 32 ==> (v as u16) == ((v
        as u16) & 0x3F)) && (-256 <= v < 0 ==> ((v + 512) as u16) == ((v as u16) & 0x1FF)) && (0 <= v < 256 ==> (v
        as u16) == ((v as u16) & 0x1FF)) && (-1024 <= v < 0 ==> ((v + 2048) as u16) == ((v as u16) & 0x7FF)) && (0
        <= v < 1024 ==> (v as u16) == ((v as u16) & 0x7FF))) by (bit_vector);
}

/// A listed PC-relative operand resolves to the offset it was rendered from.
proof fn lemma_target_resolves(
    address: u16,
    offset: i16,
    labels: Set<u16>,
    line: usize,
    symbols: Seq<(Seq<char>, u16)>,
)
    requires
        names_labels(symbols, labels),
        labels.contains(pc_target(address, offset)) ==> 0 <= address + 1 + offset < 0x1_0000,
    ensures
        resolve_spec(target_operand(address, offset, labels), address, line, symbols) == Ok::<
            i32,
            crate::codegen::AsmErrorSpec,
        >(offset as i32),
{
    let t = pc_target(address, offset);
    if labels.contains(t) {
        assert(lookup(symbols, label_text(t)) == Some(t));
        assert(t == address + 1 + offset) by {
            vstd::arithmetic::div_mod::lemma_small_mod((address + 1 + offset) as nat, 0x1_0000);
        }
    }
}

/// The opcode nibbles the assembler shifts into place.
proof fn lemma_opcode_shifts(cond: u16, f: u16)
    ensures
        (9u16 << 12u16) == 0x9000u16,
        (4u16 << 12u16) == 0x4000u16,
        (15u16 << 12u16) == 0xF000u16,
        (8u16 << 12u16) == 0x8000u16,
        ((0u16 << 12u16) | (cond << 9u16) | f) == ((cond << 9u16) | f),
{
    assert((9u16 << 12u16) == 0x9000u16 && (4u16 << 12u16) == 0x4000u16 && (15u16 << 12u16) == 0xF000u16 && (8u16
        << 12u16) == 0x8000u16 && ((0u16 << 12u16) | (cond << 9u16) | f) == ((cond << 9u16) | f)) by (bit_vector);
}

/// Re-encoding the operation a listing line reads back gives the word the
/// line was rendered from.
pub proof fn lemma_listed_operation_encodes(
    word: u16,
    address: u16,
    labels: Set<u16>,
    line: usize,
    symbols: Seq<(Seq<char>, u16)>,
)
    requires
        names_labels(symbols, labels),
        reaches_plainly(word, address, labels),
    ensures
        emit_spec(
            StatementSpec { address, line, operation: listed_operation(word, address, labels) },
            symbols,
        ) == Ok::<Seq<u16>, crate::codegen::AsmErrorSpec>(seq![word]),
{
    lemma_decode_encode(word);
    lemma_decoded_fields(word);
    let i = decode_spec(word);
    match i {
        Instruction::AluReg { .. } => {},
        Instruction::AluImm { imm, .. } => {
            lemma_signed_field_low_bits(imm);
        },
        Instruction::Not { dr, sr } => {
            lemma_opcode_shifts(0, 0);
        },
        Instruction::Branch { cond, offset } => {
            lemma_signed_field_low_bits(offset);
            lemma_target_resolves(address, offset, labels, line, symbols);
            lemma_opcode_shifts(cond, (offset as u16) & 0x1FF);
        },
        Instruction::BaseReg { .. } => {},
        Instruction::Jsr { offset } => {
            lemma_signed_field_low_bits(offset);
            lemma_target_resolves(address, offset, labels, line, symbols);
            lemma_opcode_shifts(0, 0);
        },
        Instruction::PcRelative { offset, .. } => {
            lemma_signed_field_low_bits(offset);
            lemma_target_resolves(address, offset, labels, line, symbols);
        },
        Instruction::BaseOffset { offset, .. } => {
            lemma_signed_field_low_bits(offset);
        },
        Instruction::Trap { vector } => {
            reveal_with_fuel(field_span, 9);
            lemma_opcode_shifts(0, 0);
        },
        Instruction::Rti => {
            lemma_opcode_shifts(0, 0);
        },
        Instruction::Data(_) => {},
    }
}

/// The lexeme a listing writes for a PC-relative operand.
pub open spec fn target_lexeme(address: u16, offset: i16, labels: Set<u16>) -> Lexeme {
    let t = pc_target(address, offset);
    if labels.contains(t) {
        Lexeme::Word(label_text(t))
    } else {
        Lexeme::Number(offset as i32)
    }
}

/// The lexemes of the assembly text of `word` at `address`.
pub open spec fn body_lexemes(word: u16, address: u16, labels: Set<u16>) -> Seq<Lexeme> {
    match decode_spec(word) {
        Instruction::AluReg { op, dr, sr1, sr2 } => seq![
            Lexeme::Word(op.mnemonic_text().unwrap()),
            Lexeme::Word(register_text(dr)),
            Lexeme::Comma,
            Lexeme::Word(register_text(sr1)),
            Lexeme::Comma,
            Lexeme::Word(register_text(sr2)),
        ],
        Instruction::AluImm { op, dr, sr1, imm } => seq![
            Lexeme::Word(op.mnemonic_text().unwrap()),
            Lexeme::Word(register_text(dr)),
            Lexeme::Comma,
            Lexeme::Word(register_text(sr1)),
            Lexeme::Comma,
            Lexeme::Number(imm as i32),
        ],
        Instruction::Not { dr, sr } => seq![
            Lexeme::Word(seq!['N', 'O', 'T']),
            Lexeme::Word(register_text(dr)),
            Lexeme::Comma,
            Lexeme::Word(register_text(sr)),
        ],
        Instruction::Branch { cond, offset } => seq![
            Lexeme::Word(branch_text(cond).unwrap()),
            target_lexeme(address, offset, labels),
        ],
        Instruction::BaseReg { op, base } => if op == Opcode::Jmp && base == 7 {
            seq![Lexeme::Word(seq!['R', 'E', 'T'])]
        } else if op == Opcode::Jmp {
            seq![Lexeme::Word(seq!['J', 'M', 'P']), Lexeme::Word(register_text(base))]
        } else {
            seq![Lexeme::Word(seq!['J', 'S', 'R', 'R']), Lexeme::Word(register_text(base))]
        },
        Instruction::Jsr { offset } => seq![
            Lexeme::Word(seq!['J', 'S', 'R']),
            target_lexeme(address, offset, labels),
        ],
        Instruction::PcRelative { op, reg, offset } => seq![
            Lexeme::Word(op.mnemonic_text().unwrap()),
            Lexeme::Word(register_text(reg)),
            Lexeme::Comma,
            target_lexeme(address, offset, labels),
        ],
        Instruction::BaseOffset { op, reg, base, offset } => seq![
            Lexeme::Word(op.mnemonic_text().unwrap()),
            Lexeme::Word(register_text(reg)),
            Lexeme::Comma,
            Lexeme::Word(register_text(base)),
            Lexeme::Comma,
            Lexeme::Number(offset as i32),
        ],
        Instruction::Trap { vector } => match TrapVector::of_vector(vector) {
            Some(t) => seq![Lexeme::Word(t.alias())],
            None => seq![Lexeme::Word(seq!['T', 'R', 'A', 'P']), Lexeme::Number(vector as i32)],
        },
        Instruction::Rti => seq![Lexeme::Word(seq!['R', 'T', 'I'])],
        Instruction::Data(w) => seq![
            Lexeme::Directive(seq!['.', 'F', 'I', 'L', 'L']),
            Lexeme::Number(w as i32),
        ],
    }
}

/// The label a listing line opens with, if its address carries one.
pub open spec fn line_label(address: u16, labels: Set<u16>) -> Option<Seq<char>> {
    if labels.contains(address) {
        Some(label_text(address))
    } else {
        None
    }
}

/// The lexemes of a listing line before its comment.
pub open spec fn line_lexemes(word: u16, address: u16, labels: Set<u16>) -> Seq<Lexeme> {
    match line_label(address, labels) {
        Some(l) => seq![Lexeme::Word(l)] + body_lexemes(word, address, labels),
        None => body_lexemes(word, address, labels),
    }
}

/// How the first pass reads a statement body from its tokens.
pub open spec fn body_reads(bs: Seq<Located>, line: usize, op: OperationSpec) -> bool {
    match lexeme_at(bs, 0) {
        Some(Lexeme::Word(w)) => (classify_mnemonic_spec(w) matches Some(m) && operation_spec(
            m,
            w,
            bs.skip(1),
            line,
        ) == Ok::<LineBodySpec, crate::parser::ParseErrorSpec>(LineBodySpec::Statement(op))),
        Some(Lexeme::Directive(d)) => directive_spec(d, bs.skip(1), line) == Ok::<
            LineBodySpec,
            crate::parser::ParseErrorSpec,
        >(LineBodySpec::Statement(op)),
        _ => false,
    }
}

/// Tokens with known lexemes read as those lexemes.
proof fn lemma_reading(ts: Seq<Located>, ls: Seq<Lexeme>)
    requires
        lexemes_of(ts) == ls,
    ensures
        ts.len() == ls.len(),
        forall|i: int| #[trigger] lexeme_at(ts, i) == (if 0 <= i < ls.len() {
            Some(ls[i])
        } else {
            None
        }),
        ts.len() >= 1 ==> lexemes_of(ts.skip(1)) == ls.skip(1),
{
    assert(ts.len() == lexemes_of(ts).len());
    assert forall|i: int| #[trigger] lexeme_at(ts, i) == (if 0 <= i < ls.len() {
        Some(ls[i])
    } else {
        None
    }) by {
        if 0 <= i < ls.len() {
            assert(lexemes_of(ts)[i] == ts[i].lexeme);
        }
    }
    if ts.len() >= 1 {
        assert(lexemes_of(ts.skip(1)) =~= ls.skip(1));
    }
}

/// A machine mnemonic reads as its operation, never as a branch or a trap
/// alias.
proof fn lemma_mnemonic_classifies(op: Opcode)
    requires
        op.mnemonic_text() is Some,
    ensures
        classify_mnemonic_spec(op.mnemonic_text().unwrap()) == Some(Mnemonic::Op(op)),
{
    lemma_mnemonic_round_trip(op);
    let t = op.mnemonic_text().unwrap();
    assert(upper_seq(t) =~= t);
    assert(t[0] != 'B');
    assert(TrapVector::parse_spec(t) is None) by {
        assert(t.len() <= 3 || t == seq!['T', 'R', 'A', 'P']);
    }
}

/// A synthesized label reads as no mnemonic.
proof fn lemma_label_is_no_mnemonic(t: u16)
    ensures
        classify_mnemonic_spec(label_text(t)) is None,
{
    let l = label_text(t);
    let u = upper_seq(l);
    assert(u.len() == 6);
    assert(u[0] == 'L');
}

/// `ADD`/`AND` in register mode reads back.
proof fn lemma_reads_alu_reg(op: Opcode, dr: u16, sr1: u16, sr2: u16, bs: Seq<Located>, line: usize)
    requires
        op == Opcode::Add || op == Opcode::And,
        dr < 8 && sr1 < 8 && sr2 < 8,
        lexemes_of(bs) == seq![
            Lexeme::Word(op.mnemonic_text().unwrap()),
            Lexeme::Word(register_text(dr)),
            Lexeme::Comma,
            Lexeme::Word(register_text(sr1)),
            Lexeme::Comma,
            Lexeme::Word(register_text(sr2)),
        ],
    ensures
        body_reads(bs, line, OperationSpec::AluReg { op, dr, sr1, sr2 }),
{
    lemma_reading(bs, lexemes_of(bs));
    lemma_reading(bs.skip(1), lexemes_of(bs).skip(1));
    lemma_mnemonic_classifies(op);
    lemma_register_round_trip(dr);
    lemma_register_round_trip(sr1);
    lemma_register_round_trip(sr2);
}

/// `ADD`/`AND` in immediate mode reads back.
proof fn lemma_reads_alu_imm(op: Opcode, dr: u16, sr1: u16, imm: i32, bs: Seq<Located>, line: usize)
    requires
        op == Opcode::Add || op == Opcode::And,
        dr < 8 && sr1 < 8,
        lexemes_of(bs) == seq![
            Lexeme::Word(op.mnemonic_text().unwrap()),
            Lexeme::Word(register_text(dr)),
            Lexeme::Comma,
            Lexeme::Word(register_text(sr1)),
            Lexeme::Comma,
            Lexeme::Number(imm),
        ],
    ensures
        body_reads(bs, line, OperationSpec::AluImm { op, dr, sr1, imm }),
{
    lemma_reading(bs, lexemes_of(bs));
    lemma_reading(bs.skip(1), lexemes_of(bs).skip(1));
    lemma_mnemonic_classifies(op);
    lemma_register_round_trip(dr);
    lemma_register_round_trip(sr1);
}

/// `NOT` reads back.
proof fn lemma_reads_not(dr: u16, sr: u16, bs: Seq<Located>, line: usize)
    requires
        dr < 8 && sr < 8,
        lexemes_of(bs) == seq![
            Lexeme::Word(seq!['N', 'O', 'T']),
            Lexeme::Word(register_text(dr)),
            Lexeme::Comma,
            Lexeme::Word(register_text(sr)),
        ],
    ensures
        body_reads(bs, line, OperationSpec::Not { dr, sr }),
{
    lemma_reading(bs, lexemes_of(bs));
    lemma_reading(bs.skip(1), lexemes_of(bs).skip(1));
    lemma_mnemonic_classifies(Opcode::Not);
    lemma_register_round_trip(dr);
    lemma_register_round_trip(sr);
}

/// A branch reads back.
proof fn lemma_reads_branch(cond: u16, target: Lexeme, operand: TargetSpec, bs: Seq<Located>, line: usize)
    requires
        1 <= cond <= 7,
        lexemes_of(bs) == seq![Lexeme::Word(branch_text(cond).unwrap()), target],
        (target matches Lexeme::Word(w) && operand == TargetSpec::Label(w)) || (target matches Lexeme::Number(v)
            && operand == TargetSpec::Offset(v)),
    ensures
        body_reads(bs, line, OperationSpec::Branch { cond, target: operand }),
{
    lemma_reading(bs, lexemes_of(bs));
    lemma_reading(bs.skip(1), lexemes_of(bs).skip(1));
    lemma_branch_round_trip(cond);
}

/// `JSR` reads back.
proof fn lemma_reads_jsr(target: Lexeme, operand: TargetSpec, bs: Seq<Located>, line: usize)
    requires
        lexemes_of(bs) == seq![Lexeme::Word(seq!['J', 'S', 'R']), target],
        (target matches Lexeme::Word(w) && operand == TargetSpec::Label(w)) || (target matches Lexeme::Number(v)
            && operand == TargetSpec::Offset(v)),
    ensures
        body_reads(bs, line, OperationSpec::Jsr { target: operand }),
{
    lemma_reading(bs, lexemes_of(bs));
    lemma_reading(bs.skip(1), lexemes_of(bs).skip(1));
    lemma_mnemonic_classifies(Opcode::Jsr);
    let t = seq!['J', 'S', 'R'];
    assert(upper_seq(t) =~= t);
    assert(upper_seq(t) != seq!['J', 'S', 'R', 'R']);
}

/// A PC-relative load or store reads back.
proof fn lemma_reads_pc_relative(op: Opcode, reg: u16, target: Lexeme, operand: TargetSpec, bs: Seq<Located>, line: usize)
    requires
        op == Opcode::Ld || op == Opcode::Ldi || op == Opcode::Lea || op == Opcode::St || op == Opcode::Sti,
        reg < 8,
        lexemes_of(bs) == seq![
            Lexeme::Word(op.mnemonic_text().unwrap()),
            Lexeme::Word(register_text(reg)),
            Lexeme::Comma,
            target,
        ],
        (target matches Lexeme::Word(w) && operand == TargetSpec::Label(w)) || (target matches Lexeme::Number(v)
            && operand == TargetSpec::Offset(v)),
    ensures
        body_reads(bs, line, OperationSpec::PcRelative { op, reg, target: operand }),
{
    lemma_reading(bs, lexemes_of(bs));
    lemma_reading(bs.skip(1), lexemes_of(bs).skip(1));
    lemma_mnemonic_classifies(op);
    lemma_register_round_trip(reg);
}

/// A base-plus-offset load or store reads back.
proof fn lemma_reads_base_offset(op: Opcode, reg: u16, base: u16, offset: i32, bs: Seq<Located>, line: usize)
    requires
        op == Opcode::Ldr || op == Opcode::Str,
        reg < 8 && base < 8,
        lexemes_of(bs) == seq![
            Lexeme::Word(op.mnemonic_text().unwrap()),
            Lexeme::Word(register_text(reg)),
            Lexeme::Comma,
            Lexeme::Word(register_text(base)),
            Lexeme::Comma,
            Lexeme::Number(offset),
        ],
    ensures
        body_reads(bs, line, OperationSpec::BaseOffset { op, reg, base, offset }),
{
    lemma_reading(bs, lexemes_of(bs));
    lemma_reading(bs.skip(1), lexemes_of(bs).skip(1));
    lemma_mnemonic_classifies(op);
    lemma_register_round_trip(reg);
    lemma_register_round_trip(base);
}

/// `RET`, `JMP` and `JSRR` read back.
proof fn lemma_reads_base_reg(op: Opcode, base: u16, bs: Seq<Located>, line: usize)
    requires
        op == Opcode::Jmp || op == Opcode::Jsr,
        base < 8,
        lexemes_of(bs) == (if op == Opcode::Jmp && base == 7 {
            seq![Lexeme::Word(seq!['R', 'E', 'T'])]
        } else if op == Opcode::Jmp {
            seq![Lexeme::Word(seq!['J', 'M', 'P']), Lexeme::Word(register_text(base))]
        } else {
            seq![Lexeme::Word(seq!['J', 'S', 'R', 'R']), Lexeme::Word(register_text(base))]
        }),
    ensures
        body_reads(bs, line, OperationSpec::BaseReg { op, base }),
{
    lemma_reading(bs, lexemes_of(bs));
    lemma_reading(bs.skip(1), lexemes_of(bs).skip(1));
    lemma_register_round_trip(base);
    if op == Opcode::Jmp && base == 7 {
        let t = seq!['R', 'E', 'T'];
        assert(upper_seq(t) =~= t);
        assert(classify_mnemonic_spec(t) == Some(Mnemonic::Op(Opcode::Jmp)));
    } else if op == Opcode::Jmp {
        lemma_mnemonic_classifies(Opcode::Jmp);
        let t = seq!['J', 'M', 'P'];
        assert(upper_seq(t) =~= t);
    } else {
        let t = seq!['J', 'S', 'R', 'R'];
        assert(upper_seq(t) =~= t);
        assert(classify_mnemonic_spec(t) == Some(Mnemonic::Op(Opcode::Jsr)));
    }
}

/// A trap, by alias or by number, reads back.
proof fn lemma_reads_trap(vector: u16, bs: Seq<Located>, line: usize)
    requires
        vector < 256,
        lexemes_of(bs) == (match TrapVector::of_vector(vector) {
            Some(t) => seq![Lexeme::Word(t.alias())],
            None => seq![Lexeme::Word(seq!['T', 'R', 'A', 'P']), Lexeme::Number(vector as i32)],
        }),
    ensures
        body_reads(bs, line, OperationSpec::Trap { vector: vector as i32 }),
{
    lemma_reading(bs, lexemes_of(bs));
    lemma_reading(bs.skip(1), lexemes_of(bs).skip(1));
    match TrapVector::of_vector(vector) {
        Some(t) => {
            lemma_trap_round_trip(t);
            let a = t.alias();
            assert(upper_seq(a) =~= a);
            assert(a[0] != 'B');
            assert(t.vector() == vector);
        },
        None => {
            lemma_mnemonic_classifies(Opcode::Trap);
        },
    }
}

/// `RTI` reads back.
proof fn lemma_reads_rti(bs: Seq<Located>, line: usize)
    requires
        lexemes_of(bs) == seq![Lexeme::Word(seq!['R', 'T', 'I'])],
    ensures
        body_reads(bs, line, OperationSpec::Rti),
{
    lemma_reading(bs, lexemes_of(bs));
    lemma_reading(bs.skip(1), lexemes_of(bs).skip(1));
    lemma_mnemonic_classifies(Opcode::Rti);
}

/// A `.FILL` of a number reads back.
proof fn lemma_reads_fill(value: i32, bs: Seq<Located>, line: usize)
    requires
        lexemes_of(bs) == seq![Lexeme::Directive(seq!['.', 'F', 'I', 'L', 'L']), Lexeme::Number(value)],
    ensures
        body_reads(bs, line, OperationSpec::Fill(FillSpec::Number(value))),
{
    lemma_reading(bs, lexemes_of(bs));
    lemma_reading(bs.skip(1), lexemes_of(bs).skip(1));
    let d = seq!['.', 'F', 'I', 'L', 'L'];
    assert(crate::pseudo::strip_dots(d.drop_first()) == d.drop_first());
    assert(crate::pseudo::strip_dots(d) == d.drop_first());
    assert(upper_seq(d.drop_first()) =~= seq!['F', 'I', 'L', 'L']);
    assert(PseudoOp::parse_spec(d) == Some(PseudoOp::Fill));
}

/// The body of a listing line reads as the listed operation.
proof fn lemma_body_reads(word: u16, address: u16, labels: Set<u16>, bs: Seq<Located>, line: usize)
    requires
        lexemes_of(bs) == body_lexemes(word, address, labels),
    ensures
        body_reads(bs, line, listed_operation(word, address, labels)),
{
    lemma_decoded_fields(word);
    match decode_spec(word) {
        Instruction::AluReg { op, dr, sr1, sr2 } => lemma_reads_alu_reg(op, dr, sr1, sr2, bs, line),
        Instruction::AluImm { op, dr, sr1, imm } => lemma_reads_alu_imm(op, dr, sr1, imm as i32, bs, line),
        Instruction::Not { dr, sr } => lemma_reads_not(dr, sr, bs, line),
        Instruction::Branch { cond, offset } => lemma_reads_branch(
            cond,
            target_lexeme(address, offset, labels),
            target_operand(address, offset, labels),
            bs,
            line,
        ),
        Instruction::BaseReg { op, base } => lemma_reads_base_reg(op, base, bs, line),
        Instruction::Jsr { offset } => lemma_reads_jsr(
            target_lexeme(address, offset, labels),
            target_operand(address, offset, labels),
            bs,
            line,
        ),
        Instruction::PcRelative { op, reg, offset } => lemma_reads_pc_relative(
            op,
            reg,
            target_lexeme(address, offset, labels),
            target_operand(address, offset, labels),
            bs,
            line,
        ),
        Instruction::BaseOffset { op, reg, base, offset } => lemma_reads_base_offset(
            op,
            reg,
            base,
            offset as i32,
            bs,
            line,
        ),
        Instruction::Trap { vector } => lemma_reads_trap(vector, bs, line),
        Instruction::Rti => lemma_reads_rti(bs, line),
        Instruction::Data(w) => lemma_reads_fill(w as i32, bs, line),
    }
}

/// A listing line reads back as its label and the listed operation.
pub proof fn lemma_listed_line_parses(word: u16, address: u16, labels: Set<u16>, ts: Seq<Located>, line: usize)
    requires
        lexemes_of(ts) == line_lexemes(word, address, labels),
    ensures
        line_spec(ts, line) == Ok::<(Option<Seq<char>>, LineBodySpec), crate::parser::ParseErrorSpec>(
            (line_label(address, labels), LineBodySpec::Statement(listed_operation(word, address, labels))),
        ),
{
    let ls = line_lexemes(word, address, labels);
    lemma_reading(ts, ls);
    match line_label(address, labels) {
        Some(l) => {
            lemma_label_is_no_mnemonic(address);
            assert(ls.skip(1) =~= body_lexemes(word, address, labels));
            lemma_body_reads(word, address, labels, ts.skip(1), line);
            let rest = ts.skip(1);
            assert(after_label_spec(l, rest, line) == Ok::<(Option<Seq<char>>, LineBodySpec), crate::parser::ParseErrorSpec>(
                (Some(l), LineBodySpec::Statement(listed_operation(word, address, labels))),
            ));
        },
        None => {
            lemma_body_reads(word, address, labels, ts, line);
        },
    }
}


/// The piece a listing writes for a PC-relative operand.
pub open spec fn target_piece(address: u16, offset: i16, labels: Set<u16>) -> Piece {
    let t = pc_target(address, offset);
    if labels.contains(t) {
        Piece::Word(label_text(t))
    } else {
        Piece::Decimal(offset as i32)
    }
}

/// The pieces of the assembly text of `word` at `address`.
pub open spec fn body_pieces(word: u16, address: u16, labels: Set<u16>) -> Seq<Piece> {
    match decode_spec(word) {
        Instruction::AluReg { op, dr, sr1, sr2 } => seq![
            Piece::Word(op.mnemonic_text().unwrap()),
            Piece::Space,
            Piece::Word(register_text(dr)),
            Piece::Comma,
            Piece::Space,
            Piece::Word(register_text(sr1)),
            Piece::Comma,
            Piece::Space,
            Piece::Word(register_text(sr2)),
        ],
        Instruction::AluImm { op, dr, sr1, imm } => seq![
            Piece::Word(op.mnemonic_text().unwrap()),
            Piece::Space,
            Piece::Word(register_text(dr)),
            Piece::Comma,
            Piece::Space,
            Piece::Word(register_text(sr1)),
            Piece::Comma,
            Piece::Space,
            Piece::Decimal(imm as i32),
        ],
        Instruction::Not { dr, sr } => seq![
            Piece::Word(seq!['N', 'O', 'T']),
            Piece::Space,
            Piece::Word(register_text(dr)),
            Piece::Comma,
            Piece::Space,
            Piece::Word(register_text(sr)),
        ],
        Instruction::Branch { cond, offset } => seq![
            Piece::Word(branch_text(cond).unwrap()),
            Piece::Space,
            target_piece(address, offset, labels),
        ],
        Instruction::BaseReg { op, base } => if op == Opcode::Jmp && base == 7 {
            seq![Piece::Word(seq!['R', 'E', 'T'])]
        } else if op == Opcode::Jmp {
            seq![Piece::Word(seq!['J', 'M', 'P']), Piece::Space, Piece::Word(register_text(base))]
        } else {
            seq![Piece::Word(seq!['J', 'S', 'R', 'R']), Piece::Space, Piece::Word(register_text(base))]
        },
        Instruction::Jsr { offset } => seq![
            Piece::Word(seq!['J', 'S', 'R']),
            Piece::Space,
            target_piece(address, offset, labels),
        ],
        Instruction::PcRelative { op, reg, offset } => seq![
            Piece::Word(op.mnemonic_text().unwrap()),
            Piece::Space,
            Piece::Word(register_text(reg)),
            Piece::Comma,
            Piece::Space,
            target_piece(address, offset, labels),
        ],
        Instruction::BaseOffset { op, reg, base, offset } => seq![
            Piece::Word(op.mnemonic_text().unwrap()),
            Piece::Space,
            Piece::Word(register_text(reg)),
            Piece::Comma,
            Piece::Space,
            Piece::Word(register_text(base)),
            Piece::Comma,
            Piece::Space,
            Piece::Decimal(offset as i32),
        ],
        Instruction::Trap { vector } => match TrapVector::of_vector(vector) {
            Some(t) => seq![Piece::Word(t.alias())],
            None => seq![Piece::Word(seq!['T', 'R', 'A', 'P']), Piece::Space, Piece::Hex(hex2(vector))],
        },
        Instruction::Rti => seq![Piece::Word(seq!['R', 'T', 'I'])],
        Instruction::Data(w) => seq![
            Piece::Directive(seq!['F', 'I', 'L', 'L']),
            Piece::Space,
            Piece::Hex(hex4(w)),
        ],
    }
}

/// A register name is a well-formed word.
proof fn lemma_register_piece(r: u16)
    requires
        r < 8,
    ensures
        piece_ok(Piece::Word(register_text(r))),
{
    let t = register_text(r);
    assert(all_ident(t)) by {
        assert forall|j: int| 0 <= j < t.len() implies crate::lexer::is_ident_char(#[trigger] t[j]) by {
            if j == 1 {
                assert(crate::text::is_digit(t[1]));
            }
        }
    }
}

/// A synthesized label is a well-formed word.
proof fn lemma_label_piece(a: u16)
    ensures
        piece_ok(Piece::Word(label_text(a))),
{
    let t = label_text(a);
    lemma_hex4_reads(a);
    assert(all_ident(t)) by {
        assert forall|j: int| 0 <= j < t.len() implies crate::lexer::is_ident_char(#[trigger] t[j]) by {
            if j >= 2 {
                assert(t[j] == hex4(a)[j - 2]);
                assert(crate::text::is_hex_digit(hex4(a)[j - 2]));
            }
        }
    }
}

/// A word made of letters, led by one other than `x`, is a well-formed piece.
pub proof fn lemma_letters_piece(w: Seq<char>)
    requires
        w.len() >= 1,
        forall|j: int| 0 <= j < w.len() ==> crate::text::is_alpha(#[trigger] w[j]),
        w[0] != 'X' && w[0] != 'x',
    ensures
        piece_ok(Piece::Word(w)),
{
}

/// Whether `ps` is a well-formed run whose text is `text` and whose lexemes
/// are `ls`.
pub open spec fn pieces_read(ps: Seq<Piece>, text: Seq<char>, ls: Seq<Lexeme>) -> bool {
    pieces_ok(ps) && pieces_text(ps) == text && pieces_lexemes(ps) == ls
}

/// A piece in front of a run: texts and lexemes concatenate.
proof fn lemma_pieces_cons(p: Piece, ps: Seq<Piece>)
    ensures
        pieces_text(seq![p] + ps) == piece_text(p) + pieces_text(ps),
        pieces_lexemes(seq![p] + ps) == piece_lexemes(p) + pieces_lexemes(ps),
{
    assert((seq![p] + ps).drop_first() =~= ps);
}

/// The three-register and register-register-immediate forms.
proof fn lemma_alu_pieces(mn: Seq<char>, dr: u16, sr1: u16, last: Piece)
    requires
        piece_ok(Piece::Word(mn)),
        dr < 8 && sr1 < 8,
        piece_ok(last),
        needs_break(last),
    ensures
        pieces_read(
            seq![
                Piece::Word(mn),
                Piece::Space,
                Piece::Word(register_text(dr)),
                Piece::Comma,
                Piece::Space,
                Piece::Word(register_text(sr1)),
                Piece::Comma,
                Piece::Space,
                last,
            ],
            mn + seq![' '] + reg(dr) + sep() + reg(sr1) + sep() + piece_text(last),
            seq![
                Lexeme::Word(mn),
                Lexeme::Word(register_text(dr)),
                Lexeme::Comma,
                Lexeme::Word(register_text(sr1)),
                Lexeme::Comma,
            ] + piece_lexemes(last),
        ),
{
    lemma_register_piece(dr);
    lemma_register_piece(sr1);
    let ps = seq![
        Piece::Word(mn),
        Piece::Space,
        Piece::Word(register_text(dr)),
        Piece::Comma,
        Piece::Space,
        Piece::Word(register_text(sr1)),
        Piece::Comma,
        Piece::Space,
        last,
    ];
    lemma_pieces_cons(last, seq![]);
    assert(seq![last] + Seq::<Piece>::empty() =~= seq![last]);
    reveal_with_fuel(pieces_text, 2);
    reveal_with_fuel(pieces_lexemes, 2);
    assert(ps.skip(8) =~= seq![last]);
    assert(ps.skip(7) =~= seq![Piece::Space] + ps.skip(8));
    lemma_pieces_cons(Piece::Space, ps.skip(8));
    assert(ps.skip(6) =~= seq![Piece::Comma] + ps.skip(7));
    lemma_pieces_cons(Piece::Comma, ps.skip(7));
    assert(ps.skip(5) =~= seq![Piece::Word(register_text(sr1))] + ps.skip(6));
    lemma_pieces_cons(Piece::Word(register_text(sr1)), ps.skip(6));
    assert(ps.skip(4) =~= seq![Piece::Space] + ps.skip(5));
    lemma_pieces_cons(Piece::Space, ps.skip(5));
    assert(ps.skip(3) =~= seq![Piece::Comma] + ps.skip(4));
    lemma_pieces_cons(Piece::Comma, ps.skip(4));
    assert(ps.skip(2) =~= seq![Piece::Word(register_text(dr))] + ps.skip(3));
    lemma_pieces_cons(Piece::Word(register_text(dr)), ps.skip(3));
    assert(ps.skip(1) =~= seq![Piece::Space] + ps.skip(2));
    lemma_pieces_cons(Piece::Space, ps.skip(2));
    assert(ps =~= seq![Piece::Word(mn)] + ps.skip(1));
    lemma_pieces_cons(Piece::Word(mn), ps.skip(1));
    assert(pieces_text(ps) =~= mn + seq![' '] + reg(dr) + sep() + reg(sr1) + sep() + piece_text(last));
    assert(pieces_lexemes(ps) =~= seq![
        Lexeme::Word(mn),
        Lexeme::Word(register_text(dr)),
        Lexeme::Comma,
        Lexeme::Word(register_text(sr1)),
        Lexeme::Comma,
    ] + piece_lexemes(last));
}

/// A piece, a space, and a second piece.
pub proof fn lemma_pair_pieces(first: Piece, second: Piece)
    requires
        piece_ok(first),
        piece_ok(second),
    ensures
        pieces_read(
            seq![first, Piece::Space, second],
            piece_text(first) + seq![' '] + piece_text(second),
            piece_lexemes(first) + piece_lexemes(second),
        ),
{
    let ps = seq![first, Piece::Space, second];
    reveal_with_fuel(pieces_text, 2);
    reveal_with_fuel(pieces_lexemes, 2);
    lemma_pieces_cons(second, seq![]);
    assert(seq![second] + Seq::<Piece>::empty() =~= seq![second]);
    assert(ps.skip(2) =~= seq![second]);
    assert(ps.skip(1) =~= seq![Piece::Space] + ps.skip(2));
    lemma_pieces_cons(Piece::Space, ps.skip(2));
    assert(ps =~= seq![first] + ps.skip(1));
    lemma_pieces_cons(first, ps.skip(1));
    assert(pieces_text(ps) =~= piece_text(first) + seq![' '] + piece_text(second));
    assert(pieces_lexemes(ps) =~= piece_lexemes(first) + piece_lexemes(second));
}

/// A single word.
proof fn lemma_single_piece(w: Seq<char>)
    requires
        piece_ok(Piece::Word(w)),
    ensures
        pieces_read(seq![Piece::Word(w)], w, seq![Lexeme::Word(w)]),
{
    reveal_with_fuel(pieces_text, 2);
    reveal_with_fuel(pieces_lexemes, 2);
    assert(seq![Piece::Word(w)].drop_first() =~= Seq::<Piece>::empty());
    assert(w + Seq::<char>::empty() =~= w);
    assert(seq![Lexeme::Word(w)] + Seq::<Lexeme>::empty() =~= seq![Lexeme::Word(w)]);
}

/// A mnemonic, a register, a comma, and a last piece.
proof fn lemma_reg_pair_pieces(mn: Seq<char>, r: u16, last: Piece)
    requires
        piece_ok(Piece::Word(mn)),
        r < 8,
        piece_ok(last),
    ensures
        pieces_read(
            seq![Piece::Word(mn), Piece::Space, Piece::Word(register_text(r)), Piece::Comma, Piece::Space, last],
            mn + seq![' '] + reg(r) + sep() + piece_text(last),
            seq![Lexeme::Word(mn), Lexeme::Word(register_text(r)), Lexeme::Comma] + piece_lexemes(last),
        ),
{
    lemma_register_piece(r);
    let ps = seq![Piece::Word(mn), Piece::Space, Piece::Word(register_text(r)), Piece::Comma, Piece::Space, last];
    reveal_with_fuel(pieces_text, 2);
    reveal_with_fuel(pieces_lexemes, 2);
    lemma_pieces_cons(last, seq![]);
    assert(seq![last] + Seq::<Piece>::empty() =~= seq![last]);
    assert(ps.skip(5) =~= seq![last]);
    assert(ps.skip(4) =~= seq![Piece::Space] + ps.skip(5));
    lemma_pieces_cons(Piece::Space, ps.skip(5));
    assert(ps.skip(3) =~= seq![Piece::Comma] + ps.skip(4));
    lemma_pieces_cons(Piece::Comma, ps.skip(4));
    assert(ps.skip(2) =~= seq![Piece::Word(register_text(r))] + ps.skip(3));
    lemma_pieces_cons(Piece::Word(register_text(r)), ps.skip(3));
    assert(ps.skip(1) =~= seq![Piece::Space] + ps.skip(2));
    lemma_pieces_cons(Piece::Space, ps.skip(2));
    assert(ps =~= seq![Piece::Word(mn)] + ps.skip(1));
    lemma_pieces_cons(Piece::Word(mn), ps.skip(1));
    assert(pieces_text(ps) =~= mn + seq![' '] + reg(r) + sep() + piece_text(last));
    assert(pieces_lexemes(ps) =~= seq![Lexeme::Word(mn), Lexeme::Word(register_text(r)), Lexeme::Comma]
        + piece_lexemes(last));
}

/// Every machine mnemonic is a well-formed word.
proof fn lemma_mnemonic_piece(op: Opcode)
    requires
        op.mnemonic_text() is Some,
    ensures
        piece_ok(Piece::Word(op.mnemonic_text().unwrap())),
{
    lemma_letters_piece(op.mnemonic_text().unwrap());
}

/// The text of a target piece is the operand text the listing writes.
proof fn lemma_target_text(address: u16, offset: i16, labels: Set<u16>)
    ensures
        piece_text(target_piece(address, offset, labels)) == crate::listing::target_text(address, offset, labels),
        piece_lexemes(target_piece(address, offset, labels)) == seq![target_lexeme(address, offset, labels)],
        piece_ok(target_piece(address, offset, labels)),
{
    lemma_label_piece(pc_target(address, offset));
}

#[verifier::spinoff_prover]
proof fn lemma_body_pieces_alu_reg(word: u16, address: u16, labels: Set<u16>)
    requires
        decode_spec(word) is AluReg,
        decode_spec(word).well_formed(),
    ensures
        pieces_read(body_pieces(word, address, labels), body_text(word, address, labels), body_lexemes(word, address, labels)),
{
    let i = decode_spec(word);
    let ps = body_pieces(word, address, labels);
    if let Instruction::AluReg { op, dr, sr1, sr2 } = i {
            lemma_mnemonic_piece(op);
            lemma_register_piece(sr2);
            lemma_alu_pieces(op.mnemonic_text().unwrap(), dr, sr1, Piece::Word(register_text(sr2)));
    }
    assert(pieces_text(ps) =~= body_text(word, address, labels));
    assert(pieces_lexemes(ps) =~= body_lexemes(word, address, labels));
}

#[verifier::spinoff_prover]
proof fn lemma_body_pieces_alu_imm(word: u16, address: u16, labels: Set<u16>)
    requires
        decode_spec(word) is AluImm,
        decode_spec(word).well_formed(),
    ensures
        pieces_read(body_pieces(word, address, labels), body_text(word, address, labels), body_lexemes(word, address, labels)),
{
    let i = decode_spec(word);
    let ps = body_pieces(word, address, labels);
    if let Instruction::AluImm { op, dr, sr1, imm } = i {
            lemma_mnemonic_piece(op);
            lemma_alu_pieces(op.mnemonic_text().unwrap(), dr, sr1, Piece::Decimal(imm as i32));
    }
    assert(pieces_text(ps) =~= body_text(word, address, labels));
    assert(pieces_lexemes(ps) =~= body_lexemes(word, address, labels));
}

#[verifier::spinoff_prover]
proof fn lemma_body_pieces_not(word: u16, address: u16, labels: Set<u16>)
    requires
        decode_spec(word) is Not,
        decode_spec(word).well_formed(),
    ensures
        pieces_read(body_pieces(word, address, labels), body_text(word, address, labels), body_lexemes(word, address, labels)),
{
    let i = decode_spec(word);
    let ps = body_pieces(word, address, labels);
    if let Instruction::Not { dr, sr } = i {
            lemma_mnemonic_piece(Opcode::Not);
            lemma_register_piece(sr);
            lemma_reg_pair_pieces(seq!['N', 'O', 'T'], dr, Piece::Word(register_text(sr)));
    }
    assert(pieces_text(ps) =~= body_text(word, address, labels));
    assert(pieces_lexemes(ps) =~= body_lexemes(word, address, labels));
}

#[verifier::spinoff_prover]
proof fn lemma_body_pieces_branch(word: u16, address: u16, labels: Set<u16>)
    requires
        decode_spec(word) is Branch,
        decode_spec(word).well_formed(),
    ensures
        pieces_read(body_pieces(word, address, labels), body_text(word, address, labels), body_lexemes(word, address, labels)),
{
    let i = decode_spec(word);
    let ps = body_pieces(word, address, labels);
    if let Instruction::Branch { cond, offset } = i {
            lemma_letters_piece(branch_text(cond).unwrap());
            lemma_target_text(address, offset, labels);
            lemma_pair_pieces(Piece::Word(branch_text(cond).unwrap()), target_piece(address, offset, labels));
    }
    assert(pieces_text(ps) =~= body_text(word, address, labels));
    assert(pieces_lexemes(ps) =~= body_lexemes(word, address, labels));
}

#[verifier::spinoff_prover]
proof fn lemma_body_pieces_base_reg(word: u16, address: u16, labels: Set<u16>)
    requires
        decode_spec(word) is BaseReg,
        decode_spec(word).well_formed(),
    ensures
        pieces_read(body_pieces(word, address, labels), body_text(word, address, labels), body_lexemes(word, address, labels)),
{
    let i = decode_spec(word);
    let ps = body_pieces(word, address, labels);
    if let Instruction::BaseReg { op, base } = i {
            if op == Opcode::Jmp && base == 7 {
                lemma_letters_piece(seq!['R', 'E', 'T']);
                lemma_single_piece(seq!['R', 'E', 'T']);
            } else if op == Opcode::Jmp {
                lemma_letters_piece(seq!['J', 'M', 'P']);
                lemma_register_piece(base);
                lemma_pair_pieces(Piece::Word(seq!['J', 'M', 'P']), Piece::Word(register_text(base)));
            } else {
                lemma_letters_piece(seq!['J', 'S', 'R', 'R']);
                lemma_register_piece(base);
                lemma_pair_pieces(Piece::Word(seq!['J', 'S', 'R', 'R']), Piece::Word(register_text(base)));
            }
    }
    assert(pieces_text(ps) =~= body_text(word, address, labels));
    assert(pieces_lexemes(ps) =~= body_lexemes(word, address, labels));
}

#[verifier::spinoff_prover]
proof fn lemma_body_pieces_jsr(word: u16, address: u16, labels: Set<u16>)
    requires
        decode_spec(word) is Jsr,
        decode_spec(word).well_formed(),
    ensures
        pieces_read(body_pieces(word, address, labels), body_text(word, address, labels), body_lexemes(word, address, labels)),
{
    let i = decode_spec(word);
    let ps = body_pieces(word, address, labels);
    if let Instruction::Jsr { offset } = i {
            lemma_letters_piece(seq!['J', 'S', 'R']);
            lemma_target_text(address, offset, labels);
            lemma_pair_pieces(Piece::Word(seq!['J', 'S', 'R']), target_piece(address, offset, labels));
    }
    assert(pieces_text(ps) =~= body_text(word, address, labels));
    assert(pieces_lexemes(ps) =~= body_lexemes(word, address, labels));
}

#[verifier::spinoff_prover]
proof fn lemma_body_pieces_pc_relative(word: u16, address: u16, labels: Set<u16>)
    requires
        decode_spec(word) is PcRelative,
        decode_spec(word).well_formed(),
    ensures
        pieces_read(body_pieces(word, address, labels), body_text(word, address, labels), body_lexemes(word, address, labels)),
{
    let i = decode_spec(word);
    let ps = body_pieces(word, address, labels);
    if let Instruction::PcRelative { op, reg, offset } = i {
            lemma_mnemonic_piece(op);
            lemma_target_text(address, offset, labels);
            lemma_reg_pair_pieces(op.mnemonic_text().unwrap(), reg, target_piece(address, offset, labels));
    }
    assert(pieces_text(ps) =~= body_text(word, address, labels));
    assert(pieces_lexemes(ps) =~= body_lexemes(word, address, labels));
}

#[verifier::spinoff_prover]
proof fn lemma_body_pieces_base_offset(word: u16, address: u16, labels: Set<u16>)
    requires
        decode_spec(word) is BaseOffset,
        decode_spec(word).well_formed(),
    ensures
        pieces_read(body_pieces(word, address, labels), body_text(word, address, labels), body_lexemes(word, address, labels)),
{
    let i = decode_spec(word);
    let ps = body_pieces(word, address, labels);
    if let Instruction::BaseOffset { op, reg, base, offset } = i {
            lemma_mnemonic_piece(op);
            lemma_alu_pieces(op.mnemonic_text().unwrap(), reg, base, Piece::Decimal(offset as i32));
    }
    assert(pieces_text(ps) =~= body_text(word, address, labels));
    assert(pieces_lexemes(ps) =~= body_lexemes(word, address, labels));
}

#[verifier::spinoff_prover]
proof fn lemma_body_pieces_trap(word: u16, address: u16, labels: Set<u16>)
    requires
        decode_spec(word) is Trap,
        decode_spec(word).well_formed(),
    ensures
        pieces_read(body_pieces(word, address, labels), body_text(word, address, labels), body_lexemes(word, address, labels)),
{
    let i = decode_spec(word);
    let ps = body_pieces(word, address, labels);
    if let Instruction::Trap { vector } = i {
            match TrapVector::of_vector(vector) {
                Some(t) => {
                    lemma_letters_piece(t.alias());
                    lemma_single_piece(t.alias());
                },
                None => {
                    lemma_hex2_reads(vector);
                    lemma_letters_piece(seq!['T', 'R', 'A', 'P']);
                    lemma_pair_pieces(Piece::Word(seq!['T', 'R', 'A', 'P']), Piece::Hex(hex2(vector)));
                },
            }
    }
    assert(pieces_text(ps) =~= body_text(word, address, labels));
    assert(pieces_lexemes(ps) =~= body_lexemes(word, address, labels));
}

#[verifier::spinoff_prover]
proof fn lemma_body_pieces_rti(word: u16, address: u16, labels: Set<u16>)
    requires
        decode_spec(word) is Rti,
        decode_spec(word).well_formed(),
    ensures
        pieces_read(body_pieces(word, address, labels), body_text(word, address, labels), body_lexemes(word, address, labels)),
{
    let i = decode_spec(word);
    let ps = body_pieces(word, address, labels);
    if let Instruction::Rti = i {
            lemma_letters_piece(seq!['R', 'T', 'I']);
            lemma_single_piece(seq!['R', 'T', 'I']);
    }
    assert(pieces_text(ps) =~= body_text(word, address, labels));
    assert(pieces_lexemes(ps) =~= body_lexemes(word, address, labels));
}

#[verifier::spinoff_prover]
proof fn lemma_body_pieces_data(word: u16, address: u16, labels: Set<u16>)
    requires
        decode_spec(word) is Data,
        decode_spec(word).well_formed(),
    ensures
        pieces_read(body_pieces(word, address, labels), body_text(word, address, labels), body_lexemes(word, address, labels)),
{
    let i = decode_spec(word);
    let ps = body_pieces(word, address, labels);
    if let Instruction::Data(w) = i {
            lemma_hex4_reads(w);
            lemma_pair_pieces(Piece::Directive(seq!['F', 'I', 'L', 'L']), Piece::Hex(hex4(w)));
            assert(seq!['.'] + seq!['F', 'I', 'L', 'L'] =~= seq!['.', 'F', 'I', 'L', 'L']);
    }
    assert(pieces_text(ps) =~= body_text(word, address, labels));
    assert(pieces_lexemes(ps) =~= body_lexemes(word, address, labels));
}

/// The pieces of a listing body are well formed, spell its text and read as
/// its lexemes.
pub proof fn lemma_body_pieces(word: u16, address: u16, labels: Set<u16>)
    ensures
        pieces_read(body_pieces(word, address, labels), body_text(word, address, labels), body_lexemes(word, address, labels)),
{
    lemma_decoded_fields(word);
    match decode_spec(word) {
        Instruction::AluReg { .. } => lemma_body_pieces_alu_reg(word, address, labels),
        Instruction::AluImm { .. } => lemma_body_pieces_alu_imm(word, address, labels),
        Instruction::Not { .. } => lemma_body_pieces_not(word, address, labels),
        Instruction::Branch { .. } => lemma_body_pieces_branch(word, address, labels),
        Instruction::BaseReg { .. } => lemma_body_pieces_base_reg(word, address, labels),
        Instruction::Jsr { .. } => lemma_body_pieces_jsr(word, address, labels),
        Instruction::PcRelative { .. } => lemma_body_pieces_pc_relative(word, address, labels),
        Instruction::BaseOffset { .. } => lemma_body_pieces_base_offset(word, address, labels),
        Instruction::Trap { .. } => lemma_body_pieces_trap(word, address, labels),
        Instruction::Rti => lemma_body_pieces_rti(word, address, labels),
        Instruction::Data(_) => lemma_body_pieces_data(word, address, labels),
    }
}


/// The comment that closes a listing line: `; x` and the address, ` x` and
/// the word.
pub open spec fn comment_text(address: u16, word: u16) -> Seq<char> {
    seq![';', ' ', 'x'] + hex4(address) + seq![' ', 'x'] + hex4(word)
}

/// A listing line holds no line feed and does not end in a carriage return.
pub proof fn lemma_listing_line_plain(word: u16, address: u16, labels: Set<u16>)
    ensures
        no_break(crate::listing::line_text(address, word, labels)),
        crate::listing::line_text(address, word, labels).len() > 0,
        crate::listing::line_text(address, word, labels).last() != '\r',
{
    let line = crate::listing::line_text(address, word, labels);
    let label = if labels.contains(address) { label_text(address) } else { Seq::empty() };
    let body = body_text(word, address, labels);
    lemma_body_pieces(word, address, labels);
    lemma_pieces_no_break(body_pieces(word, address, labels));
    lemma_hex4_reads(address);
    lemma_hex4_reads(word);
    lemma_label_piece(address);
    let head = pad_right(label, 8);
    let mid = pad_right(body, 24);
    let tail = comment_text(address, word);
    assert(line =~= head + mid + tail);
    assert(no_break(head)) by {
        assert forall|j: int| 0 <= j < head.len() implies #[trigger] head[j] != '\n' by {
            if j < label.len() {
                assert(head[j] == label[j]);
                assert(is_ident_char(label[j]));
            }
        }
    }
    assert(no_break(mid)) by {
        assert forall|j: int| 0 <= j < mid.len() implies #[trigger] mid[j] != '\n' by {
            if j < body.len() {
                assert(mid[j] == body[j]);
            }
        }
    }
    assert(no_break(tail)) by {
        assert forall|j: int| 0 <= j < tail.len() implies #[trigger] tail[j] != '\n' by {
            if 3 <= j < 7 {
                assert(tail[j] == hex4(address)[j - 3]);
                assert(crate::text::is_hex_digit(hex4(address)[j - 3]));
            } else if 9 <= j {
                assert(tail[j] == hex4(word)[j - 9]);
                assert(crate::text::is_hex_digit(hex4(word)[j - 9]));
            }
        }
    }
    assert forall|j: int| 0 <= j < line.len() implies #[trigger] line[j] != '\n' by {
        if j < head.len() {
            assert(line[j] == head[j]);
        } else if j < head.len() + mid.len() {
            assert(line[j] == mid[j - head.len()]);
        } else {
            assert(line[j] == tail[j - head.len() - mid.len()]);
        }
    }
    assert(line.last() == hex4(word)[3]);
    assert(crate::text::is_hex_digit(hex4(word)[3]));
}

/// A line made of an optional label padded to eight columns, a run of
/// pieces padded to twenty-four, and a comment reads as the label, the
/// pieces' lexemes and the end of the line.
#[verifier::rlimit(40)]
proof fn lemma_padded_line_scans(
    line: Seq<char>,
    label: Option<Seq<char>>,
    body: Seq<char>,
    bp: Seq<Piece>,
    body_lex: Seq<Lexeme>,
    tail: Seq<char>,
    ln: usize,
)
    requires
        line == pad_right(
            match label {
                Some(l) => l,
                None => Seq::empty(),
            },
            8,
        ) + pad_right(body, 24) + tail,
        label matches Some(l) ==> l.len() == 6 && piece_ok(Piece::Word(l)),
        pieces_read(bp, body, body_lex),
        tail.len() > 0 && tail[0] == ';',
    ensures
        scanned(scan_spec(line, 0, ln)) == Some(
            match label {
                Some(l) => seq![Lexeme::Word(l)],
                None => Seq::<Lexeme>::empty(),
            } + body_lex + seq![Lexeme::Newline],
        ),
{
    let k: nat = if body.len() < 24 { (24 - body.len()) as nat } else { 0 };
    assert(pad_right(body, 24) =~= body + spaces(k));
    let rest1 = spaces(k) + tail;
    match label {
        Some(l) => {
            let rest0 = spaces(2) + body + rest1;
            reveal_with_fuel(pieces_text, 2);
            reveal_with_fuel(pieces_lexemes, 2);
            assert(pieces_text(seq![Piece::Word(l)]) =~= l);
            assert(pieces_lexemes(seq![Piece::Word(l)]) =~= seq![Lexeme::Word(l)]);
            assert(pad_right(l, 8) =~= l + spaces(2));
            assert(line.skip(0) =~= pieces_text(seq![Piece::Word(l)]) + rest0);
            assert(crate::reading::pieces_ok(seq![Piece::Word(l)]));
            lemma_scan_pieces(line, 0, seq![Piece::Word(l)], rest0, ln);
            assert(line.subrange(6, 8) =~= spaces(2));
            lemma_scan_spaces(line, 6, 2, ln);
        },
        None => {
            assert(pad_right(Seq::<char>::empty(), 8) =~= spaces(8));
            assert(line.subrange(0, 8) =~= spaces(8));
            lemma_scan_spaces(line, 0, 8, ln);
        },
    }
    assert(line.skip(8) =~= pieces_text(bp) + rest1);
    assert(rest1[0] == ' ' || rest1[0] == ';');
    lemma_scan_pieces(line, 8, bp, rest1, ln);
    let after_body: int = 8 + body.len() as int;
    assert(line.subrange(after_body, after_body + k) =~= spaces(k));
    lemma_scan_spaces(line, after_body, k, ln);
    assert(line[after_body + k] == ';');
    lemma_scan_comment(line, after_body + k, ln);
    match label {
        Some(l) => {
            assert(seq![Lexeme::Word(l)] + (body_lex + seq![Lexeme::Newline]) =~= seq![Lexeme::Word(l)] + body_lex
                + seq![Lexeme::Newline]);
        },
        None => {
            assert(body_lex + seq![Lexeme::Newline] =~= Seq::<Lexeme>::empty() + body_lex + seq![Lexeme::Newline]);
        },
    }
}

/// The label column of a listing line, unpadded.
pub open spec fn label_column(address: u16, labels: Set<u16>) -> Seq<char> {
    match line_label(address, labels) {
        Some(l) => l,
        None => Seq::empty(),
    }
}

/// A listing line is its padded label column, its padded body and its
/// comment.
proof fn lemma_line_shape(word: u16, address: u16, labels: Set<u16>)
    ensures
        crate::listing::line_text(address, word, labels) == pad_right(label_column(address, labels), 8) + pad_right(
            body_text(word, address, labels),
            24,
        ) + comment_text(address, word),
{
    let a = pad_right(label_column(address, labels), 8);
    let b = pad_right(body_text(word, address, labels), 24);
    assert(crate::listing::line_text(address, word, labels) =~= a + b + comment_text(address, word));
}

/// A listing line reads as its label, its body's lexemes and the end of the
/// line.
pub proof fn lemma_listing_line_scans(word: u16, address: u16, labels: Set<u16>, ln: usize)
    ensures
        scanned(scan_spec(crate::listing::line_text(address, word, labels), 0, ln)) == Some(
            line_lexemes(word, address, labels) + seq![Lexeme::Newline],
        ),
{
    lemma_line_shape(word, address, labels);
    lemma_body_pieces(word, address, labels);
    lemma_label_piece(address);
    let label = line_label(address, labels);
    let body_lex = body_lexemes(word, address, labels);
    lemma_padded_line_scans(
        crate::listing::line_text(address, word, labels),
        label,
        body_text(word, address, labels),
        body_pieces(word, address, labels),
        body_lex,
        comment_text(address, word),
        ln,
    );
    match label {
        Some(l) => {
            assert(line_lexemes(word, address, labels) == seq![Lexeme::Word(l)] + body_lex);
        },
        None => {
            assert(line_lexemes(word, address, labels) == body_lex);
            assert(Seq::<Lexeme>::empty() + body_lex =~= body_lex);
        },
    }
}


/// A listing line reads as at least one lexeme and never as an end of line
/// before its end.
pub proof fn lemma_line_lexemes_plain(word: u16, address: u16, labels: Set<u16>)
    ensures
        line_lexemes(word, address, labels).len() > 0,
        forall|k: int|
            0 <= k < line_lexemes(word, address, labels).len() ==> !(#[trigger] line_lexemes(word, address, labels)[k] is Newline),
{
    lemma_body_pieces(word, address, labels);
    crate::reading::lemma_pieces_lexemes_plain(body_pieces(word, address, labels));
    let b = body_lexemes(word, address, labels);
    assert(b.len() > 0);
    let l = line_lexemes(word, address, labels);
    match line_label(address, labels) {
        Some(t) => {
            assert forall|k: int| 0 <= k < l.len() implies !(#[trigger] l[k] is Newline) by {
                if k > 0 {
                    assert(l[k] == b[k - 1]);
                }
            }
        },
        None => {},
    }
}


/// The length of a PC-relative operand's text.
proof fn lemma_target_text_short(address: u16, offset: i16, labels: Set<u16>)
    requires
        -1024 <= offset < 1024,
    ensures
        crate::listing::target_text(address, offset, labels).len() <= 6,
{
    crate::text::lemma_signed_text_short(offset as int);
}

/// Every listing body is at most forty characters long.
#[verifier::rlimit(40)]
#[verifier::spinoff_prover]
pub proof fn lemma_body_short(word: u16, address: u16, labels: Set<u16>)
    ensures
        body_text(word, address, labels).len() <= 40,
{
    lemma_decoded_fields(word);
    lemma_hex4_reads(word);
    match decode_spec(word) {
        Instruction::AluImm { imm, .. } => crate::text::lemma_signed_text_short(imm as int),
        Instruction::BaseOffset { offset, .. } => crate::text::lemma_signed_text_short(offset as int),
        Instruction::Branch { offset, .. } => lemma_target_text_short(address, offset, labels),
        Instruction::Jsr { offset } => lemma_target_text_short(address, offset, labels),
        Instruction::PcRelative { offset, .. } => lemma_target_text_short(address, offset, labels),
        Instruction::Trap { vector } => {
            lemma_hex2_reads(vector);
        },
        _ => {},
    }
}

/// Every listing line is at most ninety characters long.
pub proof fn lemma_line_short(word: u16, address: u16, labels: Set<u16>)
    ensures
        crate::listing::line_text(address, word, labels).len() <= 90,
{
    lemma_body_short(word, address, labels);
    lemma_line_shape(word, address, labels);
    lemma_hex4_reads(address);
    lemma_hex4_reads(word);
}

} // verus!
