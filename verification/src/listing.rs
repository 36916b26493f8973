//! Listing rendering: a decoded image as re-assemblable annotated assembly.
//!
//! [`disassemble`] turns an [`ObjectFile`] back into text that is both a
//! human listing and valid LC-3 assembly: each word becomes one line (a
//! mnemonic with its operands, or `.FILL` for a word that is not a canonical
//! instruction) carrying its address and encoding as a trailing `;` comment.
use std::collections::BTreeSet;
use vstd::prelude::*;

use crate::instruction::{decode, decode_spec, field, Instruction};
use crate::object::ObjectFile;
use crate::opcode::Opcode;
use crate::register::{branch_mnemonic, branch_text, register_name, register_text};
use crate::text::{
    chars_of, extend_chars, hex2, hex4, pad_right, push_hex2, push_hex4, push_padded,
    push_signed, push_text, signed_text, string_from_chars, wrap16, wrapping_next, wrapping_offset, lemma_wrap16_add,
};
use crate::trap::TrapVector;

verus! {

broadcast use {vstd::std_specs::btree::group_btree_axioms, vstd::laws_cmp::group_laws_cmp};

/// The address a PC-relative offset at `address` refers to: the word after
/// the instruction, moved by `offset`, wrapping through the address space.
pub open spec fn pc_target(address: u16, offset: i16) -> u16 {
    wrap16(address + 1 + offset)
}

/// The synthesized name of a label at `address`: `L_` and four hex digits.
pub open spec fn label_text(address: u16) -> Seq<char> {
    seq!['L', '_'] + hex4(address)
}

/// A PC-relative operand: a recovered label when the target carries one,
/// otherwise the numeric offset as written into the field.
pub open spec fn target_text(address: u16, offset: i16, labels: Set<u16>) -> Seq<char> {
    let t = pc_target(address, offset);
    if labels.contains(t) {
        label_text(t)
    } else {
        seq!['#'] + signed_text(offset as int)
    }
}

/// `R` and the register digit.
pub open spec fn reg(r: u16) -> Seq<char> {
    register_text(r)
}

/// `", "`.
pub open spec fn sep() -> Seq<char> {
    seq![',', ' ']
}

/// The mnemonic and operands of a decoded instruction, or `None` for a data
/// word (and, defensively, for an operand field that names nothing).
pub open spec fn operation_text(i: Instruction, address: u16, labels: Set<u16>) -> Option<Seq<char>> {
    match i {
        Instruction::AluReg { op, dr, sr1, sr2 } => if op.mnemonic_text() is Some && dr < 8 && sr1
            < 8 && sr2 < 8 {
            Some(op.mnemonic_text().unwrap() + seq![' '] + reg(dr) + sep() + reg(sr1) + sep() + reg(
                sr2,
            ))
        } else {
            None
        },
        Instruction::AluImm { op, dr, sr1, imm } => if op.mnemonic_text() is Some && dr < 8 && sr1
            < 8 {
            Some(op.mnemonic_text().unwrap() + seq![' '] + reg(dr) + sep() + reg(sr1) + sep()
                + seq!['#'] + signed_text(imm as int))
        } else {
            None
        },
        Instruction::Not { dr, sr } => if dr < 8 && sr < 8 {
            Some(seq!['N', 'O', 'T', ' '] + reg(dr) + sep() + reg(sr))
        } else {
            None
        },
        Instruction::Branch { cond, offset } => if branch_text(cond) is Some {
            Some(branch_text(cond).unwrap() + seq![' '] + target_text(address, offset, labels))
        } else {
            None
        },
        Instruction::BaseReg { op, base } => if op == Opcode::Jmp && base == 7 {
            Some(seq!['R', 'E', 'T'])
        } else if op == Opcode::Jmp && base < 8 {
            Some(seq!['J', 'M', 'P', ' '] + reg(base))
        } else if op == Opcode::Jsr && base < 8 {
            Some(seq!['J', 'S', 'R', 'R', ' '] + reg(base))
        } else {
            None
        },
        Instruction::Jsr { offset } => Some(
            seq!['J', 'S', 'R', ' '] + target_text(address, offset, labels),
        ),
        Instruction::PcRelative { op, reg: r, offset } => if op.mnemonic_text() is Some && r < 8 {
            Some(op.mnemonic_text().unwrap() + seq![' '] + reg(r) + sep() + target_text(
                address,
                offset,
                labels,
            ))
        } else {
            None
        },
        Instruction::BaseOffset { op, reg: r, base, offset } => if op.mnemonic_text() is Some && r
            < 8 && base < 8 {
            Some(op.mnemonic_text().unwrap() + seq![' '] + reg(r) + sep() + reg(base) + sep()
                + seq!['#'] + signed_text(offset as int))
        } else {
            None
        },
        Instruction::Trap { vector } => match TrapVector::of_vector(vector) {
            Some(t) => Some(t.alias()),
            None => Some(seq!['T', 'R', 'A', 'P', ' ', 'x'] + hex2(vector)),
        },
        Instruction::Rti => Some(seq!['R', 'T', 'I']),
        Instruction::Data(_) => None,
    }
}

/// `.FILL` and the word in hex: how a non-instruction word renders.
pub open spec fn fill_text(word: u16) -> Seq<char> {
    seq!['.', 'F', 'I', 'L', 'L', ' ', 'x'] + hex4(word)
}

/// The assembly text of one word at `address`.
pub open spec fn body_text(word: u16, address: u16, labels: Set<u16>) -> Seq<char> {
    match operation_text(decode_spec(word), address, labels) {
        Some(t) => t,
        None => fill_text(word),
    }
}

/// What [`render_instruction`] returns: one word rendered on its own, every
/// PC-relative operand numeric.
pub open spec fn instruction_text(word: u16) -> Seq<char> {
    body_text(word, 0, Set::empty())
}

/// Whether `target` is one of the word addresses of an image of `len` words
/// at `origin`.
pub open spec fn in_range(origin: u16, len: int, target: u16) -> bool {
    target >= origin && target - origin < len
}

/// The address of the `i`-th word of an image at `origin`, wrapping through
/// the 16-bit space as the loader places it.
pub open spec fn address_of(origin: u16, i: int) -> u16 {
    wrap16(origin + i)
}

/// The address a word at `address` references PC-relatively, if it is a
/// PC-relative instruction.
pub open spec fn target_of(word: u16, address: u16) -> Option<u16> {
    match decode_spec(word) {
        Instruction::Branch { offset, .. } => Some(pc_target(address, offset)),
        Instruction::Jsr { offset } => Some(pc_target(address, offset)),
        Instruction::PcRelative { offset, .. } => Some(pc_target(address, offset)),
        _ => None,
    }
}

/// The recovered labels of an image: every in-range address some word
/// references PC-relatively.
pub open spec fn labels_of(origin: u16, words: Seq<u16>) -> Set<u16> {
    Set::new(
        |t: u16|
            in_range(origin, words.len() as int, t) && exists|j: int|
                0 <= j < words.len() && #[trigger] target_of(words[j], address_of(origin, j))
                    == Some(t),
    )
}


/// Whether `w` is a canonical PC-relative instruction: a `BR` with some
/// condition bit set, a `JSR` (bit 11 set), or an `LD`, `ST`, `LDI`, `STI`
/// or `LEA`.
pub open spec fn is_pc_relative_word(w: u16) -> bool {
    ||| w >> 12 == 0 && (w >> 9) & 7 != 0
    ||| w >> 12 == 4 && w & 0x800 != 0
    ||| w >> 12 == 2
    ||| w >> 12 == 3
    ||| w >> 12 == 10
    ||| w >> 12 == 11
    ||| w >> 12 == 14
}

/// The address a PC-relative word at `address` refers to, read from its
/// offset field: the word after it, moved by the sign-extended low eleven
/// bits for `JSR` and the low nine bits otherwise.
pub open spec fn referenced(w: u16, address: u16) -> u16 {
    if w >> 12 == 4 {
        pc_target(address, field(w, 0x7FF, 11))
    } else {
        pc_target(address, field(w, 0x1FF, 9))
    }
}

/// Every PC-relative reference recovers its label, whatever the form: when
/// a branch, `JSR`, load, store or `LEA` of the image refers to a word of
/// the image, that word is labelled, the reference's operand is the label,
/// and the target's listing line starts with the label.
pub proof fn lemma_references_are_labelled(origin: u16, words: Seq<u16>, j: int)
    requires
        0 <= j < words.len(),
        is_pc_relative_word(words[j]),
        in_range(origin, words.len() as int, referenced(words[j], address_of(origin, j))),
    ensures
        labels_of(origin, words).contains(referenced(words[j], address_of(origin, j))),
        exists|pre: Seq<char>|
            body_text(words[j], address_of(origin, j), labels_of(origin, words)) == pre + label_text(
                referenced(words[j], address_of(origin, j)),
            ),
        forall|k: int|
            0 <= k < words.len() && address_of(origin, k) == referenced(words[j], address_of(origin, j))
                ==> exists|rest: Seq<char>|
                line_text(address_of(origin, k), words[k], labels_of(origin, words)) == label_text(
                    address_of(origin, k),
                ) + rest,
{
    let w = words[j];
    let a = address_of(origin, j);
    let t = referenced(w, a);
    let labels = labels_of(origin, words);
    assert((w >> 9u16) & 7 < 8) by (bit_vector);
    assert(target_of(w, a) == Some(t));
    assert(labels.contains(t));
    let body = body_text(w, a, labels);
    let pre = body.take(body.len() - label_text(t).len());
    assert(body == pre + label_text(t));
    assert forall|k: int|
        0 <= k < words.len() && address_of(origin, k) == t implies exists|rest: Seq<char>|
        line_text(address_of(origin, k), words[k], labels) == label_text(address_of(origin, k)) + rest by {
        let line = line_text(t, words[k], labels);
        let rest = line.skip(label_text(t).len() as int);
        assert(line =~= label_text(t) + rest);
    }
}

/// One listing line: an optional label padded to eight columns, the assembly
/// text padded to twenty-four, and the `; xADDR xWORD` comment.
pub open spec fn line_text(address: u16, word: u16, labels: Set<u16>) -> Seq<char> {
    let label = if labels.contains(address) {
        label_text(address)
    } else {
        Seq::empty()
    };
    pad_right(label, 8) + pad_right(body_text(word, address, labels), 24) + seq![';', ' ', 'x']
        + hex4(address) + seq![' ', 'x'] + hex4(word)
}

/// The first `n` lines of the listing body, each ended by a newline.
pub open spec fn lines_text(origin: u16, words: Seq<u16>, labels: Set<u16>, n: nat) -> Seq<char>
    decreases n,
{
    if n == 0 {
        Seq::empty()
    } else {
        lines_text(origin, words, labels, (n - 1) as nat) + line_text(
            address_of(origin, n - 1),
            words[n - 1],
            labels,
        ) + seq!['\n']
    }
}

/// What [`disassemble`] returns: `.ORIG`, one line per word, `.END`.
pub open spec fn listing_text(origin: u16, words: Seq<u16>) -> Seq<char> {
    seq!['.', 'O', 'R', 'I', 'G', ' ', 'x'] + hex4(origin) + seq!['\n'] + lines_text(
        origin,
        words,
        labels_of(origin, words),
        words.len(),
    ) + seq!['.', 'E', 'N', 'D', '\n']
}

/// Appends `R` and the digit of a register known to be in range.
fn push_reg(out: &mut Vec<char>, r: u16)
    requires
        r < 8,
    ensures
        final(out)@ == old(out)@ + reg(r),
{
    let name = register_name(r).unwrap();
    push_text(out, name.as_str());
}

/// Whether `target` carries a label.
fn has_label(labels: &BTreeSet<u16>, target: u16) -> (r: bool)
    ensures
        r == labels@.contains(target),
{
    labels.contains(&target)
}

/// Appends the text of a PC-relative operand.
fn push_target(out: &mut Vec<char>, address: u16, offset: i16, labels: &BTreeSet<u16>)
    ensures
        final(out)@ == old(out)@ + target_text(address, offset, labels@),
{
    let target = wrapping_offset(wrapping_next(address), offset);
    proof {
        assert(target == pc_target(address, offset));
    }
    if has_label(labels, target) {
        out.push('L');
        out.push('_');
        push_hex4(out, target);
        proof {
            assert(final(out)@ =~= old(out)@ + target_text(address, offset, labels@));
        }
    } else {
        out.push('#');
        push_signed(out, offset as i32);
        proof {
            assert(final(out)@ =~= old(out)@ + target_text(address, offset, labels@));
        }
    }
}

fn alu_chars(i: Instruction) -> (r: Option<Vec<char>>)
    requires
        i is AluReg || i is AluImm,
    ensures
        r is Some <==> operation_text(i, 0, Set::empty()) is Some,
        r matches Some(v) ==> v@ == operation_text(i, 0, Set::empty()).unwrap(),
{
    let ghost labels = Set::<u16>::empty();
    let mut out: Vec<char> = Vec::new();
    match i {
        Instruction::AluReg { op, dr, sr1, sr2 } => {
            match op.mnemonic() {
                Some(m) => {
                    if dr < 8 && sr1 < 8 && sr2 < 8 {
                        push_text(&mut out, m);
                        out.push(' ');
                        push_reg(&mut out, dr);
                        out.push(',');
                        out.push(' ');
                        push_reg(&mut out, sr1);
                        out.push(',');
                        out.push(' ');
                        push_reg(&mut out, sr2);
                        proof {
                            assert(out@ =~= operation_text(i, 0, labels).unwrap());
                        }
                        Some(out)
                    } else {
                        None
                    }
                },
                None => None,
            }
        },
        Instruction::AluImm { op, dr, sr1, imm } => {
            match op.mnemonic() {
                Some(m) => {
                    if dr < 8 && sr1 < 8 {
                        push_text(&mut out, m);
                        out.push(' ');
                        push_reg(&mut out, dr);
                        out.push(',');
                        out.push(' ');
                        push_reg(&mut out, sr1);
                        out.push(',');
                        out.push(' ');
                        out.push('#');
                        push_signed(&mut out, imm as i32);
                        proof {
                            assert(out@ =~= operation_text(i, 0, labels).unwrap());
                        }
                        Some(out)
                    } else {
                        None
                    }
                },
                None => None,
            }
        },
        _ => None,
    }
}

fn register_form_chars(i: Instruction) -> (r: Option<Vec<char>>)
    requires
        i is Not || i is BaseReg || i is BaseOffset || i is Rti,
    ensures
        r is Some <==> operation_text(i, 0, Set::empty()) is Some,
        r matches Some(v) ==> v@ == operation_text(i, 0, Set::empty()).unwrap(),
{
    let ghost labels = Set::<u16>::empty();
    let mut out: Vec<char> = Vec::new();
    match i {
        Instruction::Not { dr, sr } => {
            if dr < 8 && sr < 8 {
                push_text(&mut out, "NOT ");
                push_reg(&mut out, dr);
                out.push(',');
                out.push(' ');
                push_reg(&mut out, sr);
                proof {
                    reveal_strlit("NOT ");
                    assert(out@ =~= operation_text(i, 0, labels).unwrap());
                }
                Some(out)
            } else {
                None
            }
        },
        Instruction::BaseReg { op, base } => {
            if op == Opcode::Jmp && base == 7 {
                push_text(&mut out, "RET");
                proof {
                    reveal_strlit("RET");
                    assert(out@ =~= operation_text(i, 0, labels).unwrap());
                }
                Some(out)
            } else if op == Opcode::Jmp && base < 8 {
                push_text(&mut out, "JMP ");
                push_reg(&mut out, base);
                proof {
                    reveal_strlit("JMP ");
                    assert(out@ =~= operation_text(i, 0, labels).unwrap());
                }
                Some(out)
            } else if op == Opcode::Jsr && base < 8 {
                push_text(&mut out, "JSRR ");
                push_reg(&mut out, base);
                proof {
                    reveal_strlit("JSRR ");
                    assert(out@ =~= operation_text(i, 0, labels).unwrap());
                }
                Some(out)
            } else {
                None
            }
        },
        Instruction::BaseOffset { op, reg: r, base, offset } => {
            match op.mnemonic() {
                Some(m) => {
                    if r < 8 && base < 8 {
                        push_text(&mut out, m);
                        out.push(' ');
                        push_reg(&mut out, r);
                        out.push(',');
                        out.push(' ');
                        push_reg(&mut out, base);
                        out.push(',');
                        out.push(' ');
                        out.push('#');
                        push_signed(&mut out, offset as i32);
                        proof {
                            assert(out@ =~= operation_text(i, 0, labels).unwrap());
                        }
                        Some(out)
                    } else {
                        None
                    }
                },
                None => None,
            }
        },
        Instruction::Rti => {
            push_text(&mut out, "RTI");
            proof {
                reveal_strlit("RTI");
                assert(out@ =~= operation_text(i, 0, labels).unwrap());
            }
            Some(out)
        },
        _ => None,
    }
}

fn pc_relative_chars(i: Instruction, address: u16, labels: &BTreeSet<u16>) -> (r: Option<
    Vec<char>,
>)
    requires
        i is Branch || i is Jsr || i is PcRelative,
    ensures
        r is Some <==> operation_text(i, address, labels@) is Some,
        r matches Some(v) ==> v@ == operation_text(i, address, labels@).unwrap(),
{
    let mut out: Vec<char> = Vec::new();
    match i {
        Instruction::Branch { cond, offset } => {
            match branch_mnemonic(cond) {
                Some(m) => {
                    push_text(&mut out, m);
                    out.push(' ');
                    push_target(&mut out, address, offset, labels);
                    proof {
                        assert(out@ =~= operation_text(i, address, labels@).unwrap());
                    }
                    Some(out)
                },
                None => None,
            }
        },
        Instruction::Jsr { offset } => {
            push_text(&mut out, "JSR ");
            push_target(&mut out, address, offset, labels);
            proof {
                reveal_strlit("JSR ");
                assert(out@ =~= operation_text(i, address, labels@).unwrap());
            }
            Some(out)
        },
        Instruction::PcRelative { op, reg: r, offset } => {
            match op.mnemonic() {
                Some(m) => {
                    if r < 8 {
                        push_text(&mut out, m);
                        out.push(' ');
                        push_reg(&mut out, r);
                        out.push(',');
                        out.push(' ');
                        push_target(&mut out, address, offset, labels);
                        proof {
                            assert(out@ =~= operation_text(i, address, labels@).unwrap());
                        }
                        Some(out)
                    } else {
                        None
                    }
                },
                None => None,
            }
        },
        _ => None,
    }
}

fn trap_chars(vector: u16) -> (r: Vec<char>)
    requires
        vector < 256,
    ensures
        Some(r@) == operation_text(Instruction::Trap { vector }, 0, Set::empty()),
{
    let mut out: Vec<char> = Vec::new();
    match TrapVector::try_from(vector) {
        Ok(t) => {
            push_text(&mut out, t.mnemonic());
        },
        Err(code) => {
            push_text(&mut out, "TRAP x");
            push_hex2(&mut out, code);
            proof {
                reveal_strlit("TRAP x");
                assert(out@ =~= seq!['T', 'R', 'A', 'P', ' ', 'x'] + hex2(vector));
            }
        },
    }
    out
}

/// The label set only matters to PC-relative forms.
proof fn lemma_operation_text_labels(i: Instruction, address: u16, labels: Set<u16>)
    requires
        !(i is Branch || i is Jsr || i is PcRelative),
    ensures
        operation_text(i, address, labels) == operation_text(i, 0, Set::empty()),
{
}

/// Renders a decoded instruction's mnemonic and operands, or `None` for data.
fn operation_chars(i: Instruction, address: u16, labels: &BTreeSet<u16>) -> (r: Option<
    Vec<char>,
>)
    requires
        i matches Instruction::Trap { vector } ==> vector < 256,
    ensures
        r is Some <==> operation_text(i, address, labels@) is Some,
        r matches Some(v) ==> v@ == operation_text(i, address, labels@).unwrap(),
{
    proof {
        if !(i is Branch || i is Jsr || i is PcRelative) {
            lemma_operation_text_labels(i, address, labels@);
        }
    }
    match i {
        Instruction::AluReg { .. } | Instruction::AluImm { .. } => alu_chars(i),
        Instruction::Not { .. } | Instruction::BaseReg { .. } | Instruction::BaseOffset { .. }
        | Instruction::Rti => register_form_chars(i),
        Instruction::Branch { .. } | Instruction::Jsr { .. } | Instruction::PcRelative { .. } => {
            pc_relative_chars(i, address, labels)
        },
        Instruction::Trap { vector } => Some(trap_chars(vector)),
        Instruction::Data(_) => None,
    }
}

/// A decoded word's trap vector always fits its eight-bit field.
proof fn lemma_decoded_trap_vector(word: u16)
    ensures
        decode_spec(word) matches Instruction::Trap { vector } ==> vector < 256,
{
    assert(word & 0xFF < 256) by (bit_vector);
}

/// Appends the assembly text of one word at `address`.
fn push_body(out: &mut Vec<char>, word: u16, address: u16, labels: &BTreeSet<u16>)
    ensures
        final(out)@ == old(out)@ + body_text(word, address, labels@),
{
    proof {
        lemma_decoded_trap_vector(word);
    }
    match operation_chars(decode(word), address, labels) {
        Some(text) => extend_chars(out, &text),
        None => {
            let mut fill: Vec<char> = Vec::new();
            push_text(&mut fill, ".FILL x");
            push_hex4(&mut fill, word);
            proof {
                reveal_strlit(".FILL x");
                assert(fill@ =~= fill_text(word));
            }
            extend_chars(out, &fill);
        },
    }
}

/// Renders a single `word` as one line of LC-3 assembly: a mnemonic with its
/// operands, or `.FILL xNNNN` for a word that is not a canonical instruction.
/// PC-relative operands stay numeric.
pub fn render_instruction(word: u16) -> (r: String)
    ensures
        r@ == instruction_text(word),
{
    let labels: BTreeSet<u16> = BTreeSet::new();
    let mut out: Vec<char> = Vec::new();
    push_body(&mut out, word, 0, &labels);
    string_from_chars(&out)
}

/// The address a word at `address` references PC-relatively, if it is a
/// PC-relative instruction.
fn pc_relative_target(word: u16, address: u16) -> (r: Option<u16>)
    ensures
        r == target_of(word, address),
{
    match decode(word) {
        Instruction::Branch { offset, .. } | Instruction::Jsr { offset } | Instruction::PcRelative {
            offset,
            ..
        } => {
            let t = wrapping_offset(wrapping_next(address), offset);
            proof {
                lemma_wrap16_add(address + 1, offset as int);
            }
            Some(t)
        },
        _ => None,
    }
}

/// The in-range PC-relative targets of the image's first `i` words.
spec fn targets_before(origin: u16, words: Seq<u16>, i: int) -> Set<u16> {
    Set::new(
        |t: u16|
            in_range(origin, words.len() as int, t) && exists|j: int|
                0 <= j < i && #[trigger] target_of(words[j], address_of(origin, j)) == Some(t),
    )
}

/// Collects every in-range PC-relative target of the image: the addresses
/// that get a label.
fn collect_labels(object: &ObjectFile) -> (labels: BTreeSet<u16>)
    ensures
        labels@ == labels_of(object.origin, object.words@),
{
    let origin = object.origin;
    let n = object.words.len();
    let ghost words = object.words@;
    let mut labels: BTreeSet<u16> = BTreeSet::new();
    let mut i: usize = 0;
    let mut address = origin;
    proof {
        assert(labels@ =~= targets_before(origin, words, 0));
    }
    while i < n
        invariant
            i <= n,
            n == words.len(),
            words == object.words@,
            origin == object.origin,
            address == address_of(origin, i as int),
            labels@ == targets_before(origin, words, i as int),
        decreases n - i,
    {
        let ghost before = labels@;
        let target = pc_relative_target(object.words[i], address);
        match target {
            Some(t) => {
                if t >= origin && ((t - origin) as usize) < n {
                    labels.insert(t);
                }
            },
            None => {},
        }
        proof {
            assert forall|t: u16| #[trigger] labels@.contains(t) == targets_before(origin, words, i + 1).contains(t) by {
                if targets_before(origin, words, i + 1).contains(t) && !before.contains(t) {
                    let j = choose|j: int|
                        0 <= j < i + 1 && #[trigger] target_of(words[j], address_of(origin, j)) == Some(t);
                    assert(j == i);
                }
                if labels@.contains(t) && !before.contains(t) {
                    assert(target_of(words[i as int], address_of(origin, i as int)) == Some(t));
                }
            }
            assert(labels@ =~= targets_before(origin, words, i + 1));
            lemma_wrap16_add(origin + i, 1);
        }
        address = wrapping_next(address);
        i += 1;
    }
    proof {
        assert(labels@ =~= labels_of(origin, words));
    }
    labels
}

/// Appends one listing line for `word` at `address`.
fn push_line(out: &mut Vec<char>, address: u16, word: u16, labels: &BTreeSet<u16>)
    ensures
        final(out)@ == old(out)@ + line_text(address, word, labels@),
{
    let mut label: Vec<char> = Vec::new();
    if has_label(labels, address) {
        label.push('L');
        label.push('_');
        push_hex4(&mut label, address);
    }
    let mut body: Vec<char> = Vec::new();
    push_body(&mut body, word, address, labels);
    push_padded(out, &label, 8);
    push_padded(out, &body, 24);
    out.push(';');
    out.push(' ');
    out.push('x');
    push_hex4(out, address);
    out.push(' ');
    out.push('x');
    push_hex4(out, word);
    proof {
        let labels = labels@;
        if labels.contains(address) {
            assert(label@ =~= label_text(address));
        } else {
            assert(label@ =~= Seq::<char>::empty());
        }
        assert(body@ =~= body_text(word, address, labels));
        assert(final(out)@ =~= old(out)@ + line_text(address, word, labels));
    }
}

/// Renders a decoded object image as a re-assemblable annotated listing.
///
/// Sweeps the image in address order, rendering each word as one line framed
/// by `.ORIG`/`.END`. Every in-range PC-relative target gets a label that its
/// references print by name; out-of-range targets keep their numeric offset.
/// Each line carries its address and hex encoding as a trailing `;` comment.
pub fn disassemble(object: &ObjectFile) -> (r: String)
    ensures
        r@ == listing_text(object.origin, object.words@),
{
    let label_set = collect_labels(object);
    let ghost labels = labels_of(object.origin, object.words@);
    let mut out: Vec<char> = Vec::new();
    push_text(&mut out, ".ORIG x");
    push_hex4(&mut out, object.origin);
    out.push('\n');
    let ghost header = out@;
    let n = object.words.len();
    let mut i: usize = 0;
    let mut address = object.origin;
    while i < n
        invariant
            i <= n,
            n == object.words@.len(),
            label_set@ == labels,
            address == address_of(object.origin, i as int),
            out@ == header + lines_text(object.origin, object.words@, labels, i as nat),
        decreases n - i,
    {
        push_line(&mut out, address, object.words[i], &label_set);
        out.push('\n');
        proof {
            lemma_wrap16_add(object.origin + i, 1);
            assert(out@ =~= header + lines_text(object.origin, object.words@, labels, (i + 1) as nat));
        }
        address = wrapping_next(address);
        i += 1;
    }
    push_text(&mut out, ".END\n");
    proof {
        reveal_strlit(".ORIG x");
        reveal_strlit(".END\n");
        assert(out@ =~= listing_text(object.origin, object.words@));
    }
    string_from_chars(&out)
}

} // verus!
