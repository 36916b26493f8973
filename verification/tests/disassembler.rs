//! Tests of instruction decoding and listing rendering.

use lc3box::codegen::assemble;
use lc3box::instruction::{decode, Instruction};
use lc3box::listing::{disassemble, render_instruction};
use lc3box::object::ObjectFile;
use lc3box::opcode::Opcode;

/// The assembly portion of a listing line, without its trailing comment or
/// the surrounding label and padding whitespace.
fn body_of(line: &str) -> &str {
    line.split(';').next().unwrap_or("").trim()
}

#[test]
fn every_word_decodes_and_encodes() {
    for word in 0..=u16::MAX {
        assert_eq!(
            decode(word).encode(),
            word,
            "{word:#06x} did not round-trip"
        );
    }
}

#[test]
fn each_instruction_form_decodes_to_its_operands() {
    assert_eq!(
        decode(0x1283),
        Instruction::AluReg { op: Opcode::Add, dr: 1, sr1: 2, sr2: 3 }
    );
    assert_eq!(
        decode(0x103F),
        Instruction::AluImm { op: Opcode::Add, dr: 0, sr1: 0, imm: -1 }
    );
    assert_eq!(
        decode(0x5FEF),
        Instruction::AluImm { op: Opcode::And, dr: 7, sr1: 7, imm: 15 }
    );
    assert_eq!(decode(0x92BF), Instruction::Not { dr: 1, sr: 2 });
    assert_eq!(decode(0x0E01), Instruction::Branch { cond: 0b111, offset: 1 });
    assert_eq!(decode(0x03FE), Instruction::Branch { cond: 0b001, offset: -2 });
    assert_eq!(decode(0xC080), Instruction::BaseReg { op: Opcode::Jmp, base: 2 });
    assert_eq!(decode(0xC1C0), Instruction::BaseReg { op: Opcode::Jmp, base: 7 });
    assert_eq!(decode(0x40C0), Instruction::BaseReg { op: Opcode::Jsr, base: 3 });
    assert_eq!(decode(0x4FFD), Instruction::Jsr { offset: -3 });
    assert_eq!(
        decode(0xE003),
        Instruction::PcRelative { op: Opcode::Lea, reg: 0, offset: 3 }
    );
    assert_eq!(
        decode(0x64FC),
        Instruction::BaseOffset { op: Opcode::Ldr, reg: 2, base: 3, offset: -4 }
    );
    assert_eq!(decode(0xF025), Instruction::Trap { vector: 0x25 });
    // A vector with no standard alias is still a canonical TRAP, not data.
    assert_eq!(decode(0xF030), Instruction::Trap { vector: 0x30 });
    assert_eq!(decode(0x8000), Instruction::Rti);
}

#[test]
fn some_words_decode_as_data() {
    for word in [
        0xD000, 0x0123, 0x1290, 0x5290, 0x923A, 0xC001, 0x4001, 0x8001, 0xF101,
    ] {
        assert_eq!(decode(word), Instruction::Data(word));
    }
}

#[test]
fn render_instruction_renders_one_word_numerically_without_framing() {
    assert_eq!(render_instruction(0x1283), "ADD R1, R2, R3");
    assert_eq!(render_instruction(0x0E01), "BR #1");
    // A non-instruction word falls back to `.FILL`.
    assert_eq!(render_instruction(0xD000), ".FILL xD000");
}

#[test]
fn recovers_in_range_labels_and_references_them_by_name() {
    let object = ObjectFile {
        origin: 0x3000,
        words: vec![0x0E01, 0xF025, 0x1020],
    };
    let listing = disassemble(&object);
    assert!(listing.contains("BR L_3002"), "{listing}");
    assert!(
        listing
            .lines()
            .any(|line| line.starts_with("L_3002") && body_of(line).ends_with("ADD R0, R0, #0")),
        "{listing}"
    );
}

#[test]
fn out_of_range_pc_relative_targets_stay_numeric() {
    let object = ObjectFile {
        origin: 0x3000,
        words: vec![0x0E05, 0xF025],
    };
    let listing = disassemble(&object);
    assert!(listing.contains("BR #5"), "{listing}");
    assert!(!listing.contains("L_"), "{listing}");
}

#[test]
fn non_instruction_words_render_as_fill() {
    let object = ObjectFile {
        origin: 0x3000,
        words: vec![0xD000, 0x00FF],
    };
    let listing = disassemble(&object);
    assert!(listing.contains(".FILL xD000"), "{listing}");
    assert!(listing.contains(".FILL x00FF"), "{listing}");
}

#[test]
fn renders_mnemonics_registers_immediates_and_trap_aliases() {
    let object = ObjectFile {
        origin: 0x3000,
        words: vec![0x1283, 0x5FEF, 0x92BF, 0x64FC, 0xF025, 0xF030, 0xC1C0, 0x40C0],
    };
    let listing = disassemble(&object);
    assert!(listing.contains("ADD R1, R2, R3"), "{listing}");
    assert!(listing.contains("AND R7, R7, #15"), "{listing}");
    assert!(listing.contains("NOT R1, R2"), "{listing}");
    assert!(listing.contains("LDR R2, R3, #-4"), "{listing}");
    assert!(listing.lines().any(|line| body_of(line) == "HALT"), "{listing}");
    assert!(listing.contains("TRAP x30"), "{listing}");
    assert!(listing.lines().any(|line| body_of(line) == "RET"), "{listing}");
    assert!(listing.contains("JSRR R3"), "{listing}");
}

#[test]
fn frames_the_listing_and_annotates_each_line_with_address_and_encoding() {
    let object = ObjectFile {
        origin: 0x3000,
        words: vec![0xF025],
    };
    let listing = disassemble(&object);
    let lines: Vec<&str> = listing.lines().collect();
    assert_eq!(lines.first(), Some(&".ORIG x3000"));
    assert_eq!(lines.last(), Some(&".END"));
    assert_eq!(body_of(lines[1]), "HALT");
    assert!(lines[1].trim_end().ends_with("; x3000 xF025"));
}

#[test]
fn a_listing_line_pads_its_label_and_body_columns() {
    let object = ObjectFile {
        origin: 0x3000,
        words: vec![0x0FFF, 0xF025],
    };
    let listing = disassemble(&object);
    assert_eq!(
        listing,
        ".ORIG x3000\nL_3000  BR L_3000               ; x3000 x0FFF\n        HALT                    ; x3001 xF025\n.END\n"
    );
}

/// Disassembles `object`, re-assembles the listing, and checks that the one
/// resulting block is the input.
fn assert_disassembly_re_assembles(object: &ObjectFile) {
    let listing = disassemble(object);
    let image = assemble(&listing).expect("a disassembly re-assembles");
    assert_eq!(image.blocks, vec![object.clone()], "\n{listing}");
}

#[test]
fn every_instruction_form_re_assembles_to_itself() {
    let words = vec![
        0x1283, // ADD R1, R2, R3
        0x103F, // ADD R0, R0, #-1
        0x5B6F, // AND R5, R5, #15
        0x927F, // NOT R1, R1
        0x0FF9, // BRnzp back to the first word (a label)
        0x0402, // BRz forward by two (a label)
        0x4BF7, // JSR back to the first word
        0x4080, // JSRR R2
        0xC180, // JMP R6
        0xC1C0, // RET
        0x2401, // LD R2, next word + 1
        0xA7FF, // LDI R3, self (a label)
        0xE1F4, // LEA R0, the first word
        0x3200, // ST R1, next word
        0xBE00, // STI R7, next word
        0x6AFC, // LDR R5, R3, #-4
        0x7347, // STR R1, R5, #7
        0xF025, // HALT
        0xF0AB, // TRAP xAB
        0x8000, // RTI
        0xD123, // reserved: data
        0x1218, // ADD with stray bits: data
        0x0000, // empty branch: data
    ];
    assert_disassembly_re_assembles(&ObjectFile { origin: 0x3000, words });
}

#[test]
fn out_of_range_references_stay_numeric_and_re_assemble() {
    let object = ObjectFile { origin: 0x4000, words: vec![0x0E40, 0x22FF, 0x4C00, 0xF021] };
    assert_disassembly_re_assembles(&object);
    assert_disassembly_re_assembles(&ObjectFile { origin: 0xFFF0, words: vec![0x0FFF; 16] });
    assert_disassembly_re_assembles(&ObjectFile { origin: 0x0000, words: vec![] });
}
