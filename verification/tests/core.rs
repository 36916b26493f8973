//! Tests of the shared instruction-set vocabulary: sign extension, the
//! object-file format, opcodes, pseudo-ops, registers, condition codes and
//! trap vectors.

use lc3box::bits::{sign_extend, signed_field, unsigned_field};
use lc3box::object::{ObjectError, ObjectFile};
use lc3box::opcode::Opcode;
use lc3box::pseudo::PseudoOp;
use lc3box::register::{
    branch_mnemonic, parse_branch_condition, parse_register, register_name, ConditionFlag,
};
use lc3box::trap::TrapVector;

#[test]
fn sign_extend_extends_negative_values_with_ones() {
    // 0x1FF is -1 in nine bits; 0x10 is -16 in five bits.
    assert_eq!(sign_extend(0x1FF, 9), 0xFFFF);
    assert_eq!(sign_extend(0x10, 5), 0xFFF0);
}

#[test]
fn sign_extend_leaves_positive_values_unchanged() {
    assert_eq!(sign_extend(0x0FF, 9), 0x00FF);
    assert_eq!(sign_extend(0x0F, 5), 0x000F);
}

#[test]
fn sign_extend_ignores_bits_above_the_field_width() {
    // A set bit outside the five-bit field must not leak into the result.
    assert_eq!(sign_extend(0xFFE0, 5), 0x0000);
}

#[test]
fn sign_extend_degenerate_widths_are_identities() {
    assert_eq!(sign_extend(0xABCD, 0), 0xABCD);
    assert_eq!(sign_extend(0xABCD, 16), 0xABCD);
}

#[test]
fn field_helpers_range_check_and_encode() {
    assert_eq!(signed_field(-1, 5), Some(0x1F));
    assert_eq!(signed_field(15, 5), Some(0x0F));
    assert_eq!(signed_field(-16, 5), Some(0x10));
    assert_eq!(signed_field(16, 5), None);
    assert_eq!(signed_field(-17, 5), None);
    assert_eq!(unsigned_field(255, 8), Some(0xFF));
    assert_eq!(unsigned_field(256, 8), None);
    assert_eq!(unsigned_field(-1, 8), None);
}

#[test]
fn decodes_origin_and_words_big_endian() {
    let decoded = ObjectFile::from_be_bytes(&[0x30, 0x00, 0x12, 0x34, 0xAB, 0xCD])
        .expect("well-formed image");
    assert_eq!(decoded.origin, 0x3000);
    assert_eq!(decoded.words, vec![0x1234, 0xABCD]);
}

#[test]
fn encode_decode_round_trips() {
    let image = ObjectFile {
        origin: 0x3000,
        words: vec![0xF026, 0x0000, 0xFFFF],
    };
    assert_eq!(
        ObjectFile::from_be_bytes(&image.to_be_bytes()),
        Ok(image.clone())
    );
}

#[test]
fn empty_stream_has_no_origin() {
    assert_eq!(
        ObjectFile::from_be_bytes(&[]),
        Err(ObjectError::MissingOrigin)
    );
    assert_eq!(
        ObjectFile::from_be_bytes(&[0x30]),
        Err(ObjectError::MissingOrigin)
    );
}

#[test]
fn odd_length_stream_is_truncated() {
    assert_eq!(
        ObjectFile::from_be_bytes(&[0x30, 0x00, 0x12]),
        Err(ObjectError::TruncatedWord)
    );
}

#[test]
fn encoding_writes_the_origin_then_each_word_high_byte_first() {
    let image = ObjectFile {
        origin: 0x3000,
        words: vec![0xF025, 0x0102],
    };
    assert_eq!(image.to_be_bytes(), vec![0x30, 0x00, 0xF0, 0x25, 0x01, 0x02]);
    assert_eq!(
        ObjectError::TruncatedWord.message(),
        "object file ends mid-word (odd byte length)"
    );
}

#[test]
fn decode_uses_only_the_top_nibble() {
    // The low twelve bits are operands and must not affect the opcode.
    assert_eq!(Opcode::decode(0x1FFF), Opcode::Add);
    assert_eq!(Opcode::decode(0x1000), Opcode::Add);
    assert_eq!(Opcode::decode(0xF025), Opcode::Trap);
    assert_eq!(Opcode::decode(0x0ABC), Opcode::Br);
}

#[test]
fn decode_covers_privileged_and_reserved_slots() {
    assert_eq!(Opcode::decode(0x8000), Opcode::Rti);
    assert_eq!(Opcode::decode(0xD000), Opcode::Res);
}

const ALL_OPCODES: [Opcode; 16] = [
    Opcode::Br,
    Opcode::Add,
    Opcode::Ld,
    Opcode::St,
    Opcode::Jsr,
    Opcode::And,
    Opcode::Ldr,
    Opcode::Str,
    Opcode::Rti,
    Opcode::Not,
    Opcode::Ldi,
    Opcode::Sti,
    Opcode::Jmp,
    Opcode::Res,
    Opcode::Lea,
    Opcode::Trap,
];

#[test]
fn decode_maps_every_nibble_to_its_operation() {
    for (nibble, op) in ALL_OPCODES.into_iter().enumerate() {
        let instruction = u16::try_from(nibble).expect("nibble fits in u16") << 12;
        assert_eq!(Opcode::decode(instruction), op);
    }
}

#[test]
fn nibble_is_the_inverse_of_decode() {
    for nibble in 0..16u16 {
        assert_eq!(Opcode::decode(nibble << 12).nibble(), nibble);
    }
}

#[test]
fn mnemonics_parse_case_insensitively_to_their_opcode() {
    assert_eq!(Opcode::from_mnemonic("add"), Some(Opcode::Add));
    assert_eq!(Opcode::from_mnemonic("LDR"), Some(Opcode::Ldr));
    assert_eq!(Opcode::from_mnemonic("Trap"), Some(Opcode::Trap));
}

#[test]
fn jsr_jsrr_and_ret_collapse_to_their_shared_opcodes() {
    assert_eq!(Opcode::from_mnemonic("JSR"), Some(Opcode::Jsr));
    assert_eq!(Opcode::from_mnemonic("JSRR"), Some(Opcode::Jsr));
    assert_eq!(Opcode::from_mnemonic("RET"), Some(Opcode::Jmp));
}

#[test]
fn non_machine_operation_tokens_are_rejected() {
    // `BR` carries condition bits and is parsed elsewhere; pseudo-ops and
    // trap aliases are not opcodes.
    assert_eq!(Opcode::from_mnemonic("BR"), None);
    assert_eq!(Opcode::from_mnemonic("BRnzp"), None);
    assert_eq!(Opcode::from_mnemonic(".ORIG"), None);
    assert_eq!(Opcode::from_mnemonic("HALT"), None);
    assert_eq!(Opcode::from_mnemonic("R0"), None);
}

#[test]
fn mnemonic_inverts_from_mnemonic() {
    // Every opcode that names an operation re-parses to itself; the two that
    // name none are exactly the condition-fixed branch and the reserved slot.
    for op in ALL_OPCODES {
        match op.mnemonic() {
            Some(name) => assert_eq!(Opcode::from_mnemonic(name), Some(op)),
            None => assert!(matches!(op, Opcode::Br | Opcode::Res)),
        }
    }
}

#[test]
fn shared_opcodes_render_their_base_mnemonic() {
    assert_eq!(Opcode::Jsr.mnemonic(), Some("JSR"));
    assert_eq!(Opcode::Jmp.mnemonic(), Some("JMP"));
}

#[test]
fn parsing_is_case_insensitive_and_dot_optional() {
    assert_eq!(PseudoOp::from_mnemonic(".orig"), Some(PseudoOp::Orig));
    assert_eq!(PseudoOp::from_mnemonic("STRINGZ"), Some(PseudoOp::Stringz));
    assert_eq!(PseudoOp::from_mnemonic(".End"), Some(PseudoOp::End));
    assert_eq!(PseudoOp::from_mnemonic("ADD"), None);
}

#[test]
fn every_mnemonic_parses_back_to_its_variant() {
    for op in [
        PseudoOp::Orig,
        PseudoOp::Fill,
        PseudoOp::Blkw,
        PseudoOp::Stringz,
        PseudoOp::End,
    ] {
        assert_eq!(PseudoOp::from_mnemonic(op.mnemonic()), Some(op));
    }
}

#[test]
fn register_tokens_parse_case_insensitively() {
    assert_eq!(parse_register("R0"), Some(0));
    assert_eq!(parse_register("r7"), Some(7));
}

#[test]
fn non_register_tokens_are_rejected() {
    assert_eq!(parse_register("R8"), None);
    assert_eq!(parse_register("R"), None);
    assert_eq!(parse_register("X0"), None);
    assert_eq!(parse_register("R10"), None);
}

#[test]
fn branch_mnemonics_map_to_their_condition_field() {
    // N = bit 2, Z = bit 1, P = bit 0.
    assert_eq!(parse_branch_condition("BRn"), Some(0b100));
    assert_eq!(parse_branch_condition("brz"), Some(0b010));
    assert_eq!(parse_branch_condition("BRp"), Some(0b001));
    assert_eq!(parse_branch_condition("BRzp"), Some(0b011));
}

#[test]
fn bare_and_full_branch_are_unconditional() {
    assert_eq!(parse_branch_condition("BR"), Some(0b111));
    assert_eq!(parse_branch_condition("BRnzp"), Some(0b111));
}

#[test]
fn malformed_branch_mnemonics_are_rejected() {
    assert_eq!(parse_branch_condition("ADD"), None);
    assert_eq!(parse_branch_condition("BRpn"), None);
    assert_eq!(parse_branch_condition("BRx"), None);
}

#[test]
fn register_and_branch_names_render_back() {
    assert_eq!(register_name(3).as_deref(), Some("R3"));
    assert_eq!(register_name(8), None);
    for cond in 1..8u16 {
        let name = branch_mnemonic(cond).expect("a condition field names a branch");
        assert_eq!(parse_branch_condition(name), Some(cond));
    }
    assert_eq!(branch_mnemonic(7), Some("BR"));
    assert_eq!(branch_mnemonic(0), None);
}

#[test]
fn sign_of_result_selects_the_flag() {
    assert_eq!(ConditionFlag::from_result(0), ConditionFlag::Zero);
    assert_eq!(ConditionFlag::from_result(0x0001), ConditionFlag::Positive);
    assert_eq!(ConditionFlag::from_result(0x7FFF), ConditionFlag::Positive);
    assert_eq!(ConditionFlag::from_result(0x8000), ConditionFlag::Negative);
    assert_eq!(ConditionFlag::from_result(0xFFFF), ConditionFlag::Negative);
}

#[test]
fn branch_is_taken_only_for_the_matching_bit() {
    assert!(ConditionFlag::Negative.matches(0b100));
    assert!(!ConditionFlag::Negative.matches(0b011));
    assert!(ConditionFlag::Zero.matches(0b010));
    assert!(ConditionFlag::Positive.matches(0b001));
    assert!(ConditionFlag::Positive.matches(0b111));
}

#[test]
fn known_vectors_decode() {
    assert_eq!(TrapVector::try_from(0x20), Ok(TrapVector::Getc));
    assert_eq!(TrapVector::try_from(0x25), Ok(TrapVector::Halt));
}

#[test]
fn unknown_vector_is_rejected_with_its_value() {
    assert_eq!(TrapVector::try_from(0x26), Err(0x26));
    assert_eq!(TrapVector::try_from(0x00), Err(0x00));
}

#[test]
fn trap_aliases_round_trip_through_their_vectors() {
    for code in 0x20..=0x25u16 {
        let trap = TrapVector::try_from(code).expect("a standard vector");
        assert_eq!(trap.code(), code);
        assert_eq!(TrapVector::from_mnemonic(trap.mnemonic()), Some(trap));
    }
    assert_eq!(TrapVector::from_mnemonic("halt"), Some(TrapVector::Halt));
    assert_eq!(TrapVector::from_mnemonic("TRAP"), None);
}
