//! Tests of the assembler: the lexer, the first pass and code generation.

use lc3box::codegen::{assemble, word, AsmError};
use lc3box::lexer::{tokenize, LexError, TokenKind};
use lc3box::opcode::Opcode;
use lc3box::parser::{parse, Fill, Operation, ParseError, Target};

fn kinds(source: &str) -> Vec<TokenKind> {
    tokenize(source)
        .expect("source tokenizes")
        .into_iter()
        .map(|token| token.kind)
        .collect()
}

fn w(text: &str) -> TokenKind {
    TokenKind::Word(text.to_string())
}

#[test]
fn an_instruction_yields_words_commas_a_number_and_a_newline() {
    assert_eq!(
        kinds("ADD R1, R2, #-1"),
        vec![
            w("ADD"),
            w("R1"),
            TokenKind::Comma,
            w("R2"),
            TokenKind::Comma,
            TokenKind::Number(-1),
            TokenKind::Newline,
        ]
    );
}

#[test]
fn hexadecimal_and_decimal_number_forms_parse_to_their_values() {
    let numbers = |source| match kinds(source).as_slice() {
        [TokenKind::Number(value), TokenKind::Newline] => *value,
        other => panic!("expected a single number, got {other:?}"),
    };
    assert_eq!(numbers("x3000"), 0x3000);
    assert_eq!(numbers("xFFFF"), 0xFFFF);
    assert_eq!(numbers("x0"), 0);
    assert_eq!(numbers("#5"), 5);
    assert_eq!(numbers("#-16"), -16);
}

#[test]
fn a_directive_and_string_literal_tokenize() {
    assert_eq!(
        kinds(".STRINGZ \"hi\""),
        vec![
            TokenKind::Directive(".STRINGZ".to_string()),
            TokenKind::Str("hi".to_string()),
            TokenKind::Newline,
        ]
    );
}

#[test]
fn string_escapes_are_decoded() {
    // The source is a literal containing \n \t \r \0 \" \\ between quotes.
    match kinds(r#""\n\t\r\0\"\\""#).as_slice() {
        [TokenKind::Str(decoded), TokenKind::Newline] => {
            assert_eq!(decoded, "\n\t\r\u{0}\"\\");
        }
        other => panic!("expected a single string, got {other:?}"),
    }
}

#[test]
fn comments_are_stripped_and_a_comment_only_line_is_empty() {
    assert_eq!(
        kinds("HALT ; stop here\n; nothing on this line\nRET"),
        vec![
            w("HALT"),
            TokenKind::Newline,
            TokenKind::Newline,
            w("RET"),
            TokenKind::Newline,
        ]
    );
}

#[test]
fn tokens_carry_one_based_line_and_column() {
    let tokens = tokenize("  ADD\nRET").expect("tokenizes");
    assert_eq!((tokens[0].line, tokens[0].column), (1, 3));
    let ret = tokens
        .iter()
        .find(|t| t.kind == w("RET"))
        .expect("RET present");
    assert_eq!((ret.line, ret.column), (2, 1));
}

#[test]
fn an_x_prefixed_word_is_hex_only_when_all_digits_are_hex() {
    assert_eq!(kinds("x3000")[0], TokenKind::Number(0x3000));
    assert_eq!(kinds("xResult")[0], w("xResult"));
    assert_eq!(kinds("R3")[0], w("R3"));
}

#[test]
fn a_bare_or_malformed_number_is_rejected() {
    assert_eq!(
        tokenize("42"),
        Err(LexError::MalformedNumber { line: 1, column: 1 })
    );
    assert_eq!(
        tokenize("#1a"),
        Err(LexError::MalformedNumber { line: 1, column: 1 })
    );
}

#[test]
fn an_unterminated_string_is_rejected() {
    assert_eq!(
        tokenize("\"hello"),
        Err(LexError::UnterminatedString { line: 1, column: 1 })
    );
}

#[test]
fn an_invalid_escape_is_rejected() {
    assert_eq!(
        tokenize(r#""\q""#),
        Err(LexError::InvalidEscape {
            line: 1,
            column: 3,
            escape: 'q',
        })
    );
}

#[test]
fn a_dot_without_a_name_is_rejected() {
    assert_eq!(
        tokenize(". FILL"),
        Err(LexError::MalformedDirective { line: 1, column: 1 })
    );
}

#[test]
fn a_stray_character_is_rejected() {
    assert_eq!(
        tokenize("ADD R1 : R2"),
        Err(LexError::UnexpectedChar {
            line: 1,
            column: 8,
            ch: ':',
        })
    );
}

#[test]
fn columns_count_bytes_and_carriage_returns_end_lines() {
    // 'é' takes two bytes, so the word after it starts at byte column 4.
    let tokens = tokenize("\"é\" RET\r\nHALT").expect("tokenizes");
    assert_eq!(tokens[0].kind, TokenKind::Str("é".to_string()));
    assert_eq!((tokens[1].line, tokens[1].column), (1, 6));
    // The newline of the first line sits after its eight bytes, the carriage
    // return excluded.
    assert_eq!((tokens[2].kind.clone(), tokens[2].column), (TokenKind::Newline, 9));
    assert_eq!((tokens[3].line, tokens[3].column), (2, 1));
    assert!(tokenize("").expect("empty source").is_empty());
    assert_eq!(tokenize("#99999999999"), Err(LexError::MalformedNumber { line: 1, column: 1 }));
    assert_eq!(tokenize("x80000000"), Err(LexError::MalformedNumber { line: 1, column: 1 }));
}

/// Parses a single instruction wrapped in a minimal segment and returns its
/// operation.
fn one(instruction: &str) -> Operation {
    let source = format!(".ORIG x3000\n{instruction}\n.END");
    parse(&source).expect("instruction parses").segments[0].statements[0]
        .operation
        .clone()
}

#[test]
fn symbol_addresses_follow_the_location_counter() {
    let program = parse(
        ".ORIG x3000\n\
         A ADD R0, R0, #0\n\
         B .BLKW #3\n\
         C .STRINGZ \"hi\"\n\
         D .FILL x1234\n\
         E ADD R0, R0, #0\n\
         .END",
    )
    .expect("parses");
    assert_eq!(program.symbol("A"), Some(0x3000));
    assert_eq!(program.symbol("B"), Some(0x3001)); // after the ADD (1 word)
    assert_eq!(program.symbol("C"), Some(0x3004)); // after .BLKW #3 (3 words)
    assert_eq!(program.symbol("D"), Some(0x3007)); // after "hi" (h, i, NUL = 3 words)
    assert_eq!(program.symbol("E"), Some(0x3008)); // after .FILL (1 word)
}

#[test]
fn multiple_segments_share_one_symbol_table() {
    let program = parse(
        ".ORIG x3000\n\
         START ADD R0, R0, #0\n\
         .END\n\
         .ORIG x6000\n\
         DATA .FILL x1\n\
         .END",
    )
    .expect("parses");
    assert_eq!(program.segments.len(), 2);
    assert_eq!(program.segments[0].origin, 0x3000);
    assert_eq!(program.segments[1].origin, 0x6000);
    assert_eq!(program.symbol("START"), Some(0x3000));
    assert_eq!(program.symbol("DATA"), Some(0x6000));
}

#[test]
fn a_duplicate_label_is_rejected() {
    let error = parse(".ORIG x3000\nL ADD R0, R0, #0\nL ADD R0, R0, #0\n.END")
        .expect_err("duplicate label");
    assert_eq!(
        error,
        ParseError::DuplicateLabel {
            line: 3,
            label: "L".to_string()
        }
    );
}

#[test]
fn a_statement_without_orig_is_rejected() {
    assert_eq!(
        parse("ADD R0, R0, #0"),
        Err(ParseError::StatementOutsideSegment { line: 1 })
    );
}

#[test]
fn an_unclosed_segment_is_rejected() {
    assert_eq!(
        parse(".ORIG x3000\nADD R0, R0, #0"),
        Err(ParseError::UnterminatedSegment { line: 1 })
    );
}

#[test]
fn a_label_on_orig_is_rejected() {
    assert_eq!(
        parse("FOO .ORIG x3000\n.END"),
        Err(ParseError::LabelOnDirective { line: 1 })
    );
}

#[test]
fn an_origin_that_does_not_fit_a_word_is_rejected() {
    assert_eq!(
        parse(".ORIG x10000\n.END"),
        Err(ParseError::ValueOutOfRange { line: 1 })
    );
}

#[test]
fn an_unknown_mnemonic_after_a_label_is_rejected() {
    assert_eq!(
        parse(".ORIG x3000\nL FOO R0\n.END"),
        Err(ParseError::UnknownMnemonic {
            line: 2,
            mnemonic: "FOO".to_string()
        })
    );
}

#[test]
fn a_missing_operand_is_rejected() {
    assert!(matches!(
        parse(".ORIG x3000\nADD R1, R2\n.END"),
        Err(ParseError::ExpectedOperand { line: 2, .. })
    ));
}

#[test]
fn structural_faults_are_reported_with_their_lines() {
    assert_eq!(parse(""), Err(ParseError::MissingOrig));
    assert_eq!(
        parse(".ORIG x3000\n.ORIG x4000\n.END"),
        Err(ParseError::NestedSegment { line: 2 })
    );
    assert_eq!(parse(".END"), Err(ParseError::UnmatchedEnd { line: 1 }));
    assert_eq!(
        parse(".ORIG xFFFF\n.BLKW #2\n.END"),
        Err(ParseError::ProgramOverflow { line: 2 })
    );
    assert_eq!(
        parse(".ORIG x3000\n.FOO\n.END"),
        Err(ParseError::UnknownDirective { line: 2, directive: ".FOO".to_string() })
    );
    assert_eq!(
        parse(".ORIG x3000\nHALT R0\n.END"),
        Err(ParseError::UnexpectedToken { line: 2 })
    );
    assert_eq!(
        parse(".ORIG x3000\nADD R1, R2, FOO\n.END"),
        Err(ParseError::ExpectedOperand { line: 2, expected: "a register or immediate value" })
    );
    assert_eq!(parse("#x"), Err(ParseError::Lex(LexError::MalformedNumber { line: 1, column: 1 })));
}

#[test]
fn alu_instructions_bind_register_and_immediate_forms() {
    assert_eq!(
        one("ADD R1, R2, R3"),
        Operation::AluReg { op: Opcode::Add, dr: 1, sr1: 2, sr2: 3 }
    );
    assert_eq!(
        one("AND R0, R0, #-16"),
        Operation::AluImm { op: Opcode::And, dr: 0, sr1: 0, imm: -16 }
    );
}

#[test]
fn branches_bind_condition_bits_and_label_or_offset_targets() {
    // N = bit 2, Z = bit 1, P = bit 0.
    assert_eq!(
        one("BRnz LOOP"),
        Operation::Branch { cond: 0b110, target: Target::Label("LOOP".to_string()) }
    );
    assert_eq!(
        one("BRp #-6"),
        Operation::Branch { cond: 0b001, target: Target::Offset(-6) }
    );
    assert_eq!(
        one("BR DONE"),
        Operation::Branch { cond: 0b111, target: Target::Label("DONE".to_string()) }
    );
}

#[test]
fn the_jump_family_binds_to_its_distinct_forms() {
    assert_eq!(one("JMP R2"), Operation::BaseReg { op: Opcode::Jmp, base: 2 });
    assert_eq!(one("RET"), Operation::BaseReg { op: Opcode::Jmp, base: 7 });
    assert_eq!(one("JSRR R3"), Operation::BaseReg { op: Opcode::Jsr, base: 3 });
    assert_eq!(
        one("JSR SUB"),
        Operation::Jsr { target: Target::Label("SUB".to_string()) }
    );
}

#[test]
fn traps_bind_aliases_and_explicit_vectors() {
    assert_eq!(one("HALT"), Operation::Trap { vector: 0x25 });
    assert_eq!(one("GETC"), Operation::Trap { vector: 0x20 });
    assert_eq!(one("TRAP x21"), Operation::Trap { vector: 0x21 });
}

#[test]
fn loads_and_stores_bind_their_operand_shapes() {
    assert_eq!(
        one("LD R0, DATA"),
        Operation::PcRelative { op: Opcode::Ld, reg: 0, target: Target::Label("DATA".to_string()) }
    );
    assert_eq!(
        one("LDR R1, R2, #-1"),
        Operation::BaseOffset { op: Opcode::Ldr, reg: 1, base: 2, offset: -1 }
    );
    assert_eq!(
        one("LEA R0, MSG"),
        Operation::PcRelative { op: Opcode::Lea, reg: 0, target: Target::Label("MSG".to_string()) }
    );
}

#[test]
fn pseudo_ops_and_no_operand_instructions_bind() {
    assert_eq!(one("NOT R1, R2"), Operation::Not { dr: 1, sr: 2 });
    assert_eq!(one("RTI"), Operation::Rti);
    assert_eq!(one(".FILL x1234"), Operation::Fill(Fill::Number(0x1234)));
    assert_eq!(one(".FILL THING"), Operation::Fill(Fill::Label("THING".to_string())));
    assert_eq!(one(".BLKW #4"), Operation::Blkw { count: 4 });
    assert_eq!(one(".STRINGZ \"hi\""), Operation::Stringz { text: "hi".to_string() });
}

/// Assembles a single segment at `x3000` and returns its encoded words.
fn segment_words(body: &str) -> Vec<u16> {
    let source = format!(".ORIG x3000\n{body}\n.END");
    let mut image = assemble(&source).expect("body assembles");
    image.blocks.remove(0).words
}

#[test]
fn alu_register_and_immediate_forms_encode() {
    assert_eq!(
        segment_words("ADD R1, R2, R3\nADD R0, R0, #-1\nAND R4, R5, R6\nAND R7, R7, #15"),
        vec![0x1283, 0x103F, 0x5946, 0x5FEF]
    );
}

#[test]
fn not_and_rti_encode() {
    assert_eq!(segment_words("NOT R1, R2\nRTI"), vec![0x92BF, 0x8000]);
}

#[test]
fn the_jump_subroutine_and_trap_forms_encode() {
    assert_eq!(
        segment_words("JMP R2\nRET\nJSRR R3\nTRAP x21\nHALT"),
        vec![0xC080, 0xC1C0, 0x40C0, 0xF021, 0xF025]
    );
}

#[test]
fn branches_and_jsr_resolve_offsets_relative_to_the_next_instruction() {
    assert_eq!(
        segment_words("BRnzp SKIP\nADD R0, R0, #0\nSKIP HALT"),
        vec![0x0E01, 0x1020, 0xF025]
    );
    assert_eq!(
        segment_words("LOOP ADD R0, R0, #-1\nBRp LOOP\nJSR LOOP"),
        vec![0x103F, 0x03FE, 0x4FFD]
    );
}

#[test]
fn loads_and_stores_encode_their_addressing_modes() {
    assert_eq!(
        segment_words("LEA R0, DATA\nLD R1, DATA\nLDR R2, R3, #-4\nSTR R4, R5, #7\nDATA .FILL x00FF"),
        vec![0xE003, 0x2202, 0x64FC, 0x7947, 0x00FF]
    );
}

#[test]
fn data_pseudo_ops_emit_their_words() {
    assert_eq!(
        segment_words("HERE .FILL HERE\n.FILL #-1\n.BLKW #3\n.STRINGZ \"Hi\""),
        vec![0x3000, 0xFFFF, 0x0000, 0x0000, 0x0000, 0x0048, 0x0069, 0x0000]
    );
}

#[test]
fn an_undefined_label_is_rejected() {
    assert_eq!(
        assemble(".ORIG x3000\nLD R0, MISSING\n.END"),
        Err(AsmError::UndefinedLabel {
            line: 2,
            label: "MISSING".to_string()
        })
    );
}

#[test]
fn an_out_of_range_offset_is_rejected() {
    assert_eq!(
        assemble(".ORIG x3000\nBR FAR\n.BLKW #300\nFAR HALT\n.END"),
        Err(AsmError::OffsetOutOfRange {
            line: 2,
            offset: 300,
            bits: 9
        })
    );
}

#[test]
fn an_out_of_range_immediate_is_rejected() {
    assert_eq!(
        assemble(".ORIG x3000\nADD R0, R0, #16\n.END"),
        Err(AsmError::ImmediateOutOfRange { line: 2, value: 16 })
    );
}

#[test]
fn an_out_of_range_fill_value_is_rejected() {
    assert_eq!(
        assemble(".ORIG x3000\n.FILL #70000\n.END"),
        Err(AsmError::ValueOutOfRange {
            line: 2,
            value: 70000,
            bits: 16
        })
    );
}

#[test]
fn each_segment_becomes_its_own_object_block() {
    let image =
        assemble(".ORIG x3000\nHALT\n.END\n.ORIG x4000\n.FILL x1234\n.END").expect("assembles");
    assert_eq!(image.blocks.len(), 2);
    assert_eq!(image.blocks[0].origin, 0x3000);
    assert_eq!(image.blocks[0].words, vec![0xF025]);
    assert_eq!(image.blocks[1].origin, 0x4000);
    assert_eq!(image.blocks[1].words, vec![0x1234]);
}

#[test]
fn field_faults_are_reported_with_their_lines() {
    assert_eq!(
        assemble(".ORIG x3000\nTRAP x100\n.END"),
        Err(AsmError::ValueOutOfRange { line: 2, value: 0x100, bits: 8 })
    );
    assert_eq!(
        assemble(".ORIG x3000\nLDR R0, R1, #32\n.END"),
        Err(AsmError::OffsetOutOfRange { line: 2, offset: 32, bits: 6 })
    );
    assert_eq!(
        assemble(".ORIG x3000\n.STRINGZ \"\u{10000}\"\n.END"),
        Err(AsmError::ValueOutOfRange { line: 2, value: 0x10000, bits: 16 })
    );
    assert_eq!(
        assemble(".ORIG x3000\n.END\n.END"),
        Err(AsmError::Parse(ParseError::UnmatchedEnd { line: 3 }))
    );
}

#[test]
fn fill_values_accept_signed_and_unsigned_writings() {
    assert_eq!(word(-1), Some(0xFFFF));
    assert_eq!(word(-32768), Some(0x8000));
    assert_eq!(word(65535), Some(0xFFFF));
    assert_eq!(word(65536), None);
    assert_eq!(word(-32769), None);
}

#[test]
fn lex_error_messages_name_the_position() {
    let error = tokenize("  ADD R0, R0, #1\n  @").unwrap_err();
    assert_eq!(error.message(), "line 2:3: unexpected character '@'");
    let error = tokenize("  .STRINGZ \"a\\qb\"").unwrap_err();
    assert_eq!(error.message(), "line 1:15: invalid string escape '\\q'");
    assert_eq!(
        LexError::UnterminatedString { line: 4, column: 7 }.message(),
        "line 4:7: unterminated string literal"
    );
    assert_eq!(
        LexError::MalformedNumber { line: 10, column: 1 }.message(),
        "line 10:1: malformed numeric literal"
    );
    assert_eq!(
        LexError::MalformedDirective { line: 3, column: 2 }.message(),
        "line 3:2: expected a directive name after '.'"
    );
}

#[test]
fn parse_error_messages_follow_the_reported_forms() {
    assert_eq!(parse("").unwrap_err().message(), "program has no .ORIG segment");
    assert_eq!(
        ParseError::DuplicateLabel { line: 12, label: "LOOP".to_string() }.message(),
        "line 12: duplicate label 'LOOP'"
    );
    assert_eq!(
        ParseError::ExpectedOperand { line: 2, expected: "a register" }.message(),
        "line 2: expected a register"
    );
    assert_eq!(
        ParseError::Lex(LexError::MalformedNumber { line: 1, column: 5 }).message(),
        "line 1:5: malformed numeric literal"
    );
    assert_eq!(
        ParseError::NestedSegment { line: 3 }.message(),
        "line 3: .ORIG inside an open segment; close it with .END first"
    );
}

#[test]
fn asm_error_messages_carry_signed_values() {
    assert_eq!(
        AsmError::OffsetOutOfRange { line: 7, offset: -300, bits: 9 }.message(),
        "line 7: offset -300 does not fit a 9-bit field"
    );
    assert_eq!(
        AsmError::ImmediateOutOfRange { line: 2, value: 16 }.message(),
        "line 2: immediate 16 does not fit the 5-bit field"
    );
    assert_eq!(
        AsmError::ValueOutOfRange { line: 1, value: i32::MIN, bits: 16 }.message(),
        "line 1: value -2147483648 does not fit a 16-bit field"
    );
    let error = assemble(".ORIG x3000\nBR MISSING\n.END\n").unwrap_err();
    assert_eq!(error.message(), "line 2: undefined label 'MISSING'");
}

#[test]
fn an_appended_comment_moves_only_the_end_of_line_token() {
    let bare = tokenize("ADD R1, R2, R3").expect("tokenizes");
    let commented = tokenize("ADD R1, R2, R3 ; add them").expect("tokenizes");
    assert_eq!(bare.len(), commented.len());
    let last = bare.len() - 1;
    assert_eq!(bare[..last], commented[..last]);
    assert_eq!(bare[last].kind, TokenKind::Newline);
    assert_eq!((bare[last].line, bare[last].column), (1, 15));
    assert_eq!(commented[last].kind, TokenKind::Newline);
    assert_eq!((commented[last].line, commented[last].column), (1, 26));
}

#[test]
fn each_line_ends_with_exactly_one_newline_token() {
    let tokens = tokenize("LOOP ADD R1, R1, #1\n\nBRnzp LOOP ; again").expect("tokenizes");
    let newlines: Vec<(usize, usize)> = tokens
        .iter()
        .filter(|t| t.kind == TokenKind::Newline)
        .map(|t| (t.line, t.column))
        .collect();
    assert_eq!(newlines, vec![(1, 20), (2, 1), (3, 19)]);
    for pair in tokens.windows(2) {
        assert!(pair[0].line <= pair[1].line);
        if pair[0].kind == TokenKind::Newline {
            assert!(pair[0].line < pair[1].line);
        }
    }
}

#[test]
fn the_symbol_table_lists_the_labels_in_order_once_each() {
    let program = parse(
        ".ORIG x3000\nSTART ADD R0, R0, #1\nMID\nLD R1, DATA\n.END\n.ORIG x4000\nDATA .FILL #7\nEND_ .BLKW #2\n.END",
    )
    .expect("program parses");
    let names: Vec<(&str, u16)> = program
        .symbols
        .iter()
        .map(|s| (s.name.as_str(), s.address))
        .collect();
    assert_eq!(
        names,
        vec![("START", 0x3000), ("MID", 0x3001), ("DATA", 0x4000), ("END_", 0x4001)]
    );
    assert_eq!(program.symbol("MID"), Some(0x3001));
    for segment in &program.segments {
        for pair in segment.statements.windows(2) {
            assert!(pair[0].line < pair[1].line);
        }
    }
    assert_eq!(program.segments[0].statements[1].line, 4);
    assert_eq!(program.segments[1].statements[1].address, 0x4001);
}

#[test]
fn a_segment_may_end_exactly_at_the_top_of_memory() {
    let program = parse(".ORIG xFFFE\n.BLKW #2\n.END").expect("program parses");
    assert_eq!(program.segments[0].statements[0].address, 0xFFFE);
    assert!(parse(".ORIG xFFFE\n.BLKW #3\n.END").is_err());
}
