//! Parser and symbol table: the assembler's first pass.
//!
//! [`parse`] turns the lexer's token stream into a [`Program`]: a sequence of
//! `.ORIG`/`.END` segments, each statement bound to its address, plus one
//! symbol table mapping every label to its address. Mnemonics are bound to
//! their forms here (the `BR` family, `RET`/`JSRR` and the trap aliases), but
//! label references are kept as names; resolving them to offsets and encoding
//! the words is the second pass.
use vstd::prelude::*;

use crate::lexer::{
    byte_len, lemma_tokens_in_line_order, lex_error_text, tokenize, tokenize_spec, tokens_view, LexError, Lexeme,
    Located, Token, TokenKind,
};
use crate::opcode::Opcode;
use crate::pseudo::PseudoOp;
use crate::register::{branch_condition_from_chars, branch_condition_spec, register_from_chars, register_spec};
use crate::text::{chars_of, decimal_text, push_decimal, push_text, string_from_chars, upper_seq};
use crate::trap::TrapVector;

verus! {

/// The destination of a PC-relative operand: a label or an explicit offset.
#[derive(Debug, Clone, PartialEq, Eq)]
pub enum Target {
    /// A label whose address is resolved in the second pass.
    Label(String),
    /// An explicit PC-relative offset.
    Offset(i32),
}

/// The operand of `.FILL`: a literal value or a label's address.
#[derive(Debug, Clone, PartialEq, Eq)]
pub enum Fill {
    /// A literal word value.
    Number(i32),
    /// A label whose address fills the word.
    Label(String),
}

/// A parsed operation: one machine instruction or one data-emitting pseudo-op.
#[derive(Debug, Clone, PartialEq, Eq)]
pub enum Operation {
    /// `ADD`/`AND` in register mode.
    AluReg { op: Opcode, dr: u16, sr1: u16, sr2: u16 },
    /// `ADD`/`AND` in immediate mode; the immediate is range-checked later.
    AluImm { op: Opcode, dr: u16, sr1: u16, imm: i32 },
    /// `NOT DR, SR`.
    Not { dr: u16, sr: u16 },
    /// `BR(nzp)` to a PC-relative target.
    Branch { cond: u16, target: Target },
    /// `JMP`/`JSRR`/`RET`: a jump through a base register (`RET` is `R7`).
    BaseReg { op: Opcode, base: u16 },
    /// `JSR` to an eleven-bit PC-relative target.
    Jsr { target: Target },
    /// `LD`/`LDI`/`LEA`/`ST`/`STI`: a register and a PC-relative target.
    PcRelative { op: Opcode, reg: u16, target: Target },
    /// `LDR`/`STR`: a register, a base register and a six-bit offset.
    BaseOffset { op: Opcode, reg: u16, base: u16, offset: i32 },
    /// `TRAP` or one of its aliases; the vector is range-checked later.
    Trap { vector: i32 },
    /// `RTI`.
    Rti,
    /// `.FILL`: one word.
    Fill(Fill),
    /// `.BLKW`: `count` zero words.
    Blkw { count: u16 },
    /// `.STRINGZ`: a null-terminated string, one word per character.
    Stringz { text: String },
}

/// A single emitting statement placed at a known address.
#[derive(Debug, Clone, PartialEq, Eq)]
pub struct Statement {
    /// The address the statement's first word occupies.
    pub address: u16,
    /// The 1-based source line, for diagnostics.
    pub line: usize,
    /// The operation to encode in the second pass.
    pub operation: Operation,
}

/// One `.ORIG`/`.END` segment: an origin and the statements placed after it.
#[derive(Debug, Clone, PartialEq, Eq)]
pub struct Segment {
    /// The load address set by `.ORIG`.
    pub origin: u16,
    /// The emitting statements of the segment, each at its address.
    pub statements: Vec<Statement>,
}

/// A label and the address it names.
#[derive(Debug, Clone, PartialEq, Eq)]
pub struct Symbol {
    /// The label.
    pub name: String,
    /// Its address.
    pub address: u16,
}

/// A parsed program: its located segments and its symbol table.
#[derive(Debug, Clone, PartialEq, Eq)]
pub struct Program {
    /// The `.ORIG`/`.END` segments, in source order.
    pub segments: Vec<Segment>,
    /// Every label of the program with its address, in order of definition;
    /// no label occurs twice.
    pub symbols: Vec<Symbol>,
}

/// The reason a token stream could not be parsed into a program.
///
/// Every variant but [`MissingOrig`](Self::MissingOrig) and
/// [`Lex`](Self::Lex) carries the 1-based source line at fault.
#[derive(Debug, Clone, PartialEq, Eq)]
pub enum ParseError {
    /// Tokenizing the source failed.
    Lex(LexError),
    /// A code- or data-emitting statement outside any `.ORIG`/`.END`.
    StatementOutsideSegment { line: usize },
    /// A `.ORIG` while another segment is still open.
    NestedSegment { line: usize },
    /// A `.END` with no open `.ORIG`.
    UnmatchedEnd { line: usize },
    /// A `.ORIG` never closed by a `.END` (the line of the `.ORIG`).
    UnterminatedSegment { line: usize },
    /// The program has no `.ORIG` segment.
    MissingOrig,
    /// A label attached to `.ORIG` or `.END`.
    LabelOnDirective { line: usize },
    /// A label defined more than once (the line of the redefinition).
    DuplicateLabel { line: usize, label: String },
    /// A segment's contents would extend past `xFFFF`.
    ProgramOverflow { line: usize },
    /// A `.ORIG` origin or `.BLKW` count that does not fit a 16-bit word.
    ValueOutOfRange { line: usize },
    /// A word in operation position that names no instruction.
    UnknownMnemonic { line: usize, mnemonic: String },
    /// A directive that names no pseudo-op.
    UnknownDirective { line: usize, directive: String },
    /// An operand of the named kind was expected but not found.
    ExpectedOperand { line: usize, expected: &'static str },
    /// A statement carries more tokens than its form allows.
    UnexpectedToken { line: usize },
}

/// A [`Target`] with its label taken as characters.
pub enum TargetSpec {
    Label(Seq<char>),
    Offset(i32),
}

/// A [`Fill`] with its label taken as characters.
pub enum FillSpec {
    Number(i32),
    Label(Seq<char>),
}

/// An [`Operation`] with its texts taken as characters.
pub enum OperationSpec {
    AluReg { op: Opcode, dr: u16, sr1: u16, sr2: u16 },
    AluImm { op: Opcode, dr: u16, sr1: u16, imm: i32 },
    Not { dr: u16, sr: u16 },
    Branch { cond: u16, target: TargetSpec },
    BaseReg { op: Opcode, base: u16 },
    Jsr { target: TargetSpec },
    PcRelative { op: Opcode, reg: u16, target: TargetSpec },
    BaseOffset { op: Opcode, reg: u16, base: u16, offset: i32 },
    Trap { vector: i32 },
    Rti,
    Fill(FillSpec),
    Blkw { count: u16 },
    Stringz { text: Seq<char> },
}

/// A [`Statement`] with its operation's texts taken as characters.
pub struct StatementSpec {
    pub address: u16,
    pub line: usize,
    pub operation: OperationSpec,
}

/// A [`Segment`] as a sequence of statements.
pub struct SegmentSpec {
    pub origin: u16,
    pub statements: Seq<StatementSpec>,
}

/// A [`Program`] as sequences, each label taken as characters.
pub struct ProgramSpec {
    pub segments: Seq<SegmentSpec>,
    pub symbols: Seq<(Seq<char>, u16)>,
}

/// A [`ParseError`] with its texts taken as characters.
pub enum ParseErrorSpec {
    Lex(LexError),
    StatementOutsideSegment { line: usize },
    NestedSegment { line: usize },
    UnmatchedEnd { line: usize },
    UnterminatedSegment { line: usize },
    MissingOrig,
    LabelOnDirective { line: usize },
    DuplicateLabel { line: usize, label: Seq<char> },
    ProgramOverflow { line: usize },
    ValueOutOfRange { line: usize },
    UnknownMnemonic { line: usize, mnemonic: Seq<char> },
    UnknownDirective { line: usize, directive: Seq<char> },
    ExpectedOperand { line: usize, expected: Seq<char> },
    UnexpectedToken { line: usize },
}

impl View for Target {
    type V = TargetSpec;

    open spec fn view(&self) -> TargetSpec {
        match self {
            Target::Label(s) => TargetSpec::Label(s@),
            Target::Offset(v) => TargetSpec::Offset(*v),
        }
    }
}

impl View for Fill {
    type V = FillSpec;

    open spec fn view(&self) -> FillSpec {
        match self {
            Fill::Number(v) => FillSpec::Number(*v),
            Fill::Label(s) => FillSpec::Label(s@),
        }
    }
}

impl View for Operation {
    type V = OperationSpec;

    open spec fn view(&self) -> OperationSpec {
        match self {
            Operation::AluReg { op, dr, sr1, sr2 } => OperationSpec::AluReg {
                op: *op,
                dr: *dr,
                sr1: *sr1,
                sr2: *sr2,
            },
            Operation::AluImm { op, dr, sr1, imm } => OperationSpec::AluImm {
                op: *op,
                dr: *dr,
                sr1: *sr1,
                imm: *imm,
            },
            Operation::Not { dr, sr } => OperationSpec::Not { dr: *dr, sr: *sr },
            Operation::Branch { cond, target } => OperationSpec::Branch { cond: *cond, target: target@ },
            Operation::BaseReg { op, base } => OperationSpec::BaseReg { op: *op, base: *base },
            Operation::Jsr { target } => OperationSpec::Jsr { target: target@ },
            Operation::PcRelative { op, reg, target } => OperationSpec::PcRelative {
                op: *op,
                reg: *reg,
                target: target@,
            },
            Operation::BaseOffset { op, reg, base, offset } => OperationSpec::BaseOffset {
                op: *op,
                reg: *reg,
                base: *base,
                offset: *offset,
            },
            Operation::Trap { vector } => OperationSpec::Trap { vector: *vector },
            Operation::Rti => OperationSpec::Rti,
            Operation::Fill(f) => OperationSpec::Fill(f@),
            Operation::Blkw { count } => OperationSpec::Blkw { count: *count },
            Operation::Stringz { text } => OperationSpec::Stringz { text: text@ },
        }
    }
}

impl View for Statement {
    type V = StatementSpec;

    open spec fn view(&self) -> StatementSpec {
        StatementSpec { address: self.address, line: self.line, operation: self.operation@ }
    }
}

/// The views of a sequence of statements.
pub open spec fn statements_view(s: Seq<Statement>) -> Seq<StatementSpec> {
    s.map_values(|t: Statement| t@)
}

impl View for Segment {
    type V = SegmentSpec;

    open spec fn view(&self) -> SegmentSpec {
        SegmentSpec { origin: self.origin, statements: statements_view(self.statements@) }
    }
}

/// The views of a sequence of segments.
pub open spec fn segments_view(s: Seq<Segment>) -> Seq<SegmentSpec> {
    s.map_values(|t: Segment| t@)
}

/// The views of a symbol table.
pub open spec fn symbols_view(s: Seq<Symbol>) -> Seq<(Seq<char>, u16)> {
    s.map_values(|t: Symbol| (t.name@, t.address))
}

impl View for Program {
    type V = ProgramSpec;

    open spec fn view(&self) -> ProgramSpec {
        ProgramSpec { segments: segments_view(self.segments@), symbols: symbols_view(self.symbols@) }
    }
}

impl View for ParseError {
    type V = ParseErrorSpec;

    open spec fn view(&self) -> ParseErrorSpec {
        match self {
            ParseError::Lex(e) => ParseErrorSpec::Lex(*e),
            ParseError::StatementOutsideSegment { line } => ParseErrorSpec::StatementOutsideSegment {
                line: *line,
            },
            ParseError::NestedSegment { line } => ParseErrorSpec::NestedSegment { line: *line },
            ParseError::UnmatchedEnd { line } => ParseErrorSpec::UnmatchedEnd { line: *line },
            ParseError::UnterminatedSegment { line } => ParseErrorSpec::UnterminatedSegment {
                line: *line,
            },
            ParseError::MissingOrig => ParseErrorSpec::MissingOrig,
            ParseError::LabelOnDirective { line } => ParseErrorSpec::LabelOnDirective { line: *line },
            ParseError::DuplicateLabel { line, label } => ParseErrorSpec::DuplicateLabel {
                line: *line,
                label: label@,
            },
            ParseError::ProgramOverflow { line } => ParseErrorSpec::ProgramOverflow { line: *line },
            ParseError::ValueOutOfRange { line } => ParseErrorSpec::ValueOutOfRange { line: *line },
            ParseError::UnknownMnemonic { line, mnemonic } => ParseErrorSpec::UnknownMnemonic {
                line: *line,
                mnemonic: mnemonic@,
            },
            ParseError::UnknownDirective { line, directive } => ParseErrorSpec::UnknownDirective {
                line: *line,
                directive: directive@,
            },
            ParseError::ExpectedOperand { line, expected } => ParseErrorSpec::ExpectedOperand {
                line: *line,
                expected: expected@,
            },
            ParseError::UnexpectedToken { line } => ParseErrorSpec::UnexpectedToken { line: *line },
        }
    }
}

/// The `line L: ` prefix of a parse error report.
pub open spec fn line_text(line: usize) -> Seq<char> {
    "line "@ + decimal_text(line as nat) + ": "@
}

/// The description of a parse error, as it is reported.
pub open spec fn parse_error_text(e: ParseErrorSpec) -> Seq<char> {
    match e {
        ParseErrorSpec::Lex(l) => lex_error_text(l),
        ParseErrorSpec::StatementOutsideSegment { line } => line_text(line)
            + "statement outside any .ORIG/.END segment"@,
        ParseErrorSpec::NestedSegment { line } => line_text(line)
            + ".ORIG inside an open segment; close it with .END first"@,
        ParseErrorSpec::UnmatchedEnd { line } => line_text(line) + ".END without a matching .ORIG"@,
        ParseErrorSpec::UnterminatedSegment { line } => line_text(line)
            + ".ORIG is never closed by .END"@,
        ParseErrorSpec::MissingOrig => "program has no .ORIG segment"@,
        ParseErrorSpec::LabelOnDirective { line } => line_text(line)
            + "a label cannot be attached to .ORIG or .END"@,
        ParseErrorSpec::DuplicateLabel { line, label } => line_text(line) + "duplicate label '"@
            + label + "'"@,
        ParseErrorSpec::ProgramOverflow { line } => line_text(line)
            + "program runs past the end of memory (xFFFF)"@,
        ParseErrorSpec::ValueOutOfRange { line } => line_text(line)
            + "value does not fit a 16-bit word"@,
        ParseErrorSpec::UnknownMnemonic { line, mnemonic } => line_text(line)
            + "unknown instruction '"@ + mnemonic + "'"@,
        ParseErrorSpec::UnknownDirective { line, directive } => line_text(line)
            + "unknown directive '"@ + directive + "'"@,
        ParseErrorSpec::ExpectedOperand { line, expected } => line_text(line) + "expected "@
            + expected,
        ParseErrorSpec::UnexpectedToken { line } => line_text(line) + "unexpected token"@,
    }
}

/// Appends the `line L: ` prefix of an error report.
pub fn push_line(out: &mut Vec<char>, line: usize)
    ensures
        final(out)@ == old(out)@ + line_text(line),
{
    push_text(out, "line ");
    push_decimal(out, line as u64);
    push_text(out, ": ");
    proof {
        assert(final(out)@ =~= old(out)@ + line_text(line));
    }
}

impl ParseError {
    /// The description of this error, as it is reported.
    pub fn message(&self) -> (r: String)
        ensures
            r@ == parse_error_text(self@),
    {
        let mut out: Vec<char> = Vec::new();
        match self {
            ParseError::Lex(e) => {
                let text = e.message();
                push_text(&mut out, text.as_str());
            },
            ParseError::StatementOutsideSegment { line } => {
                push_line(&mut out, *line);
                push_text(&mut out, "statement outside any .ORIG/.END segment");
            },
            ParseError::NestedSegment { line } => {
                push_line(&mut out, *line);
                push_text(&mut out, ".ORIG inside an open segment; close it with .END first");
            },
            ParseError::UnmatchedEnd { line } => {
                push_line(&mut out, *line);
                push_text(&mut out, ".END without a matching .ORIG");
            },
            ParseError::UnterminatedSegment { line } => {
                push_line(&mut out, *line);
                push_text(&mut out, ".ORIG is never closed by .END");
            },
            ParseError::MissingOrig => {
                push_text(&mut out, "program has no .ORIG segment");
            },
            ParseError::LabelOnDirective { line } => {
                push_line(&mut out, *line);
                push_text(&mut out, "a label cannot be attached to .ORIG or .END");
            },
            ParseError::DuplicateLabel { line, label } => {
                push_line(&mut out, *line);
                push_text(&mut out, "duplicate label '");
                push_text(&mut out, label.as_str());
                push_text(&mut out, "'");
            },
            ParseError::ProgramOverflow { line } => {
                push_line(&mut out, *line);
                push_text(&mut out, "program runs past the end of memory (xFFFF)");
            },
            ParseError::ValueOutOfRange { line } => {
                push_line(&mut out, *line);
                push_text(&mut out, "value does not fit a 16-bit word");
            },
            ParseError::UnknownMnemonic { line, mnemonic } => {
                push_line(&mut out, *line);
                push_text(&mut out, "unknown instruction '");
                push_text(&mut out, mnemonic.as_str());
                push_text(&mut out, "'");
            },
            ParseError::UnknownDirective { line, directive } => {
                push_line(&mut out, *line);
                push_text(&mut out, "unknown directive '");
                push_text(&mut out, directive.as_str());
                push_text(&mut out, "'");
            },
            ParseError::ExpectedOperand { line, expected } => {
                push_line(&mut out, *line);
                push_text(&mut out, "expected ");
                push_text(&mut out, *expected);
            },
            ParseError::UnexpectedToken { line } => {
                push_line(&mut out, *line);
                push_text(&mut out, "unexpected token");
            },
        }
        proof {
            assert(out@ =~= parse_error_text(self@));
        }
        string_from_chars(&out)
    }
}

/// The address a label names in a symbol table, if it names one.
pub open spec fn lookup(symbols: Seq<(Seq<char>, u16)>, name: Seq<char>) -> Option<u16>
    decreases symbols.len(),
{
    if symbols.len() == 0 {
        None
    } else if symbols[0].0 == name {
        Some(symbols[0].1)
    } else {
        lookup(symbols.drop_first(), name)
    }
}

/// The lexeme at position `i` of a line's tokens.
pub open spec fn lexeme_at(ops: Seq<Located>, i: int) -> Option<Lexeme> {
    if 0 <= i < ops.len() {
        Some(ops[i].lexeme)
    } else {
        None
    }
}

/// The register named by the token at `i`, if it names one.
pub open spec fn register_at(ops: Seq<Located>, i: int) -> Option<u16> {
    match lexeme_at(ops, i) {
        Some(Lexeme::Word(w)) => register_spec(w),
        _ => None,
    }
}

/// Whether the token at `i` is a comma.
pub open spec fn comma_at(ops: Seq<Located>, i: int) -> bool {
    lexeme_at(ops, i) == Some(Lexeme::Comma)
}

/// The number held by the token at `i`, if it is a number.
pub open spec fn number_at(ops: Seq<Located>, i: int) -> Option<i32> {
    match lexeme_at(ops, i) {
        Some(Lexeme::Number(v)) => Some(v),
        _ => None,
    }
}

/// The PC-relative target the token at `i` writes: a word is a label, a
/// number an offset.
pub open spec fn target_at(ops: Seq<Located>, i: int) -> Option<TargetSpec> {
    match lexeme_at(ops, i) {
        Some(Lexeme::Word(w)) => Some(TargetSpec::Label(w)),
        Some(Lexeme::Number(v)) => Some(TargetSpec::Offset(v)),
        _ => None,
    }
}

/// The error for a missing operand.
pub open spec fn expected(line: usize, what: Seq<char>) -> ParseErrorSpec {
    ParseErrorSpec::ExpectedOperand { line, expected: what }
}

/// The statement ends at `i`: `op` when no token follows, an error otherwise.
pub open spec fn ending(ops: Seq<Located>, i: int, line: usize, op: OperationSpec) -> Result<
    OperationSpec,
    ParseErrorSpec,
> {
    if i >= ops.len() {
        Ok(op)
    } else {
        Err(ParseErrorSpec::UnexpectedToken { line })
    }
}

/// The operation a machine mnemonic `word` (for `opcode`) forms with its
/// operand tokens `ops`, or the first fault in them.
pub open spec fn machine_spec(opcode: Opcode, word: Seq<char>, ops: Seq<Located>, line: usize) -> Result<
    OperationSpec,
    ParseErrorSpec,
> {
    let reg = "a register"@;
    let comma = "','"@;
    if opcode == Opcode::Add || opcode == Opcode::And {
        if register_at(ops, 0) is None {
            Err(expected(line, reg))
        } else if !comma_at(ops, 1) {
            Err(expected(line, comma))
        } else if register_at(ops, 2) is None {
            Err(expected(line, reg))
        } else if !comma_at(ops, 3) {
            Err(expected(line, comma))
        } else if register_at(ops, 4) is Some {
            ending(
                ops,
                5,
                line,
                OperationSpec::AluReg {
                    op: opcode,
                    dr: register_at(ops, 0)->0,
                    sr1: register_at(ops, 2)->0,
                    sr2: register_at(ops, 4)->0,
                },
            )
        } else if number_at(ops, 4) is Some {
            ending(
                ops,
                5,
                line,
                OperationSpec::AluImm {
                    op: opcode,
                    dr: register_at(ops, 0)->0,
                    sr1: register_at(ops, 2)->0,
                    imm: number_at(ops, 4)->0,
                },
            )
        } else {
            Err(expected(line, "a register or immediate value"@))
        }
    } else if opcode == Opcode::Not {
        if register_at(ops, 0) is None {
            Err(expected(line, reg))
        } else if !comma_at(ops, 1) {
            Err(expected(line, comma))
        } else if register_at(ops, 2) is None {
            Err(expected(line, reg))
        } else {
            ending(ops, 3, line, OperationSpec::Not { dr: register_at(ops, 0)->0, sr: register_at(ops, 2)->0 })
        }
    } else if opcode == Opcode::Ld || opcode == Opcode::Ldi || opcode == Opcode::Lea || opcode
        == Opcode::St || opcode == Opcode::Sti {
        if register_at(ops, 0) is None {
            Err(expected(line, reg))
        } else if !comma_at(ops, 1) {
            Err(expected(line, comma))
        } else if target_at(ops, 2) is None {
            Err(expected(line, "a label or offset"@))
        } else {
            ending(
                ops,
                3,
                line,
                OperationSpec::PcRelative {
                    op: opcode,
                    reg: register_at(ops, 0)->0,
                    target: target_at(ops, 2)->0,
                },
            )
        }
    } else if opcode == Opcode::Ldr || opcode == Opcode::Str {
        if register_at(ops, 0) is None {
            Err(expected(line, reg))
        } else if !comma_at(ops, 1) {
            Err(expected(line, comma))
        } else if register_at(ops, 2) is None {
            Err(expected(line, reg))
        } else if !comma_at(ops, 3) {
            Err(expected(line, comma))
        } else if number_at(ops, 4) is None {
            Err(expected(line, "a number"@))
        } else {
            ending(
                ops,
                5,
                line,
                OperationSpec::BaseOffset {
                    op: opcode,
                    reg: register_at(ops, 0)->0,
                    base: register_at(ops, 2)->0,
                    offset: number_at(ops, 4)->0,
                },
            )
        }
    } else if opcode == Opcode::Jsr {
        if upper_seq(word) == seq!['J', 'S', 'R', 'R'] {
            if register_at(ops, 0) is None {
                Err(expected(line, reg))
            } else {
                ending(ops, 1, line, OperationSpec::BaseReg { op: Opcode::Jsr, base: register_at(ops, 0)->0 })
            }
        } else if target_at(ops, 0) is None {
            Err(expected(line, "a label or offset"@))
        } else {
            ending(ops, 1, line, OperationSpec::Jsr { target: target_at(ops, 0)->0 })
        }
    } else if opcode == Opcode::Jmp {
        if upper_seq(word) == seq!['R', 'E', 'T'] {
            ending(ops, 0, line, OperationSpec::BaseReg { op: Opcode::Jmp, base: 7 })
        } else if register_at(ops, 0) is None {
            Err(expected(line, reg))
        } else {
            ending(ops, 1, line, OperationSpec::BaseReg { op: Opcode::Jmp, base: register_at(ops, 0)->0 })
        }
    } else if opcode == Opcode::Trap {
        if number_at(ops, 0) is None {
            Err(expected(line, "a number"@))
        } else {
            ending(ops, 1, line, OperationSpec::Trap { vector: number_at(ops, 0)->0 })
        }
    } else if opcode == Opcode::Rti {
        ending(ops, 0, line, OperationSpec::Rti)
    } else {
        Err(ParseErrorSpec::UnknownMnemonic { line, mnemonic: word })
    }
}

/// What a source line holds after its optional label.
#[derive(Debug, Clone, PartialEq, Eq)]
pub enum LineBody {
    /// `.ORIG` opening a segment at the given origin.
    Orig(u16),
    /// `.END` closing the current segment.
    End,
    /// Nothing: the line carries only a label.
    Empty,
    /// An emitting instruction or pseudo-op.
    Statement(Operation),
}

/// A [`LineBody`] with its operation's texts taken as characters.
pub enum LineBodySpec {
    Orig(u16),
    End,
    Empty,
    Statement(OperationSpec),
}

impl View for LineBody {
    type V = LineBodySpec;

    open spec fn view(&self) -> LineBodySpec {
        match self {
            LineBody::Orig(o) => LineBodySpec::Orig(*o),
            LineBody::End => LineBodySpec::End,
            LineBody::Empty => LineBodySpec::Empty,
            LineBody::Statement(op) => LineBodySpec::Statement(op@),
        }
    }
}

/// A mnemonic resolved through the shared vocabulary.
#[derive(Debug, Clone, Copy, PartialEq, Eq, Structural)]
pub enum Mnemonic {
    /// A `BR` variant with its condition field.
    Branch(u16),
    /// A trap alias.
    Trap(TrapVector),
    /// A machine operation.
    Op(Opcode),
}

/// How a word in operation position reads: a branch mnemonic first, then a
/// trap alias, then a machine mnemonic.
pub open spec fn classify_mnemonic_spec(word: Seq<char>) -> Option<Mnemonic> {
    if branch_condition_spec(word) is Some {
        Some(Mnemonic::Branch(branch_condition_spec(word)->0))
    } else if TrapVector::parse_spec(word) is Some {
        Some(Mnemonic::Trap(TrapVector::parse_spec(word)->0))
    } else if Opcode::parse_spec(word) is Some {
        Some(Mnemonic::Op(Opcode::parse_spec(word)->0))
    } else {
        None
    }
}

/// An operation as the body of a statement line.
pub open spec fn as_statement(r: Result<OperationSpec, ParseErrorSpec>) -> Result<LineBodySpec, ParseErrorSpec> {
    match r {
        Ok(op) => Ok(LineBodySpec::Statement(op)),
        Err(e) => Err(e),
    }
}

/// The line body a mnemonic forms with its operand tokens.
pub open spec fn operation_spec(m: Mnemonic, word: Seq<char>, ops: Seq<Located>, line: usize) -> Result<
    LineBodySpec,
    ParseErrorSpec,
> {
    match m {
        Mnemonic::Branch(cond) => if target_at(ops, 0) is None {
            Err(expected(line, "a label or offset"@))
        } else {
            as_statement(ending(ops, 1, line, OperationSpec::Branch { cond, target: target_at(ops, 0)->0 }))
        },
        Mnemonic::Trap(t) => as_statement(ending(ops, 0, line, OperationSpec::Trap { vector: t.vector() as i32 })),
        Mnemonic::Op(opcode) => as_statement(machine_spec(opcode, word, ops, line)),
    }
}

/// The line body a directive forms with its operand tokens.
pub open spec fn directive_spec(directive: Seq<char>, ops: Seq<Located>, line: usize) -> Result<
    LineBodySpec,
    ParseErrorSpec,
> {
    match PseudoOp::parse_spec(directive) {
        Some(PseudoOp::Orig) => if number_at(ops, 0) is None {
            Err(expected(line, "a number"@))
        } else if ops.len() > 1 {
            Err(ParseErrorSpec::UnexpectedToken { line })
        } else if 0 <= number_at(ops, 0)->0 <= 0xFFFF {
            Ok(LineBodySpec::Orig(number_at(ops, 0)->0 as u16))
        } else {
            Err(ParseErrorSpec::ValueOutOfRange { line })
        },
        Some(PseudoOp::End) => if ops.len() > 0 {
            Err(ParseErrorSpec::UnexpectedToken { line })
        } else {
            Ok(LineBodySpec::End)
        },
        Some(PseudoOp::Fill) => match lexeme_at(ops, 0) {
            Some(Lexeme::Number(v)) => as_statement(ending(ops, 1, line, OperationSpec::Fill(FillSpec::Number(v)))),
            Some(Lexeme::Word(l)) => as_statement(ending(ops, 1, line, OperationSpec::Fill(FillSpec::Label(l)))),
            _ => Err(expected(line, "a number or label"@)),
        },
        Some(PseudoOp::Blkw) => if number_at(ops, 0) is None {
            Err(expected(line, "a number"@))
        } else if ops.len() > 1 {
            Err(ParseErrorSpec::UnexpectedToken { line })
        } else if 0 <= number_at(ops, 0)->0 <= 0xFFFF {
            Ok(LineBodySpec::Statement(OperationSpec::Blkw { count: number_at(ops, 0)->0 as u16 }))
        } else {
            Err(ParseErrorSpec::ValueOutOfRange { line })
        },
        Some(PseudoOp::Stringz) => match lexeme_at(ops, 0) {
            Some(Lexeme::Str(text)) => as_statement(ending(ops, 1, line, OperationSpec::Stringz { text })),
            _ => Err(expected(line, "a string literal"@)),
        },
        None => Err(ParseErrorSpec::UnknownDirective { line, directive }),
    }
}

/// A line body under an optional label.
pub open spec fn labeled(label: Option<Seq<char>>, r: Result<LineBodySpec, ParseErrorSpec>) -> Result<
    (Option<Seq<char>>, LineBodySpec),
    ParseErrorSpec,
> {
    match r {
        Ok(body) => Ok((label, body)),
        Err(e) => Err(e),
    }
}

/// What follows a label at the start of a line.
pub open spec fn after_label_spec(label: Seq<char>, rest: Seq<Located>, line: usize) -> Result<
    (Option<Seq<char>>, LineBodySpec),
    ParseErrorSpec,
> {
    match lexeme_at(rest, 0) {
        None => Ok((Some(label), LineBodySpec::Empty)),
        Some(Lexeme::Directive(d)) => labeled(Some(label), directive_spec(d, rest.skip(1), line)),
        Some(Lexeme::Word(w)) => match classify_mnemonic_spec(w) {
            Some(m) => labeled(Some(label), operation_spec(m, w, rest.skip(1), line)),
            None => Err(ParseErrorSpec::UnknownMnemonic { line, mnemonic: w }),
        },
        _ => Err(ParseErrorSpec::UnexpectedToken { line }),
    }
}

/// A line's optional label and body, read from its tokens.
pub open spec fn line_spec(tokens: Seq<Located>, line: usize) -> Result<
    (Option<Seq<char>>, LineBodySpec),
    ParseErrorSpec,
> {
    match lexeme_at(tokens, 0) {
        Some(Lexeme::Directive(d)) => labeled(None, directive_spec(d, tokens.skip(1), line)),
        Some(Lexeme::Word(w)) => match classify_mnemonic_spec(w) {
            Some(m) => labeled(None, operation_spec(m, w, tokens.skip(1), line)),
            None => after_label_spec(w, tokens.skip(1), line),
        },
        _ => Err(ParseErrorSpec::UnexpectedToken { line }),
    }
}

/// The segment being filled: its origin, the line of its `.ORIG`, the
/// location counter and the statements placed so far.
pub struct OpenSpec {
    pub origin: u16,
    pub line: usize,
    pub counter: nat,
    pub statements: Seq<StatementSpec>,
}

/// The state of the first pass between two lines.
pub struct PassSpec {
    pub segments: Seq<SegmentSpec>,
    pub symbols: Seq<(Seq<char>, u16)>,
    pub open: Option<OpenSpec>,
}

/// The number of words an operation occupies.
pub open spec fn size_spec(op: OperationSpec) -> nat {
    match op {
        OperationSpec::Blkw { count } => count as nat,
        OperationSpec::Stringz { text } => text.len() + 1,
        _ => 1,
    }
}

/// Records a label at an address, refusing a second definition.
pub open spec fn define_spec(st: PassSpec, name: Seq<char>, address: u16, line: usize) -> Result<
    PassSpec,
    ParseErrorSpec,
> {
    if lookup(st.symbols, name) is Some {
        Err(ParseErrorSpec::DuplicateLabel { line, label: name })
    } else {
        Ok(PassSpec { symbols: st.symbols.push((name, address)), ..st })
    }
}

/// Records a label if there is one.
pub open spec fn define_opt(st: PassSpec, label: Option<Seq<char>>, address: u16, line: usize) -> Result<
    PassSpec,
    ParseErrorSpec,
> {
    match label {
        None => Ok(st),
        Some(name) => define_spec(st, name, address, line),
    }
}

/// The first pass's state after one line.
pub open spec fn step_spec(st: PassSpec, label: Option<Seq<char>>, body: LineBodySpec, line: usize) -> Result<
    PassSpec,
    ParseErrorSpec,
> {
    match body {
        LineBodySpec::Orig(origin) => if label is Some {
            Err(ParseErrorSpec::LabelOnDirective { line })
        } else if st.open is Some {
            Err(ParseErrorSpec::NestedSegment { line })
        } else {
            Ok(
                PassSpec {
                    open: Some(OpenSpec { origin, line, counter: origin as nat, statements: seq![] }),
                    ..st
                },
            )
        },
        LineBodySpec::End => if label is Some {
            Err(ParseErrorSpec::LabelOnDirective { line })
        } else {
            match st.open {
                None => Err(ParseErrorSpec::UnmatchedEnd { line }),
                Some(o) => Ok(
                    PassSpec {
                        segments: st.segments.push(SegmentSpec { origin: o.origin, statements: o.statements }),
                        open: None,
                        ..st
                    },
                ),
            }
        },
        LineBodySpec::Empty => match st.open {
            None => Err(ParseErrorSpec::StatementOutsideSegment { line }),
            Some(o) => if o.counter > 0xFFFF {
                Err(ParseErrorSpec::ProgramOverflow { line })
            } else {
                define_opt(st, label, o.counter as u16, line)
            },
        },
        LineBodySpec::Statement(op) => match st.open {
            None => Err(ParseErrorSpec::StatementOutsideSegment { line }),
            Some(o) => if o.counter + size_spec(op) > 0x1_0000 || o.counter > 0xFFFF {
                Err(ParseErrorSpec::ProgramOverflow { line })
            } else {
                match define_opt(st, label, o.counter as u16, line) {
                    Err(e) => Err(e),
                    Ok(st2) => Ok(
                        PassSpec {
                            open: Some(
                                OpenSpec {
                                    counter: o.counter + size_spec(op),
                                    statements: o.statements.push(
                                        StatementSpec { address: o.counter as u16, line, operation: op },
                                    ),
                                    ..o
                                },
                            ),
                            ..st2
                        },
                    ),
                }
            },
        },
    }
}

/// The first pass's state after a line's tokens.
pub open spec fn feed_spec(st: PassSpec, tokens: Seq<Located>, line: usize) -> Result<PassSpec, ParseErrorSpec> {
    match line_spec(tokens, line) {
        Err(e) => Err(e),
        Ok((label, body)) => step_spec(st, label, body, line),
    }
}

/// The index of the first end-of-line token at or after `i`, or the end.
pub open spec fn next_newline(ts: Seq<Located>, i: int) -> int
    decreases ts.len() - i,
{
    if i >= ts.len() {
        ts.len() as int
    } else if ts[i].lexeme is Newline {
        i
    } else {
        next_newline(ts, i + 1)
    }
}

pub proof fn lemma_next_newline_bound(ts: Seq<Located>, i: int)
    requires
        0 <= i <= ts.len(),
    ensures
        i <= next_newline(ts, i) <= ts.len(),
        next_newline(ts, i) < ts.len() ==> ts[next_newline(ts, i)].lexeme is Newline,
    decreases ts.len() - i,
{
    if i < ts.len() && !(ts[i].lexeme is Newline) {
        lemma_next_newline_bound(ts, i + 1);
    }
}

/// The first pass over the lines of `ts` from position `i` on: each
/// non-empty run of tokens between end-of-line tokens is one line, at the
/// line of its first token.
pub open spec fn pass_from(ts: Seq<Located>, i: int, st: PassSpec) -> Result<PassSpec, ParseErrorSpec>
    decreases ts.len() - i,
{
    if i < 0 || i >= ts.len() {
        Ok(st)
    } else {
        let j = next_newline(ts, i);
        proof {
            lemma_next_newline_bound(ts, i);
        }
        let piece = ts.subrange(i, j);
        let next = if piece.len() == 0 {
            Ok(st)
        } else {
            feed_spec(st, piece, piece[0].line)
        };
        match next {
            Err(e) => Err(e),
            Ok(st2) => if j >= ts.len() {
                Ok(st2)
            } else {
                pass_from(ts, j + 1, st2)
            },
        }
    }
}

/// The program the first pass leaves, or the fault in its end state.
pub open spec fn finish_spec(st: PassSpec) -> Result<ProgramSpec, ParseErrorSpec> {
    if st.open is Some {
        Err(ParseErrorSpec::UnterminatedSegment { line: st.open->0.line })
    } else if st.segments.len() == 0 {
        Err(ParseErrorSpec::MissingOrig)
    } else {
        Ok(ProgramSpec { segments: st.segments, symbols: st.symbols })
    }
}

/// The state before the first line.
pub open spec fn start_spec() -> PassSpec {
    PassSpec { segments: seq![], symbols: seq![], open: None }
}

/// The program a token stream parses to, or its first fault.
pub open spec fn parse_tokens_spec(ts: Seq<Located>) -> Result<ProgramSpec, ParseErrorSpec> {
    match pass_from(ts, 0, start_spec()) {
        Err(e) => Err(e),
        Ok(st) => finish_spec(st),
    }
}

/// The program a source text parses to, or its first fault.
pub open spec fn parse_spec(source: Seq<char>) -> Result<ProgramSpec, ParseErrorSpec> {
    match tokenize_spec(source) {
        Err(e) => Err(ParseErrorSpec::Lex(e)),
        Ok(ts) => parse_tokens_spec(ts),
    }
}

/// Whether an executable result agrees with a specified one: the same
/// value (by view) or the same error (by view).
pub open spec fn agrees<T: View>(r: Result<T, ParseError>, s: Result<T::V, ParseErrorSpec>) -> bool {
    match s {
        Ok(v) => (r matches Ok(x) && x@ == v),
        Err(e) => (r matches Err(x) && x@ == e),
    }
}

/// The characters of a label, if there is one.
pub open spec fn label_view(l: Option<String>) -> Option<Seq<char>> {
    match l {
        Some(s) => Some(s@),
        None => None,
    }
}

/// The register named by the operand token at `i`.
fn register_in(ops: &[Token], i: usize) -> (r: Option<u16>)
    ensures
        r == register_at(tokens_view(ops@), i as int),
        r matches Some(n) ==> n < 8,
{
    if i < ops.len() {
        match &ops[i].kind {
            TokenKind::Word(w) => {
                let cs = chars_of(w.as_str());
                register_from_chars(&cs)
            },
            _ => None,
        }
    } else {
        None
    }
}

/// Whether the operand token at `i` is a comma.
fn comma_in(ops: &[Token], i: usize) -> (r: bool)
    ensures
        r == comma_at(tokens_view(ops@), i as int),
{
    if i < ops.len() {
        match &ops[i].kind {
            TokenKind::Comma => true,
            _ => false,
        }
    } else {
        false
    }
}

/// The number held by the operand token at `i`.
fn number_in(ops: &[Token], i: usize) -> (r: Option<i32>)
    ensures
        r == number_at(tokens_view(ops@), i as int),
{
    if i < ops.len() {
        match &ops[i].kind {
            TokenKind::Number(v) => Some(*v),
            _ => None,
        }
    } else {
        None
    }
}

/// The PC-relative target written by the operand token at `i`.
fn target_in(ops: &[Token], i: usize) -> (r: Option<Target>)
    ensures
        match target_at(tokens_view(ops@), i as int) {
            Some(t) => (r matches Some(x) && x@ == t),
            None => r is None,
        },
{
    if i < ops.len() {
        match &ops[i].kind {
            TokenKind::Word(w) => Some(Target::Label(w.clone())),
            TokenKind::Number(v) => Some(Target::Offset(*v)),
            _ => None,
        }
    } else {
        None
    }
}

/// `op` when the operand tokens end at `k`, an error otherwise.
fn end_at(ops: &[Token], k: usize, line: usize, op: Operation) -> (r: Result<Operation, ParseError>)
    ensures
        agrees(r, ending(tokens_view(ops@), k as int, line, op@)),
{
    if k >= ops.len() {
        Ok(op)
    } else {
        Err(ParseError::UnexpectedToken { line })
    }
}

/// The error for a missing operand of the named kind.
fn missing(line: usize, what: &'static str) -> (e: ParseError)
    ensures
        e@ == expected(line, what@),
{
    ParseError::ExpectedOperand { line, expected: what }
}

/// Binds a machine mnemonic `word` (for `opcode`) to its operand tokens.
fn parse_machine(opcode: Opcode, word: &[char], ops: &[Token], line: usize) -> (r: Result<Operation, ParseError>)
    ensures
        agrees(r, machine_spec(opcode, word@, tokens_view(ops@), line)),
{
    let reg = "a register";
    let comma = "','";
    match opcode {
        Opcode::Add | Opcode::And => {
            let dr = match register_in(ops, 0) {
                Some(v) => v,
                None => return Err(missing(line, reg)),
            };
            if !comma_in(ops, 1) {
                return Err(missing(line, comma));
            }
            let sr1 = match register_in(ops, 2) {
                Some(v) => v,
                None => return Err(missing(line, reg)),
            };
            if !comma_in(ops, 3) {
                return Err(missing(line, comma));
            }
            match register_in(ops, 4) {
                Some(sr2) => end_at(ops, 5, line, Operation::AluReg { op: opcode, dr, sr1, sr2 }),
                None => match number_in(ops, 4) {
                    Some(imm) => end_at(ops, 5, line, Operation::AluImm { op: opcode, dr, sr1, imm }),
                    None => Err(missing(line, "a register or immediate value")),
                },
            }
        },
        Opcode::Not => {
            let dr = match register_in(ops, 0) {
                Some(v) => v,
                None => return Err(missing(line, reg)),
            };
            if !comma_in(ops, 1) {
                return Err(missing(line, comma));
            }
            let sr = match register_in(ops, 2) {
                Some(v) => v,
                None => return Err(missing(line, reg)),
            };
            end_at(ops, 3, line, Operation::Not { dr, sr })
        },
        Opcode::Ld | Opcode::Ldi | Opcode::Lea | Opcode::St | Opcode::Sti => {
            let reg_no = match register_in(ops, 0) {
                Some(v) => v,
                None => return Err(missing(line, reg)),
            };
            if !comma_in(ops, 1) {
                return Err(missing(line, comma));
            }
            let target = match target_in(ops, 2) {
                Some(t) => t,
                None => return Err(missing(line, "a label or offset")),
            };
            end_at(ops, 3, line, Operation::PcRelative { op: opcode, reg: reg_no, target })
        },
        Opcode::Ldr | Opcode::Str => {
            let reg_no = match register_in(ops, 0) {
                Some(v) => v,
                None => return Err(missing(line, reg)),
            };
            if !comma_in(ops, 1) {
                return Err(missing(line, comma));
            }
            let base = match register_in(ops, 2) {
                Some(v) => v,
                None => return Err(missing(line, reg)),
            };
            if !comma_in(ops, 3) {
                return Err(missing(line, comma));
            }
            let offset = match number_in(ops, 4) {
                Some(v) => v,
                None => return Err(missing(line, "a number")),
            };
            end_at(ops, 5, line, Operation::BaseOffset { op: opcode, reg: reg_no, base, offset })
        },
        Opcode::Jsr => {
            let upper = crate::text::upper_chars(word);
            if crate::text::chars_eq(&upper, &['J', 'S', 'R', 'R']) {
                let base = match register_in(ops, 0) {
                    Some(v) => v,
                    None => return Err(missing(line, reg)),
                };
                end_at(ops, 1, line, Operation::BaseReg { op: Opcode::Jsr, base })
            } else {
                let target = match target_in(ops, 0) {
                    Some(t) => t,
                    None => return Err(missing(line, "a label or offset")),
                };
                end_at(ops, 1, line, Operation::Jsr { target })
            }
        },
        Opcode::Jmp => {
            let upper = crate::text::upper_chars(word);
            if crate::text::chars_eq(&upper, &['R', 'E', 'T']) {
                end_at(ops, 0, line, Operation::BaseReg { op: Opcode::Jmp, base: 7 })
            } else {
                let base = match register_in(ops, 0) {
                    Some(v) => v,
                    None => return Err(missing(line, reg)),
                };
                end_at(ops, 1, line, Operation::BaseReg { op: Opcode::Jmp, base })
            }
        },
        Opcode::Trap => {
            let vector = match number_in(ops, 0) {
                Some(v) => v,
                None => return Err(missing(line, "a number")),
            };
            end_at(ops, 1, line, Operation::Trap { vector })
        },
        Opcode::Rti => end_at(ops, 0, line, Operation::Rti),
        Opcode::Br | Opcode::Res => Err(ParseError::UnknownMnemonic { line, mnemonic: crate::text::string_from_chars(word) }),
    }
}

/// Resolves a word in operation position through the shared vocabulary.
fn classify_mnemonic(word: &[char]) -> (r: Option<Mnemonic>)
    ensures
        r == classify_mnemonic_spec(word@),
{
    match branch_condition_from_chars(word) {
        Some(cond) => Some(Mnemonic::Branch(cond)),
        None => match TrapVector::from_chars(word) {
            Some(t) => Some(Mnemonic::Trap(t)),
            None => match Opcode::from_chars(word) {
                Some(op) => Some(Mnemonic::Op(op)),
                None => None,
            },
        },
    }
}

/// An operation as the body of a statement line.
fn statement(r: Result<Operation, ParseError>) -> (b: Result<LineBody, ParseError>)
    ensures
        forall|s: Result<OperationSpec, ParseErrorSpec>| agrees(r, s) ==> agrees(b, as_statement(s)),
{
    match r {
        Ok(op) => Ok(LineBody::Statement(op)),
        Err(e) => Err(e),
    }
}

/// Binds a mnemonic to its operand tokens.
fn parse_operation(m: Mnemonic, word: &[char], ops: &[Token], line: usize) -> (r: Result<LineBody, ParseError>)
    ensures
        agrees(r, operation_spec(m, word@, tokens_view(ops@), line)),
{
    match m {
        Mnemonic::Branch(cond) => {
            let target = match target_in(ops, 0) {
                Some(t) => t,
                None => return Err(missing(line, "a label or offset")),
            };
            statement(end_at(ops, 1, line, Operation::Branch { cond, target }))
        },
        Mnemonic::Trap(t) => statement(end_at(ops, 0, line, Operation::Trap { vector: t.code() as i32 })),
        Mnemonic::Op(opcode) => statement(parse_machine(opcode, word, ops, line)),
    }
}

/// Binds a directive to its operand tokens.
fn parse_directive(directive: &[char], ops: &[Token], line: usize) -> (r: Result<LineBody, ParseError>)
    ensures
        agrees(r, directive_spec(directive@, tokens_view(ops@), line)),
{
    match PseudoOp::from_chars(directive) {
        Some(PseudoOp::Orig) => {
            let v = match number_in(ops, 0) {
                Some(v) => v,
                None => return Err(missing(line, "a number")),
            };
            if ops.len() > 1 {
                return Err(ParseError::UnexpectedToken { line });
            }
            if 0 <= v && v <= 0xFFFF {
                Ok(LineBody::Orig(v as u16))
            } else {
                Err(ParseError::ValueOutOfRange { line })
            }
        },
        Some(PseudoOp::End) => {
            if ops.len() > 0 {
                Err(ParseError::UnexpectedToken { line })
            } else {
                Ok(LineBody::End)
            }
        },
        Some(PseudoOp::Fill) => {
            if ops.len() == 0 {
                return Err(missing(line, "a number or label"));
            }
            let fill = match &ops[0].kind {
                TokenKind::Number(v) => Fill::Number(*v),
                TokenKind::Word(l) => Fill::Label(l.clone()),
                _ => return Err(missing(line, "a number or label")),
            };
            statement(end_at(ops, 1, line, Operation::Fill(fill)))
        },
        Some(PseudoOp::Blkw) => {
            let v = match number_in(ops, 0) {
                Some(v) => v,
                None => return Err(missing(line, "a number")),
            };
            if ops.len() > 1 {
                return Err(ParseError::UnexpectedToken { line });
            }
            if 0 <= v && v <= 0xFFFF {
                Ok(LineBody::Statement(Operation::Blkw { count: v as u16 }))
            } else {
                Err(ParseError::ValueOutOfRange { line })
            }
        },
        Some(PseudoOp::Stringz) => {
            if ops.len() == 0 {
                return Err(missing(line, "a string literal"));
            }
            let text = match &ops[0].kind {
                TokenKind::Str(t) => t.clone(),
                _ => return Err(missing(line, "a string literal")),
            };
            statement(end_at(ops, 1, line, Operation::Stringz { text }))
        },
        None => Err(
            ParseError::UnknownDirective { line, directive: crate::text::string_from_chars(directive) },
        ),
    }
}

/// The tokens after the first.
fn rest_of(tokens: &[Token]) -> (r: &[Token])
    requires
        tokens@.len() > 0,
    ensures
        tokens_view(r@) == tokens_view(tokens@).skip(1),
{
    let r = vstd::slice::slice_subrange(tokens, 1, tokens.len());
    proof {
        assert(tokens_view(r@) =~= tokens_view(tokens@).skip(1));
    }
    r
}

/// A line body under an optional label.
fn with_label(label: Option<String>, r: Result<LineBody, ParseError>) -> (b: Result<(Option<String>, LineBody), ParseError>)
    ensures
        forall|s: Result<LineBodySpec, ParseErrorSpec>|
            agrees(r, s) ==> match #[trigger] labeled(label_view(label), s) {
                Ok((l, body)) => (b matches Ok((x, y)) && label_view(x) == l && y@ == body),
                Err(e) => (b matches Err(x) && x@ == e),
            },
{
    match r {
        Ok(body) => Ok((label, body)),
        Err(e) => Err(e),
    }
}

/// Reads a line's optional label and body from its tokens.
fn parse_line(tokens: &[Token], line: usize) -> (r: Result<(Option<String>, LineBody), ParseError>)
    ensures
        match line_spec(tokens_view(tokens@), line) {
            Ok((l, body)) => (r matches Ok((x, y)) && label_view(x) == l && y@ == body),
            Err(e) => (r matches Err(x) && x@ == e),
        },
{
    if tokens.len() == 0 {
        return Err(ParseError::UnexpectedToken { line });
    }
    match &tokens[0].kind {
        TokenKind::Directive(d) => {
            let name = chars_of(d.as_str());
            let rest = rest_of(tokens);
            with_label(None, parse_directive(&name, rest, line))
        },
        TokenKind::Word(w) => {
            let word = chars_of(w.as_str());
            let rest = rest_of(tokens);
            match classify_mnemonic(&word) {
                Some(m) => with_label(None, parse_operation(m, &word, rest, line)),
                None => {
                    let label = w.clone();
                    if rest.len() == 0 {
                        return Ok((Some(label), LineBody::Empty));
                    }
                    match &rest[0].kind {
                        TokenKind::Directive(d) => {
                            let name = chars_of(d.as_str());
                            let rest2 = rest_of(rest);
                            with_label(Some(label), parse_directive(&name, rest2, line))
                        },
                        TokenKind::Word(w2) => {
                            let word2 = chars_of(w2.as_str());
                            let rest2 = rest_of(rest);
                            match classify_mnemonic(&word2) {
                                Some(m) => with_label(Some(label), parse_operation(m, &word2, rest2, line)),
                                None => Err(ParseError::UnknownMnemonic { line, mnemonic: w2.clone() }),
                            }
                        },
                        _ => Err(ParseError::UnexpectedToken { line }),
                    }
                },
            }
        },
        _ => Err(ParseError::UnexpectedToken { line }),
    }
}

/// The segment the first pass is filling.
struct OpenSegment {
    origin: u16,
    line: usize,
    counter: usize,
    statements: Vec<Statement>,
}

/// The first pass's state between two lines.
struct FirstPass {
    segments: Vec<Segment>,
    symbols: Vec<Symbol>,
    open: Option<OpenSegment>,
}

impl FirstPass {
    spec fn state(&self) -> PassSpec {
        PassSpec {
            segments: segments_view(self.segments@),
            symbols: symbols_view(self.symbols@),
            open: match &self.open {
                Some(o) => Some(
                    OpenSpec {
                        origin: o.origin,
                        line: o.line,
                        counter: o.counter as nat,
                        statements: statements_view(o.statements@),
                    },
                ),
                None => None,
            },
        }
    }

    /// The location counter never passes the end of memory.
    spec fn wf(&self) -> bool {
        self.open matches Some(o) ==> o.counter <= 0x1_0000
    }

    fn new() -> (p: FirstPass)
        ensures
            p.state() == start_spec(),
            p.wf(),
    {
        let p = FirstPass { segments: Vec::new(), symbols: Vec::new(), open: None };
        proof {
            assert(segments_view(p.segments@) =~= Seq::<SegmentSpec>::empty());
            assert(symbols_view(p.symbols@) =~= Seq::<(Seq<char>, u16)>::empty());
        }
        p
    }

    /// Records `name` at `address`, refusing a second definition.
    fn define(&mut self, name: String, address: u16, line: usize) -> (r: Result<(), ParseError>)
        ensures
            match define_spec(old(self).state(), name@, address, line) {
                Ok(st) => r is Ok && final(self).state() == st,
                Err(e) => (r matches Err(x) && x@ == e),
            },
            final(self).segments == old(self).segments,
            final(self).open == old(self).open,
            r is Err ==> final(self).state() == old(self).state(),
    {
        let mut k: usize = 0;
        proof {
            assert(symbols_view(self.symbols@).skip(0) =~= symbols_view(self.symbols@));
        }
        while k < self.symbols.len()
            invariant
                k <= self.symbols@.len(),
                lookup(symbols_view(self.symbols@), name@) == lookup(
                    symbols_view(self.symbols@).skip(k as int),
                    name@,
                ),
            decreases self.symbols.len() - k,
        {
            if self.symbols[k].name == name {
                proof {
                    assert(symbols_view(self.symbols@).skip(k as int)[0] == (self.symbols@[k as int].name@, self.symbols@[k as int].address));
                }
                return Err(ParseError::DuplicateLabel { line, label: name });
            }
            proof {
                assert(symbols_view(self.symbols@).skip(k as int).drop_first() =~= symbols_view(
                    self.symbols@,
                ).skip(k + 1));
            }
            k += 1;
        }
        let ghost before = self.symbols@;
        self.symbols.push(Symbol { name, address });
        proof {
            assert(symbols_view(self.symbols@) =~= symbols_view(before).push((name@, address)));
        }
        Ok(())
    }

    /// Records a label if there is one.
    fn define_label(&mut self, label: Option<String>, address: u16, line: usize) -> (r: Result<(), ParseError>)
        ensures
            match define_opt(old(self).state(), label_view(label), address, line) {
                Ok(st) => r is Ok && final(self).state() == st,
                Err(e) => (r matches Err(x) && x@ == e),
            },
            final(self).segments == old(self).segments,
            final(self).open == old(self).open,
            r is Err ==> final(self).state() == old(self).state(),
    {
        match label {
            None => Ok(()),
            Some(name) => self.define(name, address, line),
        }
    }

    /// Advances the first pass over one line's tokens.
    fn feed(&mut self, tokens: &[Token], line: usize) -> (r: Result<(), ParseError>)
        requires
            old(self).wf(),
        ensures
            match feed_spec(old(self).state(), tokens_view(tokens@), line) {
                Ok(st) => r is Ok && final(self).state() == st && final(self).wf(),
                Err(e) => (r matches Err(x) && x@ == e),
            },
            r is Err ==> final(self).state() == old(self).state() && final(self).wf(),
    {
        let (label, body) = match parse_line(tokens, line) {
            Ok(p) => p,
            Err(e) => return Err(e),
        };
        match body {
            LineBody::Orig(origin) => {
                if label.is_some() {
                    return Err(ParseError::LabelOnDirective { line });
                }
                if self.open.is_some() {
                    return Err(ParseError::NestedSegment { line });
                }
                self.open = Some(
                    OpenSegment { origin, line, counter: origin as usize, statements: Vec::new() },
                );
                proof {
                    assert(statements_view(Seq::<Statement>::empty()) =~= Seq::<StatementSpec>::empty());
                }
                Ok(())
            },
            LineBody::End => {
                if label.is_some() {
                    return Err(ParseError::LabelOnDirective { line });
                }
                match self.open.take() {
                    None => Err(ParseError::UnmatchedEnd { line }),
                    Some(o) => {
                        let ghost before = self.segments@;
                        self.segments.push(Segment { origin: o.origin, statements: o.statements });
                        proof {
                            assert(segments_view(self.segments@) =~= segments_view(before).push(
                                SegmentSpec { origin: o.origin, statements: statements_view(o.statements@) },
                            ));
                        }
                        Ok(())
                    },
                }
            },
            LineBody::Empty => {
                let counter = match &self.open {
                    None => return Err(ParseError::StatementOutsideSegment { line }),
                    Some(o) => o.counter,
                };
                if counter > 0xFFFF {
                    return Err(ParseError::ProgramOverflow { line });
                }
                self.define_label(label, counter as u16, line)
            },
            LineBody::Statement(operation) => {
                let counter = match &self.open {
                    None => return Err(ParseError::StatementOutsideSegment { line }),
                    Some(o) => o.counter,
                };
                let size = match size_within(&operation, 0x1_0000 - counter) {
                    Some(n) => n,
                    None => return Err(ParseError::ProgramOverflow { line }),
                };
                if counter > 0xFFFF {
                    return Err(ParseError::ProgramOverflow { line });
                }
                match self.define_label(label, counter as u16, line) {
                    Ok(()) => {},
                    Err(e) => return Err(e),
                }
                let ghost mid = self.state();
                let mut o = self.open.take().unwrap();
                let ghost before = o.statements@;
                o.statements.push(Statement { address: counter as u16, line, operation });
                o.counter = counter + size;
                proof {
                    assert(statements_view(o.statements@) =~= statements_view(before).push(
                        StatementSpec { address: counter as u16, line, operation: operation@ },
                    ));
                }
                self.open = Some(o);
                Ok(())
            },
        }
    }

    /// The program the pass leaves, or the fault in its end state.
    fn finish(self) -> (r: Result<Program, ParseError>)
        ensures
            agrees(r, finish_spec(self.state())),
    {
        match self.open {
            Some(o) => Err(ParseError::UnterminatedSegment { line: o.line }),
            None => if self.segments.len() == 0 {
                Err(ParseError::MissingOrig)
            } else {
                Ok(Program { segments: self.segments, symbols: self.symbols })
            },
        }
    }
}

/// The number of words `op` occupies, if it is at most `room`.
fn size_within(op: &Operation, room: usize) -> (r: Option<usize>)
    ensures
        match r {
            Some(n) => n == size_spec(op@) && n <= room,
            None => size_spec(op@) > room,
        },
{
    match op {
        Operation::Blkw { count } => if (*count as usize) <= room {
            Some(*count as usize)
        } else {
            None
        },
        Operation::Stringz { text } => {
            let n = text.as_str().unicode_len();
            if n < room {
                Some(n + 1)
            } else {
                None
            }
        },
        _ => if 1 <= room {
            Some(1)
        } else {
            None
        },
    }
}

/// Runs the first pass over a token stream.
pub fn parse_tokens(tokens: &[Token]) -> (r: Result<Program, ParseError>)
    ensures
        agrees(r, parse_tokens_spec(tokens_view(tokens@))),
{
    let ghost ts = tokens_view(tokens@);
    let n = tokens.len();
    let mut pass = FirstPass::new();
    let mut i: usize = 0;
    while i < n
        invariant
            i <= n == tokens@.len(),
            ts == tokens_view(tokens@),
            pass.wf(),
            pass_from(ts, 0, start_spec()) == pass_from(ts, i as int, pass.state()),
        decreases n - i,
    {
        let mut j = i;
        while j < n && !matches!(tokens[j].kind, TokenKind::Newline)
            invariant
                i <= j <= n == tokens@.len(),
                ts == tokens_view(tokens@),
                next_newline(ts, i as int) == next_newline(ts, j as int),
            decreases n - j,
        {
            j += 1;
        }
        proof {
            lemma_next_newline_bound(ts, i as int);
        }
        if j > i {
            let piece = vstd::slice::slice_subrange(tokens, i, j);
            proof {
                assert(tokens_view(piece@) =~= ts.subrange(i as int, j as int));
            }
            match pass.feed(piece, tokens[i].line) {
                Ok(()) => {},
                Err(e) => return Err(e),
            }
        }
        if j >= n {
            i = n;
        } else {
            i = j + 1;
        }
    }
    pass.finish()
}

/// Parses LC-3 assembly `source` into a [`Program`].
///
/// This is the assembler's first pass: it tokenizes the source, reads each
/// line into a statement bound to its form, walks the location counter
/// through the `.ORIG`/`.END` segments, and records every label in the
/// symbol table. Label references stay names for the second pass.
///
/// Returns a [`ParseError`] for any lexical, syntactic, symbol or structural
/// fault; an undefined label is not one, since the second pass finds those.
pub fn parse(source: &str) -> (r: Result<Program, ParseError>)
    requires
        byte_len(source@) < usize::MAX,
    ensures
        agrees(r, parse_spec(source@)),
{
    match tokenize(source) {
        Err(e) => Err(ParseError::Lex(e)),
        Ok(tokens) => parse_tokens(&tokens),
    }
}

/// The address `symbols` gives a label, if it names one.
pub fn find_symbol(symbols: &[Symbol], name: &str) -> (r: Option<u16>)
    ensures
        r == lookup(symbols_view(symbols@), name@),
{
    let wanted = chars_of(name);
    let mut k: usize = 0;
    proof {
        assert(symbols_view(symbols@).skip(0) =~= symbols_view(symbols@));
    }
    while k < symbols.len()
        invariant
            k <= symbols@.len(),
            wanted@ == name@,
            lookup(symbols_view(symbols@), name@) == lookup(symbols_view(symbols@).skip(k as int), name@),
        decreases symbols.len() - k,
    {
        let candidate = chars_of(symbols[k].name.as_str());
        if crate::text::chars_eq(&candidate, &wanted) {
            proof {
                assert(symbols_view(symbols@).skip(k as int)[0] == (symbols@[k as int].name@, symbols@[k as int].address));
            }
            return Some(symbols[k].address);
        }
        proof {
            assert(symbols_view(symbols@).skip(k as int).drop_first() =~= symbols_view(symbols@).skip(k + 1));
        }
        k += 1;
    }
    None
}

impl Program {
    /// The address of a label, if the program defines it.
    pub fn symbol(&self, name: &str) -> (r: Option<u16>)
        ensures
            r == lookup(symbols_view(self.symbols@), name@),
    {
        find_symbol(self.symbols.as_slice(), name)
    }
}

/// The statements of a segment sit one after another from its origin: each
/// at the address just past the words of the one before.
pub open spec fn laid_out(origin: u16, stmts: Seq<StatementSpec>) -> bool {
    forall|i: int|
        0 <= i < stmts.len() ==> #[trigger] stmts[i].address as nat == (if i == 0 {
            origin as nat
        } else {
            stmts[i - 1].address as nat + size_spec(stmts[i - 1].operation)
        })
}

/// The location counter just past a run of statements.
pub open spec fn counter_after(origin: u16, stmts: Seq<StatementSpec>) -> nat {
    if stmts.len() == 0 {
        origin as nat
    } else {
        stmts.last().address as nat + size_spec(stmts.last().operation)
    }
}

/// Every segment of the first pass, closed or open, is laid out from its
/// origin, and the open one's counter is just past its statements.
pub open spec fn pass_laid_out(st: PassSpec) -> bool {
    &&& forall|i: int|
        0 <= i < st.segments.len() ==> laid_out(#[trigger] st.segments[i].origin, st.segments[i].statements)
    &&& st.open matches Some(o) ==> laid_out(o.origin, o.statements) && o.counter == counter_after(
        o.origin,
        o.statements,
    )
}

proof fn lemma_define_keeps_layout(st: PassSpec, label: Option<Seq<char>>, address: u16, line: usize)
    requires
        define_opt(st, label, address, line) is Ok,
    ensures
        define_opt(st, label, address, line)->Ok_0.segments == st.segments,
        define_opt(st, label, address, line)->Ok_0.open == st.open,
{
}

#[verifier::spinoff_prover]
proof fn lemma_step_keeps_layout(st: PassSpec, label: Option<Seq<char>>, body: LineBodySpec, line: usize)
    requires
        pass_laid_out(st),
        step_spec(st, label, body, line) is Ok,
    ensures
        pass_laid_out(step_spec(st, label, body, line)->Ok_0),
{
    let next = step_spec(st, label, body, line)->Ok_0;
    match body {
        LineBodySpec::Orig(origin) => {
            assert(pass_laid_out(next));
        },
        LineBodySpec::End => {
            let o = st.open->0;
            assert forall|i: int| 0 <= i < next.segments.len() implies laid_out(
                #[trigger] next.segments[i].origin,
                next.segments[i].statements,
            ) by {
                if i < st.segments.len() {
                    assert(next.segments[i] == st.segments[i]);
                }
            }
        },
        LineBodySpec::Empty => {
            let o = st.open->0;
            lemma_define_keeps_layout(st, label, o.counter as u16, line);
        },
        LineBodySpec::Statement(op) => {
            let o = st.open->0;
            lemma_define_keeps_layout(st, label, o.counter as u16, line);
            lemma_push_laid_out(o.origin, o.statements, StatementSpec { address: o.counter as u16, line, operation: op });
        },
    }
}

proof fn lemma_push_laid_out(origin: u16, stmts: Seq<StatementSpec>, s: StatementSpec)
    requires
        laid_out(origin, stmts),
        s.address as nat == counter_after(origin, stmts),
    ensures
        laid_out(origin, stmts.push(s)),
        counter_after(origin, stmts.push(s)) == s.address as nat + size_spec(s.operation),
{
    let all = stmts.push(s);
    assert forall|i: int| 0 <= i < all.len() implies #[trigger] all[i].address as nat == (if i == 0 {
        origin as nat
    } else {
        all[i - 1].address as nat + size_spec(all[i - 1].operation)
    }) by {
        if i < stmts.len() {
            assert(all[i] == stmts[i]);
            if i > 0 {
                assert(all[i - 1] == stmts[i - 1]);
            }
        } else if i > 0 {
            assert(all[i - 1] == stmts.last());
        }
    }
}

proof fn lemma_pass_keeps_layout(ts: Seq<Located>, i: int, st: PassSpec)
    requires
        pass_laid_out(st),
        pass_from(ts, i, st) is Ok,
    ensures
        pass_laid_out(pass_from(ts, i, st)->Ok_0),
    decreases ts.len() - i,
{
    if 0 <= i < ts.len() {
        let j = next_newline(ts, i);
        lemma_next_newline_bound(ts, i);
        let piece = ts.subrange(i, j);
        if piece.len() == 0 {
            if j < ts.len() {
                lemma_pass_keeps_layout(ts, j + 1, st);
            }
        } else {
            let (label, body) = line_spec(piece, piece[0].line)->Ok_0;
            lemma_step_keeps_layout(st, label, body, piece[0].line);
            let st2 = feed_spec(st, piece, piece[0].line)->Ok_0;
            if j < ts.len() {
                lemma_pass_keeps_layout(ts, j + 1, st2);
            }
        }
    }
}

/// The statements of every parsed segment sit one after another from the
/// segment's origin, each just past the words of the one before: addresses
/// follow the location counter.
pub proof fn lemma_statements_laid_out(source: Seq<char>)
    requires
        parse_spec(source) is Ok,
    ensures
        forall|i: int|
            0 <= i < parse_spec(source)->Ok_0.segments.len() ==> laid_out(
                #[trigger] parse_spec(source)->Ok_0.segments[i].origin,
                parse_spec(source)->Ok_0.segments[i].statements,
            ),
{
    let ts = tokenize_spec(source)->Ok_0;
    assert(pass_laid_out(start_spec()));
    lemma_pass_keeps_layout(ts, 0, start_spec());
}

/// The statements of a run stand on strictly increasing source lines.
pub open spec fn lines_increase(stmts: Seq<StatementSpec>) -> bool {
    forall|a: int, b: int| 0 <= a < b < stmts.len() ==> #[trigger] stmts[a].line < #[trigger] stmts[b].line
}

/// No label is named twice in a symbol table.
pub open spec fn labels_distinct(symbols: Seq<(Seq<char>, u16)>) -> bool {
    forall|a: int, b: int| 0 <= a < b < symbols.len() ==> #[trigger] symbols[a].0 != #[trigger] symbols[b].0
}

/// What the first pass keeps of its closed segments and its labels: each
/// segment laid out and within the address space, its statements in line
/// order, and each label defined once.
pub open spec fn pass_closed_sound(st: PassSpec) -> bool {
    &&& pass_laid_out(st)
    &&& forall|i: int|
        0 <= i < st.segments.len() ==> counter_after(#[trigger] st.segments[i].origin, st.segments[i].statements)
            <= 0x1_0000 && lines_increase(st.segments[i].statements)
    &&& labels_distinct(st.symbols)
}

/// [`pass_closed_sound`], and the open segment within the address space,
/// its statements in line order and all on lines before `bound`.
pub open spec fn pass_sound(st: PassSpec, bound: int) -> bool {
    &&& pass_closed_sound(st)
    &&& st.open matches Some(o) ==> {
        &&& o.counter <= 0x1_0000
        &&& lines_increase(o.statements)
        &&& forall|a: int| 0 <= a < o.statements.len() ==> #[trigger] o.statements[a].line < bound
    }
}

proof fn lemma_lookup_none(symbols: Seq<(Seq<char>, u16)>, name: Seq<char>)
    requires
        lookup(symbols, name) is None,
    ensures
        forall|k: int| 0 <= k < symbols.len() ==> #[trigger] symbols[k].0 != name,
    decreases symbols.len(),
{
    if symbols.len() > 0 {
        lemma_lookup_none(symbols.drop_first(), name);
        assert forall|k: int| 0 <= k < symbols.len() implies #[trigger] symbols[k].0 != name by {
            if k > 0 {
                assert(symbols[k] == symbols.drop_first()[k - 1]);
            }
        }
    }
}

proof fn lemma_lookup_finds(symbols: Seq<(Seq<char>, u16)>, k: int)
    requires
        labels_distinct(symbols),
        0 <= k < symbols.len(),
    ensures
        lookup(symbols, symbols[k].0) == Some(symbols[k].1),
    decreases k,
{
    if k > 0 {
        let rest = symbols.drop_first();
        assert(symbols[0].0 != symbols[k].0);
        assert(rest[k - 1] == symbols[k]);
        assert(labels_distinct(rest)) by {
            assert forall|a: int, b: int| 0 <= a < b < rest.len() implies #[trigger] rest[a].0
                != #[trigger] rest[b].0 by {
                assert(rest[a] == symbols[a + 1] && rest[b] == symbols[b + 1]);
            }
        }
        lemma_lookup_finds(rest, k - 1);
    }
}

proof fn lemma_define_sound(st: PassSpec, label: Option<Seq<char>>, address: u16, line: usize)
    requires
        labels_distinct(st.symbols),
        define_opt(st, label, address, line) is Ok,
    ensures
        labels_distinct(define_opt(st, label, address, line)->Ok_0.symbols),
{
    if let Some(name) = label {
        lemma_lookup_none(st.symbols, name);
        let syms = st.symbols.push((name, address));
        assert forall|a: int, b: int| 0 <= a < b < syms.len() implies #[trigger] syms[a].0 != #[trigger] syms[b].0 by {
            assert(syms[a] == st.symbols[a]);
            if b < st.symbols.len() {
                assert(syms[b] == st.symbols[b]);
            }
        }
    }
}

#[verifier::spinoff_prover]
proof fn lemma_step_sound(st: PassSpec, label: Option<Seq<char>>, body: LineBodySpec, line: usize)
    requires
        pass_sound(st, line as int),
        step_spec(st, label, body, line) is Ok,
    ensures
        pass_sound(step_spec(st, label, body, line)->Ok_0, line + 1),
{
    lemma_step_keeps_layout(st, label, body, line);
    let next = step_spec(st, label, body, line)->Ok_0;
    match body {
        LineBodySpec::Orig(origin) => {
        },
        LineBodySpec::End => {
            let o = st.open->0;
            assert forall|i: int| 0 <= i < next.segments.len() implies counter_after(
                #[trigger] next.segments[i].origin,
                next.segments[i].statements,
            ) <= 0x1_0000 && lines_increase(next.segments[i].statements) by {
                if i < st.segments.len() {
                    assert(next.segments[i] == st.segments[i]);
                }
            }
        },
        LineBodySpec::Empty => {
            let o = st.open->0;
            lemma_define_keeps_layout(st, label, o.counter as u16, line);
            lemma_define_sound(st, label, o.counter as u16, line);
        },
        LineBodySpec::Statement(op) => {
            let o = st.open->0;
            lemma_define_keeps_layout(st, label, o.counter as u16, line);
            lemma_define_sound(st, label, o.counter as u16, line);
            let stmts = o.statements.push(StatementSpec { address: o.counter as u16, line, operation: op });
            assert forall|a: int, b: int| 0 <= a < b < stmts.len() implies #[trigger] stmts[a].line
                < #[trigger] stmts[b].line by {
                assert(stmts[a] == o.statements[a]);
                if b < o.statements.len() {
                    assert(stmts[b] == o.statements[b]);
                }
            }
            assert forall|a: int| 0 <= a < stmts.len() implies #[trigger] stmts[a].line < line + 1 by {
                if a < o.statements.len() {
                    assert(stmts[a] == o.statements[a]);
                }
            }
            assert(next.open->0.statements == stmts);
        },
    }
}

proof fn lemma_pass_sound(ts: Seq<Located>, i: int, st: PassSpec, bound: int)
    requires
        0 <= i,
        pass_sound(st, bound),
        i < ts.len() ==> bound <= ts[i].line,
        pass_from(ts, i, st) is Ok,
        forall|k: int, l: int| 0 <= k < l < ts.len() ==> #[trigger] ts[k].line <= #[trigger] ts[l].line,
        forall|k: int|
            0 <= k < ts.len() - 1 && (#[trigger] ts[k].lexeme) is Newline ==> ts[k].line < ts[k + 1].line,
    ensures
        pass_closed_sound(pass_from(ts, i, st)->Ok_0),
    decreases ts.len() - i,
{
    if i < ts.len() {
        let j = next_newline(ts, i);
        lemma_next_newline_bound(ts, i);
        let piece = ts.subrange(i, j);
        if j < ts.len() {
            assert(ts[j].lexeme is Newline);
            assert(ts[i].line <= ts[j].line);
        }
        if piece.len() == 0 {
            if j < ts.len() {
                lemma_pass_sound(ts, j + 1, st, bound);
            }
        } else {
            let ln = piece[0].line;
            assert(piece[0] == ts[i]);
            let (label, body) = line_spec(piece, ln)->Ok_0;
            lemma_step_sound(st, label, body, ln);
            let st2 = feed_spec(st, piece, ln)->Ok_0;
            if j < ts.len() {
                lemma_pass_sound(ts, j + 1, st2, ln + 1);
            }
        }
    }
}

/// The names of a symbol table, in order.
pub open spec fn label_names(symbols: Seq<(Seq<char>, u16)>) -> Seq<Seq<char>> {
    symbols.map_values(|p: (Seq<char>, u16)| p.0)
}

/// The labels that the lines of `ts` from position `i` on put in front of
/// their bodies, in order.
pub open spec fn labels_from(ts: Seq<Located>, i: int) -> Seq<Seq<char>>
    decreases ts.len() - i,
{
    if i < 0 || i >= ts.len() {
        seq![]
    } else {
        let j = next_newline(ts, i);
        proof {
            lemma_next_newline_bound(ts, i);
        }
        let piece = ts.subrange(i, j);
        let here: Seq<Seq<char>> = if piece.len() == 0 {
            seq![]
        } else {
            match line_spec(piece, piece[0].line) {
                Ok((Some(name), _)) => seq![name],
                _ => seq![],
            }
        };
        if j >= ts.len() {
            here
        } else {
            here + labels_from(ts, j + 1)
        }
    }
}

proof fn lemma_step_labels(st: PassSpec, label: Option<Seq<char>>, body: LineBodySpec, line: usize)
    requires
        step_spec(st, label, body, line) is Ok,
    ensures
        label_names(step_spec(st, label, body, line)->Ok_0.symbols) == label_names(st.symbols) + (match label {
            Some(name) => seq![name],
            None => Seq::<Seq<char>>::empty(),
        }),
{
    let next = step_spec(st, label, body, line)->Ok_0;
    match label {
        Some(name) => {
            let o = st.open->0;
            assert(next.symbols == st.symbols.push((name, o.counter as u16)));
            assert(label_names(next.symbols) =~= label_names(st.symbols) + seq![name]);
        },
        None => {
            assert(next.symbols == st.symbols);
            assert(label_names(next.symbols) =~= label_names(st.symbols) + Seq::<Seq<char>>::empty());
        },
    }
}

proof fn lemma_pass_labels(ts: Seq<Located>, i: int, st: PassSpec)
    requires
        pass_from(ts, i, st) is Ok,
    ensures
        label_names(pass_from(ts, i, st)->Ok_0.symbols) == label_names(st.symbols) + labels_from(ts, i),
    decreases ts.len() - i,
{
    if 0 <= i < ts.len() {
        let j = next_newline(ts, i);
        lemma_next_newline_bound(ts, i);
        let piece = ts.subrange(i, j);
        let st2 = if piece.len() == 0 {
            assert(label_names(st.symbols) + Seq::<Seq<char>>::empty() =~= label_names(st.symbols));
            st
        } else {
            let (label, body) = line_spec(piece, piece[0].line)->Ok_0;
            lemma_step_labels(st, label, body, piece[0].line);
            feed_spec(st, piece, piece[0].line)->Ok_0
        };
        let here = label_names(st2.symbols).skip(label_names(st.symbols).len() as int);
        assert(label_names(st2.symbols) =~= label_names(st.symbols) + here);
        if j < ts.len() {
            lemma_pass_labels(ts, j + 1, st2);
            assert(labels_from(ts, i) == here + labels_from(ts, j + 1));
            assert(label_names(st.symbols) + here + labels_from(ts, j + 1) =~= label_names(st.symbols) + (here
                + labels_from(ts, j + 1)));
        } else {
            assert(labels_from(ts, i) == here);
        }
    } else {
        assert(label_names(st.symbols) + labels_from(ts, i) =~= label_names(st.symbols));
    }
}

/// A parsed program keeps to the address space and to its source: every
/// segment ends within the 16-bit address space, its statements stand on
/// strictly increasing source lines, and the symbol table holds exactly the
/// labels of the source's lines, in order, each once, so that looking a
/// label up gives the address it was defined at.
pub proof fn lemma_program_sound(source: Seq<char>)
    requires
        byte_len(source) < usize::MAX,
        parse_spec(source) is Ok,
    ensures
        forall|i: int|
            0 <= i < parse_spec(source)->Ok_0.segments.len() ==> counter_after(
                #[trigger] parse_spec(source)->Ok_0.segments[i].origin,
                parse_spec(source)->Ok_0.segments[i].statements,
            ) <= 0x1_0000 && lines_increase(parse_spec(source)->Ok_0.segments[i].statements),
        labels_distinct(parse_spec(source)->Ok_0.symbols),
        label_names(parse_spec(source)->Ok_0.symbols) == labels_from(tokenize_spec(source)->Ok_0, 0),
        forall|k: int|
            0 <= k < parse_spec(source)->Ok_0.symbols.len() ==> lookup(
                parse_spec(source)->Ok_0.symbols,
                #[trigger] parse_spec(source)->Ok_0.symbols[k].0,
            ) == Some(parse_spec(source)->Ok_0.symbols[k].1),
{
    let ts = tokenize_spec(source)->Ok_0;
    lemma_tokens_in_line_order(source);
    assert(pass_sound(start_spec(), 0));
    lemma_pass_sound(ts, 0, start_spec(), 0);
    lemma_pass_labels(ts, 0, start_spec());
    assert(label_names(start_spec().symbols) + labels_from(ts, 0) =~= labels_from(ts, 0));
    let p = parse_spec(source)->Ok_0;
    assert forall|k: int| 0 <= k < p.symbols.len() implies lookup(p.symbols, #[trigger] p.symbols[k].0) == Some(
        p.symbols[k].1,
    ) by {
        lemma_lookup_finds(p.symbols, k);
    }
}

} // verus!
