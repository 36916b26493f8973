//! LC-3 operation codes and instruction decoding.
use vstd::prelude::*;

use crate::text::{chars_eq, chars_of, upper_chars, upper_seq};

verus! {

/// The sixteen LC-3 operation codes.
///
/// Every instruction is one 16-bit word whose top four bits (`[15:12]`) select
/// the operation. All sixteen values are defined, so decoding is total.
#[derive(Debug, Clone, Copy, PartialEq, Eq, Structural)]
pub enum Opcode {
    /// Conditional branch — opcode `0000`.
    Br,
    /// Addition — opcode `0001`.
    Add,
    /// Load PC-relative — opcode `0010`.
    Ld,
    /// Store PC-relative — opcode `0011`.
    St,
    /// Jump to subroutine — opcode `0100`.
    Jsr,
    /// Bitwise AND — opcode `0101`.
    And,
    /// Load base+offset — opcode `0110`.
    Ldr,
    /// Store base+offset — opcode `0111`.
    Str,
    /// Return from interrupt (privileged) — opcode `1000`.
    Rti,
    /// Bitwise NOT — opcode `1001`.
    Not,
    /// Load indirect — opcode `1010`.
    Ldi,
    /// Store indirect — opcode `1011`.
    Sti,
    /// Jump (and return) — opcode `1100`.
    Jmp,
    /// Reserved — opcode `1101`.
    Res,
    /// Load effective address — opcode `1110`.
    Lea,
    /// System trap — opcode `1111`.
    Trap,
}

impl Opcode {
    /// The opcode occupying the four-bit value `n` (any value of fifteen or
    /// more selects [`Opcode::Trap`]).
    pub open spec fn from_nibble(n: int) -> Opcode {
        if n == 0 { Opcode::Br }
        else if n == 1 { Opcode::Add }
        else if n == 2 { Opcode::Ld }
        else if n == 3 { Opcode::St }
        else if n == 4 { Opcode::Jsr }
        else if n == 5 { Opcode::And }
        else if n == 6 { Opcode::Ldr }
        else if n == 7 { Opcode::Str }
        else if n == 8 { Opcode::Rti }
        else if n == 9 { Opcode::Not }
        else if n == 10 { Opcode::Ldi }
        else if n == 11 { Opcode::Sti }
        else if n == 12 { Opcode::Jmp }
        else if n == 13 { Opcode::Res }
        else if n == 14 { Opcode::Lea }
        else { Opcode::Trap }
    }

    /// The opcode of an instruction word: its top nibble.
    pub open spec fn of_word(instruction: u16) -> Opcode {
        Opcode::from_nibble((instruction >> 12) as int)
    }

    /// The four-bit value of this opcode.
    pub open spec fn value(self) -> u16 {
        match self {
            Opcode::Br => 0,
            Opcode::Add => 1,
            Opcode::Ld => 2,
            Opcode::St => 3,
            Opcode::Jsr => 4,
            Opcode::And => 5,
            Opcode::Ldr => 6,
            Opcode::Str => 7,
            Opcode::Rti => 8,
            Opcode::Not => 9,
            Opcode::Ldi => 10,
            Opcode::Sti => 11,
            Opcode::Jmp => 12,
            Opcode::Res => 13,
            Opcode::Lea => 14,
            Opcode::Trap => 15,
        }
    }

    /// The mnemonic naming this operation, if a single one does.
    pub open spec fn mnemonic_text(self) -> Option<Seq<char>> {
        match self {
            Opcode::Add => Some(seq!['A', 'D', 'D']),
            Opcode::And => Some(seq!['A', 'N', 'D']),
            Opcode::Not => Some(seq!['N', 'O', 'T']),
            Opcode::Ld => Some(seq!['L', 'D']),
            Opcode::Ldi => Some(seq!['L', 'D', 'I']),
            Opcode::Ldr => Some(seq!['L', 'D', 'R']),
            Opcode::Lea => Some(seq!['L', 'E', 'A']),
            Opcode::St => Some(seq!['S', 'T']),
            Opcode::Sti => Some(seq!['S', 'T', 'I']),
            Opcode::Str => Some(seq!['S', 'T', 'R']),
            Opcode::Jmp => Some(seq!['J', 'M', 'P']),
            Opcode::Jsr => Some(seq!['J', 'S', 'R']),
            Opcode::Rti => Some(seq!['R', 'T', 'I']),
            Opcode::Trap => Some(seq!['T', 'R', 'A', 'P']),
            Opcode::Br | Opcode::Res => None,
        }
    }

    /// The opcode an upper-cased mnemonic names: every machine mnemonic, plus
    /// `RET` (a [`Opcode::Jmp`]) and `JSRR` (a [`Opcode::Jsr`]).
    pub open spec fn from_upper_text(t: Seq<char>) -> Option<Opcode> {
        if t == seq!['A', 'D', 'D'] { Some(Opcode::Add) }
        else if t == seq!['A', 'N', 'D'] { Some(Opcode::And) }
        else if t == seq!['N', 'O', 'T'] { Some(Opcode::Not) }
        else if t == seq!['L', 'D'] { Some(Opcode::Ld) }
        else if t == seq!['L', 'D', 'I'] { Some(Opcode::Ldi) }
        else if t == seq!['L', 'D', 'R'] { Some(Opcode::Ldr) }
        else if t == seq!['L', 'E', 'A'] { Some(Opcode::Lea) }
        else if t == seq!['S', 'T'] { Some(Opcode::St) }
        else if t == seq!['S', 'T', 'I'] { Some(Opcode::Sti) }
        else if t == seq!['S', 'T', 'R'] { Some(Opcode::Str) }
        else if t == seq!['J', 'M', 'P'] || t == seq!['R', 'E', 'T'] { Some(Opcode::Jmp) }
        else if t == seq!['J', 'S', 'R'] || t == seq!['J', 'S', 'R', 'R'] { Some(Opcode::Jsr) }
        else if t == seq!['R', 'T', 'I'] { Some(Opcode::Rti) }
        else if t == seq!['T', 'R', 'A', 'P'] { Some(Opcode::Trap) }
        else { None }
    }

    /// What `from_mnemonic` returns for a token: the token is matched
    /// ignoring ASCII case.
    pub open spec fn parse_spec(t: Seq<char>) -> Option<Opcode> {
        Opcode::from_upper_text(upper_seq(t))
    }

    /// Decodes the opcode field (`[15:12]`) of an instruction.
    pub fn decode(instruction: u16) -> (op: Opcode)
        ensures
            op == Opcode::of_word(instruction),
    {
        let n = instruction >> 12;
        if n == 0 { Opcode::Br }
        else if n == 1 { Opcode::Add }
        else if n == 2 { Opcode::Ld }
        else if n == 3 { Opcode::St }
        else if n == 4 { Opcode::Jsr }
        else if n == 5 { Opcode::And }
        else if n == 6 { Opcode::Ldr }
        else if n == 7 { Opcode::Str }
        else if n == 8 { Opcode::Rti }
        else if n == 9 { Opcode::Not }
        else if n == 10 { Opcode::Ldi }
        else if n == 11 { Opcode::Sti }
        else if n == 12 { Opcode::Jmp }
        else if n == 13 { Opcode::Res }
        else if n == 14 { Opcode::Lea }
        else { Opcode::Trap }
    }

    /// The four-bit value this opcode occupies in the instruction field
    /// `[15:12]`.
    pub fn nibble(self) -> (n: u16)
        ensures
            n == self.value(),
            n < 16,
    {
        match self {
            Opcode::Br => 0,
            Opcode::Add => 1,
            Opcode::Ld => 2,
            Opcode::St => 3,
            Opcode::Jsr => 4,
            Opcode::And => 5,
            Opcode::Ldr => 6,
            Opcode::Str => 7,
            Opcode::Rti => 8,
            Opcode::Not => 9,
            Opcode::Ldi => 10,
            Opcode::Sti => 11,
            Opcode::Jmp => 12,
            Opcode::Res => 13,
            Opcode::Lea => 14,
            Opcode::Trap => 15,
        }
    }

    /// Parses a machine-operation mnemonic, case-insensitively, to its opcode.
    ///
    /// `JSR`/`JSRR` and `JMP`/`RET` share the [`Opcode::Jsr`] and
    /// [`Opcode::Jmp`] opcodes. Branches, pseudo-ops and trap aliases are not
    /// opcodes here and yield `None`.
    pub fn from_mnemonic(token: &str) -> (r: Option<Opcode>)
        ensures
            r == Opcode::parse_spec(token@),
    {
        let chars = chars_of(token);
        Opcode::from_chars(&chars)
    }

    /// [`from_mnemonic`](Self::from_mnemonic) over a character slice.
    pub fn from_chars(token: &[char]) -> (r: Option<Opcode>)
        ensures
            r == Opcode::parse_spec(token@),
    {
        let t = upper_chars(token);
        if chars_eq(&t, &['A', 'D', 'D']) { Some(Opcode::Add) }
        else if chars_eq(&t, &['A', 'N', 'D']) { Some(Opcode::And) }
        else if chars_eq(&t, &['N', 'O', 'T']) { Some(Opcode::Not) }
        else if chars_eq(&t, &['L', 'D']) { Some(Opcode::Ld) }
        else if chars_eq(&t, &['L', 'D', 'I']) { Some(Opcode::Ldi) }
        else if chars_eq(&t, &['L', 'D', 'R']) { Some(Opcode::Ldr) }
        else if chars_eq(&t, &['L', 'E', 'A']) { Some(Opcode::Lea) }
        else if chars_eq(&t, &['S', 'T']) { Some(Opcode::St) }
        else if chars_eq(&t, &['S', 'T', 'I']) { Some(Opcode::Sti) }
        else if chars_eq(&t, &['S', 'T', 'R']) { Some(Opcode::Str) }
        else if chars_eq(&t, &['J', 'M', 'P']) || chars_eq(&t, &['R', 'E', 'T']) { Some(Opcode::Jmp) }
        else if chars_eq(&t, &['J', 'S', 'R']) || chars_eq(&t, &['J', 'S', 'R', 'R']) { Some(Opcode::Jsr) }
        else if chars_eq(&t, &['R', 'T', 'I']) { Some(Opcode::Rti) }
        else if chars_eq(&t, &['T', 'R', 'A', 'P']) { Some(Opcode::Trap) }
        else { None }
    }

    /// The assembly mnemonic naming this operation, or `None` when no single
    /// mnemonic does: [`Opcode::Br`] (its mnemonic depends on the condition
    /// field) and the reserved [`Opcode::Res`]. Shared opcodes render their
    /// base form, `JSR` and `JMP`.
    pub fn mnemonic(self) -> (r: Option<&'static str>)
        ensures
            r is Some <==> self.mnemonic_text() is Some,
            r matches Some(t) ==> t@ == self.mnemonic_text().unwrap(),
    {
        match self {
            Opcode::Add => { proof { reveal_strlit("ADD"); } Some("ADD") },
            Opcode::And => { proof { reveal_strlit("AND"); } Some("AND") },
            Opcode::Not => { proof { reveal_strlit("NOT"); } Some("NOT") },
            Opcode::Ld => { proof { reveal_strlit("LD"); } Some("LD") },
            Opcode::Ldi => { proof { reveal_strlit("LDI"); } Some("LDI") },
            Opcode::Ldr => { proof { reveal_strlit("LDR"); } Some("LDR") },
            Opcode::Lea => { proof { reveal_strlit("LEA"); } Some("LEA") },
            Opcode::St => { proof { reveal_strlit("ST"); } Some("ST") },
            Opcode::Sti => { proof { reveal_strlit("STI"); } Some("STI") },
            Opcode::Str => { proof { reveal_strlit("STR"); } Some("STR") },
            Opcode::Jmp => { proof { reveal_strlit("JMP"); } Some("JMP") },
            Opcode::Jsr => { proof { reveal_strlit("JSR"); } Some("JSR") },
            Opcode::Rti => { proof { reveal_strlit("RTI"); } Some("RTI") },
            Opcode::Trap => { proof { reveal_strlit("TRAP"); } Some("TRAP") },
            Opcode::Br | Opcode::Res => None,
        }
    }
}

/// Decoding the top nibble and re-encoding it are inverse: every opcode's
/// value decodes back to it, and every nibble's opcode has that value.
pub proof fn lemma_nibble_decode_inverse(op: Opcode, w: u16)
    ensures
        Opcode::from_nibble(op.value() as int) == op,
        Opcode::of_word(w).value() == w >> 12,
        Opcode::of_word(((op.value() as u16) << 12u16) | (w & 0x0FFF)) == op,
{
    assert(w >> 12 < 16) by (bit_vector);
    let v = op.value();
    assert(v < 16 ==> (((v << 12u16) | (w & 0x0FFF)) >> 12u16) == v) by (bit_vector);
}

/// Every mnemonic an opcode renders parses back to that opcode.
pub proof fn lemma_mnemonic_round_trip(op: Opcode)
    ensures
        op.mnemonic_text() matches Some(t) ==> Opcode::parse_spec(t) == Some(op),
        op.mnemonic_text() is None <==> (op == Opcode::Br || op == Opcode::Res),
{
    match op.mnemonic_text() {
        Some(t) => {
            assert(upper_seq(t) =~= t);
        },
        None => {},
    }
}

} // verus!
