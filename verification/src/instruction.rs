//! Instruction decoding: the inverse of the assembler's code generation.
//!
//! [`decode`] turns one 16-bit word into a structured [`Instruction`], and
//! [`Instruction::encode`] turns it back. Decoding is total and faithful: every
//! canonical encoding decodes to its instruction, every other word to
//! [`Instruction::Data`], and `decode(word).encode() == word` for all 65536
//! words.
use vstd::prelude::*;

use crate::bits::{sign_extend, spec_sign_extend};
use crate::opcode::{lemma_nibble_decode_inverse, Opcode};

verus! {

/// A decoded LC-3 instruction, or a raw data word that is not one.
#[derive(Debug, Clone, Copy, PartialEq, Eq, Structural)]
pub enum Instruction {
    /// `ADD`/`AND` in register mode: `DR <- SR1 op SR2`.
    AluReg {
        /// The operation, [`Opcode::Add`] or [`Opcode::And`].
        op: Opcode,
        /// The destination register.
        dr: u16,
        /// The first source register.
        sr1: u16,
        /// The second source register.
        sr2: u16,
    },
    /// `ADD`/`AND` in immediate mode: `DR <- SR1 op imm5`.
    AluImm {
        /// The operation, [`Opcode::Add`] or [`Opcode::And`].
        op: Opcode,
        /// The destination register.
        dr: u16,
        /// The first source register.
        sr1: u16,
        /// The sign-extended five-bit immediate.
        imm: i16,
    },
    /// `NOT DR, SR`.
    Not {
        /// The destination register.
        dr: u16,
        /// The source register.
        sr: u16,
    },
    /// `BR(nzp)`: branch on the condition bits to a PC-relative offset.
    Branch {
        /// The `n`/`z`/`p` condition field, never empty.
        cond: u16,
        /// The sign-extended nine-bit PC-relative offset.
        offset: i16,
    },
    /// `JMP`/`JSRR`/`RET`: jump through a base register.
    BaseReg {
        /// The operation, [`Opcode::Jmp`] (`JMP`/`RET`) or [`Opcode::Jsr`] (`JSRR`).
        op: Opcode,
        /// The base register holding the destination address.
        base: u16,
    },
    /// `JSR`: jump to a subroutine at an eleven-bit PC-relative offset.
    Jsr {
        /// The sign-extended eleven-bit PC-relative offset.
        offset: i16,
    },
    /// `LD`/`LDI`/`LEA`/`ST`/`STI`: a register and a nine-bit PC-relative offset.
    PcRelative {
        /// The load or store operation.
        op: Opcode,
        /// The destination (load) or source (store) register.
        reg: u16,
        /// The sign-extended nine-bit PC-relative offset.
        offset: i16,
    },
    /// `LDR`/`STR`: a register, a base register, and a six-bit offset.
    BaseOffset {
        /// The load or store operation, [`Opcode::Ldr`] or [`Opcode::Str`].
        op: Opcode,
        /// The destination (load) or source (store) register.
        reg: u16,
        /// The base register.
        base: u16,
        /// The sign-extended six-bit offset.
        offset: i16,
    },
    /// `TRAP`: an eight-bit trap vector.
    Trap {
        /// The trap vector (`0..=255`).
        vector: u16,
    },
    /// `RTI`: return from interrupt.
    Rti,
    /// A word that is not a canonical instruction encoding; rendered as `.FILL`.
    Data(u16),
}

/// The signed value of a `bits`-wide field holding the low bits of `w`.
pub open spec fn field(w: u16, mask: u16, bits: u32) -> i16 {
    spec_sign_extend(w & mask, bits) as i16
}

/// What [`decode`] returns for a word: the instruction it canonically encodes,
/// or [`Instruction::Data`].
pub open spec fn decode_spec(word: u16) -> Instruction {
    let op = Opcode::of_word(word);
    let dr = (word >> 9) & 0x7;
    let sr1 = (word >> 6) & 0x7;
    if op == Opcode::Add || op == Opcode::And {
        if word & 0x20 != 0 {
            Instruction::AluImm { op, dr, sr1, imm: field(word, 0x1F, 5) }
        } else if word & 0x18 == 0 {
            Instruction::AluReg { op, dr, sr1, sr2: word & 0x7 }
        } else {
            Instruction::Data(word)
        }
    } else if op == Opcode::Br {
        if dr != 0 {
            Instruction::Branch { cond: dr, offset: field(word, 0x1FF, 9) }
        } else {
            Instruction::Data(word)
        }
    } else if op == Opcode::Jsr {
        if word & 0x0800 != 0 {
            Instruction::Jsr { offset: field(word, 0x7FF, 11) }
        } else if word & 0x063F == 0 {
            Instruction::BaseReg { op: Opcode::Jsr, base: sr1 }
        } else {
            Instruction::Data(word)
        }
    } else if op == Opcode::Not && word & 0x3F == 0x3F {
        Instruction::Not { dr, sr: sr1 }
    } else if op == Opcode::Jmp && word & 0x0E3F == 0 {
        Instruction::BaseReg { op: Opcode::Jmp, base: sr1 }
    } else if op == Opcode::Trap && word & 0x0F00 == 0 {
        Instruction::Trap { vector: word & 0xFF }
    } else if op == Opcode::Rti && word & 0x0FFF == 0 {
        Instruction::Rti
    } else if op == Opcode::Ld || op == Opcode::Ldi || op == Opcode::Lea || op == Opcode::St
        || op == Opcode::Sti {
        Instruction::PcRelative { op, reg: dr, offset: field(word, 0x1FF, 9) }
    } else if op == Opcode::Ldr || op == Opcode::Str {
        Instruction::BaseOffset { op, reg: dr, base: sr1, offset: field(word, 0x3F, 6) }
    } else {
        Instruction::Data(word)
    }
}

impl Instruction {
    /// The machine word this instruction encodes to.
    pub open spec fn encode_spec(self) -> u16 {
        match self {
            Instruction::AluReg { op, dr, sr1, sr2 } => (op.value() << 12u16) | (dr << 9u16) | (sr1
                << 6u16) | sr2,
            Instruction::AluImm { op, dr, sr1, imm } => (op.value() << 12u16) | (dr << 9u16) | (sr1
                << 6u16) | 0x20u16 | ((imm as u16) & 0x1F),
            Instruction::Not { dr, sr } => 0x9000u16 | (dr << 9u16) | (sr << 6u16) | 0x3Fu16,
            Instruction::Branch { cond, offset } => (cond << 9u16) | ((offset as u16) & 0x1FF),
            Instruction::BaseReg { op, base } => (op.value() << 12u16) | (base << 6u16),
            Instruction::Jsr { offset } => 0x4000u16 | 0x0800u16 | ((offset as u16) & 0x7FF),
            Instruction::PcRelative { op, reg, offset } => (op.value() << 12u16) | (reg << 9u16) | ((
            offset as u16) & 0x1FF),
            Instruction::BaseOffset { op, reg, base, offset } => (op.value() << 12u16) | (reg
                << 9u16) | (base << 6u16) | ((offset as u16) & 0x3F),
            Instruction::Trap { vector } => 0xF000u16 | vector,
            Instruction::Rti => 0x8000u16,
            Instruction::Data(word) => word,
        }
    }

    /// Re-encodes this instruction into its 16-bit machine word.
    pub fn encode(self) -> (r: u16)
        ensures
            r == self.encode_spec(),
    {
        match self {
            Instruction::AluReg { op, dr, sr1, sr2 } => (op.nibble() << 12u16) | (dr << 9u16) | (
            sr1 << 6u16) | sr2,
            Instruction::AluImm { op, dr, sr1, imm } => (op.nibble() << 12u16) | (dr << 9u16) | (
            sr1 << 6u16) | 0x20u16 | ((imm as u16) & 0x1F),
            Instruction::Not { dr, sr } => 0x9000u16 | (dr << 9u16) | (sr << 6u16) | 0x3Fu16,
            Instruction::Branch { cond, offset } => (cond << 9u16) | ((offset as u16) & 0x1FF),
            Instruction::BaseReg { op, base } => (op.nibble() << 12u16) | (base << 6u16),
            Instruction::Jsr { offset } => 0x4000u16 | 0x0800u16 | ((offset as u16) & 0x7FF),
            Instruction::PcRelative { op, reg, offset } => (op.nibble() << 12u16) | (reg << 9u16)
                | ((offset as u16) & 0x1FF),
            Instruction::BaseOffset { op, reg, base, offset } => (op.nibble() << 12u16) | (reg
                << 9u16) | (base << 6u16) | ((offset as u16) & 0x3F),
            Instruction::Trap { vector } => 0xF000u16 | vector,
            Instruction::Rti => 0x8000u16,
            Instruction::Data(word) => word,
        }
    }
}

/// Decodes one 16-bit `word` into its [`Instruction`].
pub fn decode(word: u16) -> (r: Instruction)
    ensures
        r == decode_spec(word),
{
    let op = Opcode::decode(word);
    let dr = (word >> 9) & 0x7;
    let sr1 = (word >> 6) & 0x7;
    if op == Opcode::Add || op == Opcode::And {
        if word & 0x20 != 0 {
            Instruction::AluImm { op, dr, sr1, imm: sign_extend(word & 0x1F, 5) as i16 }
        } else if word & 0x18 == 0 {
            Instruction::AluReg { op, dr, sr1, sr2: word & 0x7 }
        } else {
            Instruction::Data(word)
        }
    } else if op == Opcode::Br {
        if dr != 0 {
            Instruction::Branch { cond: dr, offset: sign_extend(word & 0x1FF, 9) as i16 }
        } else {
            Instruction::Data(word)
        }
    } else if op == Opcode::Jsr {
        if word & 0x0800 != 0 {
            Instruction::Jsr { offset: sign_extend(word & 0x7FF, 11) as i16 }
        } else if word & 0x063F == 0 {
            Instruction::BaseReg { op: Opcode::Jsr, base: sr1 }
        } else {
            Instruction::Data(word)
        }
    } else if op == Opcode::Not && word & 0x3F == 0x3F {
        Instruction::Not { dr, sr: sr1 }
    } else if op == Opcode::Jmp && word & 0x0E3F == 0 {
        Instruction::BaseReg { op: Opcode::Jmp, base: sr1 }
    } else if op == Opcode::Trap && word & 0x0F00 == 0 {
        Instruction::Trap { vector: word & 0xFF }
    } else if op == Opcode::Rti && word & 0x0FFF == 0 {
        Instruction::Rti
    } else if op == Opcode::Ld || op == Opcode::Ldi || op == Opcode::Lea || op == Opcode::St
        || op == Opcode::Sti {
        Instruction::PcRelative { op, reg: dr, offset: sign_extend(word & 0x1FF, 9) as i16 }
    } else if op == Opcode::Ldr || op == Opcode::Str {
        Instruction::BaseOffset {
            op,
            reg: dr,
            base: sr1,
            offset: sign_extend(word & 0x3F, 6) as i16,
        }
    } else {
        Instruction::Data(word)
    }
}

/// A sign-extended field keeps its low bits, for each field width the
/// instruction set uses.
pub proof fn lemma_field_low_bits(w: u16)
    ensures
        (field(w, 0x1F, 5) as u16) & 0x1F == w & 0x1F,
        (field(w, 0x3F, 6) as u16) & 0x3F == w & 0x3F,
        (field(w, 0x1FF, 9) as u16) & 0x1FF == w & 0x1FF,
        (field(w, 0x7FF, 11) as u16) & 0x7FF == w & 0x7FF,
{
    let a = spec_sign_extend(w & 0x1F, 5);
    let b = spec_sign_extend(w & 0x3F, 6);
    let c = spec_sign_extend(w & 0x1FF, 9);
    let d = spec_sign_extend(w & 0x7FF, 11);
    assert(a & 0x1F == w & 0x1F && b & 0x3F == w & 0x3F && c & 0x1FF == w & 0x1FF && d & 0x7FF == w & 0x7FF
        && (a as i16) as u16 == a && (b as i16) as u16 == b && (c as i16) as u16 == c && (d as i16) as u16 == d)
        by (bit_vector)
        requires
            a == spec_sign_extend(w & 0x1F, 5),
            b == spec_sign_extend(w & 0x3F, 6),
            c == spec_sign_extend(w & 0x1FF, 9),
            d == spec_sign_extend(w & 0x7FF, 11),
    ;
}

/// Decoding is faithful: every word re-encodes to itself.
pub proof fn lemma_decode_encode(w: u16)
    ensures
        decode_spec(w).encode_spec() == w,
{
    let op = Opcode::of_word(w);
    lemma_nibble_decode_inverse(op, w);
    lemma_field_low_bits(w);
    let n = w >> 12;
    assert(op.value() == n);
    let i = decode_spec(w);
    match i {
        Instruction::AluReg { .. } => {
            assert(w & 0x20 == 0 && w & 0x18 == 0 ==> ((w >> 12) << 12u16) | (((w >> 9) & 7) << 9u16)
                | (((w >> 6) & 7) << 6u16) | (w & 7) == w) by (bit_vector);
        },
        Instruction::AluImm { imm, .. } => {
            let low = (imm as u16) & 0x1F;
            assert(w & 0x20 != 0 && low == w & 0x1F ==> ((w >> 12) << 12u16) | (((w >> 9) & 7)
                << 9u16) | (((w >> 6) & 7) << 6u16) | 0x20u16 | low == w) by (bit_vector);
        },
        Instruction::Not { .. } => {
            assert((w >> 12) == 9 && w & 0x3F == 0x3F ==> 0x9000u16 | (((w >> 9) & 7) << 9u16) | (((w >> 6)
                & 7) << 6u16) | 0x3Fu16 == w) by (bit_vector);
        },
        Instruction::Branch { offset, .. } => {
            let low = (offset as u16) & 0x1FF;
            assert((w >> 12) == 0 && low == w & 0x1FF ==> (((w >> 9) & 7) << 9u16) | low == w)
                by (bit_vector);
        },
        Instruction::BaseReg { .. } => {
            assert((w >> 12) == 4 && w & 0x0800 == 0 && w & 0x063F == 0 ==> (4u16 << 12u16) | (((w >> 6)
                & 7) << 6u16) == w) by (bit_vector);
            assert((w >> 12) == 12 && w & 0x0E3F == 0 ==> (12u16 << 12u16) | (((w >> 6) & 7) << 6u16) == w)
                by (bit_vector);
        },
        Instruction::Jsr { offset } => {
            let low = (offset as u16) & 0x7FF;
            assert((w >> 12) == 4 && w & 0x0800 != 0 && low == w & 0x7FF ==> 0x4000u16 | 0x0800u16 | low
                == w) by (bit_vector);
        },
        Instruction::PcRelative { offset, .. } => {
            let low = (offset as u16) & 0x1FF;
            assert(low == w & 0x1FF ==> ((w >> 12) << 12u16) | (((w >> 9) & 7) << 9u16) | low == w)
                by (bit_vector);
        },
        Instruction::BaseOffset { offset, .. } => {
            let low = (offset as u16) & 0x3F;
            assert(low == w & 0x3F ==> ((w >> 12) << 12u16) | (((w >> 9) & 7) << 9u16) | (((w
                >> 6) & 7) << 6u16) | low == w) by (bit_vector);
        },
        Instruction::Trap { .. } => {
            assert((w >> 12) == 15 && w & 0x0F00 == 0 ==> 0xF000u16 | (w & 0xFF) == w) by (bit_vector);
        },
        Instruction::Rti => {
            assert((w >> 12) == 8 && w & 0x0FFF == 0 ==> w == 0x8000) by (bit_vector);
        },
        Instruction::Data(_) => {},
    }
}

impl Instruction {
    /// A canonical instruction: operand fields within their widths and each
    /// form carrying an opcode of its own family; a data word is canonical
    /// exactly when it encodes no instruction.
    pub open spec fn well_formed(self) -> bool {
        match self {
            Instruction::AluReg { op, dr, sr1, sr2 } => (op == Opcode::Add || op == Opcode::And)
                && dr < 8 && sr1 < 8 && sr2 < 8,
            Instruction::AluImm { op, dr, sr1, imm } => (op == Opcode::Add || op == Opcode::And)
                && dr < 8 && sr1 < 8 && -16 <= imm < 16,
            Instruction::Not { dr, sr } => dr < 8 && sr < 8,
            Instruction::Branch { cond, offset } => 1 <= cond <= 7 && -256 <= offset < 256,
            Instruction::BaseReg { op, base } => (op == Opcode::Jmp || op == Opcode::Jsr) && base < 8,
            Instruction::Jsr { offset } => -1024 <= offset < 1024,
            Instruction::PcRelative { op, reg, offset } => (op == Opcode::Ld || op == Opcode::Ldi
                || op == Opcode::Lea || op == Opcode::St || op == Opcode::Sti) && reg < 8 && -256
                <= offset < 256,
            Instruction::BaseOffset { op, reg, base, offset } => (op == Opcode::Ldr || op
                == Opcode::Str) && reg < 8 && base < 8 && -32 <= offset < 32,
            Instruction::Trap { vector } => vector < 256,
            Instruction::Rti => true,
            Instruction::Data(word) => decode_spec(word) == Instruction::Data(word),
        }
    }
}

/// Sign-extending the encoded low bits of an in-range offset gives the offset
/// back, for each field width the instruction set uses.
pub proof fn lemma_field_of_encoded(v: i16)
    ensures
        -16 <= v < 16 ==> field((v as u16) & 0x1F, 0x1F, 5) == v,
        -32 <= v < 32 ==> field((v as u16) & 0x3F, 0x3F, 6) == v,
        -256 <= v < 256 ==> field((v as u16) & 0x1FF, 0x1FF, 9) == v,
        -1024 <= v < 1024 ==> field((v as u16) & 0x7FF, 0x7FF, 11) == v,
{
    let u = v as u16;
    assert(-16 <= v < 16 ==> spec_sign_extend(((v as u16) & 0x1F) & 0x1F, 5) as i16 == v) by (bit_vector);
    assert(-32 <= v < 32 ==> spec_sign_extend(((v as u16) & 0x3F) & 0x3F, 6) as i16 == v) by (bit_vector);
    assert(-256 <= v < 256 ==> spec_sign_extend(((v as u16) & 0x1FF) & 0x1FF, 9) as i16 == v) by (bit_vector);
    assert(-1024 <= v < 1024 ==> spec_sign_extend(((v as u16) & 0x7FF) & 0x7FF, 11) as i16 == v) by (bit_vector);
}

/// Encoding is faithful: a canonical instruction decodes back to itself.
pub proof fn lemma_encode_decode(i: Instruction)
    requires
        i.well_formed(),
    ensures
        decode_spec(i.encode_spec()) == i,
{
    let w = i.encode_spec();
    match i {
        Instruction::AluReg { op, dr, sr1, sr2 } => {
            let v = op.value();
            assert(v < 16 && dr < 8 && sr1 < 8 && sr2 < 8 ==> {
                let x = (v << 12u16) | (dr << 9u16) | (sr1 << 6u16) | sr2;
                &&& x >> 12 == v && (x >> 9) & 7 == dr && (x >> 6) & 7 == sr1
                &&& x & 7 == sr2 && x & 0x20 == 0 && x & 0x18 == 0
            }) by (bit_vector);
        },
        Instruction::AluImm { op, dr, sr1, imm } => {
            let v = op.value();
            let low = (imm as u16) & 0x1F;
            assert(v < 16 && dr < 8 && sr1 < 8 ==> {
                let x = (v << 12u16) | (dr << 9u16) | (sr1 << 6u16) | 0x20u16 | low;
                &&& x >> 12 == v && (x >> 9) & 7 == dr && (x >> 6) & 7 == sr1
                &&& x & 0x20 != 0 && x & 0x1F == low
            }) by (bit_vector)
                requires low == (imm as u16) & 0x1F;
            lemma_field_of_encoded(imm);
            assert(low & 0x1F == low) by (bit_vector)
                requires low == (imm as u16) & 0x1F;
        },
        Instruction::Not { dr, sr } => {
            assert(dr < 8 && sr < 8 ==> {
                let x = 0x9000u16 | (dr << 9u16) | (sr << 6u16) | 0x3Fu16;
                &&& x >> 12 == 9 && (x >> 9) & 7 == dr && (x >> 6) & 7 == sr && x & 0x3F == 0x3F
            }) by (bit_vector);
        },
        Instruction::Branch { cond, offset } => {
            let low = (offset as u16) & 0x1FF;
            assert(1 <= cond <= 7 ==> {
                let x = (cond << 9u16) | low;
                &&& x >> 12 == 0 && (x >> 9) & 7 == cond && x & 0x1FF == low
            }) by (bit_vector)
                requires low == (offset as u16) & 0x1FF;
            lemma_field_of_encoded(offset);
            assert(low & 0x1FF == low) by (bit_vector)
                requires low == (offset as u16) & 0x1FF;
        },
        Instruction::BaseReg { op, base } => {
            let v = op.value();
            assert(base < 8 && (v == 4 || v == 12) ==> {
                let x = (v << 12u16) | (base << 6u16);
                &&& x >> 12 == v && (x >> 6) & 7 == base && x & 0x0800 == 0 && x & 0x063F == 0
                &&& x & 0x0E3F == 0
            }) by (bit_vector);
        },
        Instruction::Jsr { offset } => {
            let low = (offset as u16) & 0x7FF;
            assert({
                let x = 0x4000u16 | 0x0800u16 | low;
                &&& x >> 12 == 4 && x & 0x0800 != 0 && x & 0x7FF == low
            }) by (bit_vector)
                requires low == (offset as u16) & 0x7FF;
            lemma_field_of_encoded(offset);
            assert(low & 0x7FF == low) by (bit_vector)
                requires low == (offset as u16) & 0x7FF;
        },
        Instruction::PcRelative { op, reg, offset } => {
            let v = op.value();
            let low = (offset as u16) & 0x1FF;
            assert(v < 16 && reg < 8 ==> {
                let x = (v << 12u16) | (reg << 9u16) | low;
                &&& x >> 12 == v && (x >> 9) & 7 == reg && x & 0x1FF == low
            }) by (bit_vector)
                requires low == (offset as u16) & 0x1FF;
            lemma_field_of_encoded(offset);
            assert(low & 0x1FF == low) by (bit_vector)
                requires low == (offset as u16) & 0x1FF;
        },
        Instruction::BaseOffset { op, reg, base, offset } => {
            let v = op.value();
            let low = (offset as u16) & 0x3F;
            assert(v < 16 && reg < 8 && base < 8 ==> {
                let x = (v << 12u16) | (reg << 9u16) | (base << 6u16) | low;
                &&& x >> 12 == v && (x >> 9) & 7 == reg && (x >> 6) & 7 == base && x & 0x3F == low
            }) by (bit_vector)
                requires low == (offset as u16) & 0x3F;
            lemma_field_of_encoded(offset);
            assert(low & 0x3F == low) by (bit_vector)
                requires low == (offset as u16) & 0x3F;
        },
        Instruction::Trap { vector } => {
            assert(vector < 256 ==> {
                let x = 0xF000u16 | vector;
                &&& x >> 12 == 15 && x & 0x0F00 == 0 && x & 0xFF == vector
            }) by (bit_vector);
        },
        Instruction::Rti => {
            assert(0x8000u16 >> 12 == 8 && 0x8000u16 & 0x0FFF == 0) by (bit_vector);
        },
        Instruction::Data(_) => {},
    }
}

} // verus!
