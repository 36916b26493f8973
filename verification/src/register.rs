//! LC-3 register file shape, condition codes, and the register and branch
//! vocabulary shared by the assembler and the disassembler.
use vstd::prelude::*;

use crate::text::{chars_of, upper, upper_chars, upper_seq};

verus! {

/// The number of general-purpose registers (`R0`–`R7`).
pub const GP_REGISTER_COUNT: usize = 8;

/// The condition code set after each instruction that writes a register:
/// the sign of the value most recently written.
#[derive(Debug, Clone, Copy, PartialEq, Eq, Structural)]
pub enum ConditionFlag {
    /// The last result was positive.
    Positive,
    /// The last result was zero.
    Zero,
    /// The last result was negative.
    Negative,
}

impl ConditionFlag {
    /// The single-bit mask of this flag in a `BR` instruction's `N`/`Z`/`P`
    /// field (`P` = bit 0, `Z` = bit 1, `N` = bit 2).
    pub open spec fn mask(self) -> u16 {
        match self {
            ConditionFlag::Positive => 1,
            ConditionFlag::Zero => 2,
            ConditionFlag::Negative => 4,
        }
    }

    /// The flag a freshly written `value` sets: its sign read from bit 15.
    pub open spec fn of_value(value: u16) -> ConditionFlag {
        if value == 0 {
            ConditionFlag::Zero
        } else if value >= 0x8000 {
            ConditionFlag::Negative
        } else {
            ConditionFlag::Positive
        }
    }

    /// Whether a branch with condition field `nzp` is taken under this flag.
    pub open spec fn taken(self, nzp: u16) -> bool {
        nzp & self.mask() != 0
    }

    /// The single-bit mask matching this flag against a `BR` instruction's
    /// `N`/`Z`/`P` field.
    pub fn bits(self) -> (r: u16)
        ensures
            r == self.mask(),
    {
        match self {
            ConditionFlag::Positive => 1,
            ConditionFlag::Zero => 2,
            ConditionFlag::Negative => 4,
        }
    }

    /// Derives the condition code from a freshly written 16-bit `value`,
    /// reading its most-significant bit as the sign.
    pub fn from_result(value: u16) -> (r: ConditionFlag)
        ensures
            r == ConditionFlag::of_value(value),
    {
        if value == 0 {
            ConditionFlag::Zero
        } else if value >> 15 != 0 {
            assert(value >> 15 != 0 ==> value >= 0x8000) by (bit_vector);
            ConditionFlag::Negative
        } else {
            assert(value >> 15 == 0 ==> value < 0x8000) by (bit_vector);
            ConditionFlag::Positive
        }
    }

    /// Whether a `BR` whose `N`/`Z`/`P` field is `nzp` should be taken given
    /// this current condition code.
    pub fn matches(self, nzp: u16) -> (r: bool)
        ensures
            r == self.taken(nzp),
    {
        nzp & self.bits() != 0
    }
}

/// The register number a token names: `R0`–`R7`, either case.
pub open spec fn register_spec(t: Seq<char>) -> Option<u16> {
    if t.len() == 2 && (t[0] == 'R' || t[0] == 'r') && '0' <= t[1] && t[1] <= '7' {
        Some(((t[1] as u32) - ('0' as u32)) as u16)
    } else {
        None
    }
}

/// Parses a register token `R0`–`R7`, case-insensitively, to its three-bit
/// register number. Returns `None` for anything else, including `R8` and `R`.
pub fn parse_register(token: &str) -> (r: Option<u16>)
    ensures
        r == register_spec(token@),
{
    let chars = chars_of(token);
    register_from_chars(&chars)
}

/// [`parse_register`] over a character slice.
pub fn register_from_chars(t: &[char]) -> (r: Option<u16>)
    ensures
        r == register_spec(t@),
        r matches Some(n) ==> n < 8,
{
    if t.len() == 2 && (t[0] == 'R' || t[0] == 'r') && '0' <= t[1] && t[1] <= '7' {
        Some((t[1] as u32 - '0' as u32) as u16)
    } else {
        None
    }
}

/// The `N`/`Z`/`P` field an upper-cased `BR` suffix selects: the letters of
/// the tested flags in `N`, `Z`, `P` order, or nothing for all three.
pub open spec fn branch_suffix_bits(s: Seq<char>) -> Option<u16> {
    if s.len() == 0 {
        Some(7)
    } else if s.len() == 1 {
        if s[0] == 'N' { Some(4) } else if s[0] == 'Z' { Some(2) } else if s[0] == 'P' { Some(1) } else { None }
    } else if s.len() == 2 {
        if s[0] == 'N' && s[1] == 'Z' { Some(6) }
        else if s[0] == 'N' && s[1] == 'P' { Some(5) }
        else if s[0] == 'Z' && s[1] == 'P' { Some(3) }
        else { None }
    } else if s.len() == 3 && s[0] == 'N' && s[1] == 'Z' && s[2] == 'P' {
        Some(7)
    } else {
        None
    }
}

/// What `parse_branch_condition` returns for a mnemonic.
pub open spec fn branch_condition_spec(t: Seq<char>) -> Option<u16> {
    let u = upper_seq(t);
    if u.len() >= 2 && u[0] == 'B' && u[1] == 'R' {
        branch_suffix_bits(u.skip(2))
    } else {
        None
    }
}

/// Parses a `BR`-family mnemonic, case-insensitively, to its three-bit
/// `N`/`Z`/`P` condition field (`N` = bit 2, `Z` = bit 1, `P` = bit 0). Bare
/// `BR` and `BRnzp` are unconditional; anything else yields `None`.
pub fn parse_branch_condition(mnemonic: &str) -> (r: Option<u16>)
    ensures
        r == branch_condition_spec(mnemonic@),
{
    let chars = chars_of(mnemonic);
    branch_condition_from_chars(&chars)
}

/// [`parse_branch_condition`] over a character slice.
pub fn branch_condition_from_chars(t: &[char]) -> (r: Option<u16>)
    ensures
        r == branch_condition_spec(t@),
        r matches Some(c) ==> 1 <= c <= 7,
{
    let u = upper_chars(t);
    if u.len() >= 2 && u[0] == 'B' && u[1] == 'R' {
        let s = vstd::slice::slice_subrange(u.as_slice(), 2, u.len());
        proof {
            assert(s@ == upper_seq(t@).skip(2));
        }
        if s.len() == 0 {
            Some(7)
        } else if s.len() == 1 {
            if s[0] == 'N' { Some(4) } else if s[0] == 'Z' { Some(2) } else if s[0] == 'P' { Some(1) } else { None }
        } else if s.len() == 2 {
            if s[0] == 'N' && s[1] == 'Z' { Some(6) }
            else if s[0] == 'N' && s[1] == 'P' { Some(5) }
            else if s[0] == 'Z' && s[1] == 'P' { Some(3) }
            else { None }
        } else if s.len() == 3 && s[0] == 'N' && s[1] == 'Z' && s[2] == 'P' {
            Some(7)
        } else {
            None
        }
    } else {
        None
    }
}

/// The `R0`–`R7` name of a register number.
pub open spec fn register_text(reg: u16) -> Seq<char> {
    seq!['R', (('0' as u32) + reg) as char]
}

/// The `R0`–`R7` name of a three-bit register number, or `None` when `reg`
/// names no register.
pub fn register_name(reg: u16) -> (r: Option<String>)
    ensures
        r is Some <==> reg < 8,
        r matches Some(s) ==> s@ == register_text(reg),
{
    if reg < 8 {
        let mut s = String::new();
        crate::text::push_char(&mut s, 'R');
        let d: u8 = (reg as u8) + 48;
        crate::text::push_char(&mut s, d as char);
        proof {
            assert(s@ =~= register_text(reg));
        }
        Some(s)
    } else {
        None
    }
}

/// The `BR`-family mnemonic of a condition field: the suffix letters of the
/// tested flags, with the unconditional `nzp` written as bare `BR`.
pub open spec fn branch_text(cond: u16) -> Option<Seq<char>> {
    if cond == 1 { Some(seq!['B', 'R', 'p']) }
    else if cond == 2 { Some(seq!['B', 'R', 'z']) }
    else if cond == 3 { Some(seq!['B', 'R', 'z', 'p']) }
    else if cond == 4 { Some(seq!['B', 'R', 'n']) }
    else if cond == 5 { Some(seq!['B', 'R', 'n', 'p']) }
    else if cond == 6 { Some(seq!['B', 'R', 'n', 'z']) }
    else if cond == 7 { Some(seq!['B', 'R']) }
    else { None }
}

/// The `BR`-family mnemonic of a three-bit condition field, or `None` for an
/// empty (or wider than three-bit) field, which names no branch.
pub fn branch_mnemonic(cond: u16) -> (r: Option<&'static str>)
    ensures
        r is Some <==> branch_text(cond) is Some,
        r matches Some(t) ==> t@ == branch_text(cond).unwrap(),
{
    if cond == 1 { proof { reveal_strlit("BRp"); } Some("BRp") }
    else if cond == 2 { proof { reveal_strlit("BRz"); } Some("BRz") }
    else if cond == 3 { proof { reveal_strlit("BRzp"); } Some("BRzp") }
    else if cond == 4 { proof { reveal_strlit("BRn"); } Some("BRn") }
    else if cond == 5 { proof { reveal_strlit("BRnp"); } Some("BRnp") }
    else if cond == 6 { proof { reveal_strlit("BRnz"); } Some("BRnz") }
    else if cond == 7 { proof { reveal_strlit("BR"); } Some("BR") }
    else { None }
}

/// Every register name parses back to its number.
pub proof fn lemma_register_round_trip(reg: u16)
    requires
        reg < 8,
    ensures
        register_spec(register_text(reg)) == Some(reg),
{
}

/// Every branch mnemonic parses back to the condition field it was rendered
/// from.
pub proof fn lemma_branch_round_trip(cond: u16)
    requires
        1 <= cond <= 7,
    ensures
        branch_condition_spec(branch_text(cond).unwrap()) == Some(cond),
{
    let t = branch_text(cond).unwrap();
    let u = upper_seq(t);
    assert(upper('p') == 'P');
    assert(upper('z') == 'Z');
    assert(upper('n') == 'N');
    assert(u[0] == 'B' && u[1] == 'R');
    if cond == 1 {
        assert(u.skip(2) =~= seq!['P']);
    }
    else if cond == 2 { assert(u.skip(2) =~= seq!['Z']); }
    else if cond == 3 { assert(u.skip(2) =~= seq!['Z', 'P']); }
    else if cond == 4 { assert(u.skip(2) =~= seq!['N']); }
    else if cond == 5 { assert(u.skip(2) =~= seq!['N', 'P']); }
    else if cond == 6 { assert(u.skip(2) =~= seq!['N', 'Z']); }
    else { assert(u.skip(2).len() == 0); }
}

/// The condition code is always exactly one of the three flags, chosen by the
/// sign of the value, and a branch testing all three flags is always taken.
pub proof fn lemma_flag_selection(value: u16, flag: ConditionFlag)
    ensures
        ConditionFlag::of_value(value).taken(7),
        flag.taken(flag.mask()),
        flag.taken(7),
{
    let m = flag.mask();
    assert(m == 1 || m == 2 || m == 4);
    assert((7u16 & 1u16) != 0 && (7u16 & 2u16) != 0 && (7u16 & 4u16) != 0) by (bit_vector);
    assert((1u16 & 1u16) != 0 && (2u16 & 2u16) != 0 && (4u16 & 4u16) != 0) by (bit_vector);
}

} // verus!
