//! LC-3 trap vectors.
use vstd::prelude::*;

use crate::text::{chars_eq, chars_of, upper_chars, upper_seq};

verus! {

/// The six standard LC-3 trap service routines, identified by their entry in
/// the trap vector table (`x20`–`x25`).
#[derive(Debug, Clone, Copy, PartialEq, Eq, Structural)]
pub enum TrapVector {
    /// `GETC` (`x20`) — read one character from the keyboard into R0, without echo.
    Getc,
    /// `OUT` (`x21`) — write the character in the low byte of R0 to the console.
    Out,
    /// `PUTS` (`x22`) — write the null-terminated string addressed by R0.
    Puts,
    /// `IN` (`x23`) — prompt for and read one character into R0, with echo.
    In,
    /// `PUTSP` (`x24`) — write a string packed two characters per word.
    Putsp,
    /// `HALT` (`x25`) — halt execution.
    Halt,
}

impl TrapVector {
    /// The vector number of this routine.
    pub open spec fn vector(self) -> u16 {
        match self {
            TrapVector::Getc => 0x20,
            TrapVector::Out => 0x21,
            TrapVector::Puts => 0x22,
            TrapVector::In => 0x23,
            TrapVector::Putsp => 0x24,
            TrapVector::Halt => 0x25,
        }
    }

    /// The routine a vector number names, if it is one of the six.
    pub open spec fn of_vector(value: u16) -> Option<TrapVector> {
        if value == 0x20 { Some(TrapVector::Getc) }
        else if value == 0x21 { Some(TrapVector::Out) }
        else if value == 0x22 { Some(TrapVector::Puts) }
        else if value == 0x23 { Some(TrapVector::In) }
        else if value == 0x24 { Some(TrapVector::Putsp) }
        else if value == 0x25 { Some(TrapVector::Halt) }
        else { None }
    }

    /// The assembly alias of this routine.
    pub open spec fn alias(self) -> Seq<char> {
        match self {
            TrapVector::Getc => seq!['G', 'E', 'T', 'C'],
            TrapVector::Out => seq!['O', 'U', 'T'],
            TrapVector::Puts => seq!['P', 'U', 'T', 'S'],
            TrapVector::In => seq!['I', 'N'],
            TrapVector::Putsp => seq!['P', 'U', 'T', 'S', 'P'],
            TrapVector::Halt => seq!['H', 'A', 'L', 'T'],
        }
    }

    /// The routine an alias names, ignoring ASCII case.
    pub open spec fn parse_spec(t: Seq<char>) -> Option<TrapVector> {
        let u = upper_seq(t);
        if u == seq!['G', 'E', 'T', 'C'] { Some(TrapVector::Getc) }
        else if u == seq!['O', 'U', 'T'] { Some(TrapVector::Out) }
        else if u == seq!['P', 'U', 'T', 'S'] { Some(TrapVector::Puts) }
        else if u == seq!['I', 'N'] { Some(TrapVector::In) }
        else if u == seq!['P', 'U', 'T', 'S', 'P'] { Some(TrapVector::Putsp) }
        else if u == seq!['H', 'A', 'L', 'T'] { Some(TrapVector::Halt) }
        else { None }
    }

    /// Decodes a trap vector number, returning the unrecognized value as the
    /// error.
    pub fn try_from(value: u16) -> (r: Result<TrapVector, u16>)
        ensures
            r matches Ok(t) ==> TrapVector::of_vector(value) == Some(t),
            r matches Err(v) ==> TrapVector::of_vector(value) is None && v == value,
    {
        if value == 0x20 { Ok(TrapVector::Getc) }
        else if value == 0x21 { Ok(TrapVector::Out) }
        else if value == 0x22 { Ok(TrapVector::Puts) }
        else if value == 0x23 { Ok(TrapVector::In) }
        else if value == 0x24 { Ok(TrapVector::Putsp) }
        else if value == 0x25 { Ok(TrapVector::Halt) }
        else { Err(value) }
    }

    /// The vector number of this routine.
    pub fn code(self) -> (r: u16)
        ensures
            r == self.vector(),
    {
        match self {
            TrapVector::Getc => 0x20,
            TrapVector::Out => 0x21,
            TrapVector::Puts => 0x22,
            TrapVector::In => 0x23,
            TrapVector::Putsp => 0x24,
            TrapVector::Halt => 0x25,
        }
    }

    /// The assembly alias naming this routine.
    pub fn mnemonic(self) -> (r: &'static str)
        ensures
            r@ == self.alias(),
    {
        match self {
            TrapVector::Getc => { proof { reveal_strlit("GETC"); } "GETC" },
            TrapVector::Out => { proof { reveal_strlit("OUT"); } "OUT" },
            TrapVector::Puts => { proof { reveal_strlit("PUTS"); } "PUTS" },
            TrapVector::In => { proof { reveal_strlit("IN"); } "IN" },
            TrapVector::Putsp => { proof { reveal_strlit("PUTSP"); } "PUTSP" },
            TrapVector::Halt => { proof { reveal_strlit("HALT"); } "HALT" },
        }
    }

    /// Parses a trap alias, case-insensitively, to its routine.
    pub fn from_mnemonic(token: &str) -> (r: Option<TrapVector>)
        ensures
            r == TrapVector::parse_spec(token@),
    {
        let chars = chars_of(token);
        TrapVector::from_chars(&chars)
    }

    /// [`from_mnemonic`](Self::from_mnemonic) over a character slice.
    pub fn from_chars(token: &[char]) -> (r: Option<TrapVector>)
        ensures
            r == TrapVector::parse_spec(token@),
    {
        let u = upper_chars(token);
        if chars_eq(&u, &['G', 'E', 'T', 'C']) { Some(TrapVector::Getc) }
        else if chars_eq(&u, &['O', 'U', 'T']) { Some(TrapVector::Out) }
        else if chars_eq(&u, &['P', 'U', 'T', 'S']) { Some(TrapVector::Puts) }
        else if chars_eq(&u, &['I', 'N']) { Some(TrapVector::In) }
        else if chars_eq(&u, &['P', 'U', 'T', 'S', 'P']) { Some(TrapVector::Putsp) }
        else if chars_eq(&u, &['H', 'A', 'L', 'T']) { Some(TrapVector::Halt) }
        else { None }
    }
}

/// Each routine's vector decodes back to it, and each alias parses back to it.
pub proof fn lemma_trap_round_trip(t: TrapVector)
    ensures
        TrapVector::of_vector(t.vector()) == Some(t),
        TrapVector::parse_spec(t.alias()) == Some(t),
{
    assert(upper_seq(t.alias()) =~= t.alias());
    let g = seq!['G', 'E', 'T', 'C'];
    let p = seq!['P', 'U', 'T', 'S'];
    let h = seq!['H', 'A', 'L', 'T'];
    assert(g[0] != p[0] && g[0] != h[0] && p[0] != h[0]);
}

} // verus!
