//! LC-3 assembler pseudo-operations.
use vstd::prelude::*;

use crate::text::{chars_eq, chars_of, upper_chars, upper_seq};

verus! {

/// The assembler directives ("pseudo-ops") of the LC-3 assembly language.
#[derive(Debug, Clone, Copy, PartialEq, Eq, Structural)]
pub enum PseudoOp {
    /// `.ORIG` — set the origin (load address) of the words that follow.
    Orig,
    /// `.FILL` — emit one word holding a given value.
    Fill,
    /// `.BLKW` — reserve a block of consecutive words.
    Blkw,
    /// `.STRINGZ` — emit a null-terminated string, one character per word.
    Stringz,
    /// `.END` — mark the end of the source program.
    End,
}

/// `t` with every leading `.` removed.
pub open spec fn strip_dots(t: Seq<char>) -> Seq<char>
    decreases t.len(),
{
    if t.len() > 0 && t[0] == '.' {
        strip_dots(t.drop_first())
    } else {
        t
    }
}

impl PseudoOp {
    /// The canonical mnemonic, including the leading dot.
    pub open spec fn mnemonic_text(self) -> Seq<char> {
        match self {
            PseudoOp::Orig => seq!['.', 'O', 'R', 'I', 'G'],
            PseudoOp::Fill => seq!['.', 'F', 'I', 'L', 'L'],
            PseudoOp::Blkw => seq!['.', 'B', 'L', 'K', 'W'],
            PseudoOp::Stringz => seq!['.', 'S', 'T', 'R', 'I', 'N', 'G', 'Z'],
            PseudoOp::End => seq!['.', 'E', 'N', 'D'],
        }
    }

    /// The directive an upper-cased, dot-free name selects.
    pub open spec fn from_name(t: Seq<char>) -> Option<PseudoOp> {
        if t == seq!['O', 'R', 'I', 'G'] { Some(PseudoOp::Orig) }
        else if t == seq!['F', 'I', 'L', 'L'] { Some(PseudoOp::Fill) }
        else if t == seq!['B', 'L', 'K', 'W'] { Some(PseudoOp::Blkw) }
        else if t == seq!['S', 'T', 'R', 'I', 'N', 'G', 'Z'] { Some(PseudoOp::Stringz) }
        else if t == seq!['E', 'N', 'D'] { Some(PseudoOp::End) }
        else { None }
    }

    /// What `from_mnemonic` returns: leading dots are dropped and case is
    /// ignored.
    pub open spec fn parse_spec(t: Seq<char>) -> Option<PseudoOp> {
        PseudoOp::from_name(upper_seq(strip_dots(t)))
    }

    /// The canonical mnemonic, including the leading dot.
    pub fn mnemonic(self) -> (r: &'static str)
        ensures
            r@ == self.mnemonic_text(),
    {
        match self {
            PseudoOp::Orig => { proof { reveal_strlit(".ORIG"); } ".ORIG" },
            PseudoOp::Fill => { proof { reveal_strlit(".FILL"); } ".FILL" },
            PseudoOp::Blkw => { proof { reveal_strlit(".BLKW"); } ".BLKW" },
            PseudoOp::Stringz => { proof { reveal_strlit(".STRINGZ"); } ".STRINGZ" },
            PseudoOp::End => { proof { reveal_strlit(".END"); } ".END" },
        }
    }

    /// Parses a directive mnemonic, case-insensitively and with the leading dot
    /// optional. Returns `None` for any token that is not a pseudo-op.
    pub fn from_mnemonic(token: &str) -> (r: Option<PseudoOp>)
        ensures
            r == PseudoOp::parse_spec(token@),
    {
        let chars = chars_of(token);
        PseudoOp::from_chars(&chars)
    }

    /// [`from_mnemonic`](Self::from_mnemonic) over a character slice.
    pub fn from_chars(token: &[char]) -> (r: Option<PseudoOp>)
        ensures
            r == PseudoOp::parse_spec(token@),
    {
        let mut start: usize = 0;
        proof {
            assert(token@.skip(0) == token@);
        }
        while start < token.len() && token[start] == '.'
            invariant
                start <= token.len(),
                strip_dots(token@.skip(start as int)) == strip_dots(token@),
            decreases token.len() - start,
        {
            proof {
                assert(token@.skip(start as int).drop_first() == token@.skip(start + 1));
            }
            start += 1;
        }
        let rest = vstd::slice::slice_subrange(token, start, token.len());
        proof {
            assert(rest@ == token@.skip(start as int));
            assert(strip_dots(rest@) == rest@);
        }
        let t = upper_chars(rest);
        if chars_eq(&t, &['O', 'R', 'I', 'G']) { Some(PseudoOp::Orig) }
        else if chars_eq(&t, &['F', 'I', 'L', 'L']) { Some(PseudoOp::Fill) }
        else if chars_eq(&t, &['B', 'L', 'K', 'W']) { Some(PseudoOp::Blkw) }
        else if chars_eq(&t, &['S', 'T', 'R', 'I', 'N', 'G', 'Z']) { Some(PseudoOp::Stringz) }
        else if chars_eq(&t, &['E', 'N', 'D']) { Some(PseudoOp::End) }
        else { None }
    }
}

/// Every pseudo-op's canonical mnemonic parses back to it.
pub proof fn lemma_pseudo_round_trip(op: PseudoOp)
    ensures
        PseudoOp::parse_spec(op.mnemonic_text()) == Some(op),
{
    let t = op.mnemonic_text();
    reveal_with_fuel(strip_dots, 2);
    assert(t[0] == '.');
    assert(t.drop_first()[0] != '.');
    assert(strip_dots(t) == t.drop_first());
    assert(upper_seq(t.drop_first()) =~= t.drop_first());
    match op {
        PseudoOp::Orig => assert(t.drop_first() =~= seq!['O', 'R', 'I', 'G']),
        PseudoOp::Fill => assert(t.drop_first() =~= seq!['F', 'I', 'L', 'L']),
        PseudoOp::Blkw => assert(t.drop_first() =~= seq!['B', 'L', 'K', 'W']),
        PseudoOp::Stringz => assert(t.drop_first() =~= seq!['S', 'T', 'R', 'I', 'N', 'G', 'Z']),
        PseudoOp::End => assert(t.drop_first() =~= seq!['E', 'N', 'D']),
    }
}

} // verus!
