//! How the lexer reads the text the disassembler writes.
//!
//! A listing line is built from a few kinds of piece: words (mnemonics,
//! registers, labels), commas, single spaces, `#`-decimal and `x`-hex
//! numerals, and directives. Each piece reads as at most one lexeme, and a
//! run of pieces reads as the lexemes of its pieces in order, as long as no
//! two runs of identifier characters touch.
use vstd::prelude::*;

use crate::lexer::{
    after, ident_end, ident_len, is_ident_char, lemma_line_end_bound, lex_from, line_at, line_end, newline_of,
    prepend, scan_spec, LexError, Lexeme, Located,
};
use crate::text::{
    all_hex_digits, decimal_text, hex_value, is_alpha, is_digit, is_hex_digit, lemma_decimal_text_reads,
    lemma_signed_text_reads, signed_text, spaces,
};

verus! {

/// A fragment of listing text that reads as at most one lexeme.
pub enum Piece {
    /// A run of identifier characters led by a letter other than `x`.
    Word(Seq<char>),
    /// `,`.
    Comma,
    /// One space.
    Space,
    /// `#` and a signed decimal numeral.
    Decimal(i32),
    /// `x` and hexadecimal digits.
    Hex(Seq<char>),
    /// `.` and a name.
    Directive(Seq<char>),
}

/// The text of a piece.
pub open spec fn piece_text(p: Piece) -> Seq<char> {
    match p {
        Piece::Word(w) => w,
        Piece::Comma => seq![','],
        Piece::Space => seq![' '],
        Piece::Decimal(v) => seq!['#'] + signed_text(v as int),
        Piece::Hex(d) => seq!['x'] + d,
        Piece::Directive(n) => seq!['.'] + n,
    }
}

/// The lexeme a piece reads as, if any.
pub open spec fn piece_lexemes(p: Piece) -> Seq<Lexeme> {
    match p {
        Piece::Word(w) => seq![Lexeme::Word(w)],
        Piece::Comma => seq![Lexeme::Comma],
        Piece::Space => seq![],
        Piece::Decimal(v) => seq![Lexeme::Number(v)],
        Piece::Hex(d) => seq![Lexeme::Number(hex_value(d) as i32)],
        Piece::Directive(n) => seq![Lexeme::Directive(seq!['.'] + n)],
    }
}

/// Every character of `s` may continue an identifier.
pub open spec fn all_ident(s: Seq<char>) -> bool {
    forall|j: int| 0 <= j < s.len() ==> is_ident_char(#[trigger] s[j])
}

/// A piece that reads as intended.
pub open spec fn piece_ok(p: Piece) -> bool {
    match p {
        Piece::Word(w) => w.len() >= 1 && is_alpha(w[0]) && w[0] != 'x' && w[0] != 'X' && all_ident(w),
        Piece::Decimal(v) => v > i32::MIN,
        Piece::Hex(d) => d.len() >= 1 && all_hex_digits(d) && hex_value(d) <= i32::MAX,
        Piece::Directive(n) => n.len() >= 1 && all_ident(n),
        _ => true,
    }
}

/// A piece that ends in identifier characters, so that what follows it must
/// not continue them.
pub open spec fn needs_break(p: Piece) -> bool {
    !(p is Comma || p is Space)
}

/// The text of a run of pieces.
pub open spec fn pieces_text(ps: Seq<Piece>) -> Seq<char>
    decreases ps.len(),
{
    if ps.len() == 0 {
        seq![]
    } else {
        piece_text(ps[0]) + pieces_text(ps.drop_first())
    }
}

/// The lexemes of a run of pieces.
pub open spec fn pieces_lexemes(ps: Seq<Piece>) -> Seq<Lexeme>
    decreases ps.len(),
{
    if ps.len() == 0 {
        seq![]
    } else {
        piece_lexemes(ps[0]) + pieces_lexemes(ps.drop_first())
    }
}

/// A run of pieces that reads piece by piece: each piece reads as intended
/// and each identifier run is followed by a comma or a space.
pub open spec fn pieces_ok(ps: Seq<Piece>) -> bool {
    forall|k: int|
        0 <= k < ps.len() ==> piece_ok(#[trigger] ps[k]) && (needs_break(ps[k]) && k + 1 < ps.len()
            ==> !needs_break(ps[k + 1]))
}

/// The lexemes of a token run, positions dropped.
pub open spec fn lexemes_of(ts: Seq<Located>) -> Seq<Lexeme> {
    ts.map_values(|t: Located| t.lexeme)
}

/// The lexemes a scan yields, or `None` for a lexical error.
pub open spec fn scanned(r: Result<Seq<Located>, LexError>) -> Option<Seq<Lexeme>> {
    match r {
        Ok(ts) => Some(lexemes_of(ts)),
        Err(_) => None,
    }
}

/// `r` with the lexemes `ls` put in front.
pub open spec fn lex_prefix(ls: Seq<Lexeme>, r: Option<Seq<Lexeme>>) -> Option<Seq<Lexeme>> {
    match r {
        Some(x) => Some(ls + x),
        None => None,
    }
}

proof fn lemma_lexemes_prepend(t: Located, r: Result<Seq<Located>, LexError>)
    ensures
        scanned(prepend(t, r)) == lex_prefix(seq![t.lexeme], scanned(r)),
{
    if let Ok(ts) = r {
        assert(lexemes_of(seq![t] + ts) =~= seq![t.lexeme] + lexemes_of(ts));
    }
}

/// The identifier run at the start of `s` is exactly its first `k`
/// characters when they are identifier characters and the next is not.
pub proof fn lemma_ident_len_exact(s: Seq<char>, k: int)
    requires
        0 <= k <= s.len(),
        forall|j: int| 0 <= j < k ==> is_ident_char(#[trigger] s[j]),
        k == s.len() || !is_ident_char(s[k]),
    ensures
        ident_len(s) == k,
    decreases k,
{
    if k > 0 {
        let t = s.drop_first();
        assert forall|j: int| 0 <= j < k - 1 implies is_ident_char(#[trigger] t[j]) by {
            assert(t[j] == s[j + 1]);
        }
        if k - 1 < t.len() {
            assert(t[k - 1] == s[k]);
        }
        lemma_ident_len_exact(t, k - 1);
    }
}

/// Spaces are skipped.
pub proof fn lemma_scan_spaces(line: Seq<char>, i: int, k: nat, ln: usize)
    requires
        0 <= i,
        i + k <= line.len(),
        line.subrange(i, i + k) == spaces(k),
    ensures
        scan_spec(line, i, ln) == scan_spec(line, i + k, ln),
    decreases k,
{
    if k > 0 {
        assert(line[i] == line.subrange(i, i + k)[0]);
        assert forall|j: int| 0 <= j < k - 1 implies #[trigger] line.subrange(i + 1, i + k)[j] == ' ' by {
            assert(line.subrange(i + 1, i + k)[j] == line.subrange(i, i + k)[j + 1]);
        }
        assert(line.subrange(i + 1, i + k) =~= spaces((k - 1) as nat));
        lemma_scan_spaces(line, i + 1, (k - 1) as nat, ln);
    }
}

/// The end of the line closes its tokens.
pub proof fn lemma_scan_end(line: Seq<char>, ln: usize)
    ensures
        scanned(scan_spec(line, line.len() as int, ln)) == Some(seq![Lexeme::Newline]),
{
    assert(lexemes_of(seq![newline_of(line, ln)]) =~= seq![Lexeme::Newline]);
}

/// A comment ends the line's tokens.
pub proof fn lemma_scan_comment(line: Seq<char>, i: int, ln: usize)
    requires
        0 <= i < line.len(),
        line[i] == ';',
    ensures
        scanned(scan_spec(line, i, ln)) == Some(seq![Lexeme::Newline]),
{
    assert(lexemes_of(seq![newline_of(line, ln)]) =~= seq![Lexeme::Newline]);
}

/// One piece reads as its lexemes.
#[verifier::rlimit(40)]
proof fn lemma_scan_piece(line: Seq<char>, i: int, p: Piece, rest: Seq<char>, ln: usize)
    requires
        0 <= i <= line.len(),
        line.skip(i) == piece_text(p) + rest,
        piece_ok(p),
        needs_break(p) ==> rest.len() == 0 || !is_ident_char(rest[0]),
    ensures
        scanned(scan_spec(line, i, ln)) == lex_prefix(
            piece_lexemes(p),
            scanned(scan_spec(line, i + piece_text(p).len(), ln)),
        ),
        line.skip(i + piece_text(p).len()) == rest,
{
    let t = piece_text(p);
    let s = line.skip(i);
    assert(line.skip(i + t.len()) =~= rest) by {
        assert forall|j: int| 0 <= j < rest.len() implies line.skip(i + t.len())[j] == rest[j] by {
            assert(line.skip(i + t.len())[j] == s[t.len() + j]);
        }
    }
    assert(line[i] == s[0]);
    match p {
        Piece::Space => {
            assert(piece_lexemes(p) + scanned(scan_spec(line, i + 1, ln))->0 =~= scanned(scan_spec(line, i + 1, ln))->0);
            if let Some(x) = scanned(scan_spec(line, i + 1, ln)) {
                assert(seq![] + x =~= x);
            }
        },
        Piece::Comma => {
            lemma_lexemes_prepend(
                Located { lexeme: Lexeme::Comma, line: ln, column: crate::lexer::col(line, i) },
                scan_spec(line, i + 1, ln),
            );
        },
        Piece::Word(w) => {
            assert forall|j: int| 0 <= j < w.len() implies is_ident_char(#[trigger] s[j]) by {
                assert(s[j] == w[j]);
            }
            if w.len() < s.len() {
                assert(s[w.len() as int] == rest[0]);
            }
            lemma_ident_len_exact(s, w.len() as int);
            assert(ident_end(line, i) == i + w.len());
            assert(line.subrange(i, i + w.len()) =~= w);
            lemma_lexemes_prepend(
                Located { lexeme: Lexeme::Word(w), line: ln, column: crate::lexer::col(line, i) },
                scan_spec(line, i + w.len(), ln),
            );
        },
        Piece::Hex(d) => {
            assert forall|j: int| 0 <= j < t.len() implies is_ident_char(#[trigger] s[j]) by {
                assert(s[j] == t[j]);
                if j > 0 {
                    assert(t[j] == d[j - 1]);
                    assert(is_hex_digit(d[j - 1]));
                }
            }
            if t.len() < s.len() {
                assert(s[t.len() as int] == rest[0]);
            }
            lemma_ident_len_exact(s, t.len() as int);
            assert(line.subrange(i, i + t.len()) =~= t);
            assert(t.drop_first() =~= d);
            lemma_lexemes_prepend(
                Located {
                    lexeme: Lexeme::Number(hex_value(d) as i32),
                    line: ln,
                    column: crate::lexer::col(line, i),
                },
                scan_spec(line, i + t.len(), ln),
            );
        },
        Piece::Directive(n) => {
            let s1 = line.skip(i + 1);
            assert forall|j: int| 0 <= j < n.len() implies is_ident_char(#[trigger] s1[j]) by {
                assert(s1[j] == s[j + 1]);
                assert(s[j + 1] == t[j + 1]);
                assert(t[j + 1] == n[j]);
            }
            if n.len() < s1.len() {
                assert(s1[n.len() as int] == s[t.len() as int]);
                assert(s[t.len() as int] == rest[0]);
            }
            lemma_ident_len_exact(s1, n.len() as int);
            assert(line.subrange(i, i + t.len()) =~= t);
            lemma_lexemes_prepend(
                Located {
                    lexeme: Lexeme::Directive(t),
                    line: ln,
                    column: crate::lexer::col(line, i),
                },
                scan_spec(line, i + t.len(), ln),
            );
        },
        Piece::Decimal(v) => {
            lemma_signed_text_reads(v);
            let st = signed_text(v as int);
            let digits = if v < 0 { i + 2 } else { i + 1 };
            let m: nat = if v < 0 { (-v) as nat } else { v as nat };
            lemma_decimal_text_reads(m);
            let dt = decimal_text(m);
            let sd = line.skip(digits);
            assert(t =~= seq!['#'] + st);
            if v < 0 {
                assert(st =~= seq!['-'] + dt);
                assert(line[i + 1] == '-') by {
                    assert(line[i + 1] == s[1]);
                    assert(s[1] == t[1]);
                }
            } else {
                assert(st == dt);
                assert(line[i + 1] != '-') by {
                    assert(line[i + 1] == s[1]);
                    assert(s[1] == t[1]);
                    assert(is_digit(dt[0]));
                }
            }
            assert(digits + dt.len() == i + t.len());
            assert forall|j: int| 0 <= j < dt.len() implies is_ident_char(#[trigger] sd[j]) by {
                assert(sd[j] == s[digits - i + j]);
                assert(s[digits - i + j] == t[digits - i + j]);
                assert(t[digits - i + j] == dt[j]);
                assert(is_digit(dt[j]));
            }
            if dt.len() < sd.len() {
                assert(sd[dt.len() as int] == s[t.len() as int]);
                assert(s[t.len() as int] == rest[0]);
            }
            lemma_ident_len_exact(sd, dt.len() as int);
            assert(ident_end(line, digits) == i + t.len());
            assert forall|j: int| 0 <= j < st.len() implies line.subrange(i + 1, i + t.len())[j] == st[j] by {
                assert(line.subrange(i + 1, i + t.len())[j] == s[j + 1]);
                assert(s[j + 1] == t[j + 1]);
            }
            assert(line.subrange(i + 1, i + t.len()) =~= st);
            lemma_lexemes_prepend(
                Located { lexeme: Lexeme::Number(v), line: ln, column: crate::lexer::col(line, i) },
                scan_spec(line, i + t.len(), ln),
            );
        },
    }
}


/// A run of pieces reads as the lexemes of its pieces, in order.
pub proof fn lemma_scan_pieces(line: Seq<char>, i: int, ps: Seq<Piece>, rest: Seq<char>, ln: usize)
    requires
        0 <= i <= line.len(),
        line.skip(i) == pieces_text(ps) + rest,
        pieces_ok(ps),
        ps.len() > 0 && needs_break(ps.last()) ==> rest.len() == 0 || !is_ident_char(rest[0]),
    ensures
        scanned(scan_spec(line, i, ln)) == lex_prefix(
            pieces_lexemes(ps),
            scanned(scan_spec(line, i + pieces_text(ps).len(), ln)),
        ),
        line.skip(i + pieces_text(ps).len()) == rest,
    decreases ps.len(),
{
    if ps.len() == 0 {
        assert(pieces_text(ps) + rest =~= rest);
        if let Some(x) = scanned(scan_spec(line, i, ln)) {
            assert(pieces_lexemes(ps) + x =~= x);
        }
    } else {
        let p = ps[0];
        let tail = ps.drop_first();
        let rest1 = pieces_text(tail) + rest;
        assert(pieces_text(ps) + rest =~= piece_text(p) + rest1);
        assert(piece_ok(p) && (needs_break(p) && 1 < ps.len() ==> !needs_break(ps[1])));
        if needs_break(p) && tail.len() > 0 {
            assert(tail[0] == ps[1]);
            assert(pieces_text(tail)[0] == piece_text(tail[0])[0]);
        }
        if tail.len() == 0 {
            assert(pieces_text(tail).len() == 0);
            assert(rest1 =~= rest);
        }
        lemma_scan_piece(line, i, p, rest1, ln);
        assert(pieces_ok(tail)) by {
            assert forall|k: int| 0 <= k < tail.len() implies piece_ok(#[trigger] tail[k]) && (needs_break(tail[k])
                && k + 1 < tail.len() ==> !needs_break(tail[k + 1])) by {
                assert(tail[k] == ps[k + 1]);
                assert(piece_ok(ps[k + 1]));
            }
        }
        if tail.len() > 0 {
            assert(tail.last() == ps.last());
        }
        let j = i + piece_text(p).len();
        lemma_scan_pieces(line, j, tail, rest, ln);
        assert(pieces_lexemes(ps) == piece_lexemes(p) + pieces_lexemes(tail));
        if let Some(x) = scanned(scan_spec(line, j + pieces_text(tail).len(), ln)) {
            assert(piece_lexemes(p) + (pieces_lexemes(tail) + x) =~= pieces_lexemes(ps) + x);
        }
    }
}

/// No character of `s` ends a line.
pub open spec fn no_break(s: Seq<char>) -> bool {
    forall|j: int| 0 <= j < s.len() ==> #[trigger] s[j] != '\n'
}

/// Listing pieces never hold a line feed.
pub proof fn lemma_pieces_no_break(ps: Seq<Piece>)
    requires
        pieces_ok(ps),
    ensures
        no_break(pieces_text(ps)),
    decreases ps.len(),
{
    if ps.len() > 0 {
        let p = ps[0];
        let tail = ps.drop_first();
        assert(piece_ok(p));
        assert(pieces_ok(tail)) by {
            assert forall|k: int| 0 <= k < tail.len() implies piece_ok(#[trigger] tail[k]) && (needs_break(tail[k])
                && k + 1 < tail.len() ==> !needs_break(tail[k + 1])) by {
                assert(tail[k] == ps[k + 1]);
                assert(piece_ok(ps[k + 1]));
            }
        }
        lemma_pieces_no_break(tail);
        let t = piece_text(p);
        assert(no_break(t)) by {
            match p {
                Piece::Decimal(v) => {
                    lemma_signed_text_reads(v);
                    let st = signed_text(v as int);
                    let m: nat = if v < 0 { (-v) as nat } else { v as nat };
                    lemma_decimal_text_reads(m);
                    assert forall|j: int| 0 <= j < t.len() implies #[trigger] t[j] != '\n' by {
                        if j > 0 {
                            assert(t[j] == st[j - 1]);
                            if v < 0 && j > 1 {
                                assert(st[j - 1] == decimal_text(m)[j - 2]);
                                assert(is_digit(decimal_text(m)[j - 2]));
                            } else if v >= 0 {
                                assert(is_digit(decimal_text(m)[j - 1]));
                            }
                        }
                    }
                },
                Piece::Hex(d) => {
                    assert forall|j: int| 0 <= j < t.len() implies #[trigger] t[j] != '\n' by {
                        if j > 0 {
                            assert(t[j] == d[j - 1]);
                            assert(is_hex_digit(d[j - 1]));
                        }
                    }
                },
                Piece::Directive(n) => {
                    assert forall|j: int| 0 <= j < t.len() implies #[trigger] t[j] != '\n' by {
                        if j > 0 {
                            assert(t[j] == n[j - 1]);
                            assert(is_ident_char(n[j - 1]));
                        }
                    }
                },
                Piece::Word(w) => {
                    assert forall|j: int| 0 <= j < t.len() implies #[trigger] t[j] != '\n' by {
                        assert(is_ident_char(w[j]));
                    }
                },
                _ => {},
            }
        }
        let whole = pieces_text(ps);
        assert(whole == t + pieces_text(tail));
        assert forall|j: int| 0 <= j < whole.len() implies #[trigger] whole[j] != '\n' by {
            if j < t.len() {
                assert(whole[j] == t[j]);
            } else {
                assert(whole[j] == pieces_text(tail)[j - t.len()]);
            }
        }
    }
}


/// `r` followed by the tokens of `rest`, or the first error.
pub open spec fn chain(r: Result<Seq<Located>, LexError>, rest: Result<Seq<Located>, LexError>) -> Result<
    Seq<Located>,
    LexError,
> {
    match r {
        Err(e) => Err(e),
        Ok(ts) => after(ts, rest),
    }
}

/// The end of a line is found at the same place after a prefix.
proof fn lemma_line_end_shift(p: Seq<char>, y: Seq<char>, i: int)
    requires
        0 <= i <= y.len(),
    ensures
        line_end(p + y, p.len() + i) == p.len() + line_end(y, i),
    decreases y.len() - i,
{
    let s = p + y;
    if i < y.len() {
        assert(s[p.len() + i] == y[i]);
        if y[i] != '\n' {
            lemma_line_end_shift(p, y, i + 1);
        }
    }
}

/// The lines of a text read the same after a prefix of whole lines.
pub proof fn lemma_lex_from_shift(p: Seq<char>, y: Seq<char>, i: int, before: nat)
    requires
        0 <= i <= y.len(),
    ensures
        lex_from(p + y, p.len() + i, before) == lex_from(y, i, before),
    decreases y.len() - i,
{
    let s = p + y;
    if i < y.len() {
        lemma_line_end_shift(p, y, i);
        lemma_line_end_bound(y, i);
        let j = line_end(y, i);
        assert(s.subrange(p.len() + i, p.len() + j) =~= y.subrange(i, j));
        assert(line_at(s, p.len() + i) == line_at(y, i));
        if j < y.len() {
            lemma_lex_from_shift(p, y, j + 1, before + 1);
        }
    }
}

/// The end of a line with no line feed in it is the feed that follows it.
proof fn lemma_line_end_at(t: Seq<char>, y: Seq<char>, i: int)
    requires
        0 <= i <= t.len(),
        no_break(t),
    ensures
        line_end(t + seq!['\n'] + y, i) == t.len(),
    decreases t.len() - i,
{
    let s = t + seq!['\n'] + y;
    if i < t.len() {
        assert(s[i] == t[i]);
        lemma_line_end_at(t, y, i + 1);
    } else {
        assert(s[i] == '\n');
    }
}

/// A text that starts with a line reads as that line's tokens followed by
/// the tokens of the rest.
pub proof fn lemma_lex_line(t: Seq<char>, y: Seq<char>, before: nat)
    requires
        no_break(t),
        t.len() > 0 ==> t.last() != '\r',
    ensures
        lex_from(t + seq!['\n'] + y, 0, before) == chain(
            scan_spec(t, 0, (before + 1) as usize),
            lex_from(y, 0, before + 1),
        ),
{
    let s = t + seq!['\n'] + y;
    lemma_line_end_at(t, y, 0);
    assert(s.subrange(0, t.len() as int) =~= t);
    assert(line_at(s, 0) == t);
    lemma_lex_from_shift(t + seq!['\n'], y, 0, before + 1);
    assert(t + seq!['\n'] + y =~= (t + seq!['\n']) + y);
    if y.len() == 0 {
        assert(lex_from(s, t.len() as int + 1, before + 1) == Ok::<Seq<Located>, LexError>(seq![]));
    }
}


/// Pieces never read as an end of line.
pub proof fn lemma_pieces_lexemes_plain(ps: Seq<Piece>)
    ensures
        forall|k: int| 0 <= k < pieces_lexemes(ps).len() ==> !(#[trigger] pieces_lexemes(ps)[k] is Newline),
    decreases ps.len(),
{
    if ps.len() > 0 {
        lemma_pieces_lexemes_plain(ps.drop_first());
        let a = piece_lexemes(ps[0]);
        let b = pieces_lexemes(ps.drop_first());
        assert forall|k: int| 0 <= k < pieces_lexemes(ps).len() implies !(#[trigger] pieces_lexemes(ps)[k] is Newline) by {
            if k < a.len() {
                assert(pieces_lexemes(ps)[k] == a[k]);
            } else {
                assert(pieces_lexemes(ps)[k] == b[k - a.len()]);
            }
        }
    }
}

} // verus!
