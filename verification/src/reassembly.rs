//! Assembling a whole listing: the first pass over its lines and the second
//! pass over the statements they place.
use vstd::prelude::*;

use crate::codegen::{assemble_spec, blocks_spec, emit_all, emit_spec};
use crate::lexer::{lex_from, scan_spec, tokenize_spec, LexError, Lexeme, Located};
use crate::listing::{address_of, in_range, label_text, labels_of, lines_text, listing_text};
use crate::parser::{
    directive_spec, feed_spec, finish_spec, lexeme_at, line_spec, lookup, next_newline, parse_spec,
    parse_tokens_spec, pass_from, start_spec, LineBodySpec, OpenSpec, PassSpec, ProgramSpec, SegmentSpec,
    StatementSpec,
};
use crate::pseudo::{strip_dots, PseudoOp};
use crate::reading::{
    chain, lemma_lex_line, lemma_scan_end, lemma_scan_pieces, lexemes_of, no_break, pieces_lexemes,
    pieces_ok, pieces_text, scanned, Piece,
};
use crate::round_trip::{
    lemma_line_lexemes_plain, lemma_listed_line_parses, lemma_listed_operation_encodes,
    lemma_listing_line_plain, lemma_listing_line_scans, lemma_pair_pieces, line_label, line_lexemes,
    listed_operation, names_labels, pieces_read, reaches_plainly,
};
use crate::text::{hex4, lemma_hex4_reads, upper_seq};

verus! {

/// The index of the first end-of-line token is found at the same place after
/// a prefix.
proof fn lemma_next_newline_shift(p: Seq<Located>, b: Seq<Located>, i: int)
    requires
        0 <= i <= b.len(),
    ensures
        next_newline(p + b, p.len() + i) == p.len() + next_newline(b, i),
    decreases b.len() - i,
{
    if i < b.len() {
        assert((p + b)[p.len() + i] == b[i]);
        if !(b[i].lexeme is Newline) {
            lemma_next_newline_shift(p, b, i + 1);
        }
    }
}

/// The first pass reads the lines of a token run the same after a prefix of
/// whole lines.
proof fn lemma_pass_shift(p: Seq<Located>, b: Seq<Located>, i: int, st: PassSpec)
    requires
        0 <= i <= b.len(),
    ensures
        pass_from(p + b, p.len() + i, st) == pass_from(b, i, st),
    decreases b.len() - i,
{
    if i < b.len() {
        lemma_next_newline_shift(p, b, i);
        crate::parser::lemma_next_newline_bound(b, i);
        let j = next_newline(b, i);
        assert((p + b).subrange(p.len() + i, p.len() + j) =~= b.subrange(i, j));
        let piece = b.subrange(i, j);
        let next = if piece.len() == 0 {
            Ok(st)
        } else {
            feed_spec(st, piece, piece[0].line)
        };
        if let Ok(st2) = next {
            if j < b.len() {
                lemma_pass_shift(p, b, j + 1, st2);
            }
        }
    }
}

/// No token of `ts` ends a line.
pub open spec fn no_newline(ts: Seq<Located>) -> bool {
    forall|k: int| 0 <= k < ts.len() ==> !(#[trigger] ts[k].lexeme is Newline)
}

proof fn lemma_next_newline_at(piece: Seq<Located>, nl: Located, b: Seq<Located>, i: int)
    requires
        0 <= i <= piece.len(),
        no_newline(piece),
        nl.lexeme is Newline,
    ensures
        next_newline(piece + seq![nl] + b, i) == piece.len(),
    decreases piece.len() - i,
{
    let s = piece + seq![nl] + b;
    if i < piece.len() {
        assert(s[i] == piece[i]);
        lemma_next_newline_at(piece, nl, b, i + 1);
    } else {
        assert(s[i] == nl);
    }
}

/// A token run that starts with a line is read as that line, then the rest.
proof fn lemma_pass_line(piece: Seq<Located>, nl: Located, b: Seq<Located>, st: PassSpec)
    requires
        piece.len() > 0,
        no_newline(piece),
        nl.lexeme is Newline,
    ensures
        pass_from(piece + seq![nl] + b, 0, st) == match feed_spec(st, piece, piece[0].line) {
            Err(e) => Err(e),
            Ok(st2) => pass_from(b, 0, st2),
        },
{
    let s = piece + seq![nl] + b;
    lemma_next_newline_at(piece, nl, b, 0);
    assert(s.subrange(0, piece.len() as int) =~= piece);
    if let Ok(st2) = feed_spec(st, piece, piece[0].line) {
        assert(s =~= (piece + seq![nl]) + b);
        lemma_pass_shift(piece + seq![nl], b, 0, st2);
        if b.len() == 0 {
            assert(pass_from(s, piece.len() as int + 1, st2) == Ok::<PassSpec, crate::parser::ParseErrorSpec>(st2));
        }
    }
}

/// Lexemes that hold no end of line.
pub open spec fn no_newline_lexeme(ls: Seq<Lexeme>) -> bool {
    forall|k: int| 0 <= k < ls.len() ==> !(#[trigger] ls[k] is Newline)
}

/// A scan that reads as `ls` and the end of the line splits into its line and
/// the end.
pub proof fn lemma_scanned_line(ts: Seq<Located>, ls: Seq<Lexeme>)
    requires
        lexemes_of(ts) == ls + seq![Lexeme::Newline],
        ls.len() > 0,
        no_newline_lexeme(ls),
    ensures
        ts =~= ts.drop_last() + seq![ts.last()],
        ts.drop_last().len() > 0,
        no_newline(ts.drop_last()),
        ts.last().lexeme is Newline,
        lexemes_of(ts.drop_last()) == ls,
{
    assert(ts.len() == ls.len() + 1) by {
        assert(lexemes_of(ts).len() == ts.len());
    }
    assert(lexemes_of(ts)[ts.len() - 1] == ts.last().lexeme);
    assert forall|k: int| 0 <= k < ts.drop_last().len() implies !(#[trigger] ts.drop_last()[k].lexeme is Newline) by {
        assert(lexemes_of(ts)[k] == ts[k].lexeme);
        assert((ls + seq![Lexeme::Newline])[k] == ls[k]);
    }
    assert forall|k: int| 0 <= k < ls.len() implies #[trigger] lexemes_of(ts.drop_last())[k] == ls[k] by {
        assert(lexemes_of(ts)[k] == ts[k].lexeme);
        assert((ls + seq![Lexeme::Newline])[k] == ls[k]);
    }
    assert(lexemes_of(ts.drop_last()) =~= ls);
}

/// The address a symbol table gives a name is recorded in it.
proof fn lemma_lookup_found(symbols: Seq<(Seq<char>, u16)>, name: Seq<char>)
    ensures
        lookup(symbols, name) matches Some(v) ==> exists|i: int|
            0 <= i < symbols.len() && #[trigger] symbols[i] == (name, v),
    decreases symbols.len(),
{
    if symbols.len() > 0 && symbols[0].0 != name {
        lemma_lookup_found(symbols.drop_first(), name);
        if let Some(v) = lookup(symbols, name) {
            let i = choose|i: int| 0 <= i < symbols.drop_first().len() && #[trigger] symbols.drop_first()[i] == (name, v);
            assert(symbols[i + 1] == (name, v));
        }
    }
}

/// Looking a name up after one more definition.
proof fn lemma_lookup_push(symbols: Seq<(Seq<char>, u16)>, name: Seq<char>, address: u16, other: Seq<char>)
    ensures
        lookup(symbols.push((name, address)), other) == if lookup(symbols, other) is Some {
            lookup(symbols, other)
        } else if name == other {
            Some(address)
        } else {
            None
        },
    decreases symbols.len(),
{
    let s = symbols.push((name, address));
    if symbols.len() == 0 {
        assert(s.drop_first() =~= Seq::<(Seq<char>, u16)>::empty());
    } else {
        assert(s.drop_first() =~= symbols.drop_first().push((name, address)));
        lemma_lookup_push(symbols.drop_first(), name, address, other);
    }
}

/// Distinct addresses have distinct labels.
pub proof fn lemma_label_injective(a: u16, b: u16)
    requires
        label_text(a) == label_text(b),
    ensures
        a == b,
{
    lemma_hex4_reads(a);
    lemma_hex4_reads(b);
    assert(label_text(a).skip(2) =~= hex4(a));
    assert(label_text(b).skip(2) =~= hex4(b));
}

/// The symbols the first pass has defined after the first `k` lines of an
/// image at `origin`: each is a synthesized label of its own address among
/// those lines, and every label of those lines is defined.
pub open spec fn symbols_reached(symbols: Seq<(Seq<char>, u16)>, origin: u16, labels: Set<u16>, k: nat) -> bool {
    &&& forall|i: int|
        0 <= i < symbols.len() ==> #[trigger] symbols[i].0 == label_text(symbols[i].1) && origin <= symbols[i].1
            < origin + k
    &&& forall|t: u16|
        #[trigger] labels.contains(t) && origin <= t < origin + k ==> lookup(symbols, label_text(t)) == Some(t)
}

/// The statements the first pass has placed after the first `k` lines.
pub open spec fn statements_reached(
    statements: Seq<StatementSpec>,
    origin: u16,
    words: Seq<u16>,
    labels: Set<u16>,
    k: nat,
) -> bool {
    &&& statements.len() == k
    &&& forall|j: int|
        0 <= j < k ==> (#[trigger] statements[j]).address == address_of(origin, j) && statements[j].operation
            == listed_operation(words[j], address_of(origin, j), labels)
}

/// The first pass's state after the `.ORIG` line and the first `k` word lines.
pub open spec fn pass_reached(st: PassSpec, origin: u16, words: Seq<u16>, labels: Set<u16>, k: nat) -> bool {
    &&& st.segments.len() == 0
    &&& st.open matches Some(o) && o.origin == origin && o.counter == origin + k && statements_reached(
        o.statements,
        origin,
        words,
        labels,
        k,
    )
    &&& symbols_reached(st.symbols, origin, labels, k)
}

/// One word line moves the first pass on by one statement.
#[verifier::rlimit(40)]
proof fn lemma_word_line_step(
    st: PassSpec,
    origin: u16,
    words: Seq<u16>,
    labels: Set<u16>,
    k: nat,
    piece: Seq<Located>,
    line: usize,
)
    requires
        origin + words.len() <= 0x1_0000,
        k < words.len(),
        pass_reached(st, origin, words, labels, k),
        lexemes_of(piece) == line_lexemes(words[k as int], address_of(origin, k as int), labels),
    ensures
        feed_spec(st, piece, line) matches Ok(st2) && pass_reached(st2, origin, words, labels, k + 1),
{
    let a = address_of(origin, k as int);
    let w = words[k as int];
    assert(a == origin + k) by {
        vstd::arithmetic::div_mod::lemma_small_mod((origin + k) as nat, 0x1_0000);
    }
    lemma_listed_line_parses(w, a, labels, piece, line);
    let op = listed_operation(w, a, labels);
    let o = st.open->0;
    assert(crate::parser::size_spec(op) == 1);
    assert(o.counter as u16 == a);
    let label = line_label(a, labels);
    if let Some(l) = label {
        assert(lookup(st.symbols, l) is None) by {
            lemma_lookup_found(st.symbols, l);
            if let Some(v) = lookup(st.symbols, l) {
                let i = choose|i: int| 0 <= i < st.symbols.len() && #[trigger] st.symbols[i] == (l, v);
                assert(st.symbols[i].0 == label_text(st.symbols[i].1));
                lemma_label_injective(st.symbols[i].1, a);
            }
        }
    }
    let st1 = match label {
        Some(l) => PassSpec { symbols: st.symbols.push((l, a)), ..st },
        None => st,
    };
    assert(crate::parser::define_opt(st, label, a, line) == Ok::<PassSpec, crate::parser::ParseErrorSpec>(st1));
    let stmts2 = o.statements.push(StatementSpec { address: a, line, operation: op });
    let st2 = PassSpec {
        open: Some(OpenSpec { counter: o.counter + 1, statements: stmts2, ..o }),
        ..st1
    };
    assert(feed_spec(st, piece, line) == Ok::<PassSpec, crate::parser::ParseErrorSpec>(st2));
    assert(statements_reached(stmts2, origin, words, labels, k + 1)) by {
        assert forall|j: int| 0 <= j < k + 1 implies (#[trigger] stmts2[j]).address == address_of(origin, j)
            && stmts2[j].operation == listed_operation(words[j], address_of(origin, j), labels) by {
            if j < k {
                assert(stmts2[j] == o.statements[j]);
            }
        }
    }
    assert(symbols_reached(st2.symbols, origin, labels, k + 1)) by {
        let sy = st.symbols;
        let sy2 = st2.symbols;
        assert forall|i: int| 0 <= i < sy2.len() implies #[trigger] sy2[i].0 == label_text(sy2[i].1) && origin
            <= sy2[i].1 < origin + k + 1 by {
            if i < sy.len() {
                assert(sy2[i] == sy[i]);
            }
        }
        assert forall|t: u16| #[trigger] labels.contains(t) && origin <= t < origin + k + 1 implies lookup(
            sy2,
            label_text(t),
        ) == Some(t) by {
            if let Some(l) = label {
                lemma_lookup_push(sy, l, a, label_text(t));
                if t == a {
                    assert(lookup(sy, l) is None);
                } else {
                    assert(lookup(sy, label_text(t)) == Some(t));
                }
            } else {
                assert(t != a);
            }
        }
    }
}


/// The word lines of an image from the `k`-th on, each ended by a line feed.
pub open spec fn word_lines(origin: u16, words: Seq<u16>, labels: Set<u16>, k: nat) -> Seq<char>
    decreases words.len() - k,
{
    if k >= words.len() {
        seq![]
    } else {
        crate::listing::line_text(address_of(origin, k as int), words[k as int], labels) + seq!['\n']
            + word_lines(origin, words, labels, k + 1)
    }
}

/// The first `n` word lines and the word lines after them make all of them.
proof fn lemma_word_lines_split(origin: u16, words: Seq<u16>, labels: Set<u16>, n: nat)
    requires
        n <= words.len(),
    ensures
        lines_text(origin, words, labels, n) + word_lines(origin, words, labels, n) == word_lines(
            origin,
            words,
            labels,
            0,
        ),
    decreases n,
{
    if n == 0 {
        assert(Seq::<char>::empty() + word_lines(origin, words, labels, 0) =~= word_lines(origin, words, labels, 0));
    } else {
        lemma_word_lines_split(origin, words, labels, (n - 1) as nat);
        let line = crate::listing::line_text(address_of(origin, n - 1), words[n - 1], labels);
        assert(word_lines(origin, words, labels, (n - 1) as nat) == line + seq!['\n'] + word_lines(
            origin,
            words,
            labels,
            n,
        ));
        assert(lines_text(origin, words, labels, n) + word_lines(origin, words, labels, n) =~= lines_text(
            origin,
            words,
            labels,
            (n - 1) as nat,
        ) + word_lines(origin, words, labels, (n - 1) as nat));
    }
}

/// The `.ORIG` line of a listing.
pub open spec fn orig_line(origin: u16) -> Seq<char> {
    seq!['.', 'O', 'R', 'I', 'G', ' ', 'x'] + hex4(origin)
}

/// The `.END` line of a listing.
pub open spec fn end_line() -> Seq<char> {
    seq!['.', 'E', 'N', 'D']
}

/// A listing is its `.ORIG` line, its word lines and its `.END` line.
proof fn lemma_listing_lines(origin: u16, words: Seq<u16>)
    ensures
        listing_text(origin, words) == orig_line(origin) + seq!['\n'] + (word_lines(
            origin,
            words,
            labels_of(origin, words),
            0,
        ) + (end_line() + seq!['\n'])),
{
    let labels = labels_of(origin, words);
    lemma_word_lines_split(origin, words, labels, words.len());
    assert(word_lines(origin, words, labels, words.len()) =~= Seq::<char>::empty());
    assert(lines_text(origin, words, labels, words.len()) =~= word_lines(origin, words, labels, 0));
    assert(listing_text(origin, words) =~= orig_line(origin) + seq!['\n'] + (word_lines(origin, words, labels, 0) + (
    end_line() + seq!['\n'])));
}

/// A line made of one run of pieces reads as the pieces' lexemes and the end
/// of the line.
proof fn lemma_piece_line_scans(line: Seq<char>, ps: Seq<Piece>, ls: Seq<Lexeme>, ln: usize)
    requires
        pieces_read(ps, line, ls),
    ensures
        scanned(scan_spec(line, 0, ln)) == Some(ls + seq![Lexeme::Newline]),
{
    assert(line.skip(0) =~= pieces_text(ps) + Seq::<char>::empty());
    lemma_scan_pieces(line, 0, ps, Seq::<char>::empty(), ln);
    lemma_scan_end(line, ln);
}

/// The `.ORIG` line reads as the directive and the origin.
proof fn lemma_orig_line_scans(origin: u16, ln: usize)
    ensures
        scanned(scan_spec(orig_line(origin), 0, ln)) == Some(
            seq![Lexeme::Directive(seq!['.', 'O', 'R', 'I', 'G']), Lexeme::Number(origin as i32), Lexeme::Newline],
        ),
        no_break(orig_line(origin)),
        orig_line(origin).last() != '\r',
{
    lemma_hex4_reads(origin);
    let name = seq!['O', 'R', 'I', 'G'];
    lemma_pair_pieces(Piece::Directive(name), Piece::Hex(hex4(origin)));
    let ls = seq![Lexeme::Directive(seq!['.'] + name), Lexeme::Number(origin as i32)];
    assert(orig_line(origin) =~= seq!['.'] + name + seq![' '] + (seq!['x'] + hex4(origin)));
    assert(seq![Lexeme::Directive(seq!['.'] + name)] + seq![Lexeme::Number(crate::text::hex_value(hex4(origin)) as i32)]
        =~= ls);
    lemma_piece_line_scans(orig_line(origin), seq![Piece::Directive(name), Piece::Space, Piece::Hex(hex4(origin))], ls, ln);
    assert(seq!['.'] + name =~= seq!['.', 'O', 'R', 'I', 'G']);
    assert(ls + seq![Lexeme::Newline] =~= seq![
        Lexeme::Directive(seq!['.', 'O', 'R', 'I', 'G']),
        Lexeme::Number(origin as i32),
        Lexeme::Newline,
    ]);
    let t = orig_line(origin);
    assert forall|j: int| 0 <= j < t.len() implies #[trigger] t[j] != '\n' by {
        if j >= 7 {
            assert(t[j] == hex4(origin)[j - 7]);
            assert(crate::text::is_hex_digit(hex4(origin)[j - 7]));
        }
    }
    assert(t.last() == hex4(origin)[3]);
    assert(crate::text::is_hex_digit(hex4(origin)[3]));
}

/// The `.END` line reads as the directive.
proof fn lemma_end_line_scans(ln: usize)
    ensures
        scanned(scan_spec(end_line(), 0, ln)) == Some(
            seq![Lexeme::Directive(seq!['.', 'E', 'N', 'D']), Lexeme::Newline],
        ),
        no_break(end_line()),
        end_line().last() != '\r',
{
    let name = seq!['E', 'N', 'D'];
    let ps = seq![Piece::Directive(name)];
    reveal_with_fuel(pieces_text, 2);
    reveal_with_fuel(pieces_lexemes, 2);
    assert(pieces_text(ps) =~= end_line());
    assert(pieces_lexemes(ps) =~= seq![Lexeme::Directive(seq!['.', 'E', 'N', 'D'])]);
    assert(pieces_ok(ps));
    lemma_piece_line_scans(end_line(), ps, seq![Lexeme::Directive(seq!['.', 'E', 'N', 'D'])], ln);
}

/// Whether the first pass has closed the image's one segment after reading
/// all of its lines.
pub open spec fn pass_finished(st: PassSpec, origin: u16, words: Seq<u16>, labels: Set<u16>) -> bool {
    &&& st.open is None
    &&& st.segments.len() == 1
    &&& st.segments[0].origin == origin
    &&& statements_reached(st.segments[0].statements, origin, words, labels, words.len())
    &&& symbols_reached(st.symbols, origin, labels, words.len())
}

/// The `.END` line's tokens read as the end of the segment.
proof fn lemma_end_line_parses(piece: Seq<Located>, line: usize)
    requires
        lexemes_of(piece) == seq![Lexeme::Directive(seq!['.', 'E', 'N', 'D'])],
    ensures
        line_spec(piece, line) == Ok::<(Option<Seq<char>>, LineBodySpec), crate::parser::ParseErrorSpec>(
            (None, LineBodySpec::End),
        ),
{
    assert(lexemes_of(piece).len() == piece.len());
    assert(lexemes_of(piece)[0] == piece[0].lexeme);
    let d = seq!['.', 'E', 'N', 'D'];
    assert(strip_dots(d.drop_first()) == d.drop_first());
    assert(strip_dots(d) == d.drop_first());
    assert(upper_seq(d.drop_first()) =~= seq!['E', 'N', 'D']);
    assert(PseudoOp::parse_spec(d) == Some(PseudoOp::End));
    assert(piece.skip(1).len() == 0);
    assert(lexeme_at(piece, 0) == Some(Lexeme::Directive(d)));
}

/// The `.END` line closes the segment.
proof fn lemma_end_step(st: PassSpec, origin: u16, words: Seq<u16>, labels: Set<u16>, piece: Seq<Located>, line: usize)
    requires
        pass_reached(st, origin, words, labels, words.len()),
        lexemes_of(piece) == seq![Lexeme::Directive(seq!['.', 'E', 'N', 'D'])],
    ensures
        feed_spec(st, piece, line) matches Ok(st2) && pass_finished(st2, origin, words, labels),
{
    lemma_end_line_parses(piece, line);
    let o = st.open->0;
    let st2 = PassSpec {
        segments: st.segments.push(SegmentSpec { origin: o.origin, statements: o.statements }),
        open: None,
        ..st
    };
    assert(feed_spec(st, piece, line) == Ok::<PassSpec, crate::parser::ParseErrorSpec>(st2));
    assert(st2.segments[0] == SegmentSpec { origin: o.origin, statements: o.statements });
}

/// The `.ORIG` line's tokens read as the opening of a segment.
proof fn lemma_orig_line_parses(origin: u16, piece: Seq<Located>, line: usize)
    requires
        lexemes_of(piece) == seq![Lexeme::Directive(seq!['.', 'O', 'R', 'I', 'G']), Lexeme::Number(origin as i32)],
    ensures
        line_spec(piece, line) == Ok::<(Option<Seq<char>>, LineBodySpec), crate::parser::ParseErrorSpec>(
            (None, LineBodySpec::Orig(origin)),
        ),
{
    assert(lexemes_of(piece).len() == piece.len());
    assert(lexemes_of(piece)[0] == piece[0].lexeme);
    assert(lexemes_of(piece)[1] == piece[1].lexeme);
    let d = seq!['.', 'O', 'R', 'I', 'G'];
    assert(strip_dots(d.drop_first()) == d.drop_first());
    assert(strip_dots(d) == d.drop_first());
    assert(upper_seq(d.drop_first()) =~= seq!['O', 'R', 'I', 'G']);
    assert(PseudoOp::parse_spec(d) == Some(PseudoOp::Orig));
    let ops = piece.skip(1);
    assert(ops.len() == 1);
    assert(ops[0] == piece[1]);
    assert(lexeme_at(ops, 0) == Some(Lexeme::Number(origin as i32)));
    assert(lexeme_at(piece, 0) == Some(Lexeme::Directive(d)));
    assert(directive_spec(d, ops, line) == Ok::<LineBodySpec, crate::parser::ParseErrorSpec>(
        LineBodySpec::Orig(origin),
    ));
}

/// The `.ORIG` line opens the segment.
proof fn lemma_orig_step(origin: u16, words: Seq<u16>, labels: Set<u16>, piece: Seq<Located>, line: usize)
    requires
        lexemes_of(piece) == seq![Lexeme::Directive(seq!['.', 'O', 'R', 'I', 'G']), Lexeme::Number(origin as i32)],
    ensures
        feed_spec(start_spec(), piece, line) matches Ok(st) && pass_reached(st, origin, words, labels, 0),
{
    lemma_orig_line_parses(origin, piece, line);
    let st = PassSpec {
        open: Some(OpenSpec { origin, line, counter: origin as nat, statements: seq![] }),
        ..start_spec()
    };
    assert(feed_spec(start_spec(), piece, line) == Ok::<PassSpec, crate::parser::ParseErrorSpec>(st));
    assert(statements_reached(st.open->0.statements, origin, words, labels, 0));
}

/// The word lines from the `k`-th on and the `.END` line tokenize, and the
/// first pass carries a state reached after `k` word lines through them to
/// the closed segment.
#[verifier::rlimit(40)]
proof fn lemma_lines_pass(origin: u16, words: Seq<u16>, labels: Set<u16>, k: nat, before: nat, st: PassSpec)
    requires
        origin + words.len() <= 0x1_0000,
        k <= words.len(),
        pass_reached(st, origin, words, labels, k),
    ensures
        lex_from(word_lines(origin, words, labels, k) + (end_line() + seq!['\n']), 0, before) matches Ok(ts) && (
        pass_from(ts, 0, st) matches Ok(fin) && pass_finished(fin, origin, words, labels)),
    decreases words.len() - k,
{
    let rest = end_line() + seq!['\n'];
    if k >= words.len() {
        assert(word_lines(origin, words, labels, k) + rest =~= end_line() + seq!['\n'] + Seq::<char>::empty());
        lemma_end_line_scans((before + 1) as usize);
        lemma_lex_line(end_line(), Seq::<char>::empty(), before);
        let ts = scan_spec(end_line(), 0, (before + 1) as usize)->Ok_0;
        assert(lex_from(Seq::<char>::empty(), 0, before + 1) == Ok::<Seq<Located>, LexError>(seq![]));
        assert(ts + Seq::<Located>::empty() =~= ts);
        let ls = seq![Lexeme::Directive(seq!['.', 'E', 'N', 'D'])];
        assert(ls + seq![Lexeme::Newline] =~= seq![Lexeme::Directive(seq!['.', 'E', 'N', 'D']), Lexeme::Newline]);
        assert(crate::reassembly::no_newline_lexeme(ls));
        lemma_scanned_line(ts, ls);
        let piece = ts.drop_last();
        lemma_end_step(st, origin, words, labels, piece, piece[0].line);
        assert(piece + seq![ts.last()] + Seq::<Located>::empty() =~= ts);
        lemma_pass_line(piece, ts.last(), Seq::<Located>::empty(), st);
    } else {
        let a = address_of(origin, k as int);
        let w = words[k as int];
        let line = crate::listing::line_text(a, w, labels);
        let later = word_lines(origin, words, labels, k + 1) + rest;
        assert(word_lines(origin, words, labels, k) + rest =~= line + seq!['\n'] + later);
        lemma_listing_line_plain(w, a, labels);
        lemma_listing_line_scans(w, a, labels, (before + 1) as usize);
        lemma_lex_line(line, later, before);
        let ts = scan_spec(line, 0, (before + 1) as usize)->Ok_0;
        let ls = line_lexemes(w, a, labels);
        lemma_line_lexemes_plain(w, a, labels);
        lemma_scanned_line(ts, ls);
        let piece = ts.drop_last();
        lemma_word_line_step(st, origin, words, labels, k, piece, piece[0].line);
        let st2 = feed_spec(st, piece, piece[0].line)->Ok_0;
        lemma_lines_pass(origin, words, labels, k + 1, before + 1, st2);
        let tr = lex_from(later, 0, before + 1)->Ok_0;
        assert(piece + seq![ts.last()] + tr =~= ts + tr);
        lemma_pass_line(piece, ts.last(), tr, st);
    }
}

/// The statements the first pass placed encode, in order, to the words they
/// were listed from.
proof fn lemma_emit_listed(
    statements: Seq<StatementSpec>,
    symbols: Seq<(Seq<char>, u16)>,
    origin: u16,
    words: Seq<u16>,
    labels: Set<u16>,
    m: nat,
)
    requires
        m <= words.len(),
        statements_reached(statements, origin, words, labels, m),
        names_labels(symbols, labels),
        forall|j: int| 0 <= j < words.len() ==> reaches_plainly(#[trigger] words[j], address_of(origin, j), labels),
    ensures
        emit_all(statements, symbols) == Ok::<Seq<u16>, crate::codegen::AsmErrorSpec>(words.take(m as int)),
    decreases m,
{
    if m == 0 {
        assert(words.take(0) =~= Seq::<u16>::empty());
    } else {
        let j = m - 1;
        let prefix = statements.drop_last();
        assert(statements_reached(prefix, origin, words, labels, (m - 1) as nat)) by {
            assert forall|i: int| 0 <= i < m - 1 implies (#[trigger] prefix[i]).address == address_of(origin, i)
                && prefix[i].operation == listed_operation(words[i], address_of(origin, i), labels) by {
                assert(prefix[i] == statements[i]);
            }
        }
        lemma_emit_listed(prefix, symbols, origin, words, labels, (m - 1) as nat);
        let last = statements.last();
        assert(last == statements[j]);
        assert(reaches_plainly(words[j], address_of(origin, j), labels));
        lemma_listed_operation_encodes(words[j], address_of(origin, j), labels, last.line, symbols);
        assert(last == StatementSpec {
            address: address_of(origin, j),
            line: last.line,
            operation: listed_operation(words[j], address_of(origin, j), labels),
        });
        assert(words.take(m as int) =~= words.take(j) + seq![words[j]]);
    }
}

/// The first pass over a listing ends with the image's one segment closed.
#[verifier::rlimit(40)]
#[verifier::spinoff_prover]
proof fn lemma_listing_passes(origin: u16, words: Seq<u16>)
    requires
        origin + words.len() <= 0x1_0000,
    ensures
        tokenize_spec(listing_text(origin, words)) matches Ok(ts) && (pass_from(ts, 0, start_spec()) matches Ok(
            fin,
        ) && pass_finished(fin, origin, words, labels_of(origin, words))),
{
    let labels = labels_of(origin, words);
    let rest = word_lines(origin, words, labels, 0) + (end_line() + seq!['\n']);
    lemma_listing_lines(origin, words);
    lemma_orig_line_scans(origin, 1);
    lemma_lex_line(orig_line(origin), rest, 0);
    let ts = scan_spec(orig_line(origin), 0, 1)->Ok_0;
    let ls = seq![Lexeme::Directive(seq!['.', 'O', 'R', 'I', 'G']), Lexeme::Number(origin as i32)];
    assert(ls + seq![Lexeme::Newline] =~= seq![
        Lexeme::Directive(seq!['.', 'O', 'R', 'I', 'G']),
        Lexeme::Number(origin as i32),
        Lexeme::Newline,
    ]);
    assert(no_newline_lexeme(ls));
    lemma_scanned_line(ts, ls);
    let piece = ts.drop_last();
    lemma_orig_step(origin, words, labels, piece, piece[0].line);
    let st1 = feed_spec(start_spec(), piece, piece[0].line)->Ok_0;
    lemma_lines_pass(origin, words, labels, 0, 1, st1);
    let tr = lex_from(rest, 0, 1)->Ok_0;
    assert(piece + seq![ts.last()] + tr =~= ts + tr);
    lemma_pass_line(piece, ts.last(), tr, start_spec());
    assert(tokenize_spec(listing_text(origin, words)) == Ok::<Seq<Located>, LexError>(ts + tr));
}

/// The first `n` lines of a listing body take at most 91 characters each.
proof fn lemma_lines_short(origin: u16, words: Seq<u16>, labels: Set<u16>, n: nat)
    requires
        n <= words.len(),
    ensures
        lines_text(origin, words, labels, n).len() <= 91 * n,
    decreases n,
{
    if n > 0 {
        lemma_lines_short(origin, words, labels, (n - 1) as nat);
        crate::round_trip::lemma_line_short(words[n - 1], address_of(origin, n - 1), labels);
    }
}

/// The listing of an image that fits in memory is short enough to hand to
/// the assembler: its UTF-8 encoding is shorter than `usize::MAX` bytes.
pub proof fn lemma_listing_fits(origin: u16, words: Seq<u16>)
    requires
        origin + words.len() <= 0x1_0000,
    ensures
        crate::lexer::byte_len(listing_text(origin, words)) < usize::MAX,
{
    let labels = labels_of(origin, words);
    lemma_lines_short(origin, words, labels, words.len());
    lemma_hex4_reads(origin);
    crate::lexer::lemma_byte_len_at_most(listing_text(origin, words));
    assert(listing_text(origin, words).len() <= 17 + 91 * words.len());
    assert(91 * words.len() <= 91 * 0x1_0000) by (nonlinear_arith)
        requires
            words.len() <= 0x1_0000,
    ;
}

/// Re-assembling the listing of an image gives the image back.
///
/// The listing of any image that fits below the top of memory assembles to
/// exactly one block: the image's own origin and words. The listing is also
/// short enough for [`crate::codegen::assemble`], so by the contracts of
/// `assemble` and [`crate::listing::disassemble`], re-assembling the
/// disassembly of such an object returns one block equal to the object. The only images left
/// out are those whose listing cannot re-assemble: one that runs past
/// `xFFFF`, or one with a PC-relative word whose target wraps through the
/// end of the address space onto a labelled word of the image.
#[verifier::spinoff_prover]
pub proof fn lemma_reassembly(origin: u16, words: Seq<u16>)
    requires
        origin + words.len() <= 0x1_0000,
        forall|j: int|
            0 <= j < words.len() ==> reaches_plainly(#[trigger] words[j], address_of(origin, j), labels_of(origin, words)),
    ensures
        assemble_spec(listing_text(origin, words)) == Ok::<Seq<(u16, Seq<u16>)>, crate::codegen::AsmErrorSpec>(
            seq![(origin, words)],
        ),
        crate::lexer::byte_len(listing_text(origin, words)) < usize::MAX,
{
    let labels = labels_of(origin, words);
    lemma_listing_fits(origin, words);
    lemma_listing_passes(origin, words);
    let ts = tokenize_spec(listing_text(origin, words))->Ok_0;
    let fin = pass_from(ts, 0, start_spec())->Ok_0;
    assert(parse_spec(listing_text(origin, words)) == Ok::<ProgramSpec, crate::parser::ParseErrorSpec>(
        ProgramSpec { segments: fin.segments, symbols: fin.symbols },
    ));
    assert(names_labels(fin.symbols, labels)) by {
        assert forall|t: u16| #[trigger] labels.contains(t) implies lookup(fin.symbols, label_text(t)) == Some(t) by {
            assert(in_range(origin, words.len() as int, t));
        }
    }
    let seg = fin.segments[0];
    lemma_emit_listed(seg.statements, fin.symbols, origin, words, labels, words.len());
    assert(words.take(words.len() as int) =~= words);
    assert(fin.segments.drop_last() =~= Seq::<SegmentSpec>::empty());
    assert(fin.segments.last() == seg);
    assert(blocks_spec(fin.segments.drop_last(), fin.symbols) == Ok::<Seq<(u16, Seq<u16>)>, crate::codegen::AsmErrorSpec>(
        seq![],
    ));
    assert(seq![].push((origin, words)) =~= seq![(origin, words)]);
}

} // verus!
