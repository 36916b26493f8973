//! Lexer for LC-3 assembly source.
//!
//! [`tokenize`] scans a program into a flat, positioned token stream. The scan
//! is purely lexical: it recognizes words, directives, numbers, strings, commas
//! and line breaks without deciding whether a word is a label, a mnemonic or a
//! register; that depends on the word's place in its statement and is left to
//! the parser.
//!
//! Positions are 1-based. A column counts bytes of the line's UTF-8 encoding,
//! so a token after a multi-byte character sits further right than its
//! character index.
use vstd::prelude::*;
use crate::text::{
    all_hex_digits, chars_of, hex_value, is_alpha, is_digit, is_hex_digit, is_hex_digit_char,
    bounded_hex, decimal_text, parse_i32, parse_i32_spec, push_decimal, push_text, string_from_chars,
};

verus! {

/// The kinds of lexical token in LC-3 assembly.
#[derive(Debug, Clone, PartialEq, Eq)]
pub enum TokenKind {
    /// A bare word: a label, a mnemonic, a register name, a branch mnemonic
    /// or a trap alias, classified later by the parser.
    Word(String),
    /// A pseudo-op directive lexeme, leading dot included (`.ORIG`, ...).
    Directive(String),
    /// A numeric literal: `#`-prefixed decimal (possibly negative) or
    /// `x`-prefixed hexadecimal, already read to its value.
    Number(i32),
    /// A string literal with its escapes decoded.
    Str(String),
    /// An operand separator, `,`.
    Comma,
    /// The end of a source line.
    Newline,
}

/// What a token kind denotes, its text taken as characters.
pub enum Lexeme {
    Word(Seq<char>),
    Directive(Seq<char>),
    Number(i32),
    Str(Seq<char>),
    Comma,
    Newline,
}

impl View for TokenKind {
    type V = Lexeme;

    open spec fn view(&self) -> Lexeme {
        match self {
            TokenKind::Word(s) => Lexeme::Word(s@),
            TokenKind::Directive(s) => Lexeme::Directive(s@),
            TokenKind::Number(n) => Lexeme::Number(*n),
            TokenKind::Str(s) => Lexeme::Str(s@),
            TokenKind::Comma => Lexeme::Comma,
            TokenKind::Newline => Lexeme::Newline,
        }
    }
}

/// A lexical token together with its position in the source.
#[derive(Debug, Clone, PartialEq, Eq)]
pub struct Token {
    /// What the token is.
    pub kind: TokenKind,
    /// The 1-based line the token starts on.
    pub line: usize,
    /// The 1-based column (in bytes) the token starts at.
    pub column: usize,
}

/// A lexeme at its line and column.
pub struct Located {
    pub lexeme: Lexeme,
    pub line: usize,
    pub column: usize,
}

impl View for Token {
    type V = Located;

    open spec fn view(&self) -> Located {
        Located { lexeme: self.kind@, line: self.line, column: self.column }
    }
}

/// The positioned lexemes of a token vector.
pub open spec fn tokens_view(ts: Seq<Token>) -> Seq<Located> {
    ts.map_values(|t: Token| t@)
}

/// The reason a source program could not be tokenized.
#[derive(Debug, Clone, Copy, PartialEq, Eq)]
pub enum LexError {
    /// A `#` or `x` literal, or a bare digit run, that is not a well-formed
    /// number.
    MalformedNumber { line: usize, column: usize },
    /// A string literal with no closing quote before the end of its line.
    UnterminatedString { line: usize, column: usize },
    /// A backslash escape naming no known escape.
    InvalidEscape { line: usize, column: usize, escape: char },
    /// A `.` with no directive name after it.
    MalformedDirective { line: usize, column: usize },
    /// A character that cannot begin any token.
    UnexpectedChar { line: usize, column: usize, ch: char },
}

/// The `line L:C` prefix of a lexical error report.
pub open spec fn position_text(line: usize, column: usize) -> Seq<char> {
    "line "@ + decimal_text(line as nat) + ":"@ + decimal_text(column as nat)
}

/// The description of a lexical error, as it is reported.
pub open spec fn lex_error_text(e: LexError) -> Seq<char> {
    match e {
        LexError::MalformedNumber { line, column } => position_text(line, column)
            + ": malformed numeric literal"@,
        LexError::UnterminatedString { line, column } => position_text(line, column)
            + ": unterminated string literal"@,
        LexError::InvalidEscape { line, column, escape } => position_text(line, column)
            + ": invalid string escape '\\"@ + seq![escape] + "'"@,
        LexError::MalformedDirective { line, column } => position_text(line, column)
            + ": expected a directive name after '.'"@,
        LexError::UnexpectedChar { line, column, ch } => position_text(line, column)
            + ": unexpected character '"@ + seq![ch] + "'"@,
    }
}

fn push_position(out: &mut Vec<char>, line: usize, column: usize)
    ensures
        final(out)@ == old(out)@ + position_text(line, column),
{
    push_text(out, "line ");
    push_decimal(out, line as u64);
    out.push(':');
    push_decimal(out, column as u64);
    proof {
        reveal_strlit(":");
        assert(final(out)@ =~= old(out)@ + position_text(line, column));
    }
}

impl LexError {
    /// The description of this error, as it is reported.
    pub fn message(&self) -> (r: String)
        ensures
            r@ == lex_error_text(*self),
    {
        let mut out: Vec<char> = Vec::new();
        match *self {
            LexError::MalformedNumber { line, column } => {
                push_position(&mut out, line, column);
                push_text(&mut out, ": malformed numeric literal");
            },
            LexError::UnterminatedString { line, column } => {
                push_position(&mut out, line, column);
                push_text(&mut out, ": unterminated string literal");
            },
            LexError::InvalidEscape { line, column, escape } => {
                push_position(&mut out, line, column);
                push_text(&mut out, ": invalid string escape '\\");
                out.push(escape);
                push_text(&mut out, "'");
            },
            LexError::MalformedDirective { line, column } => {
                push_position(&mut out, line, column);
                push_text(&mut out, ": expected a directive name after '.'");
            },
            LexError::UnexpectedChar { line, column, ch } => {
                push_position(&mut out, line, column);
                push_text(&mut out, ": unexpected character '");
                out.push(ch);
                push_text(&mut out, "'");
            },
        }
        proof {
            assert(out@ =~= lex_error_text(*self));
        }
        string_from_chars(&out)
    }
}

/// The number of bytes in the UTF-8 encoding of `c`.
pub open spec fn utf8_width(c: char) -> nat {
    let v = c as u32;
    if v < 0x80 {
        1
    } else if v < 0x800 {
        2
    } else if v < 0x1_0000 {
        3
    } else {
        4
    }
}

/// The number of bytes in the UTF-8 encoding of `s`.
pub open spec fn byte_len(s: Seq<char>) -> nat
    decreases s.len(),
{
    if s.len() == 0 {
        0
    } else {
        byte_len(s.drop_last()) + utf8_width(s.last())
    }
}

/// The 1-based byte column of position `i` of `line`.
pub open spec fn col(line: Seq<char>, i: int) -> usize {
    (byte_len(line.take(i)) + 1) as usize
}

/// A character that may continue an identifier run.
pub open spec fn is_ident_char(c: char) -> bool {
    is_alpha(c) || is_digit(c) || c == '_'
}

/// The length of the identifier run at the start of `s`.
pub open spec fn ident_len(s: Seq<char>) -> nat
    decreases s.len(),
{
    if s.len() > 0 && is_ident_char(s[0]) {
        1 + ident_len(s.drop_first())
    } else {
        0
    }
}

/// The position just past the identifier run of `line` that starts at `k`.
pub open spec fn ident_end(line: Seq<char>, k: int) -> int {
    k + ident_len(line.skip(k))
}

/// The character a string escape `\e` stands for.
pub open spec fn escape_value(e: char) -> Option<char> {
    if e == 'n' {
        Some('\n')
    } else if e == 't' {
        Some('\t')
    } else if e == 'r' {
        Some('\r')
    } else if e == '0' {
        Some('\0')
    } else if e == '"' {
        Some('"')
    } else if e == '\\' {
        Some('\\')
    } else {
        None
    }
}

/// The body of the string literal whose opening quote is at `start`, read
/// from position `j`: its decoded text and how many characters from `j` on it
/// spans, closing quote included.
pub open spec fn string_body(line: Seq<char>, start: int, j: int, ln: usize) -> Result<
    (Seq<char>, nat),
    LexError,
>
    decreases line.len() - j,
{
    if j >= line.len() {
        Err(LexError::UnterminatedString { line: ln, column: col(line, start) })
    } else if line[j] == '"' {
        Ok((seq![], 1nat))
    } else if line[j] == '\\' {
        if j + 1 >= line.len() {
            Err(LexError::UnterminatedString { line: ln, column: col(line, start) })
        } else {
            match escape_value(line[j + 1]) {
                None => Err(
                    LexError::InvalidEscape { line: ln, column: col(line, j + 1), escape: line[j + 1] },
                ),
                Some(d) => match string_body(line, start, j + 2, ln) {
                    Err(e) => Err(e),
                    Ok((t, n)) => Ok((seq![d] + t, n + 2)),
                },
            }
        }
    } else {
        match string_body(line, start, j + 1, ln) {
            Err(e) => Err(e),
            Ok((t, n)) => Ok((seq![line[j]] + t, n + 1)),
        }
    }
}

/// How a maximal identifier run reads: `x`/`X` and hexadecimal digits is a
/// number (an error if it exceeds `i32`), a run led by a letter or `_` is a
/// word, and anything else (a digit-led run) is a malformed number.
pub open spec fn classify_spec(word: Seq<char>, ln: usize, column: usize) -> Result<Lexeme, LexError> {
    if word.len() >= 2 && (word[0] == 'x' || word[0] == 'X') && all_hex_digits(word.drop_first()) {
        if hex_value(word.drop_first()) <= i32::MAX {
            Ok(Lexeme::Number(hex_value(word.drop_first()) as i32))
        } else {
            Err(LexError::MalformedNumber { line: ln, column })
        }
    } else if word.len() > 0 && (is_alpha(word[0]) || word[0] == '_') {
        Ok(Lexeme::Word(word))
    } else {
        Err(LexError::MalformedNumber { line: ln, column })
    }
}

/// `r` with `t` put in front of its tokens.
pub open spec fn prepend(t: Located, r: Result<Seq<Located>, LexError>) -> Result<
    Seq<Located>,
    LexError,
> {
    match r {
        Err(e) => Err(e),
        Ok(ts) => Ok(seq![t] + ts),
    }
}

/// `r` with the tokens `acc` put in front of its tokens.
pub open spec fn after(acc: Seq<Located>, r: Result<Seq<Located>, LexError>) -> Result<
    Seq<Located>,
    LexError,
> {
    match r {
        Err(e) => Err(e),
        Ok(ts) => Ok(acc + ts),
    }
}

/// The end-of-line token of `line`.
pub open spec fn newline_of(line: Seq<char>, ln: usize) -> Located {
    Located { lexeme: Lexeme::Newline, line: ln, column: col(line, line.len() as int) }
}

/// The tokens of `line` (line number `ln`) from position `i` on, closed by
/// its end-of-line token, or the first lexical error among them.
pub open spec fn scan_spec(line: Seq<char>, i: int, ln: usize) -> Result<Seq<Located>, LexError>
    decreases line.len() - i,
{
    if i < 0 || i >= line.len() {
        Ok(seq![newline_of(line, ln)])
    } else {
        let c = line[i];
        let column = col(line, i);
        if c == ' ' || c == '\t' || c == '\r' {
            scan_spec(line, i + 1, ln)
        } else if c == ';' {
            Ok(seq![newline_of(line, ln)])
        } else if c == ',' {
            prepend(Located { lexeme: Lexeme::Comma, line: ln, column }, scan_spec(line, i + 1, ln))
        } else if c == '"' {
            match string_body(line, i, i + 1, ln) {
                Err(e) => Err(e),
                Ok((text, n)) => {
                    proof {
                        lemma_string_body_bound(line, i, i + 1, ln);
                    }
                    prepend(
                        Located { lexeme: Lexeme::Str(text), line: ln, column },
                        scan_spec(line, i + 1 + n, ln),
                    )
                },
            }
        } else if c == '#' {
            let digits = if i + 1 < line.len() && line[i + 1] == '-' {
                i + 2
            } else {
                i + 1
            };
            let end = ident_end(line, digits);
            proof {
                lemma_ident_len_bound(line.skip(digits));
            }
            match parse_i32_spec(line.subrange(i + 1, end)) {
                None => Err(LexError::MalformedNumber { line: ln, column }),
                Some(v) => prepend(
                    Located { lexeme: Lexeme::Number(v), line: ln, column },
                    scan_spec(line, end, ln),
                ),
            }
        } else if c == '.' {
            let end = ident_end(line, i + 1);
            proof {
                lemma_ident_len_bound(line.skip(i + 1));
            }
            if end == i + 1 {
                Err(LexError::MalformedDirective { line: ln, column })
            } else {
                prepend(
                    Located { lexeme: Lexeme::Directive(line.subrange(i, end)), line: ln, column },
                    scan_spec(line, end, ln),
                )
            }
        } else if is_ident_char(c) {
            let end = ident_end(line, i);
            proof {
                lemma_ident_len_bound(line.skip(i));
                assert(line.skip(i)[0] == c);
            }
            match classify_spec(line.subrange(i, end), ln, column) {
                Err(e) => Err(e),
                Ok(lexeme) => prepend(Located { lexeme, line: ln, column }, scan_spec(line, end, ln)),
            }
        } else {
            Err(LexError::UnexpectedChar { line: ln, column, ch: c })
        }
    }
}

/// The index of the first line feed at or after `i`, or the end of `s`.
pub open spec fn line_end(s: Seq<char>, i: int) -> int
    decreases s.len() - i,
{
    if i >= s.len() {
        s.len() as int
    } else if s[i] == '\n' {
        i
    } else {
        line_end(s, i + 1)
    }
}

/// The text of the line that starts at `i`, without its line feed and
/// without a carriage return right before that line feed (as `str::lines`
/// yields it).
pub open spec fn line_at(s: Seq<char>, i: int) -> Seq<char> {
    let j = line_end(s, i);
    let raw = s.subrange(i, j);
    if j < s.len() && raw.len() > 0 && raw.last() == '\r' {
        raw.drop_last()
    } else {
        raw
    }
}

/// The tokens of the lines of `s` from position `i` on, `before` lines
/// having come earlier.
pub open spec fn lex_from(s: Seq<char>, i: int, before: nat) -> Result<Seq<Located>, LexError>
    decreases s.len() - i,
{
    if i < 0 || i >= s.len() {
        Ok(seq![])
    } else {
        let j = line_end(s, i);
        proof {
            lemma_line_end_bound(s, i);
        }
        match scan_spec(line_at(s, i), 0, (before + 1) as usize) {
            Err(e) => Err(e),
            Ok(ts) => if j >= s.len() {
                Ok(ts)
            } else {
                after(ts, lex_from(s, j + 1, before + 1))
            },
        }
    }
}

/// The token stream of a whole source text, or its first lexical error.
pub open spec fn tokenize_spec(source: Seq<char>) -> Result<Seq<Located>, LexError> {
    lex_from(source, 0, 0)
}

pub proof fn lemma_ident_len_bound(s: Seq<char>)
    ensures
        ident_len(s) <= s.len(),
        s.len() > 0 && is_ident_char(s[0]) ==> ident_len(s) >= 1,
    decreases s.len(),
{
    if s.len() > 0 && is_ident_char(s[0]) {
        lemma_ident_len_bound(s.drop_first());
    }
}

pub proof fn lemma_string_body_bound(line: Seq<char>, start: int, j: int, ln: usize)
    ensures
        string_body(line, start, j, ln) matches Ok((t, n)) ==> n >= 1 && j + n <= line.len(),
    decreases line.len() - j,
{
    if j < line.len() && line[j] != '"' {
        if line[j] == '\\' {
            if j + 1 < line.len() {
                lemma_string_body_bound(line, start, j + 2, ln);
            }
        } else {
            lemma_string_body_bound(line, start, j + 1, ln);
        }
    }
}

pub proof fn lemma_line_end_bound(s: Seq<char>, i: int)
    requires
        0 <= i <= s.len(),
    ensures
        i <= line_end(s, i) <= s.len(),
        line_end(s, i) < s.len() ==> s[line_end(s, i)] == '\n',
    decreases s.len() - i,
{
    if i < s.len() && s[i] != '\n' {
        lemma_line_end_bound(s, i + 1);
    }
}

proof fn lemma_byte_len_step(s: Seq<char>, i: int)
    requires
        0 <= i < s.len(),
    ensures
        byte_len(s.take(i + 1)) == byte_len(s.take(i)) + utf8_width(s[i]),
{
    assert(s.take(i + 1).drop_last() =~= s.take(i));
}

proof fn lemma_byte_len_concat(a: Seq<char>, b: Seq<char>)
    ensures
        byte_len(a + b) == byte_len(a) + byte_len(b),
    decreases b.len(),
{
    if b.len() > 0 {
        lemma_byte_len_concat(a, b.drop_last());
        assert((a + b).drop_last() =~= a + b.drop_last());
    } else {
        assert(a + b =~= a);
    }
}

proof fn lemma_byte_len_ge_len(s: Seq<char>)
    ensures
        byte_len(s) >= s.len(),
    decreases s.len(),
{
    if s.len() > 0 {
        lemma_byte_len_ge_len(s.drop_last());
    }
}

/// A text takes at most four bytes per character.
pub proof fn lemma_byte_len_at_most(s: Seq<char>)
    ensures
        byte_len(s) <= 4 * s.len(),
    decreases s.len(),
{
    if s.len() > 0 {
        lemma_byte_len_at_most(s.drop_last());
    }
}

proof fn lemma_byte_len_subrange(s: Seq<char>, a: int, b: int)
    requires
        0 <= a <= b <= s.len(),
    ensures
        byte_len(s.subrange(a, b)) <= byte_len(s),
        byte_len(s.take(a)) <= byte_len(s),
{
    assert(s =~= s.take(a) + s.subrange(a, b) + s.skip(b));
    lemma_byte_len_concat(s.take(a), s.subrange(a, b));
    lemma_byte_len_concat(s.take(a) + s.subrange(a, b), s.skip(b));
}

/// The number of bytes in the UTF-8 encoding of `c`.
fn utf8_width_of(c: char) -> (w: usize)
    ensures
        w == utf8_width(c),
        1 <= w <= 4,
{
    let v = c as u32;
    if v < 0x80 {
        1
    } else if v < 0x800 {
        2
    } else if v < 0x1_0000 {
        3
    } else {
        4
    }
}

/// The byte offset of position `to`, from that of position `from`.
fn advance(line: &[char], from: usize, to: usize, pos: usize) -> (r: usize)
    requires
        from <= to <= line@.len(),
        pos == byte_len(line@.take(from as int)),
        byte_len(line@) < usize::MAX,
    ensures
        r == byte_len(line@.take(to as int)),
{
    let mut k = from;
    let mut p = pos;
    while k < to
        invariant
            from <= k <= to <= line@.len(),
            p == byte_len(line@.take(k as int)),
            byte_len(line@) < usize::MAX,
        decreases to - k,
    {
        proof {
            lemma_byte_len_step(line@, k as int);
            lemma_byte_len_subrange(line@, k + 1, k + 1);
        }
        p = p + utf8_width_of(line[k]);
        k += 1;
    }
    p
}

/// The position just past the identifier run that starts at `start`.
fn ident_run_end(line: &[char], start: usize) -> (r: usize)
    requires
        start <= line@.len(),
    ensures
        r == ident_end(line@, start as int),
        start <= r <= line@.len(),
{
    let mut k = start;
    while k < line.len() && (crate::text::is_alpha_char(line[k]) || crate::text::is_digit_char(
        line[k],
    ) || line[k] == '_')
        invariant
            start <= k <= line@.len(),
            ident_end(line@, start as int) == ident_end(line@, k as int),
        decreases line.len() - k,
    {
        proof {
            assert(line@.skip(k as int).drop_first() =~= line@.skip(k + 1));
        }
        k += 1;
    }
    proof {
        if k < line@.len() {
            assert(line@.skip(k as int)[0] == line@[k as int]);
        } else {
            assert(line@.skip(k as int).len() == 0);
        }
    }
    k
}

/// Whether every character of `s` is a hexadecimal digit.
fn all_hex(s: &[char]) -> (r: bool)
    ensures
        r == all_hex_digits(s@),
{
    let mut k: usize = 0;
    while k < s.len()
        invariant
            k <= s.len(),
            forall|m: int| 0 <= m < k ==> is_hex_digit(#[trigger] s@[m]),
        decreases s.len() - k,
    {
        if !is_hex_digit_char(s[k]) {
            return false;
        }
        k += 1;
    }
    true
}

/// Classifies a maximal identifier run as a hexadecimal number or a word.
fn classify_word(word: &[char], line_no: usize, column: usize) -> (r: Result<TokenKind, LexError>)
    ensures
        match classify_spec(word@, line_no, column) {
            Ok(lexeme) => (r matches Ok(k) && k@ == lexeme),
            Err(e) => r == Err::<TokenKind, LexError>(e),
        },
{
    if word.len() >= 2 && (word[0] == 'x' || word[0] == 'X') {
        let digits = vstd::slice::slice_subrange(word, 1, word.len());
        proof {
            assert(digits@ == word@.drop_first());
        }
        if all_hex(digits) {
            return match bounded_hex(digits, 0x7FFF_FFFF) {
                Some(v) => Ok(TokenKind::Number(v as i32)),
                None => Err(LexError::MalformedNumber { line: line_no, column }),
            };
        }
    }
    if word.len() > 0 && (crate::text::is_alpha_char(word[0]) || word[0] == '_') {
        Ok(TokenKind::Word(string_from_chars(word)))
    } else {
        Err(LexError::MalformedNumber { line: line_no, column })
    }
}

/// What [`string_body`] gives once `count` characters decoding to `acc`
/// have been read.
pub open spec fn string_after(acc: Seq<char>, count: nat, r: Result<(Seq<char>, nat), LexError>) -> Result<
    (Seq<char>, nat),
    LexError,
> {
    match r {
        Err(e) => Err(e),
        Ok((t, n)) => Ok((acc + t, n + count)),
    }
}

/// Scans the string literal whose opening quote is at `start` (byte offset
/// `start_pos`), returning its decoded text and the position just past its
/// closing quote.
fn scan_string(line: &[char], start: usize, start_pos: usize, line_no: usize) -> (r: Result<
    (String, usize),
    LexError,
>)
    requires
        start < line@.len(),
        line@[start as int] == '"',
        start_pos == byte_len(line@.take(start as int)),
        byte_len(line@) < usize::MAX,
    ensures
        match string_body(line@, start as int, start + 1, line_no) {
            Ok((t, n)) => (r matches Ok((s, end)) && s@ == t && end == start + 1 + n),
            Err(e) => r == Err::<(String, usize), LexError>(e),
        },
{
    proof {
        lemma_byte_len_step(line@, start as int);
        lemma_byte_len_subrange(line@, start + 1, start + 1);
        lemma_byte_len_ge_len(line@);
    }
    let mut acc: Vec<char> = Vec::new();
    let mut j: usize = start + 1;
    let mut pos: usize = start_pos + 1;
    while j < line.len()
        invariant
            start < j <= line@.len(),
            start_pos == byte_len(line@.take(start as int)),
            start_pos < byte_len(line@),
            pos == byte_len(line@.take(j as int)),
            byte_len(line@) < usize::MAX,
            string_body(line@, start as int, start + 1, line_no) == string_after(
                acc@,
                (j - start - 1) as nat,
                string_body(line@, start as int, j as int, line_no),
            ),
        decreases line.len() - j,
    {
        let c = line[j];
        proof {
            lemma_byte_len_step(line@, j as int);
            lemma_byte_len_subrange(line@, j + 1, j + 1);
        }
        if c == '"' {
            proof {
                assert(acc@ + seq![] =~= acc@);
            }
            return Ok((string_from_chars(&acc), j + 1));
        } else if c == '\\' {
            if j + 1 >= line.len() {
                return Err(LexError::UnterminatedString { line: line_no, column: start_pos + 1 });
            }
            let e = line[j + 1];
            let decoded = if e == 'n' {
                '\n'
            } else if e == 't' {
                '\t'
            } else if e == 'r' {
                '\r'
            } else if e == '0' {
                '\0'
            } else if e == '"' {
                '"'
            } else if e == '\\' {
                '\\'
            } else {
                return Err(LexError::InvalidEscape { line: line_no, column: pos + 2, escape: e });
            };
            proof {
                lemma_byte_len_step(line@, j + 1);
                lemma_byte_len_subrange(line@, j + 2, j + 2);
                assert(acc@.push(decoded) + string_body(line@, start as int, j + 2, line_no)->Ok_0.0
                    =~= acc@ + (seq![decoded] + string_body(line@, start as int, j + 2, line_no)->Ok_0.0));
            }
            acc.push(decoded);
            pos = pos + 1 + utf8_width_of(e);
            j = j + 2;
        } else {
            proof {
                assert(acc@.push(c) + string_body(line@, start as int, j + 1, line_no)->Ok_0.0
                    =~= acc@ + (seq![c] + string_body(line@, start as int, j + 1, line_no)->Ok_0.0));
            }
            acc.push(c);
            pos = pos + utf8_width_of(c);
            j = j + 1;
        }
    }
    Err(LexError::UnterminatedString { line: line_no, column: start_pos + 1 })
}

proof fn lemma_after_prepend(acc: Seq<Located>, t: Located, r: Result<Seq<Located>, LexError>)
    ensures
        after(acc, prepend(t, r)) == after(acc.push(t), r),
{
    if let Ok(ts) = r {
        assert(acc + (seq![t] + ts) =~= acc.push(t) + ts);
    }
}

proof fn lemma_tokens_view_push(v: Seq<Token>, t: Token)
    ensures
        tokens_view(v.push(t)) == tokens_view(v).push(t@),
{
    assert(tokens_view(v.push(t)) =~= tokens_view(v).push(t@));
}

/// Tokenizes one source line, closing it with its end-of-line token.
fn scan_line(line: &[char], line_no: usize) -> (r: Result<Vec<Token>, LexError>)
    requires
        byte_len(line@) < usize::MAX,
    ensures
        match scan_spec(line@, 0, line_no) {
            Ok(ts) => (r matches Ok(v) && tokens_view(v@) == ts),
            Err(e) => r == Err::<Vec<Token>, LexError>(e),
        },
{
    proof {
        assert(line@.take(0) =~= Seq::<char>::empty());
        assert(line@.take(line@.len() as int) =~= line@);
    }
    let total = advance(line, 0, line.len(), 0);
    let end_token = Token { kind: TokenKind::Newline, line: line_no, column: total + 1 };
    let mut out: Vec<Token> = Vec::new();
    let mut i: usize = 0;
    let mut pos: usize = 0;
    proof {
        assert(tokens_view(out@) =~= Seq::<Located>::empty());
        assert(Seq::<Located>::empty() + scan_spec(line@, 0, line_no)->Ok_0 =~= scan_spec(line@, 0, line_no)->Ok_0);
    }
    while i < line.len()
        invariant
            i <= line@.len(),
            pos == byte_len(line@.take(i as int)),
            byte_len(line@) < usize::MAX,
            end_token@ == newline_of(line@, line_no),
            scan_spec(line@, 0, line_no) == after(tokens_view(out@), scan_spec(line@, i as int, line_no)),
        decreases line.len() - i,
    {
        let c = line[i];
        proof {
            lemma_byte_len_step(line@, i as int);
            lemma_byte_len_subrange(line@, i + 1, i + 1);
        }
        let column = pos + 1;
        if c == ' ' || c == '\t' || c == '\r' {
            pos = pos + 1;
            i = i + 1;
        } else if c == ';' {
            proof {
                lemma_tokens_view_push(out@, end_token);
                assert(tokens_view(out@) + seq![end_token@] =~= tokens_view(out@).push(end_token@));
            }
            out.push(end_token);
            return Ok(out);
        } else if c == ',' {
            let t = Token { kind: TokenKind::Comma, line: line_no, column };
            proof {
                lemma_tokens_view_push(out@, t);
                lemma_after_prepend(tokens_view(out@), t@, scan_spec(line@, i + 1, line_no));
            }
            out.push(t);
            pos = pos + 1;
            i = i + 1;
        } else if c == '"' {
            match scan_string(line, i, pos, line_no) {
                Err(e) => {
                    return Err(e);
                },
                Ok((text, end)) => {
                    proof {
                        lemma_string_body_bound(line@, i as int, i + 1, line_no);
                    }
                    let t = Token { kind: TokenKind::Str(text), line: line_no, column };
                    proof {
                        lemma_tokens_view_push(out@, t);
                        lemma_after_prepend(tokens_view(out@), t@, scan_spec(line@, end as int, line_no));
                    }
                    out.push(t);
                    pos = advance(line, i, end, pos);
                    i = end;
                },
            }
        } else if c == '#' {
            let digits = if i + 1 < line.len() && line[i + 1] == '-' {
                i + 2
            } else {
                i + 1
            };
            let end = ident_run_end(line, digits);
            let number = vstd::slice::slice_subrange(line, i + 1, end);
            match parse_i32(number) {
                None => {
                    return Err(LexError::MalformedNumber { line: line_no, column });
                },
                Some(v) => {
                    let t = Token { kind: TokenKind::Number(v), line: line_no, column };
                    proof {
                        lemma_tokens_view_push(out@, t);
                        lemma_after_prepend(tokens_view(out@), t@, scan_spec(line@, end as int, line_no));
                    }
                    out.push(t);
                    pos = advance(line, i, end, pos);
                    i = end;
                },
            }
        } else if c == '.' {
            let end = ident_run_end(line, i + 1);
            if end == i + 1 {
                return Err(LexError::MalformedDirective { line: line_no, column });
            }
            let name = vstd::slice::slice_subrange(line, i, end);
            let t = Token { kind: TokenKind::Directive(string_from_chars(name)), line: line_no, column };
            proof {
                lemma_tokens_view_push(out@, t);
                lemma_after_prepend(tokens_view(out@), t@, scan_spec(line@, end as int, line_no));
            }
            out.push(t);
            pos = advance(line, i, end, pos);
            i = end;
        } else if crate::text::is_alpha_char(c) || crate::text::is_digit_char(c) || c == '_' {
            let end = ident_run_end(line, i);
            proof {
                lemma_ident_len_bound(line@.skip(i as int));
                assert(line@.skip(i as int)[0] == c);
            }
            let word = vstd::slice::slice_subrange(line, i, end);
            match classify_word(word, line_no, column) {
                Err(e) => {
                    return Err(e);
                },
                Ok(kind) => {
                    let t = Token { kind, line: line_no, column };
                    proof {
                        lemma_tokens_view_push(out@, t);
                        lemma_after_prepend(tokens_view(out@), t@, scan_spec(line@, end as int, line_no));
                    }
                    out.push(t);
                    pos = advance(line, i, end, pos);
                    i = end;
                },
            }
        } else {
            return Err(LexError::UnexpectedChar { line: line_no, column, ch: c });
        }
    }
    proof {
        lemma_tokens_view_push(out@, end_token);
        assert(tokens_view(out@) + seq![end_token@] =~= tokens_view(out@).push(end_token@));
    }
    out.push(end_token);
    Ok(out)
}

proof fn lemma_after_after(a: Seq<Located>, b: Seq<Located>, r: Result<Seq<Located>, LexError>)
    ensures
        after(a, after(b, r)) == after(a + b, r),
{
    if let Ok(ts) = r {
        assert(a + (b + ts) =~= (a + b) + ts);
    }
}

proof fn lemma_tokens_view_concat(a: Seq<Token>, b: Seq<Token>)
    ensures
        tokens_view(a + b) == tokens_view(a) + tokens_view(b),
{
    assert(tokens_view(a + b) =~= tokens_view(a) + tokens_view(b));
}

/// The index of the first line feed at or after `i`, or the end of `s`.
pub fn find_line_end(s: &[char], i: usize) -> (j: usize)
    requires
        i <= s@.len(),
    ensures
        j == line_end(s@, i as int),
        i <= j <= s@.len(),
{
    let mut k = i;
    while k < s.len() && s[k] != '\n'
        invariant
            i <= k <= s@.len(),
            line_end(s@, i as int) == line_end(s@, k as int),
        decreases s.len() - k,
    {
        k += 1;
    }
    k
}

/// Tokenizes LC-3 assembly `source` into a positioned token stream.
///
/// The scan is line-oriented (lines end at a line feed, and a carriage
/// return before it is dropped): each line yields its tokens followed by a
/// [`TokenKind::Newline`]. A `;` starts a comment running to the end of the
/// line. Numbers are `#`-prefixed decimal (optionally negative) or
/// `x`-prefixed hexadecimal. String literals decode the escapes `\n`, `\t`,
/// `\r`, `\0`, `\"` and `\\`. Words are returned verbatim for the parser to
/// classify.
///
/// Returns a [`LexError`] at the first malformed number, unterminated
/// string, invalid escape, nameless directive, or character that begins no
/// token.
pub fn tokenize(source: &str) -> (r: Result<Vec<Token>, LexError>)
    requires
        byte_len(source@) < usize::MAX,
    ensures
        match tokenize_spec(source@) {
            Ok(ts) => (r matches Ok(v) && tokens_view(v@) == ts),
            Err(e) => r == Err::<Vec<Token>, LexError>(e),
        },
{
    let chars = chars_of(source);
    tokenize_chars(&chars)
}

/// [`tokenize`] over the characters of a source text.
pub fn tokenize_chars(s: &[char]) -> (r: Result<Vec<Token>, LexError>)
    requires
        byte_len(s@) < usize::MAX,
    ensures
        match tokenize_spec(s@) {
            Ok(ts) => (r matches Ok(v) && tokens_view(v@) == ts),
            Err(e) => r == Err::<Vec<Token>, LexError>(e),
        },
{
    let n = s.len();
    let mut tokens: Vec<Token> = Vec::new();
    let mut i: usize = 0;
    let mut line_no: usize = 0;
    proof {
        lemma_byte_len_ge_len(s@);
        assert(tokens_view(tokens@) =~= Seq::<Located>::empty());
        if let Ok(ts) = tokenize_spec(s@) {
            assert(Seq::<Located>::empty() + ts =~= ts);
        }
    }
    while i < n
        invariant
            i <= n == s@.len(),
            line_no <= i,
            byte_len(s@) < usize::MAX,
            s@.len() <= byte_len(s@),
            tokenize_spec(s@) == after(tokens_view(tokens@), lex_from(s@, i as int, line_no as nat)),
        decreases n - i,
    {
        let j = find_line_end(s, i);
        let stop = if j < n && j > i && s[j - 1] == '\r' {
            j - 1
        } else {
            j
        };
        let line = vstd::slice::slice_subrange(s, i, stop);
        proof {
            lemma_line_end_bound(s@, i as int);
            assert(line@ =~= line_at(s@, i as int));
            lemma_byte_len_subrange(s@, i as int, stop as int);
        }
        match scan_line(line, line_no + 1) {
            Err(e) => {
                return Err(e);
            },
            Ok(mut line_tokens) => {
                proof {
                    lemma_tokens_view_concat(tokens@, line_tokens@);
                    if j < n {
                        lemma_after_after(
                            tokens_view(tokens@),
                            tokens_view(line_tokens@),
                            lex_from(s@, j + 1, (line_no + 1) as nat),
                        );
                    } else {
                        assert(tokens_view(tokens@) + tokens_view(line_tokens@) + Seq::<Located>::empty()
                            =~= tokens_view(tokens@) + tokens_view(line_tokens@));
                    }
                }
                tokens.append(&mut line_tokens);
            },
        }
        line_no += 1;
        if j >= n {
            i = n;
        } else {
            i = j + 1;
        }
    }
    Ok(tokens)
}

/// Every token of a line carries the line's number, and the line's tokens
/// end with its end-of-line token.
proof fn lemma_scan_tokens(line: Seq<char>, i: int, ln: usize)
    requires
        scan_spec(line, i, ln) is Ok,
    ensures
        scan_spec(line, i, ln)->Ok_0.len() > 0,
        scan_spec(line, i, ln)->Ok_0.last() == newline_of(line, ln),
        forall|k: int|
            0 <= k < scan_spec(line, i, ln)->Ok_0.len() ==> #[trigger] scan_spec(line, i, ln)->Ok_0[k].line
                == ln,
        forall|k: int|
            0 <= k < scan_spec(line, i, ln)->Ok_0.len() - 1 ==> !(
            #[trigger] scan_spec(line, i, ln)->Ok_0[k].lexeme is Newline),
    decreases line.len() - i,
{
    if 0 <= i < line.len() {
        let c = line[i];
        if c == ' ' || c == '\t' || c == '\r' {
            lemma_scan_tokens(line, i + 1, ln);
        } else if c == ';' {
        } else {
            let next: int = if c == ',' {
                i + 1
            } else if c == '"' {
                lemma_string_body_bound(line, i, i + 1, ln);
                i + 1 + string_body(line, i, i + 1, ln)->Ok_0.1
            } else if c == '#' {
                let digits = if i + 1 < line.len() && line[i + 1] == '-' {
                    i + 2
                } else {
                    i + 1
                };
                lemma_ident_len_bound(line.skip(digits));
                ident_end(line, digits)
            } else if c == '.' {
                lemma_ident_len_bound(line.skip(i + 1));
                ident_end(line, i + 1)
            } else {
                lemma_ident_len_bound(line.skip(i));
                assert(line.skip(i)[0] == c);
                ident_end(line, i)
            };
            lemma_scan_tokens(line, next, ln);
            let rest = scan_spec(line, next, ln)->Ok_0;
            let all = scan_spec(line, i, ln)->Ok_0;
            assert(all == seq![all[0]] + rest);
            assert forall|k: int| 0 <= k < all.len() implies #[trigger] all[k].line == ln by {
                if k > 0 {
                    assert(all[k] == rest[k - 1]);
                }
            }
            assert forall|k: int| 0 <= k < all.len() - 1 implies !(#[trigger] all[k].lexeme is Newline) by {
                if k > 0 {
                    assert(all[k] == rest[k - 1]);
                }
            }
        }
    }
}

/// `ext` continues `code` with a `;` right after its last character.
pub open spec fn comment_follows(code: Seq<char>, ext: Seq<char>) -> bool {
    &&& code.len() < ext.len()
    &&& ext.take(code.len() as int) == code
    &&& ext[code.len() as int] == ';'
}

proof fn lemma_prefix_agrees(code: Seq<char>, ext: Seq<char>, i: int)
    requires
        comment_follows(code, ext),
        0 <= i <= code.len(),
    ensures
        col(ext, i) == col(code, i),
        i < code.len() ==> ext[i] == code[i],
        forall|a: int, b: int| 0 <= a <= b <= i ==> #[trigger] ext.subrange(a, b) == code.subrange(a, b),
{
    assert(ext.take(i) =~= code.take(i));
    if i < code.len() {
        assert(ext.take(code.len() as int)[i] == ext[i]);
    }
    assert forall|a: int, b: int| 0 <= a <= b <= i implies #[trigger] ext.subrange(a, b) == code.subrange(a, b) by {
        assert forall|k: int| 0 <= k < b - a implies ext.subrange(a, b)[k] == code.subrange(a, b)[k] by {
            assert(ext.take(code.len() as int)[a + k] == ext[a + k]);
        }
        assert(ext.subrange(a, b) =~= code.subrange(a, b));
    }
}

proof fn lemma_ident_before_comment(code: Seq<char>, ext: Seq<char>, k: int)
    requires
        comment_follows(code, ext),
        0 <= k <= code.len(),
    ensures
        ident_len(ext.skip(k)) == ident_len(code.skip(k)),
    decreases code.len() - k,
{
    if k == code.len() {
        assert(ext.skip(k)[0] == ';');
    } else {
        lemma_prefix_agrees(code, ext, k);
        assert(ext.skip(k)[0] == code.skip(k)[0]);
        if is_ident_char(code[k]) {
            assert(ext.skip(k).drop_first() =~= ext.skip(k + 1));
            assert(code.skip(k).drop_first() =~= code.skip(k + 1));
            lemma_ident_before_comment(code, ext, k + 1);
        }
    }
}

proof fn lemma_string_before_comment(code: Seq<char>, ext: Seq<char>, start: int, j: int, ln: usize)
    requires
        comment_follows(code, ext),
        0 <= j,
        string_body(code, start, j, ln) is Ok,
    ensures
        string_body(ext, start, j, ln) == string_body(code, start, j, ln),
    decreases code.len() - j,
{
    lemma_prefix_agrees(code, ext, j);
    if code[j] == '\\' {
        lemma_prefix_agrees(code, ext, j + 1);
        if escape_value(code[j + 1]) is Some {
            lemma_string_before_comment(code, ext, start, j + 2, ln);
        }
    } else if code[j] != '"' {
        lemma_string_before_comment(code, ext, start, j + 1, ln);
    }
}

#[verifier::spinoff_prover]
#[verifier::rlimit(60)]
proof fn lemma_scan_before_comment(code: Seq<char>, ext: Seq<char>, i: int, ln: usize)
    requires
        comment_follows(code, ext),
        0 <= i <= code.len(),
        scan_spec(code, i, ln) is Ok,
    ensures
        scan_spec(ext, i, ln) == Ok::<Seq<Located>, LexError>(
            scan_spec(code, i, ln)->Ok_0.drop_last().push(newline_of(ext, ln)),
        ),
    decreases code.len() - i,
{
    let all = scan_spec(code, i, ln)->Ok_0;
    if i == code.len() {
        assert(all.drop_last().push(newline_of(ext, ln)) =~= seq![newline_of(ext, ln)]);
    } else {
        lemma_prefix_agrees(code, ext, i);
        let c = code[i];
        if c == ' ' || c == '\t' || c == '\r' {
            lemma_scan_before_comment(code, ext, i + 1, ln);
        } else if c == ';' {
            assert(all.drop_last().push(newline_of(ext, ln)) =~= seq![newline_of(ext, ln)]);
        } else {
            let next: int = if c == ',' {
                i + 1
            } else if c == '"' {
                lemma_string_body_bound(code, i, i + 1, ln);
                lemma_string_before_comment(code, ext, i, i + 1, ln);
                i + 1 + string_body(code, i, i + 1, ln)->Ok_0.1
            } else if c == '#' {
                let digits = if i + 1 < code.len() && code[i + 1] == '-' {
                    i + 2
                } else {
                    i + 1
                };
                if i + 1 < code.len() {
                    lemma_prefix_agrees(code, ext, i + 1);
                } else {
                    assert(ext[i + 1] == ';');
                }
                lemma_ident_len_bound(code.skip(digits));
                lemma_ident_before_comment(code, ext, digits);
                lemma_prefix_agrees(code, ext, ident_end(code, digits));
                assert(ext.subrange(i + 1, ident_end(code, digits)) == code.subrange(i + 1, ident_end(code, digits)));
                ident_end(code, digits)
            } else if c == '.' {
                lemma_ident_len_bound(code.skip(i + 1));
                lemma_ident_before_comment(code, ext, i + 1);
                lemma_prefix_agrees(code, ext, ident_end(code, i + 1));
                assert(ext.subrange(i, ident_end(code, i + 1)) == code.subrange(i, ident_end(code, i + 1)));
                ident_end(code, i + 1)
            } else {
                lemma_ident_len_bound(code.skip(i));
                assert(code.skip(i)[0] == c);
                lemma_ident_before_comment(code, ext, i);
                lemma_prefix_agrees(code, ext, ident_end(code, i));
                assert(ext.subrange(i, ident_end(code, i)) == code.subrange(i, ident_end(code, i)));
                ident_end(code, i)
            };
            lemma_scan_tokens(code, next, ln);
            lemma_scan_before_comment(code, ext, next, ln);
            let rest = scan_spec(code, next, ln)->Ok_0;
            assert(all == seq![all[0]] + rest);
            assert(scan_spec(ext, i, ln)->Ok_0 == seq![all[0]] + rest.drop_last().push(newline_of(ext, ln)));
            assert(all.drop_last().push(newline_of(ext, ln)) =~= seq![all[0]] + rest.drop_last().push(
                newline_of(ext, ln),
            ));
        }
    }
}

/// A source line yields its tokens, all on its line, followed by exactly
/// one end-of-line token, which stands one byte past the line's end. A `;`
/// comment appended to a line that scans is discarded: the longer line
/// yields the same tokens, only its end-of-line token stands past the
/// comment.
pub proof fn lemma_line_tokens(line: Seq<char>, ln: usize, comment: Seq<char>)
    requires
        scan_spec(line, 0, ln) is Ok,
    ensures
        scan_spec(line, 0, ln)->Ok_0.len() > 0,
        scan_spec(line, 0, ln)->Ok_0.last() == newline_of(line, ln),
        byte_len(line) < usize::MAX ==> newline_of(line, ln).column == byte_len(line) + 1,
        forall|k: int|
            0 <= k < scan_spec(line, 0, ln)->Ok_0.len() ==> #[trigger] scan_spec(line, 0, ln)->Ok_0[k].line
                == ln,
        forall|k: int|
            0 <= k < scan_spec(line, 0, ln)->Ok_0.len() - 1 ==> !(
            #[trigger] scan_spec(line, 0, ln)->Ok_0[k].lexeme is Newline),
        scan_spec(line + seq![';'] + comment, 0, ln) == Ok::<Seq<Located>, LexError>(
            scan_spec(line, 0, ln)->Ok_0.drop_last().push(newline_of(line + seq![';'] + comment, ln)),
        ),
{
    lemma_scan_tokens(line, 0, ln);
    assert(line.take(line.len() as int) =~= line);
    let ext = line + seq![';'] + comment;
    assert(ext.take(line.len() as int) =~= line);
    assert(ext[line.len() as int] == ';');
    lemma_scan_before_comment(line, ext, 0, ln);
}

/// The tokens of the lines from position `i` on come in line order, each
/// line numbered after the `before` lines that came earlier, and (when any
/// line remains) the stream ends with an end-of-line token.
proof fn lemma_lex_tokens(s: Seq<char>, i: int, before: nat)
    requires
        lex_from(s, i, before) is Ok,
        0 <= i,
        before + s.len() - i < usize::MAX,
    ensures
        i < s.len() ==> lex_from(s, i, before)->Ok_0.len() > 0 && lex_from(s, i, before)->Ok_0.last().lexeme
            is Newline,
        forall|k: int|
            0 <= k < lex_from(s, i, before)->Ok_0.len() ==> #[trigger] lex_from(s, i, before)->Ok_0[k].line
                > before,
        forall|k: int, l: int|
            0 <= k < l < lex_from(s, i, before)->Ok_0.len() ==> #[trigger] lex_from(s, i, before)->Ok_0[k].line
                <= #[trigger] lex_from(s, i, before)->Ok_0[l].line,
        forall|k: int|
            0 <= k < lex_from(s, i, before)->Ok_0.len() - 1 && (
            #[trigger] lex_from(s, i, before)->Ok_0[k].lexeme) is Newline ==> lex_from(s, i, before)->Ok_0[k].line
                < lex_from(s, i, before)->Ok_0[k + 1].line,
    decreases s.len() - i,
{
    if i < s.len() {
        let j = line_end(s, i);
        lemma_line_end_bound(s, i);
        let ln = (before + 1) as usize;
        lemma_scan_tokens(line_at(s, i), 0, ln);
        let ts = scan_spec(line_at(s, i), 0, ln)->Ok_0;
        let all = lex_from(s, i, before)->Ok_0;
        if j < s.len() {
            lemma_lex_tokens(s, j + 1, before + 1);
            let rest = lex_from(s, j + 1, before + 1)->Ok_0;
            assert(all == ts + rest);
            assert forall|k: int| 0 <= k < all.len() implies #[trigger] all[k].line > before by {
                if k >= ts.len() {
                    assert(all[k] == rest[k - ts.len()]);
                } else {
                    assert(all[k] == ts[k]);
                }
            }
            assert forall|k: int, l: int| 0 <= k < l < all.len() implies #[trigger] all[k].line
                <= #[trigger] all[l].line by {
                if l < ts.len() {
                    assert(all[k] == ts[k] && all[l] == ts[l]);
                } else if k < ts.len() {
                    assert(all[k] == ts[k] && all[l] == rest[l - ts.len()]);
                } else {
                    assert(all[k] == rest[k - ts.len()] && all[l] == rest[l - ts.len()]);
                }
            }
            assert forall|k: int| 0 <= k < all.len() - 1 && (#[trigger] all[k].lexeme) is Newline implies all[k].line
                < all[k + 1].line by {
                if k >= ts.len() {
                    assert(all[k] == rest[k - ts.len()]);
                    assert(all[k + 1] == rest[k + 1 - ts.len()]);
                    assert(rest[k - ts.len()].lexeme is Newline);
                } else if k == ts.len() - 1 {
                    assert(all[k] == ts[k]);
                    assert(all[k + 1] == rest[0]);
                } else {
                    assert(all[k] == ts[k]);
                    assert(!(ts[k].lexeme is Newline));
                }
            }
            if rest.len() == 0 {
                assert(all =~= ts);
            } else {
                assert(all.last() == rest.last());
            }
        } else {
            assert(all == ts);
        }
    }
}

/// Each source line yields its tokens followed by an end-of-line token:
/// the tokens of a source come in line order, a non-empty source's stream
/// ends with an end-of-line token, and the token after an end-of-line token
/// belongs to a later line.
pub proof fn lemma_tokens_in_line_order(source: Seq<char>)
    requires
        byte_len(source) < usize::MAX,
        tokenize_spec(source) is Ok,
    ensures
        source.len() > 0 ==> tokenize_spec(source)->Ok_0.len() > 0 && tokenize_spec(source)->Ok_0.last().lexeme
            is Newline,
        forall|k: int, l: int|
            0 <= k < l < tokenize_spec(source)->Ok_0.len() ==> #[trigger] tokenize_spec(source)->Ok_0[k].line
                <= #[trigger] tokenize_spec(source)->Ok_0[l].line,
        forall|k: int|
            0 <= k < tokenize_spec(source)->Ok_0.len() - 1 && (#[trigger] tokenize_spec(source)->Ok_0[k].lexeme)
                is Newline ==> tokenize_spec(source)->Ok_0[k].line < tokenize_spec(source)->Ok_0[k + 1].line,
{
    lemma_byte_len_ge_len(source);
    lemma_lex_tokens(source, 0, 0);
}

} // verus!
