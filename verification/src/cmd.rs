//! Debugger command parsing: one line of input resolved to a [`Command`].
//!
//! [`parse`] scans a command line: a keyword and its operands, separated by
//! whitespace. Keywords are case-insensitive and carry short aliases; numeric
//! operands accept the assembler's `x`-hex and `#`-decimal forms (plus bare
//! decimal and `0x` hex), and registers are `R0`-`R7` or `PC`. A line that
//! names no command, or whose operands do not fit it, yields a
//! [`ParseError`].
use vstd::prelude::*;

use crate::text::{
    all_digits, all_hex_digits, bounded_decimal, bounded_hex, chars_of, decimal_value, extend_chars, hex_value, lower_chars,
    lower_seq, parse_i32, parse_i32_spec, push_text, string_from_chars, upper_chars, upper_seq,
};

verus! {

/// The number of words a bare `disassemble` renders.
pub const DEFAULT_DSM_WINDOW: u16 = 8;

/// A register a command can read or write.
#[derive(Debug, Clone, Copy, PartialEq, Eq, Structural)]
pub enum Register {
    /// General-purpose register `R0`-`R7`, by its 3-bit number.
    General(u16),
    /// The program counter.
    Pc,
}

/// A parsed debugger command.
#[derive(Debug, Clone, Copy, PartialEq, Eq, Structural)]
#[non_exhaustive]
pub enum Command {
    /// Execute `n` instructions, stopping early at a `HALT`.
    Step(u16),
    /// Run until a breakpoint, a `HALT`, or an error.
    Continue,
    /// Set a breakpoint at an address.
    Break(u16),
    /// Clear the breakpoint at an address.
    Delete(u16),
    /// List the active breakpoints.
    Breakpoints,
    /// Show the register file.
    Registers,
    /// Write a value to a register.
    SetRegister(Register, u16),
    /// Write a value to a memory address.
    WriteMemory(u16, u16),
    /// Disassemble `len` words from `address` (the program counter when
    /// `None`).
    Disassemble { address: Option<u16>, len: u16 },
    /// Reload the program and return to its entry point.
    Reset,
    /// Show the command summary.
    Help,
    /// Leave the debugger.
    Quit,
}

/// The reason a command line could not be parsed.
#[derive(Debug, Clone, PartialEq, Eq)]
#[non_exhaustive]
pub enum ParseError {
    /// The line held no command.
    Empty,
    /// The first word names no known command.
    UnknownCommand(String),
    /// A command was given fewer operands than it requires.
    MissingArgument { command: &'static str },
    /// A command was given more operands than it accepts.
    UnexpectedArgument { command: &'static str },
    /// An operand expected to be a number is not one.
    InvalidNumber(String),
    /// An operand expected to be a register names none.
    InvalidRegister(String),
}

/// A [`ParseError`] with its texts taken as characters.
pub enum CommandErrorSpec {
    Empty,
    UnknownCommand(Seq<char>),
    MissingArgument { command: Seq<char> },
    UnexpectedArgument { command: Seq<char> },
    InvalidNumber(Seq<char>),
    InvalidRegister(Seq<char>),
}

impl View for ParseError {
    type V = CommandErrorSpec;

    open spec fn view(&self) -> CommandErrorSpec {
        match self {
            ParseError::Empty => CommandErrorSpec::Empty,
            ParseError::UnknownCommand(w) => CommandErrorSpec::UnknownCommand(w@),
            ParseError::MissingArgument { command } => CommandErrorSpec::MissingArgument { command: command@ },
            ParseError::UnexpectedArgument { command } => CommandErrorSpec::UnexpectedArgument {
                command: command@,
            },
            ParseError::InvalidNumber(t) => CommandErrorSpec::InvalidNumber(t@),
            ParseError::InvalidRegister(t) => CommandErrorSpec::InvalidRegister(t@),
        }
    }
}

/// A whitespace character, as `char::is_whitespace` classifies it.
pub open spec fn is_space(c: char) -> bool {
    let v = c as u32;
    (9 <= v <= 13) || v == 32 || v == 0x85 || v == 0xA0 || v == 0x1680 || (0x2000 <= v <= 0x200A)
        || v == 0x2028 || v == 0x2029 || v == 0x202F || v == 0x205F || v == 0x3000
}

/// The length of the run of non-whitespace characters at the start of `s`.
pub open spec fn word_len(s: Seq<char>) -> nat
    decreases s.len(),
{
    if s.len() > 0 && !is_space(s[0]) {
        1 + word_len(s.drop_first())
    } else {
        0
    }
}

pub proof fn lemma_word_len_bound(s: Seq<char>)
    ensures
        word_len(s) <= s.len(),
        s.len() > 0 && !is_space(s[0]) ==> word_len(s) >= 1,
    decreases s.len(),
{
    if s.len() > 0 && !is_space(s[0]) {
        lemma_word_len_bound(s.drop_first());
    }
}

/// The whitespace-separated words of `s` from position `i` on.
pub open spec fn words_from(s: Seq<char>, i: int) -> Seq<Seq<char>>
    decreases s.len() - i,
{
    if i < 0 || i >= s.len() {
        seq![]
    } else if is_space(s[i]) {
        words_from(s, i + 1)
    } else {
        proof {
            lemma_word_len_bound(s.skip(i));
        }
        let e = i + word_len(s.skip(i));
        seq![s.subrange(i, e)] + words_from(s, e)
    }
}

/// The whitespace-separated words of a line, as `str::split_whitespace`
/// yields them.
pub open spec fn words(s: Seq<char>) -> Seq<Seq<char>> {
    words_from(s, 0)
}

/// What `u16::from_str_radix(t, 16)` gives: an optional `+` and hexadecimal
/// digits whose value fits sixteen bits.
pub open spec fn hex_u16(t: Seq<char>) -> Option<u16> {
    let d = if t.len() > 0 && t[0] == '+' {
        t.drop_first()
    } else {
        t
    };
    if d.len() > 0 && all_hex_digits(d) && hex_value(d) <= 0xFFFF {
        Some(hex_value(d) as u16)
    } else {
        None
    }
}

/// What `str::parse::<u16>` gives: an optional `+` and decimal digits whose
/// value fits sixteen bits.
pub open spec fn dec_u16(t: Seq<char>) -> Option<u16> {
    let d = if t.len() > 0 && t[0] == '+' {
        t.drop_first()
    } else {
        t
    };
    if d.len() > 0 && all_digits(d) && decimal_value(d) <= 0xFFFF {
        Some(decimal_value(d) as u16)
    } else {
        None
    }
}

/// The 16-bit value a numeric operand writes: `x`/`0x` hexadecimal, or
/// decimal with an optional `#` and sign, a negative value wrapping into its
/// two's complement.
pub open spec fn value_spec(t: Seq<char>) -> Option<u16> {
    if t.len() >= 2 && t[0] == '0' && (t[1] == 'x' || t[1] == 'X') {
        hex_u16(t.skip(2))
    } else if t.len() >= 1 && (t[0] == 'x' || t[0] == 'X') {
        hex_u16(t.skip(1))
    } else {
        let d = if t.len() >= 1 && t[0] == '#' {
            t.skip(1)
        } else {
            t
        };
        match parse_i32_spec(d) {
            Some(v) => if -0x8000 <= v <= 0xFFFF {
                Some((if v < 0 { v + 0x1_0000 } else { v as int }) as u16)
            } else {
                None
            },
            None => None,
        }
    }
}

/// A numeric operand, or the error naming it.
pub open spec fn number_spec(t: Seq<char>) -> Result<u16, CommandErrorSpec> {
    match value_spec(t) {
        Some(v) => Ok(v),
        None => Err(CommandErrorSpec::InvalidNumber(t)),
    }
}

/// A register operand: `PC` or `R` and a decimal number below eight, either
/// case; or the error naming it.
pub open spec fn register_operand_spec(t: Seq<char>) -> Result<Register, CommandErrorSpec> {
    let name = upper_seq(t);
    if name == seq!['P', 'C'] {
        Ok(Register::Pc)
    } else if name.len() >= 1 && name[0] == 'R' && dec_u16(name.drop_first()) is Some && dec_u16(
        name.drop_first(),
    )->0 < 8 {
        Ok(Register::General(dec_u16(name.drop_first())->0))
    } else {
        Err(CommandErrorSpec::InvalidRegister(t))
    }
}

/// A command that takes no operands.
pub open spec fn nullary_spec(c: Command, name: Seq<char>, args: Seq<Seq<char>>) -> Result<
    Command,
    CommandErrorSpec,
> {
    if args.len() == 0 {
        Ok(c)
    } else {
        Err(CommandErrorSpec::UnexpectedArgument { command: name })
    }
}

/// Whether `k` is `step` or one of its aliases.
pub open spec fn names_step(k: Seq<char>) -> bool {
    k == "step"@ || k == "s"@ || k == "si"@
}

/// Whether `k` is `continue` or one of its aliases.
pub open spec fn names_continue(k: Seq<char>) -> bool {
    k == "continue"@ || k == "c"@
}

/// Whether `k` is `break` or one of its aliases.
pub open spec fn names_break(k: Seq<char>) -> bool {
    k == "break"@ || k == "b"@
}

/// Whether `k` is `delete` or one of its aliases.
pub open spec fn names_delete(k: Seq<char>) -> bool {
    k == "delete"@ || k == "d"@
}

/// Whether `k` is `breaks`.
pub open spec fn names_breaks(k: Seq<char>) -> bool {
    k == "breaks"@
}

/// Whether `k` is `registers` or one of its aliases.
pub open spec fn names_registers(k: Seq<char>) -> bool {
    k == "registers"@ || k == "regs"@
}

/// Whether `k` is `set`.
pub open spec fn names_set(k: Seq<char>) -> bool {
    k == "set"@
}

/// Whether `k` is `write` or one of its aliases.
pub open spec fn names_write(k: Seq<char>) -> bool {
    k == "write"@ || k == "w"@
}

/// Whether `k` is `disassemble` or one of its aliases.
pub open spec fn names_disassemble(k: Seq<char>) -> bool {
    k == "disassemble"@ || k == "dis"@ || k == "x"@
}

/// Whether `k` is `reset`.
pub open spec fn names_reset(k: Seq<char>) -> bool {
    k == "reset"@
}

/// Whether `k` is `help` or one of its aliases.
pub open spec fn names_help(k: Seq<char>) -> bool {
    k == "help"@ || k == "h"@ || k == "?"@
}

/// Whether `k` is `quit` or one of its aliases.
pub open spec fn names_quit(k: Seq<char>) -> bool {
    k == "quit"@ || k == "q"@
}

/// `set <register> <value>`.
pub open spec fn set_spec(args: Seq<Seq<char>>) -> Result<Command, CommandErrorSpec> {
    if args.len() == 2 {
        match register_operand_spec(args[0]) {
            Err(e) => Err(e),
            Ok(r) => match number_spec(args[1]) {
                Err(e) => Err(e),
                Ok(v) => Ok(Command::SetRegister(r, v)),
            },
        }
    } else if args.len() < 2 {
        Err(CommandErrorSpec::MissingArgument { command: "set"@ })
    } else {
        Err(CommandErrorSpec::UnexpectedArgument { command: "set"@ })
    }
}

/// `write <address> <value>`.
pub open spec fn write_spec(args: Seq<Seq<char>>) -> Result<Command, CommandErrorSpec> {
    if args.len() == 2 {
        match number_spec(args[0]) {
            Err(e) => Err(e),
            Ok(a) => match number_spec(args[1]) {
                Err(e) => Err(e),
                Ok(v) => Ok(Command::WriteMemory(a, v)),
            },
        }
    } else if args.len() < 2 {
        Err(CommandErrorSpec::MissingArgument { command: "write"@ })
    } else {
        Err(CommandErrorSpec::UnexpectedArgument { command: "write"@ })
    }
}

/// `disassemble [address] [len]`: the address defaults to the program
/// counter and the length to [`DEFAULT_DSM_WINDOW`].
pub open spec fn disassemble_spec(args: Seq<Seq<char>>) -> Result<Command, CommandErrorSpec> {
    if args.len() == 0 {
        Ok(Command::Disassemble { address: None, len: DEFAULT_DSM_WINDOW })
    } else if args.len() == 1 {
        match number_spec(args[0]) {
            Err(e) => Err(e),
            Ok(a) => Ok(Command::Disassemble { address: Some(a), len: DEFAULT_DSM_WINDOW }),
        }
    } else if args.len() == 2 {
        match number_spec(args[0]) {
            Err(e) => Err(e),
            Ok(a) => match number_spec(args[1]) {
                Err(e) => Err(e),
                Ok(n) => Ok(Command::Disassemble { address: Some(a), len: n }),
            },
        }
    } else {
        Err(CommandErrorSpec::UnexpectedArgument { command: "disassemble"@ })
    }
}

/// The command a keyword, lower-cased, and its operands form.
pub open spec fn command_spec(k: Seq<char>, keyword: Seq<char>, args: Seq<Seq<char>>) -> Result<
    Command,
    CommandErrorSpec,
> {
    if names_step(k) {
        if args.len() == 0 {
            Ok(Command::Step(1))
        } else if args.len() == 1 {
            match number_spec(args[0]) {
                Ok(n) => Ok(Command::Step(n)),
                Err(e) => Err(e),
            }
        } else {
            Err(CommandErrorSpec::UnexpectedArgument { command: "step"@ })
        }
    } else if names_continue(k) {
        nullary_spec(Command::Continue, "continue"@, args)
    } else if names_break(k) {
        if args.len() == 0 {
            Err(CommandErrorSpec::MissingArgument { command: "break"@ })
        } else if args.len() == 1 {
            match number_spec(args[0]) {
                Ok(a) => Ok(Command::Break(a)),
                Err(e) => Err(e),
            }
        } else {
            Err(CommandErrorSpec::UnexpectedArgument { command: "break"@ })
        }
    } else if names_delete(k) {
        if args.len() == 0 {
            Err(CommandErrorSpec::MissingArgument { command: "delete"@ })
        } else if args.len() == 1 {
            match number_spec(args[0]) {
                Ok(a) => Ok(Command::Delete(a)),
                Err(e) => Err(e),
            }
        } else {
            Err(CommandErrorSpec::UnexpectedArgument { command: "delete"@ })
        }
    } else if names_breaks(k) {
        nullary_spec(Command::Breakpoints, "breaks"@, args)
    } else if names_registers(k) {
        nullary_spec(Command::Registers, "registers"@, args)
    } else if names_set(k) {
        set_spec(args)
    } else if names_write(k) {
        write_spec(args)
    } else if names_disassemble(k) {
        disassemble_spec(args)
    } else if names_reset(k) {
        nullary_spec(Command::Reset, "reset"@, args)
    } else if names_help(k) {
        nullary_spec(Command::Help, "help"@, args)
    } else if names_quit(k) {
        nullary_spec(Command::Quit, "quit"@, args)
    } else {
        Err(CommandErrorSpec::UnknownCommand(keyword))
    }
}

/// The command a line holds, or the reason it holds none.
pub open spec fn parse_spec(line: Seq<char>) -> Result<Command, CommandErrorSpec> {
    let ws = words(line);
    if ws.len() == 0 {
        Err(CommandErrorSpec::Empty)
    } else {
        command_spec(lower_seq(ws[0]), ws[0], ws.skip(1))
    }
}

/// The message a command error reads as.
pub open spec fn message_spec(e: CommandErrorSpec) -> Seq<char> {
    match e {
        CommandErrorSpec::Empty => "empty command"@,
        CommandErrorSpec::UnknownCommand(w) => "unknown command '"@ + w + "'"@,
        CommandErrorSpec::MissingArgument { command } => "'"@ + command + "' is missing an operand"@,
        CommandErrorSpec::UnexpectedArgument { command } => "'"@ + command
            + "' was given too many operands"@,
        CommandErrorSpec::InvalidNumber(t) => "invalid number '"@ + t + "'"@,
        CommandErrorSpec::InvalidRegister(t) => "invalid register '"@ + t + "'; expected R0-R7 or PC"@,
    }
}

/// The characters of each word.
pub open spec fn words_view(ws: Seq<Vec<char>>) -> Seq<Seq<char>> {
    ws.map_values(|w: Vec<char>| w@)
}

/// Whether an executable result agrees with a specified one.
pub open spec fn command_agrees(r: Result<Command, ParseError>, s: Result<Command, CommandErrorSpec>) -> bool {
    match s {
        Ok(c) => r == Ok::<Command, ParseError>(c),
        Err(e) => (r matches Err(x) && x@ == e),
    }
}

/// Whether `k` holds exactly the characters of `w`.
fn text_is(k: &[char], w: &str) -> (r: bool)
    ensures
        r == (k@ == w@),
{
    let v = chars_of(w);
    crate::text::chars_eq(k, &v)
}

/// Whether `c` is whitespace.
fn is_space_char(c: char) -> (r: bool)
    ensures
        r == is_space(c),
{
    let v = c as u32;
    (9 <= v && v <= 13) || v == 32 || v == 0x85 || v == 0xA0 || v == 0x1680 || (0x2000 <= v && v
        <= 0x200A) || v == 0x2028 || v == 0x2029 || v == 0x202F || v == 0x205F || v == 0x3000
}

/// Splits a line into its whitespace-separated words.
fn split_words(s: &[char]) -> (r: Vec<Vec<char>>)
    ensures
        words_view(r@) == words(s@),
{
    let mut out: Vec<Vec<char>> = Vec::new();
    let mut i: usize = 0;
    proof {
        assert(words_view(out@) + words_from(s@, 0) =~= words_from(s@, 0));
    }
    while i < s.len()
        invariant
            i <= s@.len(),
            words(s@) == words_view(out@) + words_from(s@, i as int),
        decreases s.len() - i,
    {
        if is_space_char(s[i]) {
            i += 1;
        } else {
            let mut e = i;
            proof {
                lemma_word_len_bound(s@.skip(i as int));
            }
            while e < s.len() && !is_space_char(s[e])
                invariant
                    i <= e <= s@.len(),
                    i + word_len(s@.skip(i as int)) == e + word_len(s@.skip(e as int)),
                decreases s.len() - e,
            {
                proof {
                    assert(s@.skip(e as int).drop_first() =~= s@.skip(e + 1));
                }
                e += 1;
            }
            proof {
                if e < s@.len() {
                    assert(s@.skip(e as int)[0] == s@[e as int]);
                } else {
                    assert(s@.skip(e as int).len() == 0);
                }
            }
            let mut w: Vec<char> = Vec::new();
            extend_chars(&mut w, vstd::slice::slice_subrange(s, i, e));
            let ghost before = out@;
            out.push(w);
            proof {
                assert(words_view(out@) =~= words_view(before).push(s@.subrange(i as int, e as int)));
                assert(words_view(before) + words_from(s@, i as int) =~= words_view(out@)
                    + words_from(s@, e as int));
            }
            i = e;
        }
    }
    proof {
        assert(words_view(out@) + words_from(s@, i as int) =~= words_view(out@));
    }
    out
}

/// `t` without a leading `+`.
fn unsigned_digits(t: &[char]) -> (d: &[char])
    ensures
        d@ == (if t@.len() > 0 && t@[0] == '+' { t@.drop_first() } else { t@ }),
{
    if t.len() > 0 && t[0] == '+' {
        let d = vstd::slice::slice_subrange(t, 1, t.len());
        proof {
            assert(d@ =~= t@.drop_first());
        }
        d
    } else {
        t
    }
}

/// [`hex_u16`] computed.
fn hex_u16_of(t: &[char]) -> (r: Option<u16>)
    ensures
        r == hex_u16(t@),
{
    let d = unsigned_digits(t);
    match bounded_hex(d, 0xFFFF) {
        Some(v) => Some(v as u16),
        None => None,
    }
}

/// [`dec_u16`] computed.
fn dec_u16_of(t: &[char]) -> (r: Option<u16>)
    ensures
        r == dec_u16(t@),
{
    let d = unsigned_digits(t);
    match bounded_decimal(d, 0xFFFF) {
        Some(v) => Some(v as u16),
        None => None,
    }
}

/// The 16-bit value a numeric operand writes.
fn value_of(t: &[char]) -> (r: Option<u16>)
    ensures
        r == value_spec(t@),
{
    if t.len() >= 2 && t[0] == '0' && (t[1] == 'x' || t[1] == 'X') {
        let h = vstd::slice::slice_subrange(t, 2, t.len());
        proof {
            assert(h@ =~= t@.skip(2));
        }
        hex_u16_of(h)
    } else if t.len() >= 1 && (t[0] == 'x' || t[0] == 'X') {
        let h = vstd::slice::slice_subrange(t, 1, t.len());
        proof {
            assert(h@ =~= t@.skip(1));
        }
        hex_u16_of(h)
    } else {
        let d = if t.len() >= 1 && t[0] == '#' {
            let d = vstd::slice::slice_subrange(t, 1, t.len());
            proof {
                assert(d@ =~= t@.skip(1));
            }
            d
        } else {
            t
        };
        match parse_i32(d) {
            Some(v) => if -0x8000 <= v && v <= 0xFFFF {
                if v < 0 {
                    Some((v + 0x1_0000) as u16)
                } else {
                    Some(v as u16)
                }
            } else {
                None
            },
            None => None,
        }
    }
}

/// A numeric operand, or the error naming it.
fn number(t: &[char]) -> (r: Result<u16, ParseError>)
    ensures
        match number_spec(t@) {
            Ok(v) => r == Ok::<u16, ParseError>(v),
            Err(e) => (r matches Err(x) && x@ == e),
        },
{
    match value_of(t) {
        Some(v) => Ok(v),
        None => Err(ParseError::InvalidNumber(string_from_chars(t))),
    }
}

/// A register operand, or the error naming it.
fn register_operand(t: &[char]) -> (r: Result<Register, ParseError>)
    ensures
        match register_operand_spec(t@) {
            Ok(v) => r == Ok::<Register, ParseError>(v),
            Err(e) => (r matches Err(x) && x@ == e),
        },
{
    let name = upper_chars(t);
    if crate::text::chars_eq(&name, &['P', 'C']) {
        return Ok(Register::Pc);
    }
    if name.len() >= 1 && name[0] == 'R' {
        let rest = vstd::slice::slice_subrange(name.as_slice(), 1, name.len());
        proof {
            assert(rest@ =~= name@.drop_first());
        }
        match dec_u16_of(rest) {
            Some(n) => if n < 8 {
                return Ok(Register::General(n));
            },
            None => {},
        }
    }
    Err(ParseError::InvalidRegister(string_from_chars(t)))
}

/// A command that takes no operands.
fn nullary(c: Command, name: &'static str, extra: usize) -> (r: Result<Command, ParseError>)
    ensures
        forall|args: Seq<Seq<char>>| args.len() == extra ==> command_agrees(r, #[trigger] nullary_spec(c, name@, args)),
{
    if extra == 0 {
        Ok(c)
    } else {
        Err(ParseError::UnexpectedArgument { command: name })
    }
}

fn is_step_keyword(k: &[char]) -> (r: bool)
    ensures
        r == names_step(k@),
{
    if text_is(k, "step") {
        return true;
    }
    if text_is(k, "s") {
        return true;
    }
    text_is(k, "si")
}

fn is_continue_keyword(k: &[char]) -> (r: bool)
    ensures
        r == names_continue(k@),
{
    if text_is(k, "continue") {
        return true;
    }
    text_is(k, "c")
}

fn is_break_keyword(k: &[char]) -> (r: bool)
    ensures
        r == names_break(k@),
{
    if text_is(k, "break") {
        return true;
    }
    text_is(k, "b")
}

fn is_delete_keyword(k: &[char]) -> (r: bool)
    ensures
        r == names_delete(k@),
{
    if text_is(k, "delete") {
        return true;
    }
    text_is(k, "d")
}

fn is_breaks_keyword(k: &[char]) -> (r: bool)
    ensures
        r == names_breaks(k@),
{
    text_is(k, "breaks")
}

fn is_registers_keyword(k: &[char]) -> (r: bool)
    ensures
        r == names_registers(k@),
{
    if text_is(k, "registers") {
        return true;
    }
    text_is(k, "regs")
}

fn is_set_keyword(k: &[char]) -> (r: bool)
    ensures
        r == names_set(k@),
{
    text_is(k, "set")
}

fn is_write_keyword(k: &[char]) -> (r: bool)
    ensures
        r == names_write(k@),
{
    if text_is(k, "write") {
        return true;
    }
    text_is(k, "w")
}

fn is_disassemble_keyword(k: &[char]) -> (r: bool)
    ensures
        r == names_disassemble(k@),
{
    if text_is(k, "disassemble") {
        return true;
    }
    if text_is(k, "dis") {
        return true;
    }
    text_is(k, "x")
}

fn is_reset_keyword(k: &[char]) -> (r: bool)
    ensures
        r == names_reset(k@),
{
    text_is(k, "reset")
}

fn is_help_keyword(k: &[char]) -> (r: bool)
    ensures
        r == names_help(k@),
{
    if text_is(k, "help") {
        return true;
    }
    if text_is(k, "h") {
        return true;
    }
    text_is(k, "?")
}

fn is_quit_keyword(k: &[char]) -> (r: bool)
    ensures
        r == names_quit(k@),
{
    if text_is(k, "quit") {
        return true;
    }
    text_is(k, "q")
}

/// The command a lower-cased keyword `k` (written `keyword`) and its
/// operand words form.
fn command(k: &[char], keyword: &[char], args: &[Vec<char>]) -> (r: Result<Command, ParseError>)
    ensures
        command_agrees(r, command_spec(k@, keyword@, words_view(args@))),
{
    let ghost a = words_view(args@);
    let n = args.len();
    proof {
        assert(a.len() == n);
        if n >= 1 {
            assert(a[0] == args@[0]@);
        }
        if n >= 2 {
            assert(a[1] == args@[1]@);
        }
    }
    if is_step_keyword(k) {
        if n == 0 {
            Ok(Command::Step(1))
        } else if n == 1 {
            match number(args[0].as_slice()) {
                Ok(c) => Ok(Command::Step(c)),
                Err(e) => Err(e),
            }
        } else {
            Err(ParseError::UnexpectedArgument { command: "step" })
        }
    } else if is_continue_keyword(k) {
        nullary(Command::Continue, "continue", n)
    } else if is_break_keyword(k) {
        if n == 0 {
            Err(ParseError::MissingArgument { command: "break" })
        } else if n == 1 {
            match number(args[0].as_slice()) {
                Ok(v) => Ok(Command::Break(v)),
                Err(e) => Err(e),
            }
        } else {
            Err(ParseError::UnexpectedArgument { command: "break" })
        }
    } else if is_delete_keyword(k) {
        if n == 0 {
            Err(ParseError::MissingArgument { command: "delete" })
        } else if n == 1 {
            match number(args[0].as_slice()) {
                Ok(v) => Ok(Command::Delete(v)),
                Err(e) => Err(e),
            }
        } else {
            Err(ParseError::UnexpectedArgument { command: "delete" })
        }
    } else if is_breaks_keyword(k) {
        nullary(Command::Breakpoints, "breaks", n)
    } else if is_registers_keyword(k) {
        nullary(Command::Registers, "registers", n)
    } else if is_set_keyword(k) {
        set_command(args)
    } else if is_write_keyword(k) {
        write_command(args)
    } else if is_disassemble_keyword(k) {
        disassemble_command(args)
    } else if is_reset_keyword(k) {
        nullary(Command::Reset, "reset", n)
    } else if is_help_keyword(k) {
        nullary(Command::Help, "help", n)
    } else if is_quit_keyword(k) {
        nullary(Command::Quit, "quit", n)
    } else {
        Err(ParseError::UnknownCommand(string_from_chars(keyword)))
    }
}

/// `set <register> <value>`.
fn set_command(args: &[Vec<char>]) -> (r: Result<Command, ParseError>)
    ensures
        command_agrees(r, set_spec(words_view(args@))),
{
    let n = args.len();
    if n == 2 {
        proof {
            assert(words_view(args@)[0] == args@[0]@);
            assert(words_view(args@)[1] == args@[1]@);
        }
        match register_operand(args[0].as_slice()) {
            Err(e) => Err(e),
            Ok(reg) => match number(args[1].as_slice()) {
                Err(e) => Err(e),
                Ok(v) => Ok(Command::SetRegister(reg, v)),
            },
        }
    } else if n < 2 {
        Err(ParseError::MissingArgument { command: "set" })
    } else {
        Err(ParseError::UnexpectedArgument { command: "set" })
    }
}

/// `write <address> <value>`.
fn write_command(args: &[Vec<char>]) -> (r: Result<Command, ParseError>)
    ensures
        command_agrees(r, write_spec(words_view(args@))),
{
    let n = args.len();
    if n == 2 {
        proof {
            assert(words_view(args@)[0] == args@[0]@);
            assert(words_view(args@)[1] == args@[1]@);
        }
        match number(args[0].as_slice()) {
            Err(e) => Err(e),
            Ok(a) => match number(args[1].as_slice()) {
                Err(e) => Err(e),
                Ok(v) => Ok(Command::WriteMemory(a, v)),
            },
        }
    } else if n < 2 {
        Err(ParseError::MissingArgument { command: "write" })
    } else {
        Err(ParseError::UnexpectedArgument { command: "write" })
    }
}

/// `disassemble [address] [len]`.
fn disassemble_command(args: &[Vec<char>]) -> (r: Result<Command, ParseError>)
    ensures
        command_agrees(r, disassemble_spec(words_view(args@))),
{
    let n = args.len();
    if n == 0 {
        Ok(Command::Disassemble { address: None, len: DEFAULT_DSM_WINDOW })
    } else if n == 1 {
        proof {
            assert(words_view(args@)[0] == args@[0]@);
        }
        match number(args[0].as_slice()) {
            Err(e) => Err(e),
            Ok(a) => Ok(Command::Disassemble { address: Some(a), len: DEFAULT_DSM_WINDOW }),
        }
    } else if n == 2 {
        proof {
            assert(words_view(args@)[0] == args@[0]@);
            assert(words_view(args@)[1] == args@[1]@);
        }
        match number(args[0].as_slice()) {
            Err(e) => Err(e),
            Ok(a) => match number(args[1].as_slice()) {
                Err(e) => Err(e),
                Ok(len) => Ok(Command::Disassemble { address: Some(a), len }),
            },
        }
    } else {
        Err(ParseError::UnexpectedArgument { command: "disassemble" })
    }
}

/// Parses one command `line` into a [`Command`].
///
/// The first whitespace-separated word is the keyword (case-insensitive,
/// with aliases); the rest are its operands. A blank line yields
/// [`ParseError::Empty`]; an unknown keyword, a missing or surplus operand,
/// or an operand of the wrong shape yields the matching [`ParseError`].
pub fn parse(line: &str) -> (r: Result<Command, ParseError>)
    ensures
        command_agrees(r, parse_spec(line@)),
{
    let cs = chars_of(line);
    let ws = split_words(&cs);
    if ws.len() == 0 {
        return Err(ParseError::Empty);
    }
    let k = lower_chars(ws[0].as_slice());
    let args = vstd::slice::slice_subrange(ws.as_slice(), 1, ws.len());
    proof {
        assert(words(line@)[0] == ws@[0]@);
        assert(words_view(args@) =~= words(line@).skip(1));
    }
    command(k.as_slice(), ws[0].as_slice(), args)
}

impl ParseError {
    /// The message this error reads as, for display.
    pub fn message(&self) -> (r: String)
        ensures
            r@ == message_spec(self@),
    {
        let mut out: Vec<char> = Vec::new();
        match self {
            ParseError::Empty => push_text(&mut out, "empty command"),
            ParseError::UnknownCommand(w) => {
                push_text(&mut out, "unknown command '");
                push_text(&mut out, w.as_str());
                push_text(&mut out, "'");
            },
            ParseError::MissingArgument { command } => {
                push_text(&mut out, "'");
                push_text(&mut out, command);
                push_text(&mut out, "' is missing an operand");
            },
            ParseError::UnexpectedArgument { command } => {
                push_text(&mut out, "'");
                push_text(&mut out, command);
                push_text(&mut out, "' was given too many operands");
            },
            ParseError::InvalidNumber(t) => {
                push_text(&mut out, "invalid number '");
                push_text(&mut out, t.as_str());
                push_text(&mut out, "'");
            },
            ParseError::InvalidRegister(t) => {
                push_text(&mut out, "invalid register '");
                push_text(&mut out, t.as_str());
                push_text(&mut out, "'; expected R0-R7 or PC");
            },
        }
        proof {
            assert(out@ =~= message_spec(self@));
        }
        string_from_chars(&out)
    }
}


/// Keywords are read without regard to case: two lines whose words differ
/// only in the case of the keyword hold the same command.
pub proof fn lemma_keyword_case(a: Seq<char>, b: Seq<char>)
    requires
        words(a).len() > 0,
        words(a).len() == words(b).len(),
        lower_seq(words(a)[0]) == lower_seq(words(b)[0]),
        words(a).skip(1) == words(b).skip(1),
        parse_spec(a) is Ok,
    ensures
        parse_spec(b) == parse_spec(a),
{
}

/// The aliases of the debugger's keywords, each with its full keyword:
/// `s` and `si` for `step`, `c` for `continue`, `b` for `break`, `d` for
/// `delete`, `regs` for `registers`, `w` for `write`, `dis` and `x` for
/// `disassemble`, `h` and `?` for `help`, `q` for `quit`.
pub open spec fn alias_of(alias: Seq<char>, full: Seq<char>) -> bool {
    ||| alias == "s"@ && full == "step"@
    ||| alias == "si"@ && full == "step"@
    ||| alias == "c"@ && full == "continue"@
    ||| alias == "b"@ && full == "break"@
    ||| alias == "d"@ && full == "delete"@
    ||| alias == "regs"@ && full == "registers"@
    ||| alias == "w"@ && full == "write"@
    ||| alias == "dis"@ && full == "disassemble"@
    ||| alias == "x"@ && full == "disassemble"@
    ||| alias == "h"@ && full == "help"@
    ||| alias == "?"@ && full == "help"@
    ||| alias == "q"@ && full == "quit"@
}

/// An alias means what its full keyword means: two lines with the same
/// operands, one led by an alias and the other by its full keyword (in
/// any case), hold the same command or fail in the same way.
pub proof fn lemma_aliases(a: Seq<char>, b: Seq<char>)
    requires
        words(a).len() > 0,
        words(b).len() > 0,
        words(a).skip(1) == words(b).skip(1),
        alias_of(lower_seq(words(a)[0]), lower_seq(words(b)[0])),
    ensures
        parse_spec(a) == parse_spec(b),
{
    reveal_strlit("step");
    reveal_strlit("s");
    reveal_strlit("si");
    reveal_strlit("continue");
    reveal_strlit("c");
    reveal_strlit("break");
    reveal_strlit("b");
    reveal_strlit("delete");
    reveal_strlit("d");
    reveal_strlit("breaks");
    reveal_strlit("registers");
    reveal_strlit("regs");
    reveal_strlit("set");
    reveal_strlit("write");
    reveal_strlit("w");
    reveal_strlit("disassemble");
    reveal_strlit("dis");
    reveal_strlit("x");
    reveal_strlit("reset");
    reveal_strlit("help");
    reveal_strlit("h");
    reveal_strlit("?");
    reveal_strlit("quit");
    reveal_strlit("q");
    assert("step"@.len() == 4 && "step"@[0] == 's');
    assert("s"@.len() == 1 && "s"@[0] == 's');
    assert("si"@.len() == 2 && "si"@[0] == 's');
    assert("continue"@.len() == 8 && "continue"@[0] == 'c');
    assert("c"@.len() == 1 && "c"@[0] == 'c');
    assert("break"@.len() == 5 && "break"@[0] == 'b');
    assert("b"@.len() == 1 && "b"@[0] == 'b');
    assert("delete"@.len() == 6 && "delete"@[0] == 'd');
    assert("d"@.len() == 1 && "d"@[0] == 'd');
    assert("breaks"@.len() == 6 && "breaks"@[0] == 'b');
    assert("registers"@.len() == 9 && "registers"@[0] == 'r');
    assert("regs"@.len() == 4 && "regs"@[0] == 'r');
    assert("set"@.len() == 3 && "set"@[0] == 's');
    assert("write"@.len() == 5 && "write"@[0] == 'w');
    assert("w"@.len() == 1 && "w"@[0] == 'w');
    assert("disassemble"@.len() == 11 && "disassemble"@[0] == 'd');
    assert("dis"@.len() == 3 && "dis"@[0] == 'd');
    assert("x"@.len() == 1 && "x"@[0] == 'x');
    assert("reset"@.len() == 5 && "reset"@[0] == 'r');
    assert("help"@.len() == 4 && "help"@[0] == 'h');
    assert("h"@.len() == 1 && "h"@[0] == 'h');
    assert("?"@.len() == 1 && "?"@[0] == '?');
    assert("quit"@.len() == 4 && "quit"@[0] == 'q');
    assert("q"@.len() == 1 && "q"@[0] == 'q');
}

/// A keyword that takes no operands, alone on its line, gives its command:
/// `step` a step of one instruction, `continue`, `breaks`, `registers`,
/// `reset`, `help` and `quit` their commands.
pub proof fn lemma_bare_keywords(a: Seq<char>)
    requires
        words(a).len() == 1,
    ensures
        lower_seq(words(a)[0]) == "step"@ ==> parse_spec(a) == Ok::<Command, CommandErrorSpec>(Command::Step(1)),
        lower_seq(words(a)[0]) == "continue"@ ==> parse_spec(a) == Ok::<Command, CommandErrorSpec>(
            Command::Continue,
        ),
        lower_seq(words(a)[0]) == "breaks"@ ==> parse_spec(a) == Ok::<Command, CommandErrorSpec>(
            Command::Breakpoints,
        ),
        lower_seq(words(a)[0]) == "registers"@ ==> parse_spec(a) == Ok::<Command, CommandErrorSpec>(
            Command::Registers,
        ),
        lower_seq(words(a)[0]) == "reset"@ ==> parse_spec(a) == Ok::<Command, CommandErrorSpec>(Command::Reset),
        lower_seq(words(a)[0]) == "help"@ ==> parse_spec(a) == Ok::<Command, CommandErrorSpec>(Command::Help),
        lower_seq(words(a)[0]) == "quit"@ ==> parse_spec(a) == Ok::<Command, CommandErrorSpec>(Command::Quit),
{
    reveal_strlit("step");
    reveal_strlit("s");
    reveal_strlit("si");
    reveal_strlit("continue");
    reveal_strlit("c");
    reveal_strlit("break");
    reveal_strlit("b");
    reveal_strlit("delete");
    reveal_strlit("d");
    reveal_strlit("breaks");
    reveal_strlit("registers");
    reveal_strlit("regs");
    reveal_strlit("set");
    reveal_strlit("write");
    reveal_strlit("w");
    reveal_strlit("disassemble");
    reveal_strlit("dis");
    reveal_strlit("x");
    reveal_strlit("reset");
    reveal_strlit("help");
    reveal_strlit("h");
    reveal_strlit("?");
    reveal_strlit("quit");
    reveal_strlit("q");
    assert("step"@.len() == 4 && "step"@[0] == 's');
    assert("s"@.len() == 1 && "s"@[0] == 's');
    assert("si"@.len() == 2 && "si"@[0] == 's');
    assert("continue"@.len() == 8 && "continue"@[0] == 'c');
    assert("c"@.len() == 1 && "c"@[0] == 'c');
    assert("break"@.len() == 5 && "break"@[0] == 'b');
    assert("b"@.len() == 1 && "b"@[0] == 'b');
    assert("delete"@.len() == 6 && "delete"@[0] == 'd');
    assert("d"@.len() == 1 && "d"@[0] == 'd');
    assert("breaks"@.len() == 6 && "breaks"@[0] == 'b');
    assert("registers"@.len() == 9 && "registers"@[0] == 'r');
    assert("regs"@.len() == 4 && "regs"@[0] == 'r');
    assert("set"@.len() == 3 && "set"@[0] == 's');
    assert("write"@.len() == 5 && "write"@[0] == 'w');
    assert("w"@.len() == 1 && "w"@[0] == 'w');
    assert("disassemble"@.len() == 11 && "disassemble"@[0] == 'd');
    assert("dis"@.len() == 3 && "dis"@[0] == 'd');
    assert("x"@.len() == 1 && "x"@[0] == 'x');
    assert("reset"@.len() == 5 && "reset"@[0] == 'r');
    assert("help"@.len() == 4 && "help"@[0] == 'h');
    assert("h"@.len() == 1 && "h"@[0] == 'h');
    assert("?"@.len() == 1 && "?"@[0] == '?');
    assert("quit"@.len() == 4 && "quit"@[0] == 'q');
    assert("q"@.len() == 1 && "q"@[0] == 'q');
    assert(words(a).skip(1).len() == 0);
}

} // verus!
