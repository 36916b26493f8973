//! The debugger's command loop: what each command does to a session and
//! what it answers.
//!
//! [`dispatch`] runs one parsed [`Command`] against a [`Debugger`] and
//! returns the text to show and how the loop goes on; [`respond`] does the
//! same for one line of input; [`repl`] runs a whole script of lines, each
//! after a prompt, until a `quit` or the end of the script. A terminal
//! frontend reads one line at a time and calls [`respond`].
use vstd::prelude::*;

use crate::cmd::{message_spec, parse, parse_spec, CommandErrorSpec, Command, ParseError, Register};
use crate::debug::{ascending, loaded, resume_spec, steps_spec, window, Debugger, Stop};
use crate::lexer::line_end;
use crate::listing::{instruction_text, listing_text, render_instruction};
use crate::machine::{error_text, Error, Machine};
use crate::object::ObjectFile;
use crate::register::ConditionFlag;
use crate::text::{
    wrap16, chars_of, decimal_text, extend_chars, hex4, push_decimal, push_hex4, push_text,
    string_from_chars,
};

verus! {

/// The prompt written before each command is read.
pub const PROMPT: &'static str = "(lc3dbg) ";

/// The command summary shown by `help`.
pub const HELP: &'static str = "commands (case-insensitive; [] marks an optional operand):\n  step [n]             s, si    run n instructions (default 1), stopping at HALT\n  continue             c        run until a breakpoint, HALT, or an error\n  break <addr>         b        set a breakpoint\n  delete <addr>        d        clear a breakpoint\n  breaks                        list the active breakpoints\n  registers            regs     show the register file\n  set <reg> <value>             write a register (R0-R7 or PC)\n  write <addr> <value> w        write a word of memory\n  disassemble [addr] [len]  dis, x  disassemble a window (default: the PC)\n  reset                         reload the program and return to its entry point\n  help                 h, ?     show this summary\n  quit                 q        leave the debugger\n";

/// How the command loop goes on after a command.
#[derive(Debug, Clone, Copy, PartialEq, Eq, Structural)]
pub enum Flow {
    /// Read another command.
    Continue,
    /// Leave the debugger.
    Quit,
    /// The program waits for a key: once one has been handed to the
    /// session, run this command to carry on.
    AwaitKey(Command),
}

/// A debugging session as mathematics: the machine, the breakpoints and
/// the program loaded.
pub struct Session {
    pub machine: Machine,
    pub breakpoints: Set<u16>,
    pub program: Seq<ObjectFile>,
}

/// The session a debugger holds.
pub open spec fn session_of(d: &Debugger) -> Session {
    Session { machine: d.machine(), breakpoints: d.breakpoint_set(), program: d.program() }
}

/// `x` and four upper-case hexadecimal digits.
pub open spec fn hex_word(w: u16) -> Seq<char> {
    seq!['x'] + hex4(w)
}

/// The program counter and the instruction it points at.
pub open spec fn location_text(m: Machine) -> Seq<char> {
    hex_word(m.pc) + ": "@ + instruction_text(m.mem[m.pc as int]) + "\n"@
}

/// What an executing command reports: where it stopped, that the program
/// halted, or the error it met (nothing while the program waits for a key).
pub open spec fn report_text(outcome: Result<Stop, Error>, m: Machine) -> Seq<char> {
    match outcome {
        Ok(Stop::Stepped) => location_text(m),
        Ok(Stop::Breakpoint(a)) => "breakpoint at "@ + hex_word(a) + "\n"@ + location_text(m),
        Ok(Stop::Halted) => "halted\n"@,
        Ok(Stop::AwaitingKey(_)) => seq![],
        Err(e) => "error: "@ + error_text(e) + "\n"@,
    }
}

/// How the loop goes on after an executing command: a program waiting for
/// a key resumes the run (or the steps still to run) once a key comes.
pub open spec fn flow_after(outcome: Result<Stop, Error>) -> Flow {
    match outcome {
        Ok(Stop::AwaitingKey(n)) => if n == 0 {
            Flow::AwaitKey(Command::Continue)
        } else {
            Flow::AwaitKey(Command::Step(n))
        },
        _ => Flow::Continue,
    }
}

/// One line per address, in order.
pub open spec fn address_lines(list: Seq<u16>) -> Seq<char>
    decreases list.len(),
{
    if list.len() == 0 {
        seq![]
    } else {
        address_lines(list.drop_last()) + hex_word(list.last()) + "\n"@
    }
}

/// The breakpoint listing.
pub open spec fn breakpoints_text(list: Seq<u16>) -> Seq<char> {
    if list.len() == 0 {
        "no breakpoints\n"@
    } else {
        address_lines(list)
    }
}

/// The addresses of a set, ascending.
pub open spec fn sorted_of(s: Set<u16>) -> Seq<u16> {
    choose|v: Seq<u16>| ascending(v) && v.to_set() == s
}

/// The letter of a condition code.
pub open spec fn cond_letter(c: ConditionFlag) -> char {
    match c {
        ConditionFlag::Negative => 'N',
        ConditionFlag::Zero => 'Z',
        ConditionFlag::Positive => 'P',
    }
}

/// One register of the dump: `R<n> x<value>`, then a line break after
/// every fourth register and two spaces otherwise.
pub open spec fn register_cell(m: Machine, i: int) -> Seq<char> {
    "R"@ + decimal_text(i as nat) + " x"@ + hex4(m.regs[i]) + (if i % 4 == 3 {
        "\n"@
    } else {
        "  "@
    })
}

/// The first `n` cells of the register dump.
pub open spec fn register_cells(m: Machine, n: nat) -> Seq<char>
    decreases n,
{
    if n == 0 {
        seq![]
    } else {
        register_cells(m, (n - 1) as nat) + register_cell(m, n - 1)
    }
}

/// The register dump: eight general-purpose registers four to a line, then
/// the program counter and the condition code.
pub open spec fn registers_text(m: Machine) -> Seq<char> {
    register_cells(m, 8) + "PC x"@ + hex4(m.pc) + "  COND "@ + seq![cond_letter(m.cond)] + "\n"@
}

/// The name of a register operand.
pub open spec fn register_label(r: Register) -> Seq<char> {
    match r {
        Register::General(n) => "R"@ + decimal_text(n as nat),
        Register::Pc => "PC"@,
    }
}

/// The machine with `register` set to `value`.
pub open spec fn with_register(m: Machine, register: Register, value: u16) -> Machine {
    match register {
        Register::General(n) => Machine { regs: m.regs.update((n % 8) as int, value), ..m },
        Register::Pc => Machine { pc: value, ..m },
    }
}

/// What a command does to a session, what it answers, and how the loop
/// goes on.
pub open spec fn dispatch_spec(s: Session, c: Command) -> (Session, Seq<char>, Flow) {
    match c {
        Command::Step(n) => {
            let (m, outcome) = steps_spec(s.machine, n as nat);
            (Session { machine: m, ..s }, report_text(outcome, m), flow_after(outcome))
        },
        Command::Continue => {
            let (m, outcome) = resume_spec(s.machine, s.breakpoints, u64::MAX as nat);
            (Session { machine: m, ..s }, report_text(outcome, m), flow_after(outcome))
        },
        Command::Break(a) => (
            Session { breakpoints: s.breakpoints.insert(a), ..s },
            (if s.breakpoints.contains(a) {
                "breakpoint already set at "@
            } else {
                "breakpoint set at "@
            }) + hex_word(a) + "\n"@,
            Flow::Continue,
        ),
        Command::Delete(a) => (
            Session { breakpoints: s.breakpoints.remove(a), ..s },
            (if s.breakpoints.contains(a) {
                "cleared breakpoint at "@
            } else {
                "no breakpoint at "@
            }) + hex_word(a) + "\n"@,
            Flow::Continue,
        ),
        Command::Breakpoints => (s, breakpoints_text(sorted_of(s.breakpoints)), Flow::Continue),
        Command::Registers => (s, registers_text(s.machine), Flow::Continue),
        Command::SetRegister(r, v) => (
            Session { machine: with_register(s.machine, r, v), ..s },
            register_label(r) + " = "@ + hex_word(v) + "\n"@,
            Flow::Continue,
        ),
        Command::WriteMemory(a, v) => (
            Session { machine: Machine { mem: s.machine.mem.update(a as int, v), ..s.machine }, ..s },
            hex_word(a) + " = "@ + hex_word(v) + "\n"@,
            Flow::Continue,
        ),
        Command::Disassemble { address, len } => {
            let start = match address {
                Some(a) => a,
                None => s.machine.pc,
            };
            (s, listing_text(start, window(s.machine.mem, start, len)), Flow::Continue)
        },
        Command::Reset => (
            Session { machine: loaded(s.program, s.machine.input, s.machine.output), ..s },
            "reset to the entry point\n"@,
            Flow::Continue,
        ),
        Command::Help => (s, HELP@, Flow::Continue),
        Command::Quit => (s, seq![], Flow::Quit),
    }
}

/// What one line of input does: a blank line nothing, a line that is no
/// command its error message, a command what [`dispatch_spec`] says.
pub open spec fn respond_spec(s: Session, line: Seq<char>) -> (Session, Seq<char>, Flow) {
    match parse_spec(line) {
        Err(CommandErrorSpec::Empty) => (s, seq![], Flow::Continue),
        Err(e) => (s, message_spec(e) + "\n"@, Flow::Continue),
        Ok(c) => dispatch_spec(s, c),
    }
}

/// The end of the line of `input` that starts at `i`: just past its line
/// feed, or the end of the input.
pub open spec fn next_line(input: Seq<char>, i: int) -> int {
    if line_end(input, i) < input.len() {
        line_end(input, i) + 1
    } else {
        input.len() as int
    }
}

/// A script of lines from position `i` on, run against a session: each
/// line is read after a prompt, and the run ends at a `quit` or, after one
/// more prompt, at the end of the script.
pub open spec fn repl_spec(s: Session, input: Seq<char>, i: int) -> (Session, Seq<char>)
    decreases input.len() - i,
{
    if i < 0 || i >= input.len() {
        (s, PROMPT@)
    } else {
        let end = next_line(input, i);
        proof {
            crate::lexer::lemma_line_end_bound(input, i);
        }
        let (s2, text, flow) = respond_spec(s, input.subrange(i, end));
        if flow == Flow::Quit {
            (s2, PROMPT@ + text)
        } else {
            let (s3, rest) = repl_spec(s2, input, end);
            (s3, PROMPT@ + text + rest)
        }
    }
}

/// Two ascending sequences with the same elements are the same sequence.
pub proof fn lemma_ascending_unique(a: Seq<u16>, b: Seq<u16>)
    requires
        ascending(a),
        ascending(b),
        a.to_set() == b.to_set(),
    ensures
        a == b,
    decreases a.len(),
{
    if a.len() == 0 || b.len() == 0 {
        if a.len() > 0 {
            assert(a.contains(a[0]));
            assert(a.to_set().contains(a[0]));
            assert(b.contains(a[0]));
        }
        if b.len() > 0 {
            assert(b.contains(b[0]));
            assert(b.to_set().contains(b[0]));
            assert(a.contains(b[0]));
        }
        assert(a =~= b);
    } else {
        assert(a.to_set().contains(a[0]));
        assert(b.to_set().contains(b[0]));
        let k = choose|k: int| 0 <= k < b.len() && b[k] == a[0];
        let j = choose|j: int| 0 <= j < a.len() && a[j] == b[0];
        if k > 0 {
            assert(b[0] < b[k]);
        }
        if j > 0 {
            assert(a[0] < a[j]);
        }
        assert(a[0] == b[0]);
        let a1 = a.drop_first();
        let b1 = b.drop_first();
        assert(a1.to_set() =~= b1.to_set()) by {
            assert forall|x: u16| a1.contains(x) <==> b1.contains(x) by {
                if a1.contains(x) {
                    let p = choose|p: int| 0 <= p < a1.len() && a1[p] == x;
                    assert(a[0] < a[p + 1]);
                    assert(a.contains(x));
                    assert(b.to_set().contains(x));
                    let q = choose|q: int| 0 <= q < b.len() && b[q] == x;
                    assert(q != 0);
                    assert(b1[q - 1] == x);
                }
                if b1.contains(x) {
                    let p = choose|p: int| 0 <= p < b1.len() && b1[p] == x;
                    assert(b[0] < b[p + 1]);
                    assert(b.contains(x));
                    assert(a.to_set().contains(x));
                    let q = choose|q: int| 0 <= q < a.len() && a[q] == x;
                    assert(q != 0);
                    assert(a1[q - 1] == x);
                }
            }
        }
        lemma_ascending_unique(a1, b1);
        assert(a =~= seq![a[0]] + a1);
        assert(b =~= seq![b[0]] + b1);
    }
}

/// Appends `x` and the four upper-case hexadecimal digits of `w`.
fn push_hex_word(out: &mut Vec<char>, w: u16)
    ensures
        final(out)@ == old(out)@ + hex_word(w),
{
    out.push('x');
    push_hex4(out, w);
    proof {
        assert(final(out)@ =~= old(out)@ + hex_word(w));
    }
}

/// Appends the program counter and the instruction it points at.
fn push_location(out: &mut Vec<char>, debugger: &Debugger)
    ensures
        final(out)@ == old(out)@ + location_text(debugger.machine()),
{
    let pc = debugger.registers().pc;
    let word = debugger.read_memory(pc);
    push_hex_word(out, pc);
    push_text(out, ": ");
    let text = render_instruction(word);
    push_text(out, text.as_str());
    push_text(out, "\n");
    proof {
        assert(final(out)@ =~= old(out)@ + location_text(debugger.machine()));
    }
}

/// Appends what an executing command reports.
fn push_report(out: &mut Vec<char>, outcome: Result<Stop, Error>, debugger: &Debugger)
    ensures
        final(out)@ == old(out)@ + report_text(outcome, debugger.machine()),
{
    match outcome {
        Ok(Stop::Stepped) => push_location(out, debugger),
        Ok(Stop::Breakpoint(a)) => {
            push_text(out, "breakpoint at ");
            push_hex_word(out, a);
            push_text(out, "\n");
            push_location(out, debugger);
        },
        Ok(Stop::Halted) => push_text(out, "halted\n"),
        Ok(Stop::AwaitingKey(_)) => {},
        Err(e) => {
            push_text(out, "error: ");
            let text = e.message();
            push_text(out, text.as_str());
            push_text(out, "\n");
        },
    }
    proof {
        assert(final(out)@ =~= old(out)@ + report_text(outcome, debugger.machine()));
    }
}

/// How the loop goes on after an executing command.
fn flow_of(outcome: Result<Stop, Error>) -> (f: Flow)
    ensures
        f == flow_after(outcome),
{
    match outcome {
        Ok(Stop::AwaitingKey(n)) => if n == 0 {
            Flow::AwaitKey(Command::Continue)
        } else {
            Flow::AwaitKey(Command::Step(n))
        },
        _ => Flow::Continue,
    }
}

/// Appends the register dump.
fn push_registers(out: &mut Vec<char>, debugger: &Debugger)
    ensures
        final(out)@ == old(out)@ + registers_text(debugger.machine()),
{
    let ghost m = debugger.machine();
    let registers = debugger.registers();
    proof {
        registers.lemma_eight();
    }
    let ghost start = out@;
    let mut i: u16 = 0;
    while i < 8
        invariant
            i <= 8,
            m == debugger.machine(),
            registers.gprs() == m.regs,
            m.regs.len() == 8,
            out@ == start + register_cells(m, i as nat),
        decreases 8 - i,
    {
        let ghost before = out@;
        push_text(out, "R");
        push_decimal(out, i as u64);
        push_text(out, " x");
        push_hex4(out, registers.get(i));
        if i % 4 == 3 {
            push_text(out, "\n");
        } else {
            push_text(out, "  ");
        }
        proof {
            assert(out@ =~= before + register_cell(m, i as int));
            assert(register_cells(m, (i + 1) as nat) == register_cells(m, i as nat) + register_cell(m, i as int));
        }
        i += 1;
    }
    push_text(out, "PC x");
    push_hex4(out, registers.pc);
    push_text(out, "  COND ");
    let letter = match registers.cond {
        ConditionFlag::Negative => 'N',
        ConditionFlag::Zero => 'Z',
        ConditionFlag::Positive => 'P',
    };
    out.push(letter);
    push_text(out, "\n");
    proof {
        assert(out@ =~= start + registers_text(m));
    }
}

/// Appends the breakpoint listing of `list`.
fn push_breakpoints(out: &mut Vec<char>, list: &[u16])
    ensures
        final(out)@ == old(out)@ + breakpoints_text(list@),
{
    if list.len() == 0 {
        push_text(out, "no breakpoints\n");
        return;
    }
    let ghost start = out@;
    let mut i: usize = 0;
    proof {
        assert(list@.take(0) =~= Seq::<u16>::empty());
        assert(out@ =~= start + address_lines(list@.take(0)));
    }
    while i < list.len()
        invariant
            i <= list@.len(),
            out@ == start + address_lines(list@.take(i as int)),
        decreases list.len() - i,
    {
        push_hex_word(out, list[i]);
        push_text(out, "\n");
        i += 1;
        proof {
            assert(list@.take(i as int).drop_last() =~= list@.take((i - 1) as int));
            assert(out@ =~= start + address_lines(list@.take(i as int)));
        }
    }
    proof {
        assert(list@.take(i as int) =~= list@);
    }
}

/// Appends the name of a register operand.
fn push_register_label(out: &mut Vec<char>, r: Register)
    ensures
        final(out)@ == old(out)@ + register_label(r),
{
    match r {
        Register::General(n) => {
            push_text(out, "R");
            push_decimal(out, n as u64);
        },
        Register::Pc => push_text(out, "PC"),
    }
    proof {
        assert(final(out)@ =~= old(out)@ + register_label(r));
    }
}

/// Runs one parsed command against the session, returning the text to show
/// and how the loop goes on. (What the program itself writes stays in the
/// session's console for the frontend to show first.)
pub fn dispatch(debugger: &mut Debugger, command: Command) -> (r: (String, Flow))
    ensures
        (session_of(final(debugger)), r.0@, r.1) == dispatch_spec(session_of(old(debugger)), command),
{
    let mut out: Vec<char> = Vec::new();
    let flow = match command {
        Command::Step(count) => {
            let outcome = debugger.step(count);
            push_report(&mut out, outcome, debugger);
            flow_of(outcome)
        },
        Command::Continue => {
            let outcome = debugger.resume();
            push_report(&mut out, outcome, debugger);
            flow_of(outcome)
        },
        Command::Break(address) => {
            if debugger.add_breakpoint(address) {
                push_text(&mut out, "breakpoint set at ");
            } else {
                push_text(&mut out, "breakpoint already set at ");
            }
            push_hex_word(&mut out, address);
            push_text(&mut out, "\n");
            Flow::Continue
        },
        Command::Delete(address) => {
            if debugger.remove_breakpoint(address) {
                push_text(&mut out, "cleared breakpoint at ");
            } else {
                push_text(&mut out, "no breakpoint at ");
            }
            push_hex_word(&mut out, address);
            push_text(&mut out, "\n");
            Flow::Continue
        },
        Command::Breakpoints => {
            let list = debugger.breakpoints();
            proof {
                let s = sorted_of(debugger.breakpoint_set());
                assert(ascending(s) && s.to_set() == debugger.breakpoint_set());
                lemma_ascending_unique(list@, s);
            }
            push_breakpoints(&mut out, list.as_slice());
            Flow::Continue
        },
        Command::Registers => {
            push_registers(&mut out, debugger);
            Flow::Continue
        },
        Command::SetRegister(register, value) => {
            debugger.set_register(register, value);
            push_register_label(&mut out, register);
            push_text(&mut out, " = ");
            push_hex_word(&mut out, value);
            push_text(&mut out, "\n");
            Flow::Continue
        },
        Command::WriteMemory(address, value) => {
            debugger.write_memory(address, value);
            push_hex_word(&mut out, address);
            push_text(&mut out, " = ");
            push_hex_word(&mut out, value);
            push_text(&mut out, "\n");
            Flow::Continue
        },
        Command::Disassemble { address, len } => {
            let start = match address {
                Some(a) => a,
                None => debugger.registers().pc,
            };
            let listing = debugger.disassemble(start, len);
            push_text(&mut out, listing.as_str());
            Flow::Continue
        },
        Command::Reset => {
            match debugger.reset() {
                Ok(()) => push_text(&mut out, "reset to the entry point\n"),
                Err(e) => {
                    push_text(&mut out, "error: ");
                    let text = e.message();
                    push_text(&mut out, text.as_str());
                    push_text(&mut out, "\n");
                },
            }
            Flow::Continue
        },
        Command::Help => {
            push_text(&mut out, HELP);
            Flow::Continue
        },
        Command::Quit => Flow::Quit,
    };
    proof {
        assert(out@ =~= dispatch_spec(session_of(old(debugger)), command).1);
        assert(session_of(debugger) == dispatch_spec(session_of(old(debugger)), command).0);
    }
    (string_from_chars(&out), flow)
}

/// Runs one line of input against the session: a blank line does nothing,
/// a line that holds no command answers its error, and a command is
/// dispatched.
pub fn respond(debugger: &mut Debugger, line: &str) -> (r: (String, Flow))
    ensures
        (session_of(final(debugger)), r.0@, r.1) == respond_spec(session_of(old(debugger)), line@),
{
    match parse(line) {
        Ok(command) => dispatch(debugger, command),
        Err(ParseError::Empty) => {
            let out: Vec<char> = Vec::new();
            (string_from_chars(&out), Flow::Continue)
        },
        Err(e) => {
            let mut out: Vec<char> = Vec::new();
            let text = e.message();
            push_text(&mut out, text.as_str());
            push_text(&mut out, "\n");
            (string_from_chars(&out), Flow::Continue)
        },
    }
}

/// Runs a script of command lines against the session and returns the
/// transcript: before each line the prompt, then the line's answer. The run
/// ends at a `quit`, or at the end of the script after one more prompt. (A
/// program waiting for a key gets none here; the script goes on with its
/// next line.)
#[verifier::rlimit(60)]
#[verifier::spinoff_prover]
pub fn repl(debugger: &mut Debugger, input: &str) -> (r: String)
    ensures
        (session_of(final(debugger)), r@) == repl_spec(session_of(old(debugger)), input@, 0),
{
    let cs = chars_of(input);
    let n = cs.len();
    let mut out: Vec<char> = Vec::new();
    let mut i: usize = 0;
    proof {
        assert(out@ + repl_spec(session_of(debugger), cs@, 0).1 =~= repl_spec(session_of(debugger), cs@, 0).1);
    }
    while i < n
        invariant
            i <= n == cs@.len(),
            cs@ == input@,
            repl_spec(session_of(old(debugger)), cs@, 0).0 == repl_spec(session_of(debugger), cs@, i as int).0,
            repl_spec(session_of(old(debugger)), cs@, 0).1 == out@ + repl_spec(
                session_of(debugger),
                cs@,
                i as int,
            ).1,
        decreases n - i,
    {
        let ghost before = out@;
        let ghost s = session_of(debugger);
        push_text(&mut out, PROMPT);
        let j = crate::lexer::find_line_end(&cs, i);
        proof {
            crate::lexer::lemma_line_end_bound(cs@, i as int);
        }
        let end = if j < n {
            j + 1
        } else {
            n
        };
        let line = string_from_chars(vstd::slice::slice_subrange(cs.as_slice(), i, end));
        let (text, flow) = respond(debugger, line.as_str());
        push_text(&mut out, text.as_str());
        if flow == Flow::Quit {
            proof {
                assert(out@ =~= before + (PROMPT@ + text@));
            }
            return string_from_chars(&out);
        }
        proof {
            assert(before + (PROMPT@ + text@ + repl_spec(session_of(debugger), cs@, end as int).1) =~= out@
                + repl_spec(session_of(debugger), cs@, end as int).1);
        }
        i = end;
    }
    push_text(&mut out, PROMPT);
    string_from_chars(&out)
}

/// A step does not depend on the breakpoints: two sessions that differ at
/// most in their breakpoints step to the same machine, answer with the same
/// text and go on the same way, and each keeps its own breakpoints.
pub proof fn lemma_step_ignores_breakpoints(s1: Session, s2: Session, n: u16)
    requires
        s1.machine == s2.machine,
        s1.program == s2.program,
    ensures
        dispatch_spec(s1, Command::Step(n)).0.machine == dispatch_spec(s2, Command::Step(n)).0.machine,
        dispatch_spec(s1, Command::Step(n)).1 == dispatch_spec(s2, Command::Step(n)).1,
        dispatch_spec(s1, Command::Step(n)).2 == dispatch_spec(s2, Command::Step(n)).2,
        dispatch_spec(s1, Command::Step(n)).0.breakpoints == s1.breakpoints,
        dispatch_spec(s2, Command::Step(n)).0.breakpoints == s2.breakpoints,
{
}

/// Setting a breakpoint that was not set and then clearing it leaves the
/// session as it was.
pub proof fn lemma_break_then_delete(s: Session, a: u16)
    requires
        !s.breakpoints.contains(a),
    ensures
        dispatch_spec(dispatch_spec(s, Command::Break(a)).0, Command::Delete(a)).0 == s,
{
    assert(s.breakpoints.insert(a).remove(a) =~= s.breakpoints);
}

/// Setting a breakpoint twice is setting it once.
pub proof fn lemma_break_idempotent(s: Session, a: u16)
    ensures
        dispatch_spec(dispatch_spec(s, Command::Break(a)).0, Command::Break(a)).0 == dispatch_spec(
            s,
            Command::Break(a),
        ).0,
{
    assert(s.breakpoints.insert(a).insert(a) =~= s.breakpoints.insert(a));
}

/// A reset forgets every edit and every run but keeps the breakpoints and
/// the program: sessions that differ only in their machine state (keeping
/// the console) reset to the same session.
pub proof fn lemma_reset_forgets(s1: Session, s2: Session)
    requires
        s1.program == s2.program,
        s1.breakpoints == s2.breakpoints,
        s1.machine.input == s2.machine.input,
        s1.machine.output == s2.machine.output,
    ensures
        dispatch_spec(s1, Command::Reset) == dispatch_spec(s2, Command::Reset),
        dispatch_spec(s1, Command::Reset).0.breakpoints == s1.breakpoints,
        dispatch_spec(s1, Command::Reset).0.program == s1.program,
{
}

/// Inspection leaves the session as it is: listing breakpoints, dumping
/// registers, disassembling and showing help change nothing.
pub proof fn lemma_inspection_is_pure(s: Session, address: Option<u16>, len: u16)
    ensures
        dispatch_spec(s, Command::Breakpoints).0 == s,
        dispatch_spec(s, Command::Registers).0 == s,
        dispatch_spec(s, Command::Disassemble { address, len }).0 == s,
        dispatch_spec(s, Command::Help).0 == s,
        dispatch_spec(s, Command::Quit) == (s, Seq::<char>::empty(), Flow::Quit),
{
}


/// A disassembly window starts where it is told to, and at the program
/// counter when no address is given: the listing opens with `.ORIG` at the
/// start address and lists the `len` words of memory from there on; with no
/// address the answer is the one for the current program counter.
pub proof fn lemma_disassemble_window(s: Session, len: u16, a: u16)
    ensures
        dispatch_spec(s, Command::Disassemble { address: None, len }) == dispatch_spec(
            s,
            Command::Disassemble { address: Some(s.machine.pc), len },
        ),
        dispatch_spec(s, Command::Disassemble { address: Some(a), len }).1.take(11) == seq![
            '.',
            'O',
            'R',
            'I',
            'G',
            ' ',
            'x',
        ] + hex4(a),
        exists|words: Seq<u16>|
            #![trigger listing_text(a, words)]
            words.len() == len && (forall|k: int| 0 <= k < len ==> #[trigger] words[k] == s.machine.mem[wrap16(a + k) as int])
                && dispatch_spec(s, Command::Disassemble { address: Some(a), len }).1 == listing_text(a, words),
{
    let t = dispatch_spec(s, Command::Disassemble { address: Some(a), len }).1;
    let words = window(s.machine.mem, a, len);
    assert(t == listing_text(a, words));
    assert(t.take(11) =~= seq!['.', 'O', 'R', 'I', 'G', ' ', 'x'] + hex4(a));
}

/// A script stops at a line that quits: whatever follows that line is
/// never read.
pub proof fn lemma_quit_ends_script(s: Session, line: Seq<char>, rest: Seq<char>)
    requires
        line.len() > 0,
        line.last() == '\n',
        forall|k: int| 0 <= k < line.len() - 1 ==> line[k] != '\n',
        respond_spec(s, line).2 == Flow::Quit,
    ensures
        repl_spec(s, line + rest, 0) == repl_spec(s, line, 0),
{
    let a = line + rest;
    lemma_first_line_end(a, line.len() - 1);
    lemma_first_line_end(line, line.len() - 1);
    assert(a.subrange(0, line.len() as int) =~= line);
    assert(line.subrange(0, line.len() as int) =~= line);
}

/// The first line feed of `s` is at `k` when none comes before it.
proof fn lemma_first_line_end(s: Seq<char>, k: int)
    requires
        0 <= k < s.len(),
        s[k] == '\n',
        forall|j: int| 0 <= j < k ==> s[j] != '\n',
    ensures
        line_end(s, 0) == k,
{
    lemma_line_end_from(s, 0, k);
}

proof fn lemma_line_end_from(s: Seq<char>, i: int, k: int)
    requires
        0 <= i <= k < s.len(),
        s[k] == '\n',
        forall|j: int| i <= j < k ==> s[j] != '\n',
    ensures
        line_end(s, i) == k,
    decreases k - i,
{
    if i < k {
        lemma_line_end_from(s, i + 1, k);
    }
}

} // verus!
