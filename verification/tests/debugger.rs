//! Tests of the debugger: command parsing, the engine and the command loop.

use lc3box::cmd::{parse, Command, ParseError, Register};
use lc3box::debug::{Debugger, Stop};
use lc3box::machine::Error;
use lc3box::object::ObjectFile;
use lc3box::repl::{dispatch, repl, respond, Flow};

#[test]
fn parses_execution_and_meta_commands() {
    assert_eq!(parse("step"), Ok(Command::Step(1)));
    assert_eq!(parse("s 4"), Ok(Command::Step(4)));
    assert_eq!(parse("si 16"), Ok(Command::Step(16)));
    assert_eq!(parse("continue"), Ok(Command::Continue));
    assert_eq!(parse("c"), Ok(Command::Continue));
    assert_eq!(parse("reset"), Ok(Command::Reset));
    assert_eq!(parse("help"), Ok(Command::Help));
    assert_eq!(parse("quit"), Ok(Command::Quit));
}

#[test]
fn parses_breakpoint_commands() {
    assert_eq!(parse("break x3001"), Ok(Command::Break(0x3001)));
    assert_eq!(parse("b x3001"), Ok(Command::Break(0x3001)));
    assert_eq!(parse("delete x3001"), Ok(Command::Delete(0x3001)));
    assert_eq!(parse("d x3001"), Ok(Command::Delete(0x3001)));
    assert_eq!(parse("breaks"), Ok(Command::Breakpoints));
}

#[test]
fn parses_inspection_and_edit_commands() {
    assert_eq!(parse("registers"), Ok(Command::Registers));
    assert_eq!(parse("regs"), Ok(Command::Registers));
    assert_eq!(
        parse("set R3 x00FF"),
        Ok(Command::SetRegister(Register::General(3), 0x00FF))
    );
    assert_eq!(
        parse("set PC x3000"),
        Ok(Command::SetRegister(Register::Pc, 0x3000))
    );
    assert_eq!(
        parse("write x4000 xBEEF"),
        Ok(Command::WriteMemory(0x4000, 0xBEEF))
    );
    assert_eq!(
        parse("disassemble"),
        Ok(Command::Disassemble { address: None, len: 8 })
    );
    assert_eq!(
        parse("dis x3000"),
        Ok(Command::Disassemble { address: Some(0x3000), len: 8 })
    );
    assert_eq!(
        parse("x x3000 4"),
        Ok(Command::Disassemble { address: Some(0x3000), len: 4 })
    );
}

#[test]
fn accepts_hex_decimal_and_signed_number_forms() {
    assert_eq!(parse("break x3001"), Ok(Command::Break(0x3001)));
    assert_eq!(parse("break 0x3001"), Ok(Command::Break(0x3001)));
    assert_eq!(parse("break 12289"), Ok(Command::Break(12289)));
    assert_eq!(parse("break #12289"), Ok(Command::Break(12289)));
    // A negative decimal wraps into its two's-complement word.
    assert_eq!(
        parse("set R0 #-1"),
        Ok(Command::SetRegister(Register::General(0), 0xFFFF))
    );
}

#[test]
fn command_keywords_and_registers_are_case_insensitive() {
    assert_eq!(parse("STEP 2"), Ok(Command::Step(2)));
    assert_eq!(parse("Continue"), Ok(Command::Continue));
    assert_eq!(
        parse("SET r5 X10"),
        Ok(Command::SetRegister(Register::General(5), 0x10))
    );
}

#[test]
fn rejects_malformed_input() {
    assert_eq!(parse(""), Err(ParseError::Empty));
    assert_eq!(parse("   "), Err(ParseError::Empty));
    assert!(matches!(parse("frobnicate"), Err(ParseError::UnknownCommand(_))));
    assert!(matches!(parse("break"), Err(ParseError::MissingArgument { .. })));
    assert!(matches!(parse("continue now"), Err(ParseError::UnexpectedArgument { .. })));
    assert!(matches!(parse("break xZZZZ"), Err(ParseError::InvalidNumber(_))));
    assert!(matches!(parse("set R9 1"), Err(ParseError::InvalidRegister(_))));
    assert!(matches!(parse("set R0"), Err(ParseError::MissingArgument { .. })));
}

#[test]
fn operand_edge_cases_follow_the_number_grammar() {
    assert_eq!(parse("break x+10"), Ok(Command::Break(0x10)));
    assert_eq!(parse("break #-32768"), Ok(Command::Break(0x8000)));
    assert_eq!(parse("break 65535"), Ok(Command::Break(0xFFFF)));
    assert_eq!(parse("break 65536"), Err(ParseError::InvalidNumber("65536".to_string())));
    assert_eq!(parse("break #-32769"), Err(ParseError::InvalidNumber("#-32769".to_string())));
    assert_eq!(parse("break 0x"), Err(ParseError::InvalidNumber("0x".to_string())));
    assert_eq!(parse("set r+3 1"), Ok(Command::SetRegister(Register::General(3), 1)));
    assert_eq!(parse("set R07 1"), Ok(Command::SetRegister(Register::General(7), 1)));
    assert_eq!(parse("\tstep\u{00A0}3\n"), Ok(Command::Step(3)));
    assert_eq!(
        parse("x 1 2 3"),
        Err(ParseError::UnexpectedArgument { command: "disassemble" })
    );
    assert_eq!(
        parse("Frob x"),
        Err(ParseError::UnknownCommand("Frob".to_string()))
    );
}

#[test]
fn command_errors_read_as_their_messages() {
    assert_eq!(ParseError::Empty.message(), "empty command");
    assert_eq!(
        ParseError::UnknownCommand("bogus".to_string()).message(),
        "unknown command 'bogus'"
    );
    assert_eq!(
        ParseError::MissingArgument { command: "set" }.message(),
        "'set' is missing an operand"
    );
    assert_eq!(
        ParseError::UnexpectedArgument { command: "quit" }.message(),
        "'quit' was given too many operands"
    );
    assert_eq!(
        ParseError::InvalidNumber("xZZ".to_string()).message(),
        "invalid number 'xZZ'"
    );
    assert_eq!(
        ParseError::InvalidRegister("R9".to_string()).message(),
        "invalid register 'R9'; expected R0-R7 or PC"
    );
}

/// A debugger over `words` loaded at the standard entry point `x3000`.
fn debugger(words: &[u16]) -> Debugger {
    Debugger::new(vec![ObjectFile {
        origin: 0x3000,
        words: words.to_vec(),
    }])
    .expect("synthetic program fits in memory")
}

#[test]
fn step_runs_exactly_the_requested_count_then_halts_early() {
    // ADD R0,R0,#1 ; ADD R0,R0,#1 ; HALT
    let mut dbg = debugger(&[0x1021, 0x1021, 0xF025]);

    assert_eq!(dbg.step(2).expect("step"), Stop::Stepped);
    assert_eq!(dbg.registers().get(0), 2);
    assert_eq!(dbg.registers().pc, 0x3002);

    // Five more requested, but the HALT ends the run after one.
    assert_eq!(dbg.step(5).expect("step"), Stop::Halted);
    assert_eq!(dbg.registers().get(0), 2);
}

#[test]
fn resume_stops_at_breakpoints_and_a_cleared_one_no_longer_stops() {
    // ADD R0,R0,#1 (x3), HALT.
    let mut dbg = debugger(&[0x1021, 0x1021, 0x1021, 0xF025]);
    assert!(dbg.add_breakpoint(0x3001));
    assert!(dbg.add_breakpoint(0x3002));

    assert_eq!(dbg.resume().expect("resume"), Stop::Breakpoint(0x3001));
    assert_eq!(dbg.registers().get(0), 1);

    assert!(dbg.remove_breakpoint(0x3002));
    assert_eq!(dbg.resume().expect("resume"), Stop::Halted);
    assert_eq!(dbg.registers().get(0), 3);
}

#[test]
fn breakpoints_lists_active_addresses_in_order() {
    let mut dbg = debugger(&[0xF025]);
    dbg.add_breakpoint(0x3005);
    dbg.add_breakpoint(0x3001);
    assert!(!dbg.add_breakpoint(0x3005)); // a duplicate is not re-added
    dbg.add_breakpoint(0x3003);
    dbg.remove_breakpoint(0x3001);

    assert_eq!(dbg.breakpoints(), vec![0x3003, 0x3005]);
}

#[test]
fn register_edits_drive_execution() {
    // ADD R0, R1, R2 ; HALT
    let mut dbg = debugger(&[0x1042, 0xF025]);
    dbg.set_register(Register::General(1), 7);
    dbg.set_register(Register::General(2), 35);

    assert_eq!(dbg.step(1).expect("step"), Stop::Stepped);
    assert_eq!(dbg.registers().get(0), 42);
}

#[test]
fn setting_the_program_counter_redirects_the_fetch() {
    let mut dbg = debugger(&[0x1021, 0xF025]);
    dbg.set_register(Register::Pc, 0x3001);

    assert_eq!(dbg.step(1).expect("step"), Stop::Halted);
    assert_eq!(dbg.registers().get(0), 0);
}

#[test]
fn memory_edits_drive_execution() {
    let mut dbg = debugger(&[0x1021, 0xF025]);
    dbg.write_memory(0x3001, 0x1021);

    assert_eq!(dbg.step(2).expect("step"), Stop::Stepped);
    assert_eq!(dbg.registers().get(0), 2);
}

#[test]
fn reset_returns_to_the_entry_point_and_restores_clobbered_memory() {
    let mut dbg = debugger(&[0x1021, 0x1021, 0xF025]);
    dbg.add_breakpoint(0x3001);
    dbg.step(2).expect("step");
    dbg.write_memory(0x3000, 0xF025); // clobber the entry instruction

    dbg.reset().expect("reset");

    assert_eq!(dbg.registers().pc, 0x3000);
    assert_eq!(dbg.registers().get(0), 0);
    assert_eq!(dbg.read_memory(0x3000), 0x1021); // the loaded word is back
    assert_eq!(dbg.breakpoints(), vec![0x3001]); // kept
}

#[test]
fn disassemble_window_renders_decoded_instructions_at_their_addresses() {
    let dbg = debugger(&[0x1021, 0xF025]);
    let listing = dbg.disassemble(0x3000, 2);

    assert!(listing.contains("ADD R0, R0, #1"), "{listing}");
    assert!(listing.lines().any(|line| line.contains("HALT")), "{listing}");
    assert!(listing.contains("x3000"), "{listing}");
}

#[test]
fn a_program_that_does_not_fit_is_refused() {
    assert!(matches!(
        Debugger::new(vec![ObjectFile { origin: 0xFFFF, words: vec![1, 2] }]),
        Err(Error::ProgramOutOfRange { origin: 0xFFFF, words: 2 })
    ));
}

#[test]
fn a_key_read_waits_for_the_frontend_and_output_is_collected() {
    // GETC ; OUT ; HALT
    let mut dbg = debugger(&[0xF020, 0xF021, 0xF025]);
    assert_eq!(dbg.step(3).expect("step"), Stop::AwaitingKey(3));
    assert_eq!(dbg.registers().pc, 0x3000);
    dbg.push_key(b'k');
    assert_eq!(dbg.step(3).expect("step"), Stop::Halted);
    assert_eq!(dbg.take_output(), b"k".to_vec());
    assert!(dbg.take_output().is_empty());
}

fn dispatched(dbg: &mut Debugger, command: Command) -> String {
    dispatch(dbg, command).0
}

#[test]
fn stepping_reports_the_next_location_and_then_the_halt() {
    // ADD R0,R0,#1 ; HALT
    let mut dbg = debugger(&[0x1021, 0xF025]);

    let stepped = dispatched(&mut dbg, Command::Step(1));
    assert!(stepped.contains("x3001"), "location: {stepped}");
    assert!(stepped.contains("HALT"), "next instruction: {stepped}");
    assert_eq!(dbg.registers().get(0), 1);

    assert!(dispatched(&mut dbg, Command::Step(1)).contains("halted"));
}

#[test]
fn continue_runs_to_halt_advancing_state() {
    let mut dbg = debugger(&[0x1021, 0x1021, 0xF025]);
    assert!(dispatched(&mut dbg, Command::Continue).contains("halted"));
    assert_eq!(dbg.registers().get(0), 2);
}

#[test]
fn continue_reports_the_breakpoint_it_stops_on() {
    let mut dbg = debugger(&[0x1021, 0x1021, 0xF025]);
    dbg.add_breakpoint(0x3001);
    let report = dispatched(&mut dbg, Command::Continue);
    assert!(report.contains("breakpoint at x3001"), "{report}");
    assert_eq!(dbg.registers().get(0), 1);
}

#[test]
fn registers_command_shows_edited_values_and_the_condition_code() {
    let mut dbg = debugger(&[0xF025]);
    dispatched(&mut dbg, Command::SetRegister(Register::General(0), 42));
    let dump = dispatched(&mut dbg, Command::Registers);
    assert!(dump.contains("R0 x002A"), "{dump}");
    assert!(dump.contains("PC x3000"), "{dump}");
    assert!(dump.contains("COND Z"), "{dump}");
}

#[test]
fn breakpoint_commands_set_list_in_order_and_clear() {
    let mut dbg = debugger(&[0xF025]);
    dispatched(&mut dbg, Command::Break(0x3005));
    dispatched(&mut dbg, Command::Break(0x3001));

    let listed = dispatched(&mut dbg, Command::Breakpoints);
    assert_eq!(listed, "x3001\nx3005\n");

    dispatched(&mut dbg, Command::Delete(0x3001));
    assert_eq!(dispatched(&mut dbg, Command::Breakpoints), "x3005\n");
}

#[test]
fn memory_edits_are_observable_through_the_disassembly_window() {
    let mut dbg = debugger(&[0xF025]);
    dispatched(&mut dbg, Command::WriteMemory(0x3000, 0x1021));
    let listing = dispatched(
        &mut dbg,
        Command::Disassemble { address: Some(0x3000), len: 1 },
    );
    assert!(listing.contains("ADD R0, R0, #1"), "{listing}");
}

#[test]
fn quit_signals_the_loop_to_leave() {
    let mut dbg = debugger(&[0xF025]);
    assert!(matches!(dispatch(&mut dbg, Command::Quit), (_, Flow::Quit)));
}

#[test]
fn loop_reports_parse_errors_and_runs_help_until_quit() {
    let mut dbg = debugger(&[0xF025]);
    let input = "help\nbogus\nquit\nregisters\n"; // commands past quit go unread
    let text = repl(&mut dbg, input);

    assert!(text.contains("step [n]"), "help summary: {text}");
    assert!(text.contains("unknown command 'bogus'"), "error: {text}");
    assert!(!text.contains("COND"), "quit must stop before 'registers': {text}");
}

#[test]
fn loop_leaves_at_end_of_input_without_a_quit() {
    let mut dbg = debugger(&[0xF025]);
    let input = "registers\n"; // no quit: end of input ends the session
    assert!(repl(&mut dbg, input).contains("PC x3000"));
}

#[test]
fn answers_are_exact() {
    let mut dbg = debugger(&[0x1021, 0xF025]);
    assert_eq!(
        dispatched(&mut dbg, Command::Registers),
        "R0 x0000  R1 x0000  R2 x0000  R3 x0000\nR4 x0000  R5 x0000  R6 x0000  R7 x0000\nPC x3000  COND Z\n"
    );
    assert_eq!(dispatched(&mut dbg, Command::Step(1)), "x3001: HALT\n");
    assert_eq!(dispatched(&mut dbg, Command::Break(0x3001)), "breakpoint set at x3001\n");
    assert_eq!(dispatched(&mut dbg, Command::Break(0x3001)), "breakpoint already set at x3001\n");
    assert_eq!(dispatched(&mut dbg, Command::Delete(0x3002)), "no breakpoint at x3002\n");
    assert_eq!(dispatched(&mut dbg, Command::Delete(0x3001)), "cleared breakpoint at x3001\n");
    assert_eq!(dispatched(&mut dbg, Command::Breakpoints), "no breakpoints\n");
    assert_eq!(
        dispatched(&mut dbg, Command::SetRegister(Register::Pc, 0x3000)),
        "PC = x3000\n"
    );
    assert_eq!(dispatched(&mut dbg, Command::Reset), "reset to the entry point\n");
    assert_eq!(dbg.registers().get(0), 0);
    assert_eq!(dispatched(&mut dbg, Command::WriteMemory(0x4000, 0xD000)), "x4000 = xD000\n");
    dispatched(&mut dbg, Command::SetRegister(Register::Pc, 0x4000));
    assert_eq!(
        dispatched(&mut dbg, Command::Step(1)),
        "error: reserved opcode: 0xd000\n"
    );
    assert_eq!(respond(&mut dbg, "  \n"), (String::new(), Flow::Continue));
    assert_eq!(
        respond(&mut dbg, "set R9 1\n"),
        ("invalid register 'R9'; expected R0-R7 or PC\n".to_string(), Flow::Continue)
    );
    assert_eq!(repl(&mut dbg, "quit\n"), "(lc3dbg) ");
    assert_eq!(repl(&mut dbg, ""), "(lc3dbg) ");
}

#[test]
fn a_waiting_program_asks_the_loop_for_a_key() {
    // GETC ; HALT
    let mut dbg = debugger(&[0xF020, 0xF025]);
    assert_eq!(dispatch(&mut dbg, Command::Step(2)), (String::new(), Flow::AwaitKey(Command::Step(2))));
    assert_eq!(dispatch(&mut dbg, Command::Continue), (String::new(), Flow::AwaitKey(Command::Continue)));
    dbg.push_key(b'a');
    assert_eq!(dispatch(&mut dbg, Command::Continue).0, "halted\n");
}

#[test]
fn stepping_does_not_depend_on_breakpoints() {
    // ADD R0,R0,#1 ; ADD R0,R0,#1 ; HALT
    let words = [0x1021, 0x1021, 0xF025];
    let mut plain = debugger(&words);
    let mut marked = debugger(&words);
    marked.add_breakpoint(0x3001);
    marked.add_breakpoint(0x3002);
    assert_eq!(plain.step(2), marked.step(2));
    assert_eq!(plain.registers().gpr, marked.registers().gpr);
    assert_eq!(plain.registers().pc, marked.registers().pc);
    assert_eq!(plain.step(5), Ok(Stop::Halted));
    assert_eq!(marked.step(5), Ok(Stop::Halted));
    assert_eq!(plain.registers().gpr, marked.registers().gpr);
    assert_eq!(plain.registers().pc, marked.registers().pc);
    assert_eq!(marked.breakpoints(), vec![0x3001, 0x3002]);
}

#[test]
fn a_step_of_zero_runs_nothing() {
    let mut dbg = debugger(&[0x1021, 0xF025]);
    assert_eq!(dbg.step(0), Ok(Stop::Stepped));
    assert_eq!(dbg.registers().pc, 0x3000);
}

#[test]
fn a_step_runs_up_to_the_first_halt() {
    // ADD ; ADD ; HALT ; ADD
    let words = [0x1021, 0x1021, 0xF025, 0x1021];
    let mut short = debugger(&words);
    assert_eq!(short.step(2), Ok(Stop::Stepped));
    assert_eq!(short.registers().pc, 0x3002);
    assert_eq!(short.registers().gpr[0], 2);
    let mut long = debugger(&words);
    assert_eq!(long.step(3), Ok(Stop::Halted));
    assert_eq!(long.registers().pc, 0x3003);
    let mut longer = debugger(&words);
    assert_eq!(longer.step(9), Ok(Stop::Halted));
    assert_eq!(longer.registers().pc, 0x3003);
    assert_eq!(longer.registers().gpr[0], 2);
}
