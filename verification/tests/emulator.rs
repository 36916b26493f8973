//! Tests of the first-generation machine model.

use lc3box::emulator::{Opcode, Registers, Trapcode, MEMORY_SIZE, PC_START, VM};
use lc3box::machine::{Console, Step};

#[test]
fn fresh_registers_start_cleared_at_the_program_start() {
    let registers = Registers::new();
    for index in 0..10u16 {
        if index == 8 {
            assert_eq!(registers.get(index), PC_START);
        } else {
            assert_eq!(registers.get(index), 0);
        }
    }
}

#[test]
fn the_condition_register_follows_the_sign_of_a_register() {
    let mut registers = Registers::new();
    registers.update(3, 0);
    registers.update_cond_register(3);
    assert_eq!(registers.cond, 2);
    registers.update(3, 0x8001);
    registers.update_cond_register(3);
    assert_eq!(registers.cond, 4);
    registers.update(3, 7);
    registers.update_cond_register(3);
    assert_eq!(registers.cond, 1);
}

#[test]
fn memory_reads_back_what_was_written() {
    let mut vm = VM::new();
    vm.write_memory(MEMORY_SIZE - 1, 0xBEEF);
    assert_eq!(vm.read_memory((MEMORY_SIZE - 1) as u16), 0xBEEF);
    assert_eq!(vm.read_memory(0x3000), 0);
}

#[test]
fn only_branches_are_decoded_and_only_six_vectors_name_routines() {
    assert_eq!(Opcode::get(0x0E05), Some(Opcode::Br));
    assert_eq!(Opcode::get(0x1234), None);
    assert_eq!(Trapcode::try_from(0x25), Ok(Trapcode::Halt));
    assert_eq!(Trapcode::try_from(0x20), Ok(Trapcode::Getc));
    assert_eq!(Trapcode::try_from(0x26), Err(0x26));
}

#[test]
fn getc_takes_the_oldest_key_or_waits_for_one() {
    let mut vm = VM::new();
    let mut console = Console::new();
    assert_eq!(Trapcode::execute(0xF020, &mut vm, &mut console), Step::AwaitingKey);
    assert_eq!(vm.registers.r0, 0);
    console.input = vec![b'a', b'b'];
    assert_eq!(Trapcode::execute(0xF020, &mut vm, &mut console), Step::Continue);
    assert_eq!(vm.registers.r0, u16::from(b'a'));
    assert_eq!(console.input, vec![b'b']);
    assert!(console.output.is_empty());
}

#[test]
fn out_prints_the_low_byte_of_r0_as_a_character() {
    let mut vm = VM::new();
    let mut console = Console::new();
    vm.registers.r0 = 0x4148;
    assert_eq!(Trapcode::execute(0xF021, &mut vm, &mut console), Step::Continue);
    vm.registers.r0 = 0x00E9;
    Trapcode::execute(0xF021, &mut vm, &mut console);
    assert_eq!(console.output, "Hé".as_bytes().to_vec());
}

#[test]
fn puts_and_putsp_print_strings_up_to_a_zero_word() {
    let mut vm = VM::new();
    let mut console = Console::new();
    for (i, c) in "Hi!".bytes().enumerate() {
        vm.write_memory(0x4000 + i, u16::from(c));
    }
    vm.registers.r0 = 0x4000;
    assert_eq!(Trapcode::execute(0xF022, &mut vm, &mut console), Step::Continue);
    assert_eq!(console.output, b"Hi!".to_vec());

    let mut console = Console::new();
    vm.write_memory(0x5000, 0x6548);
    vm.write_memory(0x5001, 0x0079);
    vm.registers.r0 = 0x5000;
    assert_eq!(Trapcode::execute(0xF024, &mut vm, &mut console), Step::Continue);
    assert_eq!(console.output, b"Hey".to_vec());
}

#[test]
fn in_prompts_for_a_key_and_halt_reports_the_end() {
    let mut vm = VM::new();
    let mut console = Console::new();
    console.input = vec![b'z'];
    assert_eq!(Trapcode::execute(0xF023, &mut vm, &mut console), Step::Continue);
    assert_eq!(vm.registers.r0, u16::from(b'z'));
    assert_eq!(console.output, b"Enter a character: ".to_vec());

    let mut console = Console::new();
    assert_eq!(Trapcode::execute(0xF025, &mut vm, &mut console), Step::Halted);
    assert_eq!(console.output, b"\nHALT detected!\n".to_vec());
}
