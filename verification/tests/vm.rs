//! Tests of the virtual machine: memory, registers, execution, traps and
//! loading.

use lc3box::machine::{Console, Error, Lc3VM, Step};
use lc3box::memory::Memory;
use lc3box::memory_map::{KBDR, KBSR, PC_START};
use lc3box::object::{ObjectError, ObjectFile};
use lc3box::register::ConditionFlag;
use lc3box::registers::Registers;

/// Loads `words` consecutively from `PC_START`, ready for [`Lc3VM::run`].
fn vm_with(words: &[u16]) -> Lc3VM {
    let mut vm = Lc3VM::new();
    for (offset, &word) in words.iter().enumerate() {
        let address = PC_START.wrapping_add(u16::try_from(offset).expect("program fits"));
        vm.memory.write(address, word);
    }
    vm
}

#[test]
fn reads_back_what_was_written_across_the_whole_space() {
    let mut memory = Memory::new();

    memory.write(0x0000, 0x1234);
    memory.write(0xFFFF, 0xBEEF);
    assert_eq!(memory.read(0x0000), 0x1234);
    assert_eq!(memory.read(0xFFFF), 0xBEEF);
}

#[test]
fn a_region_is_copied_only_when_it_fits() {
    let mut memory = Memory::new();
    assert!(memory.region_mut(0xFFFE, &[1, 2]));
    assert_eq!(memory.read(0xFFFE), 1);
    assert_eq!(memory.read(0xFFFF), 2);
    assert!(!memory.region_mut(0xFFFF, &[7, 8]));
    assert_eq!(memory.read(0xFFFF), 2);
}

#[test]
fn flags_follow_the_sign_of_the_written_register() {
    let mut registers = Registers::new();

    registers.set(3, 0);
    registers.update_flags(3);
    assert_eq!(registers.cond, ConditionFlag::Zero);

    registers.set(3, 0x8000);
    registers.update_flags(3);
    assert_eq!(registers.cond, ConditionFlag::Negative);

    registers.set(3, 0x0001);
    registers.update_flags(3);
    assert_eq!(registers.cond, ConditionFlag::Positive);
}

#[test]
fn a_register_is_selected_by_its_low_three_bits() {
    let mut registers = Registers::new();
    registers.set(9, 0x55);
    assert_eq!(registers.get(1), 0x55);
    assert_eq!(registers.pc, PC_START);
}

#[test]
fn add_immediate_executes_and_sets_condition_code() {
    // ADD R0, R0, #5 ; TRAP HALT
    let mut vm = vm_with(&[0x1025, 0xF025]);
    let mut console = Console::new();
    assert!(vm.run(&mut console).is_ok());
    assert_eq!(vm.registers.get(0), 5);
    assert_eq!(vm.registers.cond, ConditionFlag::Positive);
}

#[test]
fn halt_stops_the_machine_without_exiting_the_process() {
    let mut vm = vm_with(&[0xF025]);
    let mut console = Console::new();
    assert!(vm.run(&mut console).is_ok());
}

#[test]
fn ordinary_instruction_continues() {
    let mut vm = Lc3VM::new();
    let mut console = Console::new();
    // ADD R0, R0, #0 — a no-op that must let execution continue.
    assert!(matches!(vm.execute(0x1020, &mut console), Ok(Step::Continue)));
}

#[test]
fn rti_outside_supervisor_mode_is_rejected() {
    let mut vm = Lc3VM::new();
    let mut console = Console::new();
    assert!(matches!(
        vm.execute(0x8000, &mut console),
        Err(Error::PrivilegedInstruction(0x8000))
    ));
}

#[test]
fn reserved_opcode_is_rejected() {
    let mut vm = Lc3VM::new();
    let mut console = Console::new();
    assert!(matches!(
        vm.execute(0xD000, &mut console),
        Err(Error::ReservedOpcode(0xD000))
    ));
}

#[test]
fn unknown_trap_vector_is_rejected() {
    let mut vm = Lc3VM::new();
    let mut console = Console::new();
    // TRAP xFF is not one of the six standard vectors.
    assert!(matches!(
        vm.execute(0xF0FF, &mut console),
        Err(Error::UnknownTrap(0xFF))
    ));
}

#[test]
fn load_places_words_at_origin_and_points_pc_there() {
    let image = ObjectFile {
        origin: 0x3000,
        words: vec![0x1234, 0x5678],
    };
    let vm = Lc3VM::load(&image).expect("image fits");

    assert_eq!(vm.registers.pc, 0x3000);
    assert_eq!(vm.memory.read(0x3000), 0x1234);
    assert_eq!(vm.memory.read(0x3001), 0x5678);
}

#[test]
fn load_rejects_image_that_overruns_memory() {
    // Two words at 0xFFFF would need 0xFFFF and 0x10000; the latter does
    // not exist, so the image must be rejected rather than wrapping.
    let image = ObjectFile {
        origin: 0xFFFF,
        words: vec![0x0001, 0x0002],
    };
    assert!(matches!(
        Lc3VM::load(&image),
        Err(Error::ProgramOutOfRange {
            origin: 0xFFFF,
            words: 2
        })
    ));
}

#[test]
fn puts_writes_a_string_and_halt_stops() {
    // LEA R0, #2 ; PUTS ; HALT ; "Hi" NUL
    let mut vm = vm_with(&[0xE002, 0xF022, 0xF025, 0x0048, 0x0069, 0x0000]);
    let mut console = Console::new();
    assert_eq!(vm.run(&mut console), Ok(Step::Halted));
    assert_eq!(console.output, b"Hi".to_vec());
}

#[test]
fn putsp_writes_two_characters_per_word() {
    // LEA R0, #2 ; PUTSP ; HALT ; 'H','i' packed low byte first ; '!' ; NUL
    let mut vm = vm_with(&[0xE002, 0xF024, 0xF025, 0x6948, 0x0021, 0x0000]);
    let mut console = Console::new();
    assert_eq!(vm.run(&mut console), Ok(Step::Halted));
    assert_eq!(console.output, b"Hi!".to_vec());
}

#[test]
fn getc_waits_for_a_key_and_then_reads_it() {
    // GETC ; OUT ; HALT
    let mut vm = vm_with(&[0xF020, 0xF021, 0xF025]);
    let mut console = Console::new();
    assert_eq!(vm.step(&mut console), Ok(Step::AwaitingKey));
    // Nothing ran: the program counter still points at the GETC.
    assert_eq!(vm.registers.pc, 0x3000);
    console.input.push(b'a');
    assert_eq!(vm.run(&mut console), Ok(Step::Halted));
    assert_eq!(vm.registers.get(0), u16::from(b'a'));
    assert_eq!(console.output, b"a".to_vec());
    assert!(console.input.is_empty());
}

#[test]
fn in_prompts_and_echoes_the_key() {
    // IN ; HALT
    let mut vm = vm_with(&[0xF023, 0xF025]);
    let mut console = Console::new();
    console.input.push(b'z');
    assert_eq!(vm.run(&mut console), Ok(Step::Halted));
    assert_eq!(console.output, b"Enter a character: z".to_vec());
    assert_eq!(vm.registers.get(0), u16::from(b'z'));
}

#[test]
fn reading_the_keyboard_status_register_polls_the_console() {
    let mut vm = Lc3VM::new();
    let mut console = Console::new();
    assert_eq!(vm.read_memory(KBSR, &mut console), 0);
    console.input.push(b'q');
    assert_eq!(vm.read_memory(KBSR, &mut console), 0x8000);
    assert_eq!(vm.read_memory(KBDR, &mut console), u16::from(b'q'));
}

#[test]
fn branches_and_subroutines_follow_the_condition_code() {
    // AND R0,R0,#0 ; BRz #1 ; HALT ; JSR #1 ; HALT ; ADD R1,R1,#3 ; RET
    let mut vm = vm_with(&[0x5020, 0x0401, 0xF025, 0x4801, 0xF025, 0x1263, 0xC1C0]);
    let mut console = Console::new();
    assert_eq!(vm.run(&mut console), Ok(Step::Halted));
    assert_eq!(vm.registers.get(1), 3);
    // The final HALT at x3004 saved its own return address over JSR's.
    assert_eq!(vm.registers.get(7), 0x3005);
    assert_eq!(vm.registers.pc, 0x3005);
}

#[test]
fn a_trap_saves_its_return_address_in_r7() {
    // LD R0, #2 ; OUT ; HALT ; x0041
    let mut vm = vm_with(&[0x2002, 0xF021, 0xF025, 0x0041]);
    let mut console = Console::new();
    assert_eq!(vm.step(&mut console), Ok(Step::Continue));
    assert_eq!(vm.step(&mut console), Ok(Step::Continue));
    assert_eq!(vm.registers.get(7), 0x3002);
    assert_eq!(vm.registers.pc, 0x3002);
    assert_eq!(console.output, b"A".to_vec());
    assert_eq!(vm.step(&mut console), Ok(Step::Halted));
    assert_eq!(vm.registers.get(7), 0x3003);
}

#[test]
fn a_trap_waiting_for_a_key_changes_nothing() {
    // GETC ; HALT
    let mut vm = vm_with(&[0xF020, 0xF025]);
    vm.registers.set(7, 0x1234);
    let mut console = Console::new();
    assert_eq!(vm.step(&mut console), Ok(Step::AwaitingKey));
    assert_eq!(vm.registers.get(7), 0x1234);
    assert_eq!(vm.registers.pc, 0x3000);
}

#[test]
fn loads_and_stores_move_words_through_memory() {
    // LD R0, #4 ; ADD R0,R0,#1 ; ST R0, #3 ; LDR R2, R1, #0 ; HALT ; x0041 ; x0000
    let mut vm = vm_with(&[0x2004, 0x1021, 0x3003, 0x6440, 0xF025, 0x0041, 0x0000]);
    vm.registers.set(1, 0x3006);
    let mut console = Console::new();
    assert_eq!(vm.run(&mut console), Ok(Step::Halted));
    assert_eq!(vm.memory.read(0x3006), 0x0042);
    assert_eq!(vm.registers.get(2), 0x0042);
}

#[test]
fn a_program_may_be_loaded_from_object_bytes() {
    let vm = Lc3VM::init_from_bytes(&[0x30, 0x00, 0xF0, 0x25]).expect("a valid image");
    assert_eq!(vm.registers.pc, 0x3000);
    assert_eq!(vm.memory.read(0x3000), 0xF025);
    assert!(matches!(
        Lc3VM::init_from_bytes(&[0x30]),
        Err(Error::Object(ObjectError::MissingOrigin))
    ));
}

#[test]
fn loading_a_program_places_every_block_and_starts_at_the_first() {
    let mut vm = Lc3VM::new();
    let program = vec![
        ObjectFile { origin: 0x4000, words: vec![0xF025] },
        ObjectFile { origin: 0x3000, words: vec![0x1021] },
    ];
    assert!(vm.load_program(&program).is_ok());
    assert_eq!(vm.registers.pc, 0x4000);
    assert_eq!(vm.memory.read(0x3000), 0x1021);
    let too_long = vec![ObjectFile { origin: 0xFFFF, words: vec![1, 2] }];
    assert_eq!(
        vm.load_program(&too_long),
        Err(Error::ProgramOutOfRange { origin: 0xFFFF, words: 2 })
    );
}

#[test]
fn errors_read_as_their_messages() {
    assert_eq!(Error::ReservedOpcode(0xD000).message(), "reserved opcode: 0xd000");
    assert_eq!(
        Error::PrivilegedInstruction(0x8000).message(),
        "privileged instruction (RTI) outside supervisor mode: 0x8000"
    );
    assert_eq!(Error::UnknownTrap(0xFF).message(), "unknown trap vector: 0xff");
    assert_eq!(Error::UnknownTrap(0x5).message(), "unknown trap vector: 0x05");
    assert_eq!(
        Error::Object(ObjectError::MissingOrigin).message(),
        "malformed object file: object file is missing its origin word"
    );
    assert_eq!(
        Error::ProgramOutOfRange { origin: 0xFFFF, words: 2 }.message(),
        "program of 2 words at origin 0xffff runs past the end of memory"
    );
}

#[test]
fn a_loaded_image_starts_with_cleared_registers() {
    let vm = Lc3VM::init_from_bytes(&[0x30, 0x00, 0x12, 0x34]).expect("the image loads");
    assert_eq!(vm.registers.gpr, [0u16; 8]);
    assert_eq!(vm.registers.cond, ConditionFlag::Zero);
    assert_eq!(vm.registers.pc, 0x3000);
}
