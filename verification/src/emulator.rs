//! The first-generation emulator model: a flat register file with the
//! program counter and condition register addressed like the others, and a
//! memory of `u16::MAX` words.
use vstd::prelude::*;

use crate::machine::{Console, Step};

verus! {

/// The number of words the first-generation memory holds (`u16::MAX`, so
/// the address `xFFFF` itself lies outside it).
pub const MEMORY_SIZE: usize = 65535;

/// The address the program counter starts at.
pub const PC_START: u16 = 0x3000;

/// The index of the condition register in the register file.
pub const RCOND_INDEX: u16 = 9;

/// The condition value for a positive result (`nz1`).
pub const FLAG_POS: u16 = 1;

/// The condition value for a zero result (`n1z`).
pub const FLAG_ZRO: u16 = 2;

/// The condition value for a negative result (`1zp`).
pub const FLAG_NEG: u16 = 4;

/// Ten registers: `r0`-`r7`, the program counter (index 8) and the
/// condition register (index 9).
pub struct Registers {
    pub r0: u16,
    pub r1: u16,
    pub r2: u16,
    pub r3: u16,
    pub r4: u16,
    pub r5: u16,
    pub r6: u16,
    pub r7: u16,
    pub pc: u16,
    pub cond: u16,
}

impl Registers {
    /// The register at index `address` (0-7 general, 8 the program counter,
    /// 9 the condition register).
    pub open spec fn at(&self, address: u16) -> u16 {
        if address == 0 {
            self.r0
        } else if address == 1 {
            self.r1
        } else if address == 2 {
            self.r2
        } else if address == 3 {
            self.r3
        } else if address == 4 {
            self.r4
        } else if address == 5 {
            self.r5
        } else if address == 6 {
            self.r6
        } else if address == 7 {
            self.r7
        } else if address == 8 {
            self.pc
        } else {
            self.cond
        }
    }

    /// All ten registers are cleared but the program counter, which starts at
    /// [`PC_START`].
    pub fn new() -> (r: Registers)
        ensures
            forall|a: u16| a <= 9 && a != 8 ==> r.at(a) == 0,
            r.pc == PC_START,
    {
        Registers { r0: 0, r1: 0, r2: 0, r3: 0, r4: 0, r5: 0, r6: 0, r7: 0, pc: PC_START, cond: 0 }
    }

    /// Writes `value` to the register at index `address` (at most 9).
    pub fn update(&mut self, address: u16, value: u16)
        requires
            address <= 9,
        ensures
            final(self).at(address) == value,
            forall|a: u16| a <= 9 && a != address ==> final(self).at(a) == old(self).at(a),
    {
        match address {
            0 => self.r0 = value,
            1 => self.r1 = value,
            2 => self.r2 = value,
            3 => self.r3 = value,
            4 => self.r4 = value,
            5 => self.r5 = value,
            6 => self.r6 = value,
            7 => self.r7 = value,
            8 => self.pc = value,
            _ => self.cond = value,
        }
    }

    /// Reads the register at index `address` (at most 9).
    pub fn get(&self, address: u16) -> (r: u16)
        requires
            address <= 9,
        ensures
            r == self.at(address),
    {
        match address {
            0 => self.r0,
            1 => self.r1,
            2 => self.r2,
            3 => self.r3,
            4 => self.r4,
            5 => self.r5,
            6 => self.r6,
            7 => self.r7,
            8 => self.pc,
            _ => self.cond,
        }
    }

    /// Sets the condition register from the sign of register `r` (at most
    /// 9): [`FLAG_ZRO`] for zero, [`FLAG_NEG`] when the top bit is set,
    /// [`FLAG_POS`] otherwise.
    pub fn update_cond_register(&mut self, r: u16)
        requires
            r <= 9,
        ensures
            final(self).cond == (if old(self).at(r) == 0 {
                FLAG_ZRO
            } else if old(self).at(r) >> 15 != 0 {
                FLAG_NEG
            } else {
                FLAG_POS
            }),
            forall|a: u16| a < 9 ==> final(self).at(a) == old(self).at(a),
    {
        if self.get(r) == 0 {
            self.update(RCOND_INDEX, FLAG_ZRO);
        } else if (self.get(r) >> 15) != 0 {
            self.update(RCOND_INDEX, FLAG_NEG);
        } else {
            self.update(RCOND_INDEX, FLAG_POS);
        }
    }
}

/// The first-generation machine: a memory of [`MEMORY_SIZE`] words and the
/// register file.
pub struct VM {
    pub memory: [u16; 65535],
    pub registers: Registers,
}

impl VM {
    /// A machine with cleared memory and fresh registers.
    pub fn new() -> (vm: VM)
        ensures
            vm.memory@ == Seq::new(MEMORY_SIZE as nat, |i: int| 0u16),
            forall|a: u16| a <= 9 && a != 8 ==> vm.registers.at(a) == 0,
            vm.registers.pc == PC_START,
    {
        let vm = VM { memory: [0u16; 65535], registers: Registers::new() };
        proof {
            assert(vm.memory@ =~= Seq::new(MEMORY_SIZE as nat, |i: int| 0u16));
        }
        vm
    }

    /// Writes `value` to the word at `address`, which must lie in memory.
    pub fn write_memory(&mut self, address: usize, value: u16)
        requires
            address < MEMORY_SIZE,
        ensures
            final(self).memory@ == old(self).memory@.update(address as int, value),
            final(self).registers == old(self).registers,
    {
        self.memory[address] = value;
    }

    /// Reads the word at `address`, which must lie in memory.
    pub fn read_memory(&self, address: u16) -> (r: u16)
        requires
            (address as usize) < MEMORY_SIZE,
        ensures
            r == self.memory@[address as int],
    {
        self.memory[address as usize]
    }
}

/// The operations the first-generation decoder knows.
#[derive(Debug, Clone, Copy, PartialEq, Eq, Structural)]
pub enum Opcode {
    /// Branch, opcode `0000`.
    Br,
}

impl Opcode {
    /// The operation an instruction's top four bits select, if the decoder
    /// knows it.
    pub fn get(instruction: u16) -> (r: Option<Opcode>)
        ensures
            r == (if instruction >> 12 == 0 { Some(Opcode::Br) } else { None::<Opcode> }),
    {
        if instruction >> 12 == 0 {
            Some(Opcode::Br)
        } else {
            None
        }
    }
}

/// The trap service routines of the first-generation machine.
#[derive(Debug, Clone, Copy, PartialEq, Eq, Structural)]
pub enum Trapcode {
    /// Read one character from the keyboard (`x20`).
    Getc,
    /// Write one character (`x21`).
    Out,
    /// Write a word string (`x22`).
    Puts,
    /// Prompt for and read one character (`x23`).
    In,
    /// Write a byte string (`x24`).
    Putsp,
    /// Halt (`x25`).
    Halt,
}

impl Trapcode {
    /// The routine a trap vector names, or the vector itself when it names
    /// none.
    pub fn try_from(value: u16) -> (r: Result<Trapcode, u16>)
        ensures
            value == 0x20 ==> r == Ok::<Trapcode, u16>(Trapcode::Getc),
            value == 0x21 ==> r == Ok::<Trapcode, u16>(Trapcode::Out),
            value == 0x22 ==> r == Ok::<Trapcode, u16>(Trapcode::Puts),
            value == 0x23 ==> r == Ok::<Trapcode, u16>(Trapcode::In),
            value == 0x24 ==> r == Ok::<Trapcode, u16>(Trapcode::Putsp),
            value == 0x25 ==> r == Ok::<Trapcode, u16>(Trapcode::Halt),
            !(0x20 <= value <= 0x25) ==> r == Err::<Trapcode, u16>(value),
    {
        match value {
            0x20 => Ok(Trapcode::Getc),
            0x21 => Ok(Trapcode::Out),
            0x22 => Ok(Trapcode::Puts),
            0x23 => Ok(Trapcode::In),
            0x24 => Ok(Trapcode::Putsp),
            0x25 => Ok(Trapcode::Halt),
            _ => Err(value),
        }
    }
}


/// The bytes `write!` prints for the character a byte stands for: the byte
/// itself below `x80`, its two-byte UTF-8 encoding from `x80` on.
pub open spec fn glyph(b: u8) -> Seq<u8> {
    if b < 0x80 {
        seq![b]
    } else {
        seq![0xC0u8 | (b >> 6u8), 0x80u8 | (b & 0x3Fu8)]
    }
}

/// What `PUTS` prints from `address` on: one character per word, the low
/// byte of each, up to the first zero word.
pub open spec fn word_string(mem: Seq<u16>, address: int) -> Seq<u8>
    decreases mem.len() - address,
{
    if address < 0 || address >= mem.len() || mem[address] == 0 {
        seq![]
    } else {
        glyph(mem[address] as u8) + word_string(mem, address + 1)
    }
}

/// What `PUTSP` prints for one word: its low byte, then its high byte
/// unless that is zero.
pub open spec fn packed_pair(w: u16) -> Seq<u8> {
    glyph((w & 0xFF) as u8) + if (w >> 8) as u8 != 0 {
        glyph((w >> 8) as u8)
    } else {
        Seq::<u8>::empty()
    }
}

/// What `PUTSP` prints from `address` on, up to the first zero word.
pub open spec fn packed_string(mem: Seq<u16>, address: int) -> Seq<u8>
    decreases mem.len() - address,
{
    if address < 0 || address >= mem.len() || mem[address] == 0 {
        seq![]
    } else {
        packed_pair(mem[address]) + packed_string(mem, address + 1)
    }
}

/// Whether a zero word ends the string at `address` inside memory.
pub open spec fn terminated(mem: Seq<u16>, address: int) -> bool {
    exists|j: int| address <= j < mem.len() && mem[j] == 0
}

/// The prompt `IN` prints: `Enter a character: `.
pub open spec fn prompt_bytes() -> Seq<u8> {
    seq![69u8, 110, 116, 101, 114, 32, 97, 32, 99, 104, 97, 114, 97, 99, 116, 101, 114, 58, 32]
}

/// The message `HALT` prints: a line feed, `HALT detected!` and a line feed.
pub open spec fn halt_bytes() -> Seq<u8> {
    seq![10u8, 72, 65, 76, 84, 32, 100, 101, 116, 101, 99, 116, 101, 100, 33, 10]
}

/// The effect of the trap routine for `vector`: the registers after it, the
/// keys still waiting, the bytes written, and how execution goes on.
pub open spec fn trap_effect(vector: u16, regs: Registers, mem: Seq<u16>, input: Seq<u8>) -> (
    Registers,
    Seq<u8>,
    Seq<u8>,
    Step,
) {
    if vector == 0x20 {
        if input.len() == 0 {
            (regs, input, seq![], Step::AwaitingKey)
        } else {
            (Registers { r0: input[0] as u16, ..regs }, input.drop_first(), seq![], Step::Continue)
        }
    } else if vector == 0x21 {
        (regs, input, glyph(regs.r0 as u8), Step::Continue)
    } else if vector == 0x22 {
        (regs, input, word_string(mem, regs.r0 as int), Step::Continue)
    } else if vector == 0x23 {
        if input.len() == 0 {
            (regs, input, seq![], Step::AwaitingKey)
        } else {
            (Registers { r0: input[0] as u16, ..regs }, input.drop_first(), prompt_bytes(), Step::Continue)
        }
    } else if vector == 0x24 {
        (regs, input, packed_string(mem, regs.r0 as int), Step::Continue)
    } else {
        (regs, input, halt_bytes(), Step::Halted)
    }
}

/// Appends the bytes printed for the character a byte stands for.
fn push_glyph(out: &mut Vec<u8>, b: u8)
    ensures
        final(out)@ == old(out)@ + glyph(b),
{
    if b < 0x80 {
        out.push(b);
    } else {
        out.push(0xC0u8 | (b >> 6u8));
        out.push(0x80u8 | (b & 0x3Fu8));
    }
    proof {
        assert(final(out)@ =~= old(out)@ + glyph(b));
    }
}

/// Appends the bytes of a constant message.
fn push_bytes(out: &mut Vec<u8>, bytes: &[u8])
    ensures
        final(out)@ == old(out)@ + bytes@,
{
    let mut i: usize = 0;
    while i < bytes.len()
        invariant
            i <= bytes@.len(),
            out@ == old(out)@ + bytes@.take(i as int),
        decreases bytes.len() - i,
    {
        out.push(bytes[i]);
        i += 1;
        proof {
            assert(bytes@.take(i as int) =~= bytes@.take((i - 1) as int).push(bytes@[i - 1]));
        }
    }
    proof {
        assert(bytes@.take(bytes@.len() as int) =~= bytes@);
    }
}

impl Trapcode {
    /// Runs the trap service routine the low byte of `instruction` names,
    /// with the keyboard and display of `console`: `GETC` and `IN` take the
    /// oldest waiting key into `R0` (reporting [`Step::AwaitingKey`], with
    /// nothing done, when none waits), `OUT`, `PUTS` and `PUTSP` print, and
    /// `HALT` prints its message and reports [`Step::Halted`].
    ///
    /// The vector must name one of the six routines, and a string printed by
    /// `PUTS` or `PUTSP` must end in a zero word inside memory.
    pub fn execute(instruction: u16, vm: &mut VM, console: &mut Console) -> (r: Step)
        requires
            0x20 <= instruction & 0xFF <= 0x25,
            (instruction & 0xFF == 0x22 || instruction & 0xFF == 0x24) ==> terminated(
                old(vm).memory@,
                old(vm).registers.r0 as int,
            ),
        ensures
            (final(vm).registers, final(console).input@, final(console).output@, r) == ({
                let e = trap_effect(
                    instruction & 0xFF,
                    old(vm).registers,
                    old(vm).memory@,
                    old(console).input@,
                );
                (e.0, e.1, old(console).output@ + e.2, e.3)
            }),
            final(vm).memory@ == old(vm).memory@,
    {
        let vector = instruction & 0xFF;
        let code = match Trapcode::try_from(vector) {
            Ok(c) => c,
            Err(_) => {
                return Step::Halted;
            },
        };
        let ghost out0 = console.output@;
        match code {
            Trapcode::Getc => {
                if console.input.len() == 0 {
                    proof {
                        assert(console.output@ =~= out0 + Seq::<u8>::empty());
                    }
                    return Step::AwaitingKey;
                }
                let key = console.input.remove(0);
                vm.registers.r0 = key as u16;
                proof {
                    assert(console.output@ =~= out0 + Seq::<u8>::empty());
                    assert(console.input@ =~= old(console).input@.drop_first());
                }
                Step::Continue
            },
            Trapcode::Out => {
                let c = vm.registers.r0 as u8;
                push_glyph(&mut console.output, c);
                Step::Continue
            },
            Trapcode::Puts => {
                let mem = Ghost(vm.memory@);
                let ghost z = choose|j: int| vm.registers.r0 <= j < mem@.len() && mem@[j] == 0;
                let mut addr = vm.registers.r0;
                loop
                    invariant
                        vm.memory@ == mem@,
                        mem@.len() == MEMORY_SIZE,
                        addr <= z < MEMORY_SIZE,
                        mem@[z] == 0,
                        console.output@ + word_string(mem@, addr as int) == out0 + word_string(
                            mem@,
                            old(vm).registers.r0 as int,
                        ),
                        vm.registers == old(vm).registers,
                        console.input@ == old(console).input@,
                    ensures
                        console.output@ == out0 + word_string(mem@, old(vm).registers.r0 as int),
                        vm.registers == old(vm).registers,
                        console.input@ == old(console).input@,
                        vm.memory@ == mem@,
                    decreases z - addr,
                {
                    let c = vm.read_memory(addr);
                    if c == 0 {
                        proof {
                            assert(console.output@ + word_string(mem@, addr as int) =~= console.output@);
                        }
                        break;
                    }
                    let ghost before = console.output@;
                    push_glyph(&mut console.output, c as u8);
                    proof {
                        assert(addr < z);
                        assert(console.output@ + word_string(mem@, addr + 1) =~= before + (glyph(c as u8)
                            + word_string(mem@, addr + 1)));
                    }
                    addr = addr + 1;
                }
                Step::Continue
            },
            Trapcode::In => {
                if console.input.len() == 0 {
                    proof {
                        assert(console.output@ =~= out0 + Seq::<u8>::empty());
                    }
                    return Step::AwaitingKey;
                }
                let prompt: [u8; 19] = [
                    69, 110, 116, 101, 114, 32, 97, 32, 99, 104, 97, 114, 97, 99, 116, 101, 114, 58,
                    32,
                ];
                push_bytes(&mut console.output, &prompt);
                let key = console.input.remove(0);
                vm.registers.r0 = key as u16;
                proof {
                    assert(prompt@ =~= prompt_bytes());
                    assert(console.input@ =~= old(console).input@.drop_first());
                }
                Step::Continue
            },
            Trapcode::Putsp => {
                let mem = Ghost(vm.memory@);
                let ghost z = choose|j: int| vm.registers.r0 <= j < mem@.len() && mem@[j] == 0;
                let mut addr = vm.registers.r0;
                loop
                    invariant
                        vm.memory@ == mem@,
                        mem@.len() == MEMORY_SIZE,
                        addr <= z < MEMORY_SIZE,
                        mem@[z] == 0,
                        console.output@ + packed_string(mem@, addr as int) == out0 + packed_string(
                            mem@,
                            old(vm).registers.r0 as int,
                        ),
                        vm.registers == old(vm).registers,
                        console.input@ == old(console).input@,
                    ensures
                        console.output@ == out0 + packed_string(mem@, old(vm).registers.r0 as int),
                        vm.registers == old(vm).registers,
                        console.input@ == old(console).input@,
                        vm.memory@ == mem@,
                    decreases z - addr,
                {
                    let c = vm.read_memory(addr);
                    if c == 0 {
                        proof {
                            assert(console.output@ + packed_string(mem@, addr as int) =~= console.output@);
                        }
                        break;
                    }
                    let ghost before = console.output@;
                    push_glyph(&mut console.output, (c & 0xFF) as u8);
                    let c2 = (c >> 8) as u8;
                    if c2 != 0 {
                        push_glyph(&mut console.output, c2);
                    }
                    proof {
                        assert(addr < z);
                        assert(console.output@ =~= before + packed_pair(c));
                        assert(console.output@ + packed_string(mem@, addr + 1) =~= before + (packed_pair(c)
                            + packed_string(mem@, addr + 1)));
                    }
                    addr = addr + 1;
                }
                Step::Continue
            },
            Trapcode::Halt => {
                let message: [u8; 16] = [10, 72, 65, 76, 84, 32, 100, 101, 116, 101, 99, 116, 101, 100, 33, 10];
                push_bytes(&mut console.output, &message);
                proof {
                    assert(message@ =~= halt_bytes());
                }
                Step::Halted
            },
        }
    }
}

} // verus!
