//! The LC-3 virtual machine: a fetch–decode–execute interpreter over
//! [`Memory`] and [`Registers`], with keyboard and display traffic going
//! through a [`Console`] that the caller services.
use vstd::prelude::*;

use crate::bits::{sign_extend, spec_sign_extend};
use crate::memory::Memory;
use crate::memory_map::{KBDR, KBSR, MEMORY_SIZE};
use crate::object::{object_error_text, ObjectError, ObjectFile};
use crate::text::{
    decimal_text, hex4_lower, hex_lower_min2, push_decimal, push_hex4_lower, push_hex_lower_min2,
    push_text, string_from_chars,
};
use crate::opcode::Opcode;
use crate::register::ConditionFlag;
use crate::registers::Registers;
use crate::trap::TrapVector;

verus! {

/// The keyboard and display as the machine sees them: keys typed but not yet
/// read, in arrival order, and bytes written but not yet shown.
///
/// The caller feeds keys into `input` as they arrive and drains `output` to
/// the display; a blocking keyboard read with no key waiting makes the
/// machine report [`Step::AwaitingKey`] instead of running the instruction.
pub struct Console {
    /// Keys waiting to be read, oldest first.
    pub input: Vec<u8>,
    /// Bytes the program has written, oldest first.
    pub output: Vec<u8>,
}

impl Console {
    /// A console with no pending keys and no output.
    pub fn new() -> (c: Console)
        ensures
            c.input@ == Seq::<u8>::empty(),
            c.output@ == Seq::<u8>::empty(),
    {
        Console { input: Vec::new(), output: Vec::new() }
    }
}

/// How execution proceeds after one instruction.
#[derive(Debug, Clone, Copy, PartialEq, Eq, Structural)]
pub enum Step {
    /// Continue with the next instruction.
    Continue,
    /// The program reached a `HALT`.
    Halted,
    /// The instruction reads the keyboard and no key is waiting: nothing was
    /// executed, and the same instruction runs again once a key arrives.
    AwaitingKey,
}

/// An error raised while loading or running an LC-3 program.
#[derive(Debug, Clone, Copy, PartialEq, Eq, Structural)]
#[non_exhaustive]
pub enum Error {
    /// The privileged `RTI` instruction was reached outside supervisor mode.
    PrivilegedInstruction(u16),
    /// A reserved opcode was reached.
    ReservedOpcode(u16),
    /// A `TRAP` named a vector outside the six standard service routines.
    UnknownTrap(u16),
    /// The object file could not be decoded as a valid `.obj` image.
    Object(ObjectError),
    /// The image does not fit: loaded at `origin`, its `words` words would run
    /// past the top of the address space (`0xFFFF`).
    ProgramOutOfRange {
        /// The load address the image would have started at.
        origin: u16,
        /// The number of words the image holds.
        words: usize,
    },
}

/// The description of a machine error, as it is reported.
pub open spec fn error_text(e: Error) -> Seq<char> {
    match e {
        Error::PrivilegedInstruction(w) => "privileged instruction (RTI) outside supervisor mode: 0x"@
            + hex4_lower(w),
        Error::ReservedOpcode(w) => "reserved opcode: 0x"@ + hex4_lower(w),
        Error::UnknownTrap(v) => "unknown trap vector: 0x"@ + hex_lower_min2(v),
        Error::Object(o) => "malformed object file: "@ + object_error_text(o),
        Error::ProgramOutOfRange { origin, words } => "program of "@ + decimal_text(words as nat)
            + " words at origin 0x"@ + hex4_lower(origin) + " runs past the end of memory"@,
    }
}

impl Error {
    /// The description of this error, as it is reported.
    pub fn message(&self) -> (r: String)
        ensures
            r@ == error_text(*self),
    {
        let mut out: Vec<char> = Vec::new();
        match *self {
            Error::PrivilegedInstruction(w) => {
                push_text(&mut out, "privileged instruction (RTI) outside supervisor mode: 0x");
                push_hex4_lower(&mut out, w);
            },
            Error::ReservedOpcode(w) => {
                push_text(&mut out, "reserved opcode: 0x");
                push_hex4_lower(&mut out, w);
            },
            Error::UnknownTrap(v) => {
                push_text(&mut out, "unknown trap vector: 0x");
                push_hex_lower_min2(&mut out, v);
            },
            Error::Object(o) => {
                push_text(&mut out, "malformed object file: ");
                push_text(&mut out, o.message());
            },
            Error::ProgramOutOfRange { origin, words } => {
                push_text(&mut out, "program of ");
                push_decimal(&mut out, words as u64);
                push_text(&mut out, " words at origin 0x");
                push_hex4_lower(&mut out, origin);
                push_text(&mut out, " runs past the end of memory");
            },
        }
        proof {
            assert(out@ =~= error_text(*self));
        }
        string_from_chars(&out)
    }
}

/// The machine and its console as one mathematical state.
#[verifier::ext_equal]
pub struct Machine {
    /// Every word of memory.
    pub mem: Seq<u16>,
    /// The eight general-purpose registers.
    pub regs: Seq<u16>,
    /// The program counter.
    pub pc: u16,
    /// The condition code.
    pub cond: ConditionFlag,
    /// Keys waiting to be read.
    pub input: Seq<u8>,
    /// Bytes written so far.
    pub output: Seq<u8>,
}

/// The prompt the `IN` trap writes before reading a key.
pub open spec fn in_prompt() -> Seq<u8> {
    seq![69u8, 110, 116, 101, 114, 32, 97, 32, 99, 104, 97, 114, 97, 99, 116, 101, 114, 58, 32]
}

/// Sixteen-bit addition, wrapping at the top of the address space.
pub open spec fn add16(a: u16, b: u16) -> u16 {
    vstd::wrapping::u16_specs::wrapping_add(a, b)
}

impl Machine {
    /// The value of register `r`, selected by its low three bits.
    pub open spec fn reg(self, r: u16) -> u16 {
        self.regs[(r % 8) as int]
    }

    /// Register `r` set to `v`, the condition code untouched.
    pub open spec fn with_reg(self, r: u16, v: u16) -> Machine {
        Machine { regs: self.regs.update((r % 8) as int, v), ..self }
    }

    /// Register `r` set to `v` and the condition code set from `v`.
    pub open spec fn with_result(self, r: u16, v: u16) -> Machine {
        Machine { regs: self.regs.update((r % 8) as int, v), cond: ConditionFlag::of_value(v), ..self }
    }

    /// The keyboard polled: a waiting key is taken into `KBDR` with the ready
    /// bit of `KBSR` set; with none waiting `KBSR` is cleared.
    pub open spec fn poll(self) -> Machine {
        if self.input.len() > 0 {
            Machine {
                mem: self.mem.update(KBSR as int, 0x8000).update(KBDR as int, self.input[0] as u16),
                input: self.input.drop_first(),
                ..self
            }
        } else {
            Machine { mem: self.mem.update(KBSR as int, 0), ..self }
        }
    }

    /// A read of `address`: reading `KBSR` polls the keyboard first.
    pub open spec fn read(self, address: u16) -> (Machine, u16) {
        if address == KBSR {
            (self.poll(), if self.input.len() > 0 { 0x8000u16 } else { 0u16 })
        } else {
            (self, self.mem[address as int])
        }
    }

    /// `value` written to `address`.
    pub open spec fn write(self, address: u16, value: u16) -> Machine {
        Machine { mem: self.mem.update(address as int, value), ..self }
    }

    /// `byte` appended to the output.
    pub open spec fn emit(self, byte: u8) -> Machine {
        Machine { output: self.output.push(byte), ..self }
    }

    /// How far `address` is from `KBSR`, counting upward with wrap-around.
    pub open spec fn distance_to_kbsr(address: u16) -> nat {
        ((KBSR as int - address as int + 0x1_0000) % 0x1_0000) as nat
    }

    /// `PUTS` from `address`: the low byte of each word up to the first zero.
    pub open spec fn puts_from(self, address: u16) -> Machine
        decreases self.input.len(), Machine::distance_to_kbsr(address),
    {
        let (m, w) = self.read(address);
        if w == 0 {
            m
        } else {
            proof {
                assert(address != KBSR ==> Machine::distance_to_kbsr(add16(address, 1))
                    < Machine::distance_to_kbsr(address));
            }
            m.emit((w % 256) as u8).puts_from(add16(address, 1))
        }
    }

    /// `PUTSP` from `address`: two characters per word, low byte first, the
    /// high byte left out when it is zero, up to the first zero word.
    pub open spec fn putsp_from(self, address: u16) -> Machine
        decreases self.input.len(), Machine::distance_to_kbsr(address),
    {
        let (m, w) = self.read(address);
        if w == 0 {
            m
        } else {
            proof {
                assert(address != KBSR ==> Machine::distance_to_kbsr(add16(address, 1))
                    < Machine::distance_to_kbsr(address));
            }
            let low = (w % 256) as u8;
            let high = (w / 256) as u8;
            let m1 = m.emit(low);
            let m2 = if high != 0 { m1.emit(high) } else { m1 };
            m2.putsp_from(add16(address, 1))
        }
    }

    /// The effect of a `TRAP` instruction: the return address (the program
    /// counter, already past the `TRAP`) is saved in `R7`, and the routine
    /// the vector names runs on the host. A keyboard read with no key waiting
    /// runs nothing, so it leaves the machine as it is.
    pub open spec fn trap(self, instruction: u16) -> Result<(Machine, Step), Error> {
        let vector = instruction & 0xFF;
        let m = self.with_reg(7, self.pc);
        match TrapVector::of_vector(vector) {
            None => Err(Error::UnknownTrap(vector)),
            Some(TrapVector::Getc) => if m.input.len() == 0 {
                Ok((self, Step::AwaitingKey))
            } else {
                Ok((Machine { input: m.input.drop_first(), ..m.with_reg(0, m.input[0] as u16) }, Step::Continue))
            },
            Some(TrapVector::Out) => Ok((m.emit((m.reg(0) % 256) as u8), Step::Continue)),
            Some(TrapVector::Puts) => Ok((m.puts_from(m.reg(0)), Step::Continue)),
            Some(TrapVector::In) => if m.input.len() == 0 {
                Ok((self, Step::AwaitingKey))
            } else {
                let key = m.input[0];
                Ok((Machine {
                    input: m.input.drop_first(),
                    output: m.output + in_prompt() + seq![key],
                    ..m.with_reg(0, key as u16)
                }, Step::Continue))
            },
            Some(TrapVector::Putsp) => Ok((m.putsp_from(m.reg(0)), Step::Continue)),
            Some(TrapVector::Halt) => Ok((m, Step::Halted)),
        }
    }

    /// The effect of executing `instruction`, the program counter already
    /// advanced past it.
    pub open spec fn execute(self, instruction: u16) -> Result<(Machine, Step), Error> {
        let op = Opcode::of_word(instruction);
        let r9 = (instruction >> 9) & 7;
        let r6 = (instruction >> 6) & 7;
        let off9 = spec_sign_extend(instruction & 0x1FF, 9);
        let off11 = spec_sign_extend(instruction & 0x7FF, 11);
        let off6 = spec_sign_extend(instruction & 0x3F, 6);
        let imm5 = spec_sign_extend(instruction & 0x1F, 5);
        let immediate = (instruction >> 5) & 1 == 1;
        let r0 = instruction & 7;
        match op {
            Opcode::Br => Ok((if self.cond.taken(r9) {
                Machine { pc: add16(self.pc, off9), ..self }
            } else {
                self
            }, Step::Continue)),
            Opcode::Add => Ok((self.with_result(r9, if immediate {
                add16(self.reg(r6), imm5)
            } else {
                add16(self.reg(r6), self.reg(r0))
            }), Step::Continue)),
            Opcode::And => Ok((self.with_result(r9, if immediate {
                self.reg(r6) & imm5
            } else {
                self.reg(r6) & self.reg(r0)
            }), Step::Continue)),
            Opcode::Not => Ok((self.with_result(r9, !self.reg(r6)), Step::Continue)),
            Opcode::Ld => {
                let (m, v) = self.read(add16(self.pc, off9));
                Ok((m.with_result(r9, v), Step::Continue))
            },
            Opcode::Ldi => {
                let (m1, p) = self.read(add16(self.pc, off9));
                let (m2, v) = m1.read(p);
                Ok((m2.with_result(r9, v), Step::Continue))
            },
            Opcode::Ldr => {
                let (m, v) = self.read(add16(self.reg(r6), off6));
                Ok((m.with_result(r9, v), Step::Continue))
            },
            Opcode::Lea => Ok((self.with_result(r9, add16(self.pc, off9)), Step::Continue)),
            Opcode::St => Ok((self.write(add16(self.pc, off9), self.reg(r9)), Step::Continue)),
            Opcode::Sti => {
                let (m, p) = self.read(add16(self.pc, off9));
                Ok((m.write(p, self.reg(r9)), Step::Continue))
            },
            Opcode::Str => Ok((self.write(add16(self.reg(r6), off6), self.reg(r9)), Step::Continue)),
            Opcode::Jsr => {
                let target = if (instruction >> 11) & 1 != 0 {
                    add16(self.pc, off11)
                } else {
                    self.reg(r6)
                };
                Ok((Machine { pc: target, ..self.with_reg(7, self.pc) }, Step::Continue))
            },
            Opcode::Jmp => Ok((Machine { pc: self.reg(r6), ..self }, Step::Continue)),
            Opcode::Trap => self.trap(instruction),
            Opcode::Rti => Err(Error::PrivilegedInstruction(instruction)),
            Opcode::Res => Err(Error::ReservedOpcode(instruction)),
        }
    }

    /// The machine once the word at the program counter has been fetched and
    /// the counter advanced past it.
    pub open spec fn fetched(self) -> Machine {
        Machine { pc: add16(self.pc, 1), ..self.read(self.pc).0 }
    }

    /// One fetch–decode–execute cycle: the word at the program counter is
    /// fetched, the counter advanced, and the word executed. An instruction
    /// waiting for a key leaves the machine exactly as it was.
    pub open spec fn step(self) -> Result<(Machine, Step), Error> {
        let (m, instruction) = self.read(self.pc);
        match (Machine { pc: add16(self.pc, 1), ..m }).execute(instruction) {
            Ok((_, Step::AwaitingKey)) => Ok((self, Step::AwaitingKey)),
            other => other,
        }
    }

    /// Up to `fuel` cycles, stopping at the first one that does not continue.
    pub open spec fn run(self, fuel: nat) -> Result<(Machine, Step), Error>
        decreases fuel,
    {
        if fuel == 0 {
            Ok((self, Step::Continue))
        } else {
            match self.step() {
                Ok((m, Step::Continue)) => m.run((fuel - 1) as nat),
                other => other,
            }
        }
    }
}

/// `words` placed into `mem` beginning at `origin`.
pub open spec fn place(mem: Seq<u16>, origin: u16, words: Seq<u16>) -> Seq<u16> {
    mem.take(origin as int) + words + mem.skip(origin + words.len())
}

/// Whether `words` fit in memory when placed at `origin`.
pub open spec fn fits(origin: u16, words: Seq<u16>) -> bool {
    origin + words.len() <= MEMORY_SIZE
}

/// Memory after placing the first `n` blocks of a program, in order.
pub open spec fn placed(mem: Seq<u16>, program: Seq<ObjectFile>, n: nat) -> Seq<u16>
    decreases n,
{
    if n == 0 {
        mem
    } else {
        let b = program[n - 1];
        place(placed(mem, program, (n - 1) as nat), b.origin, b.words@)
    }
}

/// The index of the first block of `program` that does not fit, if any.
pub open spec fn first_misfit(program: Seq<ObjectFile>) -> Option<int> {
    if exists|i: int| 0 <= i < program.len() && !fits(program[i].origin, #[trigger] program[i].words@) {
        Some(choose|i: int|
            0 <= i < program.len() && !fits(program[i].origin, #[trigger] program[i].words@) && forall|j: int|
                0 <= j < i ==> fits(program[j].origin, #[trigger] program[j].words@))
    } else {
        None
    }
}

/// The main LC-3 emulator: 16-bit addressable memory and the processor
/// registers.
pub struct Lc3VM {
    /// 16-bit addressable memory space.
    pub memory: Memory,
    /// Processor registers and flags.
    pub registers: Registers,
}

/// The machine state a VM and its console make up.
pub open spec fn state(vm: &Lc3VM, console: &Console) -> Machine {
    Machine {
        mem: vm.memory@,
        regs: vm.registers.gprs(),
        pc: vm.registers.pc,
        cond: vm.registers.cond,
        input: console.input@,
        output: console.output@,
    }
}

impl Lc3VM {
    /// Creates a new VM in initial state: memory cleared, registers cleared,
    /// the program counter at `x3000`, and a zero condition code.
    pub fn new() -> (vm: Lc3VM)
        ensures
            vm.memory@ == Seq::new(MEMORY_SIZE as nat, |i: int| 0u16),
            vm.registers.gprs() == seq![0u16, 0, 0, 0, 0, 0, 0, 0],
            vm.registers.pc == 0x3000,
            vm.registers.cond == ConditionFlag::Zero,
    {
        Lc3VM { memory: Memory::new(), registers: Registers::new() }
    }

    /// Refreshes the keyboard registers from the console: a waiting key sets
    /// the ready bit of `KBSR` and lands in `KBDR`; with none, `KBSR` is
    /// cleared.
    fn poll_keyboard(&mut self, console: &mut Console)
        ensures
            state(final(self), final(console)) == state(old(self), old(console)).poll(),
    {
        if console.input.len() > 0 {
            let key = console.input.remove(0);
            self.memory.write(KBSR, 0x8000);
            self.memory.write(KBDR, key as u16);
        } else {
            self.memory.write(KBSR, 0);
        }
        proof {
            assert(state(final(self), final(console)) =~= state(old(self), old(console)).poll());
        }
    }

    /// Reads the word at `address`, polling the keyboard first when `address`
    /// is the keyboard status register so a program sees fresh input.
    pub fn read_memory(&mut self, address: u16, console: &mut Console) -> (r: u16)
        ensures
            (state(final(self), final(console)), r) == state(old(self), old(console)).read(address),
    {
        proof {
            self.memory.lemma_size();
        }
        if address == KBSR {
            self.poll_keyboard(console);
        }
        self.memory.read(address)
    }

    /// Writes `value` to register `reg` and sets the condition code from it.
    fn set_result(&mut self, reg: u16, value: u16)
        ensures
            final(self).memory@ == old(self).memory@,
            final(self).registers.pc == old(self).registers.pc,
            final(self).registers.gprs() == old(self).registers.gprs().update((reg % 8) as int, value),
            final(self).registers.cond == ConditionFlag::of_value(value),
    {
        self.registers.set(reg, value);
        self.registers.update_flags(reg);
    }

    /// `ADD`, `AND`, `NOT` and `LEA`: a register result from registers, an
    /// immediate, or the program counter.
    fn compute(&mut self, instruction: u16, Ghost(console): Ghost<&Console>)
        requires
            Opcode::of_word(instruction) == Opcode::Add || Opcode::of_word(instruction) == Opcode::And
                || Opcode::of_word(instruction) == Opcode::Not || Opcode::of_word(instruction)
                == Opcode::Lea,
        ensures
            state(old(self), console).execute(instruction) == Ok::<(Machine, Step), Error>(
                (state(final(self), console), Step::Continue),
            ),
    {
        let op = Opcode::decode(instruction);
        let dr = (instruction >> 9) & 0x7;
        let sr1 = (instruction >> 6) & 0x7;
        let value = if op == Opcode::Add {
            if (instruction >> 5) & 0x1 == 1 {
                self.registers.get(sr1).wrapping_add(sign_extend(instruction & 0x1F, 5))
            } else {
                self.registers.get(sr1).wrapping_add(self.registers.get(instruction & 0x7))
            }
        } else if op == Opcode::And {
            if (instruction >> 5) & 0x1 == 1 {
                self.registers.get(sr1) & sign_extend(instruction & 0x1F, 5)
            } else {
                self.registers.get(sr1) & self.registers.get(instruction & 0x7)
            }
        } else if op == Opcode::Not {
            !self.registers.get(sr1)
        } else {
            self.registers.pc.wrapping_add(sign_extend(instruction & 0x1FF, 9))
        };
        self.set_result(dr, value);
        proof {
            assert(state(final(self), console) =~= state(old(self), console).execute(instruction).unwrap().0);
        }
    }

    /// `BR`, `JMP` and `JSR`/`JSRR`: changes of the program counter.
    fn jump(&mut self, instruction: u16, Ghost(console): Ghost<&Console>)
        requires
            Opcode::of_word(instruction) == Opcode::Br || Opcode::of_word(instruction) == Opcode::Jmp
                || Opcode::of_word(instruction) == Opcode::Jsr,
        ensures
            state(old(self), console).execute(instruction) == Ok::<(Machine, Step), Error>(
                (state(final(self), console), Step::Continue),
            ),
    {
        let op = Opcode::decode(instruction);
        if op == Opcode::Br {
            let nzp = (instruction >> 9) & 0x7;
            if self.registers.cond.matches(nzp) {
                self.registers.pc = self.registers.pc.wrapping_add(sign_extend(instruction & 0x1FF, 9));
            }
        } else if op == Opcode::Jmp {
            self.registers.pc = self.registers.get((instruction >> 6) & 0x7);
        } else {
            // The base register is read before R7 is overwritten, so `JSRR R7`
            // jumps to the base value read before the call rather than to the return address.
            let base = self.registers.get((instruction >> 6) & 0x7);
            let return_address = self.registers.pc;
            let target = if (instruction >> 11) & 1 != 0 {
                return_address.wrapping_add(sign_extend(instruction & 0x7FF, 11))
            } else {
                base
            };
            self.registers.set(7, return_address);
            self.registers.pc = target;
        }
        proof {
            assert(state(final(self), console) =~= state(old(self), console).execute(instruction).unwrap().0);
        }
    }

    /// `LD`, `LDI` and `LDR`: a register loaded from memory.
    fn load_register(&mut self, instruction: u16, console: &mut Console)
        requires
            Opcode::of_word(instruction) == Opcode::Ld || Opcode::of_word(instruction) == Opcode::Ldi
                || Opcode::of_word(instruction) == Opcode::Ldr,
        ensures
            state(old(self), old(console)).execute(instruction) == Ok::<(Machine, Step), Error>(
                (state(final(self), final(console)), Step::Continue),
            ),
    {
        let op = Opcode::decode(instruction);
        let dr = (instruction >> 9) & 0x7;
        let value = if op == Opcode::Ld {
            let address = self.registers.pc.wrapping_add(sign_extend(instruction & 0x1FF, 9));
            self.read_memory(address, console)
        } else if op == Opcode::Ldi {
            let pointer = self.registers.pc.wrapping_add(sign_extend(instruction & 0x1FF, 9));
            let address = self.read_memory(pointer, console);
            self.read_memory(address, console)
        } else {
            let base = self.registers.get((instruction >> 6) & 0x7);
            let address = base.wrapping_add(sign_extend(instruction & 0x3F, 6));
            self.read_memory(address, console)
        };
        self.set_result(dr, value);
        proof {
            assert(state(final(self), final(console)) =~= state(old(self), old(console)).execute(
                instruction,
            ).unwrap().0);
        }
    }

    /// `ST`, `STI` and `STR`: a register stored to memory.
    fn store_register(&mut self, instruction: u16, console: &mut Console)
        requires
            Opcode::of_word(instruction) == Opcode::St || Opcode::of_word(instruction) == Opcode::Sti
                || Opcode::of_word(instruction) == Opcode::Str,
        ensures
            state(old(self), old(console)).execute(instruction) == Ok::<(Machine, Step), Error>(
                (state(final(self), final(console)), Step::Continue),
            ),
    {
        let op = Opcode::decode(instruction);
        let value = self.registers.get((instruction >> 9) & 0x7);
        let address = if op == Opcode::St {
            self.registers.pc.wrapping_add(sign_extend(instruction & 0x1FF, 9))
        } else if op == Opcode::Sti {
            let pointer = self.registers.pc.wrapping_add(sign_extend(instruction & 0x1FF, 9));
            self.read_memory(pointer, console)
        } else {
            let base = self.registers.get((instruction >> 6) & 0x7);
            base.wrapping_add(sign_extend(instruction & 0x3F, 6))
        };
        self.memory.write(address, value);
        proof {
            assert(state(final(self), final(console)) =~= state(old(self), old(console)).execute(
                instruction,
            ).unwrap().0);
        }
    }

    /// Writes the string starting at `address`, one character per word (the
    /// low byte), up to the first zero word.
    fn puts(&mut self, address: u16, console: &mut Console)
        ensures
            state(final(self), final(console)) == state(old(self), old(console)).puts_from(address),
    {
        let mut addr = address;
        loop
            invariant
                state(self, console).puts_from(addr) == state(old(self), old(console)).puts_from(address),
            decreases console.input@.len(), Machine::distance_to_kbsr(addr),
        {
            let ghost before = state(self, console);
            let word = self.read_memory(addr, console);
            if word == 0 {
                return;
            }
            console.output.push((word % 256) as u8);
            proof {
                assert(addr != KBSR ==> Machine::distance_to_kbsr(add16(addr, 1))
                    < Machine::distance_to_kbsr(addr));
                assert(state(self, console) =~= before.read(addr).0.emit((word % 256) as u8));
            }
            addr = addr.wrapping_add(1);
        }
    }

    /// Writes the packed string starting at `address`: two characters per
    /// word, low byte first, the high byte left out when it is zero.
    fn putsp(&mut self, address: u16, console: &mut Console)
        ensures
            state(final(self), final(console)) == state(old(self), old(console)).putsp_from(address),
    {
        let mut addr = address;
        loop
            invariant
                state(self, console).putsp_from(addr) == state(old(self), old(console)).putsp_from(
                    address,
                ),
            decreases console.input@.len(), Machine::distance_to_kbsr(addr),
        {
            let ghost before = state(self, console);
            let word = self.read_memory(addr, console);
            if word == 0 {
                return;
            }
            let low = (word % 256) as u8;
            let high = (word / 256) as u8;
            console.output.push(low);
            if high != 0 {
                console.output.push(high);
            }
            proof {
                assert(addr != KBSR ==> Machine::distance_to_kbsr(add16(addr, 1))
                    < Machine::distance_to_kbsr(addr));
                let m1 = before.read(addr).0.emit(low);
                assert(state(self, console) =~= if high != 0 { m1.emit(high) } else { m1 });
            }
            addr = addr.wrapping_add(1);
        }
    }

    /// Executes a trap service routine.
    fn trap(&mut self, instruction: u16, console: &mut Console) -> (r: Result<Step, Error>)
        requires
            Opcode::of_word(instruction) == Opcode::Trap,
        ensures
            r matches Ok(step) ==> state(old(self), old(console)).execute(instruction) == Ok::<
                (Machine, Step),
                Error,
            >((state(final(self), final(console)), step)),
            r matches Err(e) ==> state(old(self), old(console)).execute(instruction) == Err::<
                (Machine, Step),
                Error,
            >(e) && state(final(self), final(console)) == state(old(self), old(console)),
    {
        let code = match TrapVector::try_from(instruction & 0xFF) {
            Ok(code) => code,
            Err(vector) => return Err(Error::UnknownTrap(vector)),
        };
        if (code == TrapVector::Getc || code == TrapVector::In) && console.input.len() == 0 {
            return Ok(Step::AwaitingKey);
        }
        // The return address goes to R7 before the routine runs.
        let return_address = self.registers.pc;
        self.registers.set(7, return_address);
        proof {
            assert(state(self, console) =~= state(old(self), old(console)).with_reg(7, old(self).registers.pc));
        }
        match code {
            TrapVector::Getc => {
                let key = console.input.remove(0);
                self.registers.set(0, key as u16);
                proof {
                    assert(state(final(self), final(console)) =~= state(old(self), old(console)).execute(
                        instruction,
                    ).unwrap().0);
                }
            },
            TrapVector::Out => {
                let byte = (self.registers.get(0) % 256) as u8;
                console.output.push(byte);
                proof {
                    assert(state(final(self), final(console)) =~= state(old(self), old(console)).execute(
                        instruction,
                    ).unwrap().0);
                }
            },
            TrapVector::Puts => {
                let address = self.registers.get(0);
                self.puts(address, console);
            },
            TrapVector::In => {
                let prompt: [u8; 19] = [
                    69, 110, 116, 101, 114, 32, 97, 32, 99, 104, 97, 114, 97, 99, 116, 101, 114, 58,
                    32,
                ];
                let key = console.input.remove(0);
                let mut i: usize = 0;
                let ghost out0 = console.output@;
                while i < 19
                    invariant
                        i <= 19,
                        prompt@ == in_prompt(),
                        console.output@ == out0 + prompt@.take(i as int),
                        console.input@ == old(console).input@.drop_first(),
                    decreases 19 - i,
                {
                    console.output.push(prompt[i]);
                    i += 1;
                    proof {
                        assert(prompt@.take(i as int) =~= prompt@.take((i - 1) as int).push(prompt@[i - 1]));
                    }
                }
                // Raw mode disables terminal echo, so the trap echoes the key.
                console.output.push(key);
                self.registers.set(0, key as u16);
                proof {
                    assert(prompt@.take(19) =~= prompt@);
                    assert(state(final(self), final(console)) =~= state(old(self), old(console)).execute(
                        instruction,
                    ).unwrap().0);
                }
            },
            TrapVector::Putsp => {
                let address = self.registers.get(0);
                self.putsp(address, console);
            },
            TrapVector::Halt => return Ok(Step::Halted),
        }
        Ok(Step::Continue)
    }

    /// Decodes and executes one instruction (the program counter already
    /// advanced past it), reporting how execution proceeds.
    ///
    /// The privileged (`RTI`), reserved, and unknown-trap encodings have no
    /// defined effect in this user-mode VM, so they stop the machine with an
    /// [`Error`] and leave it unchanged.
    pub fn execute(&mut self, instruction: u16, console: &mut Console) -> (r: Result<Step, Error>)
        ensures
            r matches Ok(step) ==> state(old(self), old(console)).execute(instruction) == Ok::<
                (Machine, Step),
                Error,
            >((state(final(self), final(console)), step)),
            r matches Err(e) ==> state(old(self), old(console)).execute(instruction) == Err::<
                (Machine, Step),
                Error,
            >(e) && state(final(self), final(console)) == state(old(self), old(console)),
    {
        let op = Opcode::decode(instruction);
        if op == Opcode::Add || op == Opcode::And || op == Opcode::Not || op == Opcode::Lea {
            self.compute(instruction, Ghost(&*console));
            Ok(Step::Continue)
        } else if op == Opcode::Br || op == Opcode::Jmp || op == Opcode::Jsr {
            self.jump(instruction, Ghost(&*console));
            Ok(Step::Continue)
        } else if op == Opcode::Ld || op == Opcode::Ldi || op == Opcode::Ldr {
            self.load_register(instruction, console);
            Ok(Step::Continue)
        } else if op == Opcode::St || op == Opcode::Sti || op == Opcode::Str {
            self.store_register(instruction, console);
            Ok(Step::Continue)
        } else if op == Opcode::Trap {
            self.trap(instruction, console)
        } else if op == Opcode::Rti {
            Err(Error::PrivilegedInstruction(instruction))
        } else {
            Err(Error::ReservedOpcode(instruction))
        }
    }

    /// Runs one fetch–decode–execute cycle: fetches the word at the program
    /// counter (polling the keyboard if it is `KBSR`), advances the counter
    /// (wrapping at the top of the address space), and executes the word.
    ///
    /// An instruction that waits for a key leaves the machine and console
    /// exactly as they were and yields [`Step::AwaitingKey`].
    pub fn step(&mut self, console: &mut Console) -> (r: Result<Step, Error>)
        ensures
            r matches Ok(step) ==> state(old(self), old(console)).step() == Ok::<(Machine, Step), Error>(
                (state(final(self), final(console)), step),
            ),
            r matches Err(e) ==> state(old(self), old(console)).step() == Err::<(Machine, Step), Error>(
                e,
            ) && state(final(self), final(console)) == state(old(self), old(console)).fetched(),
    {
        let ghost start = state(self, console);
        let pc = self.registers.pc;
        let instruction = self.read_memory(pc, console);
        self.registers.pc = pc.wrapping_add(1);
        proof {
            assert(0x8000u16 >> 12 == 8 && 0u16 >> 12 == 0) by (bit_vector);
            let fetched = start.read(pc);
            assert(state(self, console) =~= Machine { pc: add16(pc, 1), ..fetched.0 });
        }
        let outcome = self.execute(instruction, console);
        match outcome {
            Ok(Step::AwaitingKey) => {
                self.registers.pc = pc;
                proof {
                    assert(pc != KBSR);
                    assert(state(self, console) =~= start);
                }
                Ok(Step::AwaitingKey)
            },
            _ => outcome,
        }
    }

    /// Runs the loaded program from the current program counter until it
    /// halts, reaches an instruction it cannot run, or waits for a key that
    /// the console does not hold. (The run is capped at `u64::MAX` cycles,
    /// after which it reports [`Step::Continue`].)
    pub fn run(&mut self, console: &mut Console) -> (r: Result<Step, Error>)
        ensures
            r matches Ok(step) ==> state(old(self), old(console)).run(u64::MAX as nat) == Ok::<
                (Machine, Step),
                Error,
            >((state(final(self), final(console)), step)),
            r matches Err(e) ==> state(old(self), old(console)).run(u64::MAX as nat) == Err::<
                (Machine, Step),
                Error,
            >(e),
    {
        let mut fuel: u64 = u64::MAX;
        while fuel > 0
            invariant
                state(self, console).run(fuel as nat) == state(old(self), old(console)).run(
                    u64::MAX as nat,
                ),
            decreases fuel,
        {
            match self.step(console) {
                Ok(Step::Continue) => {},
                Ok(other) => return Ok(other),
                Err(e) => return Err(e),
            }
            fuel = fuel - 1;
        }
        Ok(Step::Continue)
    }

    /// Builds a VM with `image` loaded at its origin and the program counter
    /// set there, ready to run.
    ///
    /// Returns [`Error::ProgramOutOfRange`] if the image's words would extend
    /// past the top of the address space.
    pub fn load(image: &ObjectFile) -> (r: Result<Lc3VM, Error>)
        ensures
            !fits(image.origin, image.words@) ==> r == Err::<Lc3VM, Error>(
                Error::ProgramOutOfRange { origin: image.origin, words: image.words@.len() as usize },
            ),
            fits(image.origin, image.words@) ==> (r matches Ok(vm) && vm.memory@ == place(
                Seq::new(MEMORY_SIZE as nat, |i: int| 0u16),
                image.origin,
                image.words@,
            ) && vm.registers.pc == image.origin && vm.registers.gprs() == seq![0u16, 0, 0, 0, 0, 0, 0, 0]
                && vm.registers.cond == ConditionFlag::Zero),
    {
        let mut vm = Lc3VM::new();
        if !vm.memory.region_mut(image.origin, image.words.as_slice()) {
            return Err(Error::ProgramOutOfRange { origin: image.origin, words: image.words.len() });
        }
        vm.registers.pc = image.origin;
        Ok(vm)
    }

    /// Loads every block of `program` at its origin, in order, and points the
    /// program counter at the first block's origin (an empty program leaves
    /// it where it was).
    ///
    /// Returns [`Error::ProgramOutOfRange`] for the first block that would
    /// extend past the top of the address space; the blocks before it stay
    /// loaded and the program counter is left unchanged.
    pub fn load_program(&mut self, program: &[ObjectFile]) -> (r: Result<(), Error>)
        ensures
            final(self).registers.gprs() == old(self).registers.gprs(),
            final(self).registers.cond == old(self).registers.cond,
            first_misfit(program@) matches Some(i) ==> (r == Err::<(), Error>(
                Error::ProgramOutOfRange { origin: program@[i].origin, words: program@[i].words@.len() as usize },
            ) && final(self).memory@ == placed(old(self).memory@, program@, i as nat)
                && final(self).registers.pc == old(self).registers.pc),
            first_misfit(program@) is None ==> (r is Ok && final(self).memory@ == placed(
                old(self).memory@,
                program@,
                program@.len(),
            ) && final(self).registers.pc == (if program@.len() > 0 {
                program@[0].origin
            } else {
                old(self).registers.pc
            })),
    {
        let mut i: usize = 0;
        while i < program.len()
            invariant
                i <= program@.len(),
                self.memory@ == placed(old(self).memory@, program@, i as nat),
                self.registers == old(self).registers,
                forall|j: int| 0 <= j < i ==> fits(program@[j].origin, #[trigger] program@[j].words@),
            decreases program.len() - i,
        {
            let block = &program[i];
            if !self.memory.region_mut(block.origin, block.words.as_slice()) {
                proof {
                    assert(!fits(program@[i as int].origin, program@[i as int].words@));
                    let k = choose|k: int|
                        0 <= k < program@.len() && !fits(program@[k].origin, #[trigger] program@[k].words@)
                            && forall|j: int| 0 <= j < k ==> fits(program@[j].origin, #[trigger] program@[j].words@);
                    assert(k == i);
                }
                return Err(Error::ProgramOutOfRange { origin: block.origin, words: block.words.len() });
            }
            i += 1;
        }
        if program.len() > 0 {
            self.registers.pc = program[0].origin;
        }
        Ok(())
    }

    /// Decodes an `.obj` byte stream and returns a VM with it loaded, ready
    /// to run.
    ///
    /// Returns [`Error::Object`] if the bytes are not a valid `.obj` image and
    /// [`Error::ProgramOutOfRange`] if the image would not fit in memory.
    pub fn init_from_bytes(bytes: &[u8]) -> (r: Result<Lc3VM, Error>)
        ensures
            (match ObjectFile::from_be_bytes_spec(bytes@) {
                Err(e) => r == Err::<Lc3VM, Error>(Error::Object(e)),
                Ok((origin, words)) => if fits(origin, words) {
                    (r matches Ok(vm) && vm.memory@ == place(
                        Seq::new(MEMORY_SIZE as nat, |i: int| 0u16),
                        origin,
                        words,
                    ) && vm.registers.pc == origin && vm.registers.gprs() == seq![0u16, 0, 0, 0, 0, 0, 0, 0]
                        && vm.registers.cond == ConditionFlag::Zero)
                } else {
                    r == Err::<Lc3VM, Error>(
                        Error::ProgramOutOfRange { origin, words: words.len() as usize },
                    )
                },
            }),
    {
        match ObjectFile::from_be_bytes(bytes) {
            Ok(image) => Lc3VM::load(&image),
            Err(e) => Err(Error::Object(e)),
        }
    }
}


/// The condition code `cond` is the sign of `v`: negative when its top bit
/// is set, zero when it is zero, positive otherwise.
pub open spec fn flags_reflect(cond: ConditionFlag, v: u16) -> bool {
    &&& (cond == ConditionFlag::Negative <==> v >= 0x8000)
    &&& (cond == ConditionFlag::Zero <==> v == 0)
    &&& (cond == ConditionFlag::Positive <==> 0 < v < 0x8000)
}

/// The register field of `w` whose lowest bit is bit `low`.
pub open spec fn reg_field(w: u16, low: u16) -> int {
    ((w >> low) & 7) as int
}

/// `w`'s low `bits` bits as a two's-complement offset, added to `base`
/// with wrap-around.
pub open spec fn offset_from(base: u16, w: u16, bits: u32) -> u16 {
    add16(base, spec_sign_extend(w & (((1u32 << bits) - 1) as u16), bits))
}

/// `m` with only register `r` and the condition code changed: `r` now
/// holds `v` and the condition code is the sign of `v`.
pub open spec fn only_result(m: Machine, after: Machine, r: int, v: u16) -> bool {
    &&& after.regs == m.regs.update(r, v)
    &&& flags_reflect(after.cond, v)
    &&& after.mem == m.mem
    &&& after.pc == m.pc
    &&& after.input == m.input
    &&& after.output == m.output
}

proof fn lemma_fields(w: u16)
    ensures
        0 <= reg_field(w, 9) < 8,
        0 <= reg_field(w, 6) < 8,
        0 <= reg_field(w, 0) < 8,
        reg_field(w, 0) == (w & 7) as int,
        (w & 0x1FF) == w & (((1u32 << 9u32) - 1) as u16),
        (w & 0x3F) == w & (((1u32 << 6u32) - 1) as u16),
        (w & 0x7FF) == w & (((1u32 << 11u32) - 1) as u16),
        (w & 0x1F) == w & (((1u32 << 5u32) - 1) as u16),
        (w >> 11) & 1 != 0 <==> (w >> 11) & 1 == 1,
        ((w >> 9) & 7) & 4 != 0 <==> (w >> 11) & 1 == 1,
        ((w >> 9) & 7) & 2 != 0 <==> (w >> 10) & 1 == 1,
        ((w >> 9) & 7) & 1 != 0 <==> (w >> 9) & 1 == 1,
{
    assert((((w >> 9u16) & 7) & 4 != 0 <==> (w >> 11u16) & 1 == 1) && (((w >> 9u16) & 7) & 2 != 0 <==> (w
        >> 10u16) & 1 == 1) && (((w >> 9u16) & 7) & 1 != 0 <==> (w >> 9u16) & 1 == 1) && ((w >> 11u16) & 1 != 0
        <==> (w >> 11u16) & 1 == 1) && ((w >> 9u16) & 7) < 8 && ((w >> 6u16) & 7) < 8 && ((w >> 0u16) & 7) == (w & 7) && (w & 7) < 8
        && (w & 0x1FF) == w & (((1u32 << 9u32) - 1) as u16) && (w & 0x3F) == w & (((1u32 << 6u32) - 1) as u16)
        && (w & 0x7FF) == w & (((1u32 << 11u32) - 1) as u16) && (w & 0x1F) == w & (((1u32 << 5u32) - 1) as u16))
        by (bit_vector);
}

/// The register-computing instructions, executed with the program counter
/// already past them: `ADD` and `AND` combine the register named by bits
/// 8:6 with the register named by bits 2:0, or with the sign-extended
/// immediate of bits 4:0 when bit 5 is set; `NOT` complements the register
/// named by bits 8:6; `LEA` takes the program counter plus the
/// sign-extended offset of bits 8:0. The result lands in the register named
/// by bits 11:9 and sets the condition code from its sign; nothing else
/// changes, and the machine continues.
pub proof fn lemma_compute_instructions(m: Machine, w: u16)
    requires
        m.regs.len() == 8,
        w >> 12 == 1 || w >> 12 == 5 || w >> 12 == 9 || w >> 12 == 14,
    ensures
        m.execute(w) is Ok,
        m.execute(w)->Ok_0.1 == Step::Continue,
        w >> 12 == 1 ==> only_result(m, m.execute(w)->Ok_0.0, reg_field(w, 9), add16(
            m.regs[reg_field(w, 6)],
            if (w >> 5) & 1 == 1 { spec_sign_extend(w & 0x1F, 5) } else { m.regs[reg_field(w, 0)] },
        )),
        w >> 12 == 5 ==> only_result(m, m.execute(w)->Ok_0.0, reg_field(w, 9), m.regs[reg_field(w, 6)] & (
        if (w >> 5) & 1 == 1 { spec_sign_extend(w & 0x1F, 5) } else { m.regs[reg_field(w, 0)] })),
        w >> 12 == 9 ==> only_result(m, m.execute(w)->Ok_0.0, reg_field(w, 9), !m.regs[reg_field(w, 6)]),
        w >> 12 == 14 ==> only_result(m, m.execute(w)->Ok_0.0, reg_field(w, 9), offset_from(m.pc, w, 9)),
{
    lemma_fields(w);
}

/// The loads, executed with the program counter already past them: `LD`
/// reads the word at the program counter plus the sign-extended offset of
/// bits 8:0; `LDI` reads the word there and then the word at the address it
/// holds (two reads: the pointer, then what it points at); `LDR` reads the
/// word at the register named by bits 8:6 plus the sign-extended offset of
/// bits 5:0. The word lands in the register named by bits 11:9 and sets the
/// condition code from its sign; nothing else changes. (Addresses other
/// than the keyboard status register, whose read polls the console.)
pub proof fn lemma_load_instructions(m: Machine, w: u16)
    requires
        m.regs.len() == 8,
        m.mem.len() == MEMORY_SIZE,
        w >> 12 == 2 || w >> 12 == 10 || w >> 12 == 6,
        offset_from(m.pc, w, 9) != KBSR,
        w >> 12 == 10 ==> m.mem[offset_from(m.pc, w, 9) as int] != KBSR,
        w >> 12 == 6 ==> offset_from(m.regs[reg_field(w, 6)], w, 6) != KBSR,
    ensures
        m.execute(w) is Ok,
        m.execute(w)->Ok_0.1 == Step::Continue,
        w >> 12 == 2 ==> only_result(m, m.execute(w)->Ok_0.0, reg_field(w, 9), m.mem[offset_from(m.pc, w, 9) as int]),
        w >> 12 == 10 ==> only_result(m, m.execute(w)->Ok_0.0, reg_field(w, 9), m.mem[m.mem[offset_from(
            m.pc,
            w,
            9,
        ) as int] as int]),
        w >> 12 == 6 ==> only_result(m, m.execute(w)->Ok_0.0, reg_field(w, 9), m.mem[offset_from(
            m.regs[reg_field(w, 6)],
            w,
            6,
        ) as int]),
{
    lemma_fields(w);
}

/// The stores, executed with the program counter already past them: the
/// register named by bits 11:9 is written to the program counter plus the
/// sign-extended offset of bits 8:0 (`ST`), to the address held at that
/// word (`STI`), or to the register named by bits 8:6 plus the
/// sign-extended offset of bits 5:0 (`STR`). Registers, condition code and
/// every other word stay as they were.
pub proof fn lemma_store_instructions(m: Machine, w: u16)
    requires
        m.regs.len() == 8,
        m.mem.len() == MEMORY_SIZE,
        w >> 12 == 3 || w >> 12 == 11 || w >> 12 == 7,
        w >> 12 == 11 ==> offset_from(m.pc, w, 9) != KBSR,
    ensures
        m.execute(w) is Ok,
        m.execute(w)->Ok_0.1 == Step::Continue,
        m.execute(w)->Ok_0.0.regs == m.regs,
        m.execute(w)->Ok_0.0.cond == m.cond,
        m.execute(w)->Ok_0.0.pc == m.pc,
        w >> 12 == 3 ==> m.execute(w)->Ok_0.0.mem == m.mem.update(
            offset_from(m.pc, w, 9) as int,
            m.regs[reg_field(w, 9)],
        ),
        w >> 12 == 11 ==> m.execute(w)->Ok_0.0.mem == m.mem.update(
            m.mem[offset_from(m.pc, w, 9) as int] as int,
            m.regs[reg_field(w, 9)],
        ),
        w >> 12 == 7 ==> m.execute(w)->Ok_0.0.mem == m.mem.update(
            offset_from(m.regs[reg_field(w, 6)], w, 6) as int,
            m.regs[reg_field(w, 9)],
        ),
{
    lemma_fields(w);
}

/// `BR`, executed with the program counter already past it: the branch is
/// taken when bit 11 is set and the condition code is negative, bit 10 and
/// zero, or bit 9 and positive; a taken branch adds the sign-extended offset
/// of bits 8:0 to the program counter. Nothing else changes.
pub proof fn lemma_branch_instruction(m: Machine, w: u16)
    requires
        w >> 12 == 0,
    ensures
        m.execute(w) == Ok::<(Machine, Step), Error>((Machine {
            pc: if ((w >> 11) & 1 == 1 && m.cond == ConditionFlag::Negative) || ((w >> 10) & 1 == 1 && m.cond
                == ConditionFlag::Zero) || ((w >> 9) & 1 == 1 && m.cond == ConditionFlag::Positive) {
                offset_from(m.pc, w, 9)
            } else {
                m.pc
            },
            ..m
        }, Step::Continue)),
{
    lemma_fields(w);
}

/// The jumps, executed with the program counter already past them: `JMP`
/// (and `RET`) sets the program counter to the register named by bits 8:6;
/// `JSR` saves the program counter in `R7` and adds the sign-extended offset
/// of bits 10:0 to it, `JSRR` (bit 11 clear) saves it and jumps to the
/// register named by bits 8:6 as it was before the save. Memory and the
/// condition code stay as they were.
pub proof fn lemma_jump_instructions(m: Machine, w: u16)
    requires
        m.regs.len() == 8,
        w >> 12 == 12 || w >> 12 == 4,
    ensures
        m.execute(w) is Ok,
        m.execute(w)->Ok_0.1 == Step::Continue,
        m.execute(w)->Ok_0.0.mem == m.mem,
        m.execute(w)->Ok_0.0.cond == m.cond,
        w >> 12 == 12 ==> m.execute(w)->Ok_0.0.pc == m.regs[reg_field(w, 6)] && m.execute(w)->Ok_0.0.regs
            == m.regs,
        w >> 12 == 4 ==> m.execute(w)->Ok_0.0.regs == m.regs.update(7, m.pc) && m.execute(w)->Ok_0.0.pc == (
        if (w >> 11) & 1 == 1 { offset_from(m.pc, w, 11) } else { m.regs[reg_field(w, 6)] }),
{
    lemma_fields(w);
}

/// A read gives back what the last write to the same address stored, and a
/// write leaves every other address as it was; the keyboard status
/// register alone is refreshed from the console when it is read.
pub proof fn lemma_read_after_write(m: Machine, a: u16, v: u16, b: u16)
    requires
        m.mem.len() == MEMORY_SIZE,
        b != KBSR,
    ensures
        m.write(a, v).read(b).1 == (if a == b { v } else { m.read(b).1 }),
        m.write(a, v).read(b).0 == m.write(a, v),
{
}

/// A `HALT` stops the machine: the cycle that fetches it reports
/// [`Step::Halted`] and changes nothing but the program counter, the return
/// address in `R7` (and, if the fetch polled the keyboard, the keyboard
/// registers).
pub proof fn lemma_halt_stops(m: Machine)
    requires
        m.read(m.pc).1 == 0xF025,
    ensures
        m.step() == Ok::<(Machine, Step), Error>(
            (m.fetched().with_reg(7, m.fetched().pc), Step::Halted),
        ),
{
    assert(0xF025u16 >> 12 == 15 && 0xF025u16 & 0xFF == 0x25) by (bit_vector);
}

/// `RTI` and the reserved opcode stop the machine with the error naming
/// the word; so does a `TRAP` whose vector names none of the six routines.
pub proof fn lemma_faults_stop(m: Machine)
    ensures
        m.read(m.pc).1 >> 12 == 8 ==> m.step() == Err::<(Machine, Step), Error>(
            Error::PrivilegedInstruction(m.read(m.pc).1),
        ),
        m.read(m.pc).1 >> 12 == 13 ==> m.step() == Err::<(Machine, Step), Error>(
            Error::ReservedOpcode(m.read(m.pc).1),
        ),
        m.read(m.pc).1 >> 12 == 15 && TrapVector::of_vector(m.read(m.pc).1 & 0xFF) is None
            ==> m.step() == Err::<(Machine, Step), Error>(Error::UnknownTrap(m.read(m.pc).1 & 0xFF)),
{
}

} // verus!
