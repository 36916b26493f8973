//! The debugging engine: state transitions over a loaded program.
//!
//! [`Debugger`] owns a [`Lc3VM`], its [`Console`], a breakpoint set, and the
//! program it was loaded from (so it can [`reset`](Debugger::reset)). It
//! single-steps and resumes the machine, manages breakpoints, reads and writes
//! registers and memory, and disassembles a memory window. A frontend drives
//! it and services the console: it feeds keys in and shows what the program
//! wrote.
use std::collections::BTreeSet;
use vstd::prelude::*;

use crate::cmd::Register;
use crate::listing::{disassemble, listing_text};
use crate::machine::{first_misfit, placed, state, Console, Error, Lc3VM, Machine, Step};
use crate::memory_map::{MEMORY_SIZE, PC_START};
use crate::object::ObjectFile;
use crate::register::ConditionFlag;
use crate::registers::Registers;
use crate::text::wrap16;

verus! {

broadcast use {vstd::std_specs::btree::group_btree_axioms, vstd::laws_cmp::group_laws_cmp};

/// Why a run of the machine stopped.
#[derive(Debug, Clone, Copy, PartialEq, Eq, Structural)]
#[non_exhaustive]
pub enum Stop {
    /// Completed the requested steps without halting.
    Stepped,
    /// Reached a breakpoint; the address is the next instruction to run.
    Breakpoint(u16),
    /// Reached a `HALT`; the machine has stopped.
    Halted,
    /// The instruction at the program counter reads the keyboard and no key
    /// is waiting; it has not run. The number is how many of the requested
    /// steps are still to run, that instruction included (zero for a
    /// resumed run).
    AwaitingKey(u16),
}

/// The machine `program` loads into, with the given console contents.
pub open spec fn loaded(program: Seq<ObjectFile>, input: Seq<u8>, output: Seq<u8>) -> Machine {
    Machine {
        mem: placed(Seq::new(MEMORY_SIZE as nat, |i: int| 0u16), program, program.len()),
        regs: seq![0u16, 0, 0, 0, 0, 0, 0, 0],
        pc: if program.len() > 0 {
            program[0].origin
        } else {
            PC_START
        },
        cond: ConditionFlag::Zero,
        input,
        output,
    }
}

/// Up to `count` steps from `m`, stopping early at a `HALT`, at a keyboard
/// read with no key waiting, or at an error. Breakpoints do not interrupt a
/// step.
pub open spec fn steps_spec(m: Machine, count: nat) -> (Machine, Result<Stop, Error>)
    decreases count,
{
    if count == 0 {
        (m, Ok(Stop::Stepped))
    } else {
        match m.step() {
            Err(e) => (m.fetched(), Err(e)),
            Ok((m2, Step::Halted)) => (m2, Ok(Stop::Halted)),
            Ok((m2, Step::AwaitingKey)) => (m2, Ok(Stop::AwaitingKey(count as u16))),
            Ok((m2, Step::Continue)) => steps_spec(m2, (count - 1) as nat),
        }
    }
}

/// A run from `m` of at most `fuel` steps: it stops after the first step
/// that lands on a breakpoint, at a `HALT`, at a keyboard read with no key
/// waiting, or at an error. At least one step is taken, so a run started on
/// a breakpoint leaves it.
pub open spec fn resume_spec(m: Machine, breakpoints: Set<u16>, fuel: nat) -> (Machine, Result<Stop, Error>)
    decreases fuel,
{
    if fuel == 0 {
        (m, Ok(Stop::Stepped))
    } else {
        match m.step() {
            Err(e) => (m.fetched(), Err(e)),
            Ok((m2, Step::Halted)) => (m2, Ok(Stop::Halted)),
            Ok((m2, Step::AwaitingKey)) => (m2, Ok(Stop::AwaitingKey(0))),
            Ok((m2, Step::Continue)) => if breakpoints.contains(m2.pc) {
                (m2, Ok(Stop::Breakpoint(m2.pc)))
            } else {
                resume_spec(m2, breakpoints, (fuel - 1) as nat)
            },
        }
    }
}

/// The `len` words of `mem` from `address` on, wrapping at the top of the
/// address space.
pub open spec fn window(mem: Seq<u16>, address: u16, len: u16) -> Seq<u16> {
    Seq::new(len as nat, |k: int| mem[wrap16(address + k) as int])
}

/// A sequence strictly ascending: sorted, with nothing occurring twice.
pub open spec fn ascending(s: Seq<u16>) -> bool {
    forall|i: int, j: int| 0 <= i < j < s.len() ==> s[i] < s[j]
}

/// The set of breakpoint addresses.
struct Breakpoints {
    addresses: BTreeSet<u16>,
}

/// A program known to fit in memory.
struct Fitted {
    blocks: Vec<ObjectFile>,
}

impl Fitted {
    #[verifier::type_invariant]
    spec fn fits(self) -> bool {
        first_misfit(self.blocks@) is None
    }
}

impl Breakpoints {
    /// The addresses as a set.
    spec fn set(self) -> Set<u16> {
        self.addresses@
    }

    /// Whether `address` is in the set.
    fn contains(&self, address: u16) -> (r: bool)
        ensures
            r == self.set().contains(address),
    {
        self.addresses.contains(&address)
    }

    /// Adds `address`, returning whether it was absent.
    fn insert(&mut self, address: u16) -> (r: bool)
        ensures
            r == !old(self).set().contains(address),
            final(self).set() == old(self).set().insert(address),
    {
        self.addresses.insert(address)
    }

    /// Removes `address`, returning whether it was present.
    fn remove(&mut self, address: u16) -> (r: bool)
        ensures
            r == old(self).set().contains(address),
            final(self).set() == old(self).set().remove(address),
    {
        self.addresses.remove(&address)
    }

    /// The addresses in ascending order, found by a sweep of the address
    /// space.
    fn to_vec(&self) -> (r: Vec<u16>)
        ensures
            r@.to_set() == self.set(),
            ascending(r@),
    {
        let mut out: Vec<u16> = Vec::new();
        let mut a: u32 = 0;
        while a < 0x1_0000
            invariant
                a <= 0x1_0000,
                ascending(out@),
                forall|k: int| 0 <= k < out@.len() ==> out@[k] < a,
                forall|x: u16| #[trigger] out@.contains(x) <==> (x < a && self.set().contains(x)),
            decreases 0x1_0000 - a,
        {
            let x = a as u16;
            if self.contains(x) {
                let ghost before = out@;
                out.push(x);
                proof {
                    assert forall|y: u16| #[trigger] out@.contains(y) <==> (y < a + 1 && self.set().contains(y)) by {
                        if out@.contains(y) && !before.contains(y) {
                            let k = choose|k: int| 0 <= k < out@.len() && out@[k] == y;
                            assert(k == before.len());
                        }
                        if before.contains(y) {
                            let k = choose|k: int| 0 <= k < before.len() && before[k] == y;
                            assert(out@[k] == y);
                        }
                        if y == x {
                            assert(out@[before.len() as int] == y);
                        }
                    }
                }
            } else {
                proof {
                    assert forall|y: u16| #[trigger] out@.contains(y) <==> (y < a + 1 && self.set().contains(y)) by {
                        if y == x {
                            assert(!out@.contains(y));
                        }
                    }
                }
            }
            a = a + 1;
        }
        proof {
            assert(out@.to_set() =~= self.set());
        }
        out
    }
}

/// An interactive debugging session over a loaded LC-3 program.
pub struct Debugger {
    vm: Lc3VM,
    console: Console,
    program: Fitted,
    breakpoints: Breakpoints,
}

impl Debugger {
    /// The machine and console state of the session.
    pub closed spec fn machine(&self) -> Machine {
        state(&self.vm, &self.console)
    }

    /// The active breakpoints.
    pub closed spec fn breakpoint_set(&self) -> Set<u16> {
        self.breakpoints.set()
    }

    /// The program the session was loaded from.
    pub closed spec fn program(&self) -> Seq<ObjectFile> {
        self.program.blocks@
    }

    /// Loads `program` into a fresh machine, ready at its entry point, with
    /// no breakpoints and an idle console.
    ///
    /// Returns [`Error::ProgramOutOfRange`] for the first block that would
    /// not fit in memory.
    pub fn new(program: Vec<ObjectFile>) -> (r: Result<Debugger, Error>)
        ensures
            match first_misfit(program@) {
                Some(i) => r == Err::<Debugger, Error>(
                    Error::ProgramOutOfRange {
                        origin: program@[i].origin,
                        words: program@[i].words@.len() as usize,
                    },
                ),
                None => (r matches Ok(d) && d.machine() == loaded(program@, seq![], seq![])
                    && d.breakpoint_set() == Set::<u16>::empty() && d.program() == program@),
            },
    {
        let mut vm = Lc3VM::new();
        match vm.load_program(program.as_slice()) {
            Err(e) => Err(e),
            Ok(()) => {
                let console = Console::new();
                let d = Debugger {
                    vm,
                    console,
                    program: Fitted { blocks: program },
                    breakpoints: Breakpoints { addresses: BTreeSet::new() },
                };
                proof {
                    assert(d.machine() =~= loaded(program@, seq![], seq![]));
                }
                Ok(d)
            },
        }
    }

    /// Reloads the session's program into a fresh machine, back at its entry
    /// point: registers and memory are restored, breakpoints and the console
    /// are kept. (The program fit when the session began, so this succeeds.)
    pub fn reset(&mut self) -> (r: Result<(), Error>)
        ensures
            r is Ok,
            final(self).machine() == loaded(
                old(self).program(),
                old(self).machine().input,
                old(self).machine().output,
            ),
            final(self).breakpoint_set() == old(self).breakpoint_set(),
            final(self).program() == old(self).program(),
    {
        proof {
            use_type_invariant(&self.program);
        }
        let mut vm = Lc3VM::new();
        match vm.load_program(self.program.blocks.as_slice()) {
            Ok(()) => {},
            Err(e) => return Err(e),
        }
        self.vm = vm;
        proof {
            assert(self.machine() =~= loaded(
                old(self).program(),
                old(self).machine().input,
                old(self).machine().output,
            ));
        }
        Ok(())
    }

    /// Executes up to `count` instructions, stopping early at a `HALT`.
    ///
    /// Breakpoints do not interrupt an explicit step; a `HALT` ends the run
    /// as [`Stop::Halted`], a keyboard read with no key waiting as
    /// [`Stop::AwaitingKey`], and an instruction the machine cannot run as
    /// its error. Running the full count yields [`Stop::Stepped`].
    pub fn step(&mut self, count: u16) -> (r: Result<Stop, Error>)
        ensures
            (final(self).machine(), r) == steps_spec(old(self).machine(), count as nat),
            final(self).breakpoint_set() == old(self).breakpoint_set(),
            final(self).program() == old(self).program(),
    {
        let mut left = count;
        while left > 0
            invariant
                left <= count,
                self.breakpoints.set() == old(self).breakpoints.set(),
                self.program.blocks@ == old(self).program.blocks@,
                steps_spec(old(self).machine(), count as nat) == steps_spec(self.machine(), left as nat),
            decreases left,
        {
            match self.vm.step(&mut self.console) {
                Err(e) => return Err(e),
                Ok(Step::Halted) => return Ok(Stop::Halted),
                Ok(Step::AwaitingKey) => return Ok(Stop::AwaitingKey(left)),
                Ok(Step::Continue) => {},
            }
            left = left - 1;
        }
        Ok(Stop::Stepped)
    }

    /// Whether `address` holds a breakpoint.
    fn is_breakpoint(&self, address: u16) -> (r: bool)
        ensures
            r == self.breakpoint_set().contains(address),
    {
        self.breakpoints.contains(address)
    }

    /// Runs until a breakpoint, a `HALT`, a keyboard read with no key
    /// waiting, or an error.
    ///
    /// Always executes at least one instruction, so a session resumed on a
    /// breakpoint leaves it rather than stopping on it again. (The run is
    /// capped at `u64::MAX` instructions, after which it reports
    /// [`Stop::Stepped`].)
    pub fn resume(&mut self) -> (r: Result<Stop, Error>)
        ensures
            (final(self).machine(), r) == resume_spec(
                old(self).machine(),
                old(self).breakpoint_set(),
                u64::MAX as nat,
            ),
            final(self).breakpoint_set() == old(self).breakpoint_set(),
            final(self).program() == old(self).program(),
    {
        let mut fuel: u64 = u64::MAX;
        while fuel > 0
            invariant
                self.breakpoints.set() == old(self).breakpoints.set(),
                self.program.blocks@ == old(self).program.blocks@,
                resume_spec(old(self).machine(), old(self).breakpoint_set(), u64::MAX as nat)
                    == resume_spec(self.machine(), self.breakpoint_set(), fuel as nat),
            decreases fuel,
        {
            match self.vm.step(&mut self.console) {
                Err(e) => return Err(e),
                Ok(Step::Halted) => return Ok(Stop::Halted),
                Ok(Step::AwaitingKey) => return Ok(Stop::AwaitingKey(0)),
                Ok(Step::Continue) => {},
            }
            let pc = self.vm.registers.pc;
            if self.is_breakpoint(pc) {
                return Ok(Stop::Breakpoint(pc));
            }
            fuel = fuel - 1;
        }
        Ok(Stop::Stepped)
    }

    /// Sets a breakpoint at `address`, returning whether it was newly added.
    pub fn add_breakpoint(&mut self, address: u16) -> (r: bool)
        ensures
            r == !old(self).breakpoint_set().contains(address),
            final(self).breakpoint_set() == old(self).breakpoint_set().insert(address),
            final(self).machine() == old(self).machine(),
            final(self).program() == old(self).program(),
    {
        self.breakpoints.insert(address)
    }

    /// Clears the breakpoint at `address`, returning whether one was set.
    pub fn remove_breakpoint(&mut self, address: u16) -> (r: bool)
        ensures
            r == old(self).breakpoint_set().contains(address),
            final(self).breakpoint_set() == old(self).breakpoint_set().remove(address),
            final(self).machine() == old(self).machine(),
            final(self).program() == old(self).program(),
    {
        self.breakpoints.remove(address)
    }

    /// The active breakpoint addresses, in ascending order.
    pub fn breakpoints(&self) -> (r: Vec<u16>)
        ensures
            r@.to_set() == self.breakpoint_set(),
            ascending(r@),
    {
        self.breakpoints.to_vec()
    }

    /// The current register file.
    pub fn registers(&self) -> (r: &Registers)
        ensures
            r.gprs() == self.machine().regs,
            r.pc == self.machine().pc,
            r.cond == self.machine().cond,
    {
        &self.vm.registers
    }

    /// Writes `value` to `register` (a general-purpose register by its low
    /// three bits, or the program counter).
    pub fn set_register(&mut self, register: Register, value: u16)
        ensures
            final(self).machine() == (match register {
                Register::General(reg) => Machine {
                    regs: old(self).machine().regs.update((reg % 8) as int, value),
                    ..old(self).machine()
                },
                Register::Pc => Machine { pc: value, ..old(self).machine() },
            }),
            final(self).breakpoint_set() == old(self).breakpoint_set(),
            final(self).program() == old(self).program(),
    {
        match register {
            Register::General(reg) => self.vm.registers.set(reg, value),
            Register::Pc => self.vm.registers.pc = value,
        }
        proof {
            assert(self.machine() =~= (match register {
                Register::General(reg) => Machine {
                    regs: old(self).machine().regs.update((reg % 8) as int, value),
                    ..old(self).machine()
                },
                Register::Pc => Machine { pc: value, ..old(self).machine() },
            }));
        }
    }

    /// Reads the word at `address` (without touching the keyboard).
    pub fn read_memory(&self, address: u16) -> (r: u16)
        ensures
            r == self.machine().mem[address as int],
    {
        self.vm.memory.read(address)
    }

    /// Writes `value` to the word at `address`.
    pub fn write_memory(&mut self, address: u16, value: u16)
        ensures
            final(self).machine() == (Machine {
                mem: old(self).machine().mem.update(address as int, value),
                ..old(self).machine()
            }),
            final(self).breakpoint_set() == old(self).breakpoint_set(),
            final(self).program() == old(self).program(),
    {
        self.vm.memory.write(address, value);
        proof {
            assert(self.machine() =~= Machine {
                mem: old(self).machine().mem.update(address as int, value),
                ..old(self).machine()
            });
        }
    }

    /// Disassembles `len` words beginning at `address` (wrapping at the top
    /// of memory) as an annotated listing, read from live memory.
    pub fn disassemble(&self, address: u16, len: u16) -> (r: String)
        ensures
            r@ == listing_text(address, window(self.machine().mem, address, len)),
    {
        let mut words: Vec<u16> = Vec::new();
        let mut k: u16 = 0;
        proof {
            self.vm.memory.lemma_size();
        }
        while k < len
            invariant
                k <= len,
                self.vm.memory@.len() == MEMORY_SIZE,
                words@ == window(self.vm.memory@, address, len).take(k as int),
            decreases len - k,
        {
            let at = address.wrapping_add(k);
            words.push(self.vm.memory.read(at));
            k += 1;
            proof {
                assert(words@ =~= window(self.vm.memory@, address, len).take(k as int));
            }
        }
        proof {
            assert(window(self.vm.memory@, address, len).take(len as int) =~= window(
                self.vm.memory@,
                address,
                len,
            ));
        }
        disassemble(&ObjectFile { origin: address, words })
    }

    /// Hands a typed key to the console, behind any keys already waiting.
    pub fn push_key(&mut self, key: u8)
        ensures
            final(self).machine() == (Machine {
                input: old(self).machine().input.push(key),
                ..old(self).machine()
            }),
            final(self).breakpoint_set() == old(self).breakpoint_set(),
            final(self).program() == old(self).program(),
    {
        self.console.input.push(key);
        proof {
            assert(self.machine() =~= Machine {
                input: old(self).machine().input.push(key),
                ..old(self).machine()
            });
        }
    }

    /// Takes the bytes the program has written since the last call.
    pub fn take_output(&mut self) -> (r: Vec<u8>)
        ensures
            r@ == old(self).machine().output,
            final(self).machine() == (Machine { output: seq![], ..old(self).machine() }),
            final(self).breakpoint_set() == old(self).breakpoint_set(),
            final(self).program() == old(self).program(),
    {
        let mut out: Vec<u8> = Vec::new();
        std::mem::swap(&mut out, &mut self.console.output);
        proof {
            assert(self.machine() =~= Machine { output: seq![], ..old(self).machine() });
        }
        out
    }
}

/// Stepping `a` instructions and then `b` more is stepping `a + b`, when
/// the first run completes without stopping early.
pub proof fn lemma_steps_compose(m: Machine, a: nat, b: nat)
    requires
        steps_spec(m, a).1 == Ok::<Stop, Error>(Stop::Stepped),
        a + b <= u16::MAX,
    ensures
        steps_spec(m, a + b) == steps_spec(steps_spec(m, a).0, b),
    decreases a,
{
    if a > 0 {
        match m.step() {
            Ok((m2, Step::Continue)) => {
                lemma_steps_compose(m2, (a - 1) as nat, b);
                assert((a - 1) as nat + b == (a + b - 1) as nat);
            },
            _ => {},
        }
    }
}

/// A step that completes its count completed every shorter count on the
/// way: the first `n` instructions of it ran without stopping.
pub proof fn lemma_steps_prefix(m: Machine, a: nat, n: nat)
    requires
        steps_spec(m, a).1 == Ok::<Stop, Error>(Stop::Stepped),
        n <= a,
    ensures
        steps_spec(m, n).1 == Ok::<Stop, Error>(Stop::Stepped),
        steps_spec(steps_spec(m, n).0, (a - n) as nat) == steps_spec(m, a),
    decreases n,
{
    if n > 0 {
        match m.step() {
            Ok((m2, Step::Continue)) => {
                lemma_steps_prefix(m2, (a - 1) as nat, (n - 1) as nat);
                assert((a - 1 - (n - 1)) as nat == (a - n) as nat);
            },
            _ => {},
        }
    }
}

/// Once a run reaches a `HALT`, any longer count ends at it: if the first
/// `a` instructions run without stopping and the next one is a `HALT`, every
/// step of more than `a` instructions runs exactly `a + 1` of them and
/// reports [`Stop::Halted`] with the same machine. (A step of zero
/// instructions runs none and reports [`Stop::Stepped`].)
pub proof fn lemma_steps_reach_halt(m: Machine, a: nat, n: nat)
    requires
        steps_spec(m, a).1 == Ok::<Stop, Error>(Stop::Stepped),
        steps_spec(m, a).0.step() matches Ok((_, Step::Halted)),
        a < n <= u16::MAX,
    ensures
        steps_spec(m, n) == (steps_spec(m, a).0.step()->Ok_0.0, Ok::<Stop, Error>(Stop::Halted)),
        steps_spec(m, 0) == (m, Ok::<Stop, Error>(Stop::Stepped)),
{
    lemma_steps_compose(m, a, (n - a) as nat);
    assert(a + (n - a) as nat == n);
}

/// The machine after `j` instructions that each continue, or `None` when
/// one of the first `j` does not continue (it halts, waits for a key or
/// faults).
pub open spec fn continuing(m: Machine, j: nat) -> Option<Machine>
    decreases j,
{
    if j == 0 {
        Some(m)
    } else {
        match m.step() {
            Ok((m2, Step::Continue)) => continuing(m2, (j - 1) as nat),
            _ => None,
        }
    }
}

/// A step of `n` instructions stops at the first `HALT`: when the `k`-th
/// instruction is the first to halt (the `k - 1` before it each continue),
/// exactly `min(n, k)` instructions run, and the result is
/// [`Stop::Halted`] if and only if `k <= n`, [`Stop::Stepped`] otherwise;
/// so a step of zero runs nothing.
pub proof fn lemma_step_count(m: Machine, k: nat, n: nat)
    requires
        k >= 1,
        continuing(m, (k - 1) as nat) matches Some(last) && last.step() matches Ok((_, Step::Halted)),
    ensures
        steps_spec(m, n) == if n < k {
            (continuing(m, n)->0, Ok::<Stop, Error>(Stop::Stepped))
        } else {
            (continuing(m, (k - 1) as nat)->0.step()->Ok_0.0, Ok::<Stop, Error>(Stop::Halted))
        },
    decreases k,
{
    if n > 0 {
        if k == 1 {
        } else {
            match m.step() {
                Ok((m2, Step::Continue)) => {
                    lemma_step_count(m2, (k - 1) as nat, (n - 1) as nat);
                },
                _ => {},
            }
        }
    }
}

/// A step never stops at a breakpoint, and a resumed run never stops
/// without having run an instruction: from any state, a run of one
/// instruction and a single step agree unless a breakpoint ends the run.
pub proof fn lemma_resume_takes_a_step(m: Machine, breakpoints: Set<u16>, fuel: nat)
    requires
        fuel > 0,
        steps_spec(m, 1).1 == Ok::<Stop, Error>(Stop::Stepped),
    ensures
        resume_spec(m, breakpoints, fuel) == (if breakpoints.contains(steps_spec(m, 1).0.pc) {
            (steps_spec(m, 1).0, Ok::<Stop, Error>(Stop::Breakpoint(steps_spec(m, 1).0.pc)))
        } else {
            resume_spec(steps_spec(m, 1).0, breakpoints, (fuel - 1) as nat)
        }),
{
    reveal_with_fuel(steps_spec, 2);
}

} // verus!
