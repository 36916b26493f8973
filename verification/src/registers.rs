//! The processor's register state.
use vstd::prelude::*;

use crate::memory_map::PC_START;
use crate::register::ConditionFlag;

verus! {

/// The processor's register state: eight general-purpose registers, the program
/// counter, and the current condition code.
///
/// General-purpose registers are addressed by the 3-bit register field of an
/// instruction; only those three bits select the register.
pub struct Registers {
    /// The general-purpose registers `R0`–`R7`.
    pub gpr: [u16; 8],
    /// The program counter: the address of the next instruction to fetch.
    pub pc: u16,
    /// The condition code set by the most recent register-writing instruction.
    pub cond: ConditionFlag,
}

impl Registers {
    /// The eight general-purpose registers, `R0` first.
    pub open spec fn gprs(&self) -> Seq<u16> {
        self.gpr@
    }

    /// The value of register `reg`, selected by its low three bits.
    pub open spec fn reg(&self, reg: u16) -> u16 {
        self.gprs()[(reg % 8) as int]
    }

    /// There are always eight general-purpose registers.
    pub proof fn lemma_eight(&self)
        ensures
            self.gprs().len() == 8,
    {
    }

    /// Creates the initial register state: general-purpose registers cleared,
    /// the program counter at `PC_START`, and a zero condition code.
    pub fn new() -> (r: Registers)
        ensures
            r.gprs() == seq![0u16, 0, 0, 0, 0, 0, 0, 0],
            r.pc == PC_START,
            r.cond == ConditionFlag::Zero,
    {
        let r = Registers { gpr: [0; 8], pc: PC_START, cond: ConditionFlag::Zero };
        proof {
            assert(r.gprs() =~= seq![0u16, 0, 0, 0, 0, 0, 0, 0]);
        }
        r
    }

    /// Reads general-purpose register `reg`, identified by its 3-bit field.
    pub fn get(&self, reg: u16) -> (v: u16)
        ensures
            v == self.reg(reg),
    {
        let i: usize = (reg % 8) as usize;
        self.gpr[i]
    }

    /// Writes `value` to general-purpose register `reg`, identified by its
    /// 3-bit field.
    pub fn set(&mut self, reg: u16, value: u16)
        ensures
            final(self).gprs() == old(self).gprs().update((reg % 8) as int, value),
            final(self).pc == old(self).pc,
            final(self).cond == old(self).cond,
    {
        let i: usize = (reg % 8) as usize;
        self.gpr[i] = value;
    }

    /// Updates the condition code from the value now held in register `reg`.
    pub fn update_flags(&mut self, reg: u16)
        ensures
            final(self).gprs() == old(self).gprs(),
            final(self).pc == old(self).pc,
            final(self).cond == ConditionFlag::of_value(old(self).reg(reg)),
    {
        self.cond = ConditionFlag::from_result(self.get(reg));
    }
}

} // verus!
