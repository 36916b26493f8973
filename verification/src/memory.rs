//! The virtual machine's 16-bit addressable memory.
use vstd::prelude::*;

use crate::memory_map::MEMORY_SIZE;

verus! {

/// The VM's 16-bit addressable memory: every word of the `x0000`–`xFFFF` space.
pub struct Memory(Box<[u16; 65536]>);

impl View for Memory {
    type V = Seq<u16>;

    closed spec fn view(&self) -> Seq<u16> {
        self.0@
    }
}

impl Memory {
    /// Memory always spans the whole address space.
    pub proof fn lemma_size(&self)
        ensures
            self@.len() == MEMORY_SIZE,
    {
    }

    /// Creates zero-initialized memory spanning the whole address space.
    pub fn new() -> (m: Memory)
        ensures
            m@ == Seq::new(MEMORY_SIZE as nat, |i: int| 0u16),
    {
        let v: [u16; 65536] = [0u16; 65536];
        let m = Memory(Box::new(v));
        proof {
            assert(m@ =~= Seq::new(MEMORY_SIZE as nat, |i: int| 0u16));
        }
        m
    }

    /// Reads the word at `address`.
    pub fn read(&self, address: u16) -> (r: u16)
        ensures
            r == self@[address as int],
            self@.len() == MEMORY_SIZE,
    {
        self.0[address as usize]
    }

    /// Writes `value` to `address`.
    pub fn write(&mut self, address: u16, value: u16)
        ensures
            final(self)@ == old(self)@.update(address as int, value),
            old(self)@.len() == MEMORY_SIZE,
    {
        self.0[address as usize] = value;
    }

    /// Copies `words` into the region beginning at `origin` and returns `true`,
    /// or returns `false` and leaves memory unchanged when the region would
    /// extend past the end of the address space.
    pub fn region_mut(&mut self, origin: u16, words: &[u16]) -> (r: bool)
        ensures
            old(self)@.len() == MEMORY_SIZE,
            r == (origin + words@.len() <= MEMORY_SIZE),
            r ==> final(self)@ == old(self)@.take(origin as int) + words@ + old(self)@.skip(
                origin + words@.len(),
            ),
            !r ==> final(self)@ == old(self)@,
    {
        let start = origin as usize;
        if words.len() > MEMORY_SIZE - start {
            return false;
        }
        let ghost before = self@;
        let mut i: usize = 0;
        while i < words.len()
            invariant
                start == origin as usize,
                start + words@.len() <= MEMORY_SIZE,
                i <= words@.len(),
                self@.len() == MEMORY_SIZE,
                before.len() == MEMORY_SIZE,
                self@ == before.take(start as int) + words@.take(i as int) + before.skip(start + i),
            decreases words.len() - i,
        {
            self.0[start + i] = words[i];
            i += 1;
            proof {
                assert(self@ =~= before.take(start as int) + words@.take(i as int) + before.skip(
                    start + i,
                ));
            }
        }
        proof {
            assert(words@.take(i as int) =~= words@);
        }
        true
    }
}

} // verus!
