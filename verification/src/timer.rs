//! The system timer's register block, modelled as plain values: the
//! counter read and the tick programming are computed here and proved;
//! the volatile MMIO accesses that carry them to the device stay with
//! the platform layer.
use vstd::prelude::*;

verus! {

/// The timer's register block: control/status, the two counter
/// halves, and the four compare registers.
#[derive(Clone, Copy, Debug)]
pub struct Registers {
    pub cs: u32,
    pub clo: u32,
    pub chi: u32,
    pub compare: [u32; 4],
}

/// The system timer.
pub struct Timer {
    pub registers: Registers,
}

impl Timer {
    /// Returns a timer over the given register state.
    pub fn new(registers: Registers) -> (t: Timer)
        ensures
            t.registers == registers,
    {
        Timer { registers }
    }

    /// The 64-bit counter: the high half above the low half.  The
    /// returned value is the number of elapsed microseconds.
    pub fn read(&self) -> (r: u64)
        ensures
            r == self.registers.chi as int * 0x1_0000_0000 + self.registers.clo as int,
    {
        let low = self.registers.clo;
        let high = self.registers.chi;
        (high as u64) * 0x1_0000_0000 + (low as u64)
    }

    /// Programs a match in compare register 1 to fire `us`
    /// microseconds from now: writes the counter's low half plus `us`,
    /// wrapping at 32 bits, and sets bit 1 of the control register to
    /// clear the pending match.
    pub fn tick_in(&mut self, us: u32)
        ensures
            final(self).registers.clo == old(self).registers.clo,
            final(self).registers.chi == old(self).registers.chi,
            final(self).registers.compare@[1] as int == (old(self).registers.clo + us) % 0x1_0000_0000,
            final(self).registers.compare@[0] == old(self).registers.compare@[0],
            final(self).registers.compare@[2] == old(self).registers.compare@[2],
            final(self).registers.compare@[3] == old(self).registers.compare@[3],
            (final(self).registers.cs as int / 2) % 2 == 1,
            final(self).registers.cs as int == old(self).registers.cs as int + (if (old(
                self,
            ).registers.cs as int / 2) % 2 == 1 {
                0int
            } else {
                2int
            }),
    {
        let current_low = self.registers.clo;
        let compare: u32 = if us <= u32::MAX - current_low {
            current_low + us
        } else {
            us - (u32::MAX - current_low) - 1
        };
        self.registers.compare[1] = compare;
        if (self.registers.cs / 2) % 2 == 0 {
            proof {
                assert(self.registers.cs <= 0xFFFF_FFFD && ((self.registers.cs + 2) as int / 2) % 2
                    == 1) by (nonlinear_arith)
                    requires
                        (self.registers.cs as int / 2) % 2 == 0,
                        self.registers.cs <= 0xFFFF_FFFF,
                ;
            }
            self.registers.cs = self.registers.cs + 2;
        }
    }
}

} // verus!
