//! Interrupt vector numbers of the chained programmable interrupt
//! controllers.

use vstd::prelude::*;

verus! {

/// First vector of the primary controller, just past the CPU exceptions.
pub const PIC_1_OFFSET: u8 = 32;

/// First vector of the secondary controller.
pub const PIC_2_OFFSET: u8 = PIC_1_OFFSET + 8;

/// The hardware interrupts that the kernel handles, in the order of their
/// lines on the primary controller.
#[derive(Debug, Clone, Copy, PartialEq, Eq)]
pub enum PicInterruptIndex {
    Timer,
    Keyboard,
}

impl PicInterruptIndex {
    /// The line of the interrupt on the primary controller.
    pub open spec fn line(self) -> int {
        match self {
            PicInterruptIndex::Timer => 0,
            PicInterruptIndex::Keyboard => 1,
        }
    }

    /// The interrupt vector: the primary controller's offset plus the line.
    pub fn as_u8(self) -> (r: u8)
        ensures
            r == PIC_1_OFFSET + self.line(),
    {
        match self {
            PicInterruptIndex::Timer => PIC_1_OFFSET,
            PicInterruptIndex::Keyboard => PIC_1_OFFSET + 1,
        }
    }

    /// The interrupt vector as an index into the descriptor table.
    pub fn as_usize(self) -> (r: usize)
        ensures
            r == PIC_1_OFFSET + self.line(),
    {
        self.as_u8() as usize
    }
}

} // verus!
