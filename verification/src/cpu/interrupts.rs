//! The interrupt vectors of the two chained 8259 PICs that the kernel
//! handles.

use vstd::prelude::*;

verus! {

/// The first vector of the primary PIC, right after the 32 CPU exceptions.
pub const PIC_1_OFFSET: u8 = 32;

/// Hardware interrupts the kernel handles, in PIC line order.
#[derive(Debug, Clone, Copy, PartialEq, Eq, Structural)]
pub enum InterruptIndex {
    /// The programmable interval timer, on the first PIC line.
    Timer,
    /// The PS/2 keyboard, on the second PIC line.
    Keyboard,
}

impl InterruptIndex {
    /// The interrupt vector of this line.
    pub open spec fn vector(self) -> u8 {
        match self {
            InterruptIndex::Timer => PIC_1_OFFSET,
            InterruptIndex::Keyboard => (PIC_1_OFFSET + 1) as u8,
        }
    }

    /// The interrupt vector of this line.
    pub fn as_u8(self) -> (v: u8)
        ensures
            v == self.vector(),
    {
        match self {
            InterruptIndex::Timer => PIC_1_OFFSET,
            InterruptIndex::Keyboard => PIC_1_OFFSET + 1,
        }
    }

    /// The interrupt vector of this line, as an index into the descriptor
    /// table.
    pub fn as_usize(self) -> (v: usize)
        ensures
            v == self.vector(),
    {
        self.as_u8() as usize
    }
}

/// The handled lines take consecutive vectors starting at the primary PIC's
/// offset.
pub proof fn lemma_vectors_follow_pic_offset()
    ensures
        InterruptIndex::Timer.vector() == PIC_1_OFFSET,
        InterruptIndex::Keyboard.vector() == InterruptIndex::Timer.vector() + 1,
{
}

} // verus!
