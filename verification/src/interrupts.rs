use vstd::prelude::*;

verus! {

/// First vector number used by the primary interrupt controller.
pub const PIC1_OFFSET: u8 = 32;
/// First vector number used by the secondary interrupt controller.
pub const PIC2_OFFSET: u8 = PIC1_OFFSET + 8;

/// The interrupt vectors this core consumes: the periodic timer tick and the
/// keyboard's scan-byte delivery.
#[derive(Debug, Clone, Copy, PartialEq, Eq, Structural)]
pub enum InterruptIndex {
    Timer,
    Keyboard,
}

impl InterruptIndex {
    /// Vector number of this interrupt.
    pub open spec fn spec_u8(self) -> int {
        match self {
            InterruptIndex::Timer => PIC1_OFFSET as int,
            InterruptIndex::Keyboard => PIC1_OFFSET + 1,
        }
    }

    pub fn as_u8(&self) -> (v: u8)
        ensures
            v == self.spec_u8(),
    {
        match self {
            InterruptIndex::Timer => PIC1_OFFSET,
            InterruptIndex::Keyboard => PIC1_OFFSET + 1,
        }
    }

    pub fn as_usize(&self) -> (v: usize)
        ensures
            v == self.spec_u8(),
    {
        self.as_u8() as usize
    }
}

} // verus!
