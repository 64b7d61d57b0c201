//! Core of a minimal cooperative kernel: a segregated-class heap allocator
//! with a coalescing fallback region, a cooperative task executor driven by a
//! bounded ready queue, and a bounded interrupt-to-task byte bridge.
//!
//! Hardware access (port I/O, interrupt tables, the halt instruction, the
//! memory-mapped text buffer) stays outside this crate; the library holds the
//! decisions and data structures, stated and proved over plain values.

pub mod allocator;
pub mod interrupts;
pub mod task;
pub mod vga_buffer;

use vstd::prelude::*;

verus! {

/// Exit status reported to the emulator when a test kernel finishes.
#[derive(Debug, Clone, Copy, PartialEq, Eq, Structural)]
pub enum QemuExitCode {
    Success,
    Failed,
}

impl QemuExitCode {
    /// The value written to the emulator's exit port for this status.
    pub fn code(&self) -> (v: u32)
        ensures
            *self is Success ==> v == 0x10,
            *self is Failed ==> v == 0x11,
    {
        match self {
            QemuExitCode::Success => 0x10,
            QemuExitCode::Failed => 0x11,
        }
    }
}

} // verus!
