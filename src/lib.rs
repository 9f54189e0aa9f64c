//! The logic of a small x86-64 kernel. At its core is heap allocation,
//! modelled over an address arena: a bump allocator, a first-fit free-list
//! allocator, a segregated size-class allocator with a free-list fallback, and
//! the process-wide heap that holds it. Beside it: the interrupt vectors, the
//! VGA text screen, and the kernel's test runner.
use vstd::prelude::*;

pub mod block;
pub mod bump;
pub mod free_list;
pub mod heap;
pub mod interrupts;
pub mod vga_buffer;
pub mod segregated;

verus! {

/// What the kernel reports to the emulator when its tests end.
#[derive(Debug, Clone, Copy, PartialEq, Eq, Structural)]
pub enum QemuExitCode {
    Success,
    Failed,
}

impl QemuExitCode {
    /// The value written to the emulator's exit port.
    pub open spec fn spec_code(self) -> u32 {
        match self {
            QemuExitCode::Success => 0x10,
            QemuExitCode::Failed => 0x11,
        }
    }

    pub fn code(self) -> (r: u32)
        ensures
            r == self.spec_code(),
    {
        match self {
            QemuExitCode::Success => 0x10,
            QemuExitCode::Failed => 0x11,
        }
    }
}

/// A test the kernel's runner can run; a failing test panics.
pub trait Testable {
    fn run(&self);
}

/// Runs every test in order. A test that fails panics and never returns, so
/// reaching the end means all of them passed.
pub fn test_runner<T: Testable>(tests: &[T]) -> (r: QemuExitCode)
    ensures
        r == QemuExitCode::Success,
{
    let mut i: usize = 0;
    while i < tests.len()
        invariant
            i <= tests@.len(),
        decreases tests@.len() - i,
    {
        tests[i].run();
        i = i + 1;
    }
    QemuExitCode::Success
}

} // verus!
