//! Heap allocation engine of a small x86_64 kernel: a bump allocator and a
//! fixed-size-block allocator with a linked-list fallback heap, together with
//! the plain-value pieces of the kernel's devices (PIC vectors, VGA colours,
//! QEMU exit codes) and its test runner.

pub mod allocator;
pub mod interrupts;
pub mod vga_buffer;

use vstd::prelude::*;

verus! {

/// The exit codes that the kernel reports to QEMU's exit device.
#[derive(Debug, Clone, Copy, PartialEq, Eq)]
pub enum QemuExitCode {
    Success,
    Failed,
}

impl QemuExitCode {
    /// The value written to the exit device: QEMU exits with status
    /// `(code << 1) | 1`.
    pub fn code(self) -> (r: u32)
        ensures
            r == match self {
                QemuExitCode::Success => 0x10u32,
                QemuExitCode::Failed => 0x11u32,
            },
    {
        match self {
            QemuExitCode::Success => 0x10,
            QemuExitCode::Failed => 0x11,
        }
    }
}

/// A test case of the kernel's own test harness.
pub trait Testable {
    /// Runs the test; a failing test panics and does not return.
    fn run(&self);
}

/// Runs every test in order. All of them returned, so the run succeeded: the
/// result is the exit code to report.
pub fn test_runner<T: Testable>(tests: &[T]) -> (r: QemuExitCode)
    ensures
        r == QemuExitCode::Success,
{
    let mut i: usize = 0;
    while i < tests.len()
        invariant
            i <= tests@.len(),
        decreases tests@.len() - i,
    {
        tests[i].run();
        i = i + 1;
    }
    QemuExitCode::Success
}

} // verus!
