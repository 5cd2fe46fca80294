//! Text rendering onto a raw pixel buffer: pixel encoding, glyph blitting,
//! cursor flow and word wrapping. Beside it stands what the kernel's test
//! runs report with.

use vstd::prelude::*;

pub mod color;
pub mod flow;
pub mod font;
pub mod frame_buffer;
pub mod pixel;
pub mod raster;
pub mod text;

verus! {

/// What a run reports to the emulator when it ends.
#[derive(Debug, Clone, Copy, PartialEq, Eq, Structural)]
pub enum QemuExitCode {
    Success,
    Failed,
    TestFailed,
}

impl QemuExitCode {
    /// The number that stands for the code on the emulator's exit port.
    pub open spec fn port_value(self) -> u32 {
        match self {
            QemuExitCode::Success => 0x10,
            QemuExitCode::Failed => 0x11,
            QemuExitCode::TestFailed => 0x12,
        }
    }

    /// The number to write to the emulator's exit port.
    pub fn code(self) -> (value: u32)
        ensures
            value == self.port_value(),
    {
        match self {
            QemuExitCode::Success => 0x10,
            QemuExitCode::Failed => 0x11,
            QemuExitCode::TestFailed => 0x12,
        }
    }
}

/// A test that can be run. A test that fails does not come back.
pub trait Testable {
    fn run(&self);
}

/// Runs the tests in order and gives the code to end the run with: since
/// every test came back, that is `Success`.
pub fn test_runner(tests: &[&dyn Testable]) -> (code: QemuExitCode)
    ensures
        code == QemuExitCode::Success,
{
    let mut i: usize = 0;
    while i < tests.len()
        invariant
            i <= tests.len(),
        decreases tests.len() - i,
    {
        tests[i].run();
        i += 1;
    }
    QemuExitCode::Success
}

/// How many tests of a run passed and how many failed.
#[derive(Debug, Clone, Copy, PartialEq, Eq, Structural)]
pub struct TestTally {
    pub passed: usize,
    pub failed: usize,
}

impl TestTally {
    /// The tally before any test.
    pub fn new() -> (tally: TestTally)
        ensures
            tally == (TestTally { passed: 0, failed: 0 }),
    {
        TestTally { passed: 0, failed: 0 }
    }

    /// The tally with one more test counted: passed if `outcome` is `Ok`,
    /// failed otherwise. A count that is full stays.
    pub open spec fn counted(self, passed: bool) -> TestTally {
        if passed {
            TestTally {
                passed: if self.passed < usize::MAX {
                    (self.passed + 1) as usize
                } else {
                    self.passed
                },
                ..self
            }
        } else {
            TestTally {
                failed: if self.failed < usize::MAX {
                    (self.failed + 1) as usize
                } else {
                    self.failed
                },
                ..self
            }
        }
    }

    /// Counts the outcome of one more test.
    pub fn record(&mut self, outcome: &Result<(), &'static str>)
        ensures
            *final(self) == old(self).counted(outcome is Ok),
    {
        match outcome {
            Ok(()) => {
                self.passed = self.passed.saturating_add(1);
            },
            Err(_) => {
                self.failed = self.failed.saturating_add(1);
            },
        }
    }
}

} // verus!
