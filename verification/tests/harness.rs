use slime_kernel::test_runner;
use slime_kernel::QemuExitCode;
use slime_kernel::TestTally;
use slime_kernel::Testable;
use std::cell::RefCell;

struct Step<'a> {
    id: u32,
    log: &'a RefCell<Vec<u32>>,
}

impl Testable for Step<'_> {
    fn run(&self) {
        self.log.borrow_mut().push(self.id);
    }
}

#[test]
fn exit_codes_are_those_of_the_exit_port() {
    assert_eq!(QemuExitCode::Success.code(), 0x10);
    assert_eq!(QemuExitCode::Failed.code(), 0x11);
    assert_eq!(QemuExitCode::TestFailed.code(), 0x12);
}

#[test]
fn runner_runs_every_test_in_order() {
    let log = RefCell::new(Vec::new());
    let first = Step { id: 1, log: &log };
    let second = Step { id: 2, log: &log };
    let third = Step { id: 3, log: &log };
    let tests: [&dyn Testable; 3] = [&first, &second, &third];
    assert_eq!(test_runner(&tests), QemuExitCode::Success);
    assert_eq!(*log.borrow(), vec![1, 2, 3]);
}

#[test]
fn runner_without_tests_succeeds() {
    let tests: [&dyn Testable; 0] = [];
    assert_eq!(test_runner(&tests), QemuExitCode::Success);
}

#[test]
fn tally_counts_passes_and_failures() {
    let mut tally = TestTally::new();
    assert_eq!(tally, TestTally { passed: 0, failed: 0 });
    tally.record(&Ok(()));
    tally.record(&Err("broken"));
    tally.record(&Ok(()));
    assert_eq!(tally, TestTally { passed: 2, failed: 1 });
}

#[test]
fn full_tally_stays_full() {
    let mut tally = TestTally { passed: usize::MAX, failed: usize::MAX - 1 };
    tally.record(&Ok(()));
    tally.record(&Err("one"));
    tally.record(&Err("two"));
    assert_eq!(tally, TestTally { passed: usize::MAX, failed: usize::MAX });
}
