//! The in-kernel test harness: what it prints, and how it ends the emulator.

use vstd::prelude::*;
use vstd::string::StringExecFns;
use crate::qemu::{exit_qemu, QemuExit, QemuExitCode};
use crate::text::{dec_digits, push_dec_right};

verus! {

/// The line that announces a run of `count` tests.
pub fn start_line(count: usize) -> (text: String)
    ensures
        text@ == "Running "@ + dec_digits(count as nat) + " tests...\n"@,
{
    let mut text = String::new();
    text.append("Running ");
    push_dec_right(&mut text, count as u64, 0);
    text.append(" tests...\n");
    assert(text@ =~= "Running "@ + dec_digits(count as nat) + " tests...\n"@);
    text
}

/// The line before a test runs.
pub fn running_line(name: &str) -> (text: String)
    ensures
        text@ == "[RUNNING] >>> "@ + name@ + "\n"@,
{
    let mut text = String::new();
    text.append("[RUNNING] >>> ");
    text.append(name);
    text.append("\n");
    assert(text@ =~= "[RUNNING] >>> "@ + name@ + "\n"@);
    text
}

/// The line after a test has passed.
pub fn pass_line(name: &str) -> (text: String)
    ensures
        text@ == "[PASS   ] <<< "@ + name@ + "\n"@,
{
    let mut text = String::new();
    text.append("[PASS   ] <<< ");
    text.append(name);
    text.append("\n");
    assert(text@ =~= "[PASS   ] <<< "@ + name@ + "\n"@);
    text
}

/// The line for a panic during a test.
pub fn panic_line(info: &str) -> (text: String)
    ensures
        text@ == "PANIC during test: "@ + info@ + "\n"@,
{
    let mut text = String::new();
    text.append("PANIC during test: ");
    text.append(info);
    text.append("\n");
    assert(text@ =~= "PANIC during test: "@ + info@ + "\n"@);
    text
}

/// How a run ends: with the line that all tests passed and the exit for
/// success, or, after a panic, with the exit for failure.
pub fn finish(passed: bool) -> (end: (String, QemuExit))
    ensures
        end.0@ == (if passed {
            "All tests passed.\n"@
        } else {
            Seq::<char>::empty()
        }),
        end.1.port == crate::qemu::EXIT_PORT,
        end.1.value == (if passed {
            QemuExitCode::Success
        } else {
            QemuExitCode::Fail
        }).spec_port_value(),
{
    if passed {
        (String::from_str("All tests passed.\n"), exit_qemu(QemuExitCode::Success))
    } else {
        (String::new(), exit_qemu(QemuExitCode::Fail))
    }
}

} // verus!
