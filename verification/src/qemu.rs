//! The emulator's debug-exit device.

use vstd::prelude::*;
use vstd::string::StringExecFns;

verus! {

/// I/O port of the emulator's debug-exit device.
pub const EXIT_PORT: u16 = 0xf4;

/// What the kernel reports to the host when it asks the emulator to stop.
#[derive(Debug, Clone, Copy, PartialEq, Eq, Structural)]
pub enum QemuExitCode {
    Success,
    Fail,
}

impl QemuExitCode {
    /// The byte written to the exit port.
    pub open spec fn spec_port_value(self) -> u8 {
        match self {
            QemuExitCode::Success => 0x1,
            QemuExitCode::Fail => 0x2,
        }
    }

    /// The byte written to the exit port.
    #[verifier::when_used_as_spec(spec_port_value)]
    pub fn port_value(self) -> (v: u8)
        ensures
            v == self.spec_port_value(),
    {
        match self {
            QemuExitCode::Success => 0x1,
            QemuExitCode::Fail => 0x2,
        }
    }

    /// The exit code with which the emulator ends: twice the byte written, plus one.
    pub fn host_exit_code(self) -> (code: u8)
        ensures
            code == 2 * self.spec_port_value() + 1,
            self == QemuExitCode::Success ==> code == 3,
            self == QemuExitCode::Fail ==> code == 5,
    {
        2 * self.port_value() + 1
    }

    /// The name of the code.
    pub open spec fn spec_name(self) -> Seq<char> {
        match self {
            QemuExitCode::Success => "Success"@,
            QemuExitCode::Fail => "Fail"@,
        }
    }

    /// The name of the code.
    pub fn name(self) -> (name: &'static str)
        ensures
            name@ == self.spec_name(),
    {
        match self {
            QemuExitCode::Success => "Success",
            QemuExitCode::Fail => "Fail",
        }
    }
}

/// What ends the emulator: a line for the serial port, and the byte to write to a port.
pub struct QemuExit {
    pub message: String,
    pub port: u16,
    pub value: u8,
}

/// What to do to end the emulator with `exit_code`: announce the code on the
/// serial line, write its byte to the exit port, and halt for good.
pub fn exit_qemu(exit_code: QemuExitCode) -> (exit: QemuExit)
    ensures
        exit.message@ == "[EXIT] Sending exit code: "@ + exit_code.spec_name() + "\n"@,
        exit.port == EXIT_PORT,
        exit.value == exit_code.spec_port_value(),
{
    let mut message = String::new();
    message.append("[EXIT] Sending exit code: ");
    message.append(exit_code.name());
    message.append("\n");
    assert(message@ =~= "[EXIT] Sending exit code: "@ + exit_code.spec_name() + "\n"@);
    QemuExit { message, port: EXIT_PORT, value: exit_code.port_value() }
}

} // verus!
