//! The kernel's error taxonomy.

use vstd::prelude::*;

verus! {

/// The firmware service whose call came back with a non-success status.
#[derive(Debug, Clone, Copy, PartialEq, Eq, Structural)]
pub enum FirmwareCall {
    GetMemoryMap,
    ExitBootServices,
    LocateProtocol,
}

/// Everything that can go wrong in the kernel core.
#[derive(Debug, Clone, Copy, PartialEq, Eq, Structural)]
pub enum Error {
    /// A firmware service returned a non-success status.
    FirmwareCallFailed(FirmwareCall),
    /// The heap, or the lazy population of a page table, ran out of memory.
    OutOfMemory,
    /// An address or an alignment that the operation cannot accept.
    Misaligned,
    /// Framebuffer coordinates outside the visible area.
    OutOfRange,
    /// A CPU exception, named by its vector. Always fatal.
    HardwareFault(u64),
}

impl Error {
    /// The short human-readable text of the error.
    pub open spec fn spec_message(self) -> Seq<char> {
        match self {
            Error::FirmwareCallFailed(FirmwareCall::GetMemoryMap) => "Failed to get memory map"@,
            Error::FirmwareCallFailed(FirmwareCall::ExitBootServices) => "Failed to exit boot services"@,
            Error::FirmwareCallFailed(FirmwareCall::LocateProtocol) => "Failed to locate graphics output protocol"@,
            Error::OutOfMemory => "Out of memory"@,
            Error::Misaligned => "phys is not aligned"@,
            Error::OutOfRange => "Out of range"@,
            Error::HardwareFault(_) => "fatal exception"@,
        }
    }

    /// The short human-readable text of the error.
    pub fn message(&self) -> (text: &'static str)
        ensures
            text@ == self.spec_message(),
    {
        match self {
            Error::FirmwareCallFailed(FirmwareCall::GetMemoryMap) => "Failed to get memory map",
            Error::FirmwareCallFailed(FirmwareCall::ExitBootServices) => "Failed to exit boot services",
            Error::FirmwareCallFailed(FirmwareCall::LocateProtocol) => "Failed to locate graphics output protocol",
            Error::OutOfMemory => "Out of memory",
            Error::Misaligned => "phys is not aligned",
            Error::OutOfRange => "Out of range",
            Error::HardwareFault(_) => "fatal exception",
        }
    }
}

} // verus!
