//! Core logic of a small x86_64 kernel, stated over plain values and verified.

pub mod allocator;
pub mod bytes;
pub mod error;
pub mod executor;
pub mod hpet;
pub mod init;
pub mod interrupt;
pub mod print;
pub mod qemu;
pub mod segment;
pub mod test_runner;
pub mod text;
pub mod uefi;
pub mod x86;
