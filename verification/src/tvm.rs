//! Tables of the Tara virtual machine's bytecode format.
pub mod format;
pub mod opcodes;
pub mod syscalls;
