//! Unwinding of ARM stack frames from the exception handling tables
//! (`.ARM.exidx` and `.ARM.extab`) described by the ARM EHABI.

pub mod bytecode;
pub mod bytes;
pub mod decode;
pub mod decode_laws;
pub mod exidx;
pub mod registers;
pub mod regs;
pub mod vm;
pub mod vm_laws;

pub use decode::DecodeError;
pub use registers::{DwarfRegs, MemoryReader};
pub use regs::{FpReg, Reg};
pub use vm::{Error, VirtualMachine};
