//! A minimal register-machine emulator: sixteen 64-bit registers (register 0
//! hard-wired to zero), a sparse byte-addressable memory, and a fetch-decode-
//! execute loop over a closed instruction set, with wraparound arithmetic.
//!
//! Uninitialized memory policy: a byte that was never stored reads as zero,
//! so every run of a program is reproducible.

pub mod assembly;
pub mod cpu;
pub mod semantics;
pub mod sundries;

pub use assembly::Instruction;
pub use assembly::Register;
pub use cpu::Cpu;
pub use cpu::Outcome;
pub use semantics::Fault;
pub use sundries::int64;
