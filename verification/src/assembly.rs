//! The instruction set: the sixteen register names and the closed set of
//! operation variants, each carrying exactly the operands its kind needs.
//! Pure data; the execution semantics live in `semantics` and `cpu`.

use vstd::prelude::*;

verus! {

/// One of the sixteen general-purpose registers. Register `r0` is
/// hard-wired to zero: reads of it always yield zero and writes to it
/// are discarded.
#[allow(non_camel_case_types)]
#[derive(Clone, Copy, Debug, Hash, PartialEq, Eq, Structural)]
pub enum Register {
    r0,
    r1,
    r2,
    r3,
    r4,
    r5,
    r6,
    r7,
    r8,
    r9,
    r10,
    r11,
    r12,
    r13,
    r14,
    r15,
}

impl Register {
    /// The slot number of this register, in `[0, 16)`.
    pub open spec fn index(self) -> int {
        match self {
            Register::r0 => 0,
            Register::r1 => 1,
            Register::r2 => 2,
            Register::r3 => 3,
            Register::r4 => 4,
            Register::r5 => 5,
            Register::r6 => 6,
            Register::r7 => 7,
            Register::r8 => 8,
            Register::r9 => 9,
            Register::r10 => 10,
            Register::r11 => 11,
            Register::r12 => 12,
            Register::r13 => 13,
            Register::r14 => 14,
            Register::r15 => 15,
        }
    }

    /// The slot number of this register, for indexing the register file.
    pub fn to_index(self) -> (i: usize)
        ensures
            i == self.index(),
            0 <= i < 16,
    {
        match self {
            Register::r0 => 0,
            Register::r1 => 1,
            Register::r2 => 2,
            Register::r3 => 3,
            Register::r4 => 4,
            Register::r5 => 5,
            Register::r6 => 6,
            Register::r7 => 7,
            Register::r8 => 8,
            Register::r9 => 9,
            Register::r10 => 10,
            Register::r11 => 11,
            Register::r12 => 12,
            Register::r13 => 13,
            Register::r14 => 14,
            Register::r15 => 15,
        }
    }
}

/// One instruction of the machine. The set is closed by design: the
/// engine dispatches exhaustively over exactly these variants, so adding
/// one is a compile-time-checked, total change.
#[derive(Clone, Copy, Debug)]
pub enum Instruction {
    /// `destination = source1 + source2`, wrapping around modulo 2^64.
    Add { destination: Register, source1: Register, source2: Register },
    /// `destination = source1 - source2`, wrapping around modulo 2^64.
    Sub { destination: Register, source1: Register, source2: Register },
    /// `destination = source1 * source2`, wrapping around modulo 2^64.
    Mul { destination: Register, source1: Register, source2: Register },
    /// `destination = source1 / source2`, truncating toward zero; faults
    /// when the register at `source2` holds zero.
    Div { destination: Register, source1: Register, source2: Register },
    /// Read the 8 bytes at the address held in `source`, least significant
    /// byte first, into `destination`.
    Load { destination: Register, source: Register },
    /// `destination = value`, the constant carried by the instruction.
    LoadImmediate { destination: Register, value: i64 },
    /// Write the 8 bytes of the word in `source`, least significant byte
    /// first, to memory starting at the address held in `destination`.
    Store { destination: Register, source: Register },
    /// If the word in `value` is negative, move the program counter by
    /// `offset` relative to this instruction; otherwise fall through to
    /// the next one.
    JumpIfLessThanZero { offset: i16, value: Register },
    /// Emit the low 8 bits of the word in the register as one character.
    PutChar(Register),
    /// Emit the decimal signed text of the word in the register.
    PutInt(Register),
    /// End execution normally.
    Halt,
}

} // verus!
