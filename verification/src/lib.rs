//! A verified CHIP-8 virtual machine core: memory, framebuffer, keypad and
//! the fetch-decode-execute interpreter, with machine-checked contracts for
//! every opcode's semantics.

use vstd::prelude::*;

pub mod display;
pub mod keypad;
pub mod memory;
pub mod vm;

verus! {

/// The ways a cycle or a load can fail. Every failure is surfaced to the
/// caller; the core never panics and never silently clamps.
#[derive(Clone, Copy, Debug, PartialEq, Eq, Structural)]
pub enum Chip8Error {
    /// The fetched word maps to no CHIP-8 instruction.
    IllegalInstruction,
    /// A return was executed with an empty call stack.
    StackUnderflow,
    /// A call was executed with the call stack already at its limit.
    StackOverflow,
    /// A memory access reached past the end of the address space.
    MemoryOutOfBounds,
    /// A program image does not fit between the load address and the end of
    /// memory.
    RomTooLarge,
}

} // verus!
