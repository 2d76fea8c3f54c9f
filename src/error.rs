use vstd::prelude::*;

verus! {

/// The ways in which loading a program or running a cycle can fail.
#[derive(Clone, Copy, Debug, PartialEq, Eq, Structural)]
pub enum CpuError {
    /// The instruction word, or one of its sub-opcode fields, names no instruction.
    IllegalInstruction,
    /// A call was made with every stack slot in use.
    StackOverflow,
    /// A return was made with an empty stack.
    StackUnderflow,
    /// The program does not fit between 0x200 and the end of memory.
    RomTooLarge,
    /// A memory or stack index computed by an instruction lies outside its bounds.
    AddressOutOfRange,
}

} // verus!
