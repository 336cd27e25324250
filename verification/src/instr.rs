use vstd::prelude::*;

verus! {

/// One machine instruction.
///
/// `PushImmediate` carries a 16-bit signed payload produced from a numeric
/// literal in the program text; the other twelve variants are payload-free
/// operation tags. Instructions are produced once by the decoder and only
/// read by position afterwards.
#[derive(Clone, Copy, Debug, PartialEq, Eq, Structural)]
pub enum Instr {
    /// Push the payload onto the value stack.
    PushImmediate(i16),
    /// Pop the value stack, push the result onto the call stack.
    CpushV,
    /// Pop the call stack, push the result onto the value stack.
    VpushC,
    /// Swap the top two values of the value stack.
    Vswap,
    /// Duplicate the top of the value stack.
    Vdup,
    /// Pop and discard the top of the value stack.
    Vdrop,
    /// Pop a condition; if it is non-zero, swap the next two values.
    VswapIf,
    /// Computed jump: exchange the instruction pointer with the top of the
    /// call stack.
    CswapIp,
    /// Pop a value; push 1 if it was negative, 0 otherwise.
    IsNegative,
    /// Pop two values, push their sum with 16-bit wraparound.
    Add,
    /// Pop two values, push their difference with 16-bit wraparound.
    Sub,
    /// Unimplemented input operation: executing it is a fatal fault.
    Read,
    /// Pop a value and emit its low 8 bits to the output sink.
    Print,
    /// Exchange the top of the value stack with a memory word.
    Mswap,
}

} // verus!
