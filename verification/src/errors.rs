use vstd::prelude::*;

use crate::interpreter::OpCode;

verus! {

/// Faults that an execution cycle can report. Every fault latches the
/// interpreter into its terminal crashed state.
#[derive(Clone, Copy, Debug, PartialEq, Eq, Structural)]
pub enum InterpreterError {
    /// No instruction matches the fetched word; carries the raw opcode.
    UnknownOpCode(OpCode),
    /// A 4-bit field was constructed from a byte above 15.
    NibbleOverflow,
    /// A 12-bit address was constructed from a word above 4095.
    AddressOverflow,
    /// A call was issued while the stack already held 15 return addresses.
    StackOverflow,
    /// A return was issued while the stack was empty.
    StackUnderflow,
    /// The interpreter latched a fault earlier and refuses further work.
    Crashed,
}

} // verus!
