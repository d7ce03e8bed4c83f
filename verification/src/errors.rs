//! The fatal faults of the machine. Every one of them stops the guest; the
//! guest has no trap mechanism and never observes them.

use vstd::prelude::*;

verus! {

/// A fatal fault of the virtual machine.
#[derive(Clone, Copy, Debug, PartialEq, Eq, Structural)]
pub enum Error {
    /// An address at or above `0x8008` reached `peek`/`poke`, or the program
    /// counter left `0x0000..0x8000` when an instruction was fetched.
    MemoryInvalid,
    /// The decoder saw a code outside `0x00..0x15`.
    UnknownOpcode,
    /// `pop` or `ret` found the stack empty.
    EmptyStack,
    /// `in` found no input available.
    FailedToReadLine,
    /// `mod` was asked for a remainder with divisor zero.
    DivideByZero,
}

} // verus!
