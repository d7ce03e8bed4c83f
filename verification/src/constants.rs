//! Architectural constants: the memory bound, the register count, the bit
//! positions of the status word, and the cap on the recent-access trace.

use vstd::prelude::*;

verus! {

/// Top Of Memory, exclusive: memory cells are addressed `0x0000..0x7FFF`.
pub const TOM: usize = 0x8000;

/// Number of registers; they overlay addresses `TOM..TOM + NUM_REG`.
pub const NUM_REG: usize = 8;

/// Status bit: input was sampled this cycle.
pub const IN_BIT: u16 = 8;
/// Status bit: a character was emitted this cycle.
pub const OUT_BIT: u16 = 4;
/// Status bit: a write occurred in the current cycle.
pub const MEMW_BIT: u16 = 3;
/// Status bit: a read occurred in the current cycle.
pub const MEMR_BIT: u16 = 2;
/// Status bit: currently fetching an opcode.
pub const M1_BIT: u16 = 1;
/// Status bit: the machine is stopped; sticky until cleared externally.
pub const HALT_BIT: u16 = 0;

/// The recent-access trace stops growing at this many entries.
pub const MAX_RECENTMEMACCESS_SIZE: u8 = 255;
/// Access-kind tag for a read in the recent-access trace.
pub const RECENTMEMACCESS_READ_BIT: u8 = 1;
/// Access-kind tag for a write in the recent-access trace.
pub const RECENTMEMACCESS_WRITE_BIT: u8 = 2;

} // verus!
