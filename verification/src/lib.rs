//! A verified core for a small 16-bit virtual machine: a flat word-addressed
//! memory overlaid with eight registers, a LIFO stack, a fetch-decode-execute
//! loop with a status word, a disassembler, and the decision logic of an
//! in-process debugger.

pub mod constants;
pub mod disasm;
pub mod dump;
pub mod errors;
pub mod hypervisor;
pub mod machine;
pub mod utils;

pub use constants::NUM_REG;
pub use constants::TOM;
pub use errors::Error;
pub use machine::Machine;
