//! The decision logic of the in-process debugger ("hypervisor"): the dot
//! sentinel that pauses the guest, the single-key command language, the hex
//! argument parser, and the memory edit. The surrounding loop that owns the
//! input and output streams is the front end's business; it reads one key,
//! asks [`decode_command`] what it means, and dispatches.

use vstd::prelude::*;

use crate::constants::TOM;
use crate::errors::Error;
use crate::machine::{Machine, State};
use crate::utils::swap_endian;

verus! {

/// The debugger commands, one per key.
#[derive(Clone, Copy, Debug, PartialEq, Eq, Structural)]
pub enum HvCommand {
    /// `d SSSS EEEE` — disassemble a range.
    Disassemble,
    /// `D` — toggle the per-instruction trace flag.
    ToggleDebug,
    /// `s` — save the machine state to the snapshot artifact.
    SaveState,
    /// `l` — load the machine state from the snapshot.
    LoadState,
    /// `p` — print the registers.
    PrintRegs,
    /// `g NNNN` — go to an address and run.
    GotoAndRun,
    /// `x SSSS EEEE` — examine memory.
    ExamineMemory,
    /// `w NNNN v` — write memory.
    WriteMemory,
    /// `r` — return control to the guest.
    Resume,
    /// A newline; ignored.
    Ignore,
    /// Anything else asks for help.
    Help,
}

/// What each command key means.
pub open spec fn decode_spec(key: u8) -> HvCommand {
    match key {
        0x64u8 => HvCommand::Disassemble,
        0x44u8 => HvCommand::ToggleDebug,
        0x73u8 => HvCommand::SaveState,
        0x6Cu8 => HvCommand::LoadState,
        0x70u8 => HvCommand::PrintRegs,
        0x67u8 => HvCommand::GotoAndRun,
        0x78u8 => HvCommand::ExamineMemory,
        0x77u8 => HvCommand::WriteMemory,
        0x72u8 => HvCommand::Resume,
        0x0Au8 => HvCommand::Ignore,
        _ => HvCommand::Help,
    }
}

/// Decodes one command key: `d`, `D`, `s`, `l`, `p`, `g`, `x`, `w`, `r`, a
/// newline to ignore, anything else for help.
pub fn decode_command(key: u8) -> (c: HvCommand)
    ensures
        c == decode_spec(key),
{
    match key {
        0x64u8 => HvCommand::Disassemble,
        0x44u8 => HvCommand::ToggleDebug,
        0x73u8 => HvCommand::SaveState,
        0x6Cu8 => HvCommand::LoadState,
        0x70u8 => HvCommand::PrintRegs,
        0x67u8 => HvCommand::GotoAndRun,
        0x78u8 => HvCommand::ExamineMemory,
        0x77u8 => HvCommand::WriteMemory,
        0x72u8 => HvCommand::Resume,
        0x0Au8 => HvCommand::Ignore,
        _ => HvCommand::Help,
    }
}

/// Returns `true` exactly for the ASCII dot, the input byte that hands
/// control from the guest to the debugger.
pub fn is_sentinel(b: u8) -> (r: bool)
    ensures
        r == (b == 0x2E),
{
    b == 0x2E
}

/// Whether a byte is an ASCII hexadecimal digit.
pub open spec fn is_hex_digit(c: u8) -> bool {
    (0x30 <= c <= 0x39) || (0x41 <= c <= 0x46) || (0x61 <= c <= 0x66)
}

/// The value of one hexadecimal digit.
pub open spec fn hex_digit_val(c: u8) -> int {
    if 0x30 <= c <= 0x39 {
        c - 0x30
    } else if 0x41 <= c <= 0x46 {
        c - 0x41 + 10
    } else {
        c - 0x61 + 10
    }
}

/// Whether every byte of a sequence is a hexadecimal digit.
pub open spec fn all_hex(s: Seq<u8>) -> bool {
    forall|i: int| 0 <= i < s.len() ==> is_hex_digit(s[i])
}

/// The number a sequence of hexadecimal digits denotes, most significant
/// first.
pub open spec fn hex_value(s: Seq<u8>) -> int
    decreases s.len(),
{
    if s.len() == 0 {
        0
    } else {
        hex_value(s.drop_last()) * 16 + hex_digit_val(s.last())
    }
}

/// Sixteen to the given power; bounds the accumulator of the parser.
pub open spec fn pow16(i: int) -> int
    decreases i,
{
    if i <= 0 {
        1
    } else {
        16 * pow16(i - 1)
    }
}

/// A parsed hex number is bounded by sixteen to the number of its digits.
pub proof fn lemma_hex_value_bound(s: Seq<u8>)
    requires
        all_hex(s),
    ensures
        0 <= hex_value(s) < pow16(s.len() as int),
    decreases s.len(),
{
    if s.len() > 0 {
        assert(all_hex(s.drop_last()));
        lemma_hex_value_bound(s.drop_last());
        assert(0 <= hex_digit_val(s.last()) < 16);
    }
}

/// Parses one debugger argument: one to four hexadecimal digits, upper or
/// lower case, most significant first. Returns `None` exactly when the
/// input is empty, longer than four digits, or holds a byte that is no
/// hexadecimal digit.
pub fn parse_hex16(s: &Vec<u8>) -> (r: Option<u16>)
    ensures
        r is Some <==> 1 <= s@.len() <= 4 && all_hex(s@),
        r is Some ==> r == Some::<u16>(hex_value(s@) as u16),
{
    if s.len() < 1 || s.len() > 4 {
        return None;
    }
    let mut acc: u16 = 0;
    let mut i: usize = 0;
    while i < s.len()
        invariant
            1 <= s@.len() <= 4,
            i <= s@.len(),
            all_hex(s@.take(i as int)),
            acc as int == hex_value(s@.take(i as int)),
            (acc as int) < pow16(i as int),
        decreases s@.len() - i,
    {
        proof {
            assert(pow16(0) == 1);
            assert(pow16(1) == 16);
            assert(pow16(2) == 256);
            assert(pow16(3) == 4096);
            assert(pow16(4) == 65536);
            lemma_hex_value_bound(s@.take(i as int));
        }
        let c: u8 = s[i];
        let d: u16;
        if 0x30 <= c && c <= 0x39 {
            d = (c - 0x30) as u16;
        } else if 0x41 <= c && c <= 0x46 {
            d = (c - 0x41 + 10) as u16;
        } else if 0x61 <= c && c <= 0x66 {
            d = (c - 0x61 + 10) as u16;
        } else {
            return None;
        }
        acc = acc * 16 + d;
        i = i + 1;
        proof {
            assert(s@.take(i as int).drop_last() =~= s@.take(i as int - 1));
            assert(s@.take(i as int).last() == c);
        }
    }
    proof {
        assert(s@.take(s@.len() as int) =~= s@);
    }
    Some(acc)
}

/// The debugger's memory edit: stores the logical word `value` at memory
/// cell `loc`, without the status or trace bookkeeping of a guest access.
/// Only main memory can be edited; any address at or above `0x8000` is
/// refused and nothing changes.
pub fn write_memory(m: &mut Machine, loc: u16, value: u16) -> (r: Result<(), Error>)
    requires
        old(m).wf(),
    ensures
        final(m).wf(),
        r is Ok <==> loc < 0x8000,
        loc < 0x8000 ==> final(m)@ == (State { mem: old(m)@.mem.update(loc as int, value), ..old(m)@ }),
        loc >= 0x8000 ==> r == Err::<(), Error>(Error::MemoryInvalid) && *final(m) == *old(m),
        final(m).recent_mem_access == old(m).recent_mem_access,
        final(m).debug == old(m).debug,
{
    if loc < TOM as u16 {
        let stored = swap_endian(value);
        m.mem.set(loc as usize, stored);
        proof {
            assert(m@ =~= (State { mem: old(m)@.mem.update(loc as int, value), ..old(m)@ }));
        }
        Ok(())
    } else {
        Err(Error::MemoryInvalid)
    }
}

/// Flips the per-instruction trace flag; nothing else changes.
pub fn toggle_debug(m: &mut Machine)
    requires
        old(m).wf(),
    ensures
        final(m).wf(),
        final(m).debug == !old(m).debug,
        final(m)@ == old(m)@,
        final(m).recent_mem_access == old(m).recent_mem_access,
{
    m.debug = !m.debug;
    proof {
        assert(m@ =~= old(m)@);
    }
}

} // verus!
