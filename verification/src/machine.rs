//! The virtual machine core: a flat memory of `0x8000` words overlaid with
//! eight registers, a LIFO stack, and the fetch-decode-execute loop.
//!
//! Words live in two representations. A *logical* word is the value an
//! instruction operates on. The backing arrays store every word with its two
//! bytes exchanged, so that a little-endian program image maps byte-for-byte
//! into memory; every access passes through the endian swap. The view of a
//! [`Machine`] is a [`State`] over logical words only, so contracts never
//! mention the swap.

use vstd::prelude::*;

use crate::constants::{
    TOM, NUM_REG, IN_BIT, OUT_BIT, MEMW_BIT, MEMR_BIT, M1_BIT, HALT_BIT,
    MAX_RECENTMEMACCESS_SIZE, RECENTMEMACCESS_READ_BIT, RECENTMEMACCESS_WRITE_BIT,
};
use crate::errors::Error;
use crate::utils::{
    set_bit, clear_bit, get_bit, swap_endian, spec_clear_bit, spec_get_bit,
    spec_swap,
};

verus! {

/// The abstract machine state, over logical (big-endian) words.
///
/// The recent-access trace and the per-instruction trace flag are
/// observability details and live outside this model; contracts speak of them
/// directly on the [`Machine`] fields.
#[verifier::ext_equal]
pub ghost struct State {
    /// Logical contents of the `0x8000` memory cells.
    pub mem: Seq<u16>,
    /// Logical contents of registers r0..r7.
    pub regs: Seq<u16>,
    /// The stack, bottom first.
    pub stack: Seq<u16>,
    /// Program counter, a memory address.
    pub pc: u16,
    /// Status word; see the bit constants.
    pub status: u16,
    /// Count of executed instructions; saturates at `u32::MAX`.
    pub executed: u32,
    /// Bytes waiting to be consumed by the `in` instruction, front first.
    pub input: Seq<u8>,
    /// Bytes emitted by the `out` instruction so far.
    pub output: Seq<u8>,
}

impl State {
    /// The dimensions every reachable state keeps.
    pub open spec fn wf(self) -> bool {
        &&& self.mem.len() == 0x8000
        &&& self.regs.len() == 8
    }

    /// Whether the `HALT` bit of the status word is set.
    pub open spec fn halted(self) -> bool {
        spec_get_bit(self.status, HALT_BIT)
    }
}

/// The given state with its status word replaced.
pub open spec fn with_status(s: State, w: u16) -> State {
    State { status: w, ..s }
}

/// Addresses `peek` and `poke` accept: memory below `0x8000`, registers at
/// `0x8000..0x8008`. Everything above is invalid.
pub open spec fn addr_ok(addr: u16) -> bool {
    addr < 0x8008
}

/// The logical word a valid address designates: a memory cell below `0x8000`,
/// a register above.
pub open spec fn read_at(s: State, addr: u16) -> u16 {
    if addr < 0x8000 {
        s.mem[addr as int]
    } else {
        s.regs[addr - 0x8000]
    }
}

/// The state after a store through a valid address.
pub open spec fn write_at(s: State, addr: u16, v: u16) -> State {
    if addr < 0x8000 {
        State { mem: s.mem.update(addr as int, v), ..s }
    } else {
        State { regs: s.regs.update(addr - 0x8000, v), ..s }
    }
}

/// Whether an operand encoding denotes a register.
pub open spec fn is_reg_ref(v: u16) -> bool {
    0x8000 <= v < 0x8008
}

/// Operand value resolution: an encoding in `0x8000..0x8008` is replaced by
/// the contents of the corresponding register; any other word stands for
/// itself.
pub open spec fn resolve_spec(s: State, v: u16) -> u16 {
    if is_reg_ref(v) {
        s.regs[v - 0x8000]
    } else {
        v
    }
}

/// The recent-access trace after an append: entries past the cap are dropped
/// silently.
pub open spec fn trace_push(t: Seq<(u16, u8)>, e: (u16, u8)) -> Seq<(u16, u8)> {
    if t.len() < 255 {
        t.push(e)
    } else {
        t
    }
}

/// The `i`-th word after the program counter.
pub open spec fn opnd(s: State, i: int) -> u16 {
    s.mem[s.pc + i]
}

/// The state with the program counter advanced by `n` words.
pub open spec fn adv(s: State, n: int) -> State {
    State { pc: (s.pc + n) as u16, ..s }
}

/// The instruction counter after one more instruction; it saturates rather
/// than wrap, so it never decreases.
pub open spec fn inc_exec(e: u32) -> u32 {
    if e == u32::MAX {
        e
    } else {
        (e + 1) as u32
    }
}

/// The facts about the status word that the proofs lean on: `|` reassociates,
/// the mask combinations that actually occur evaluate as listed, and the
/// `HALT` bit is untouched by the masks that do not mention it.
pub proof fn lemma_status_algebra()
    by (bit_vector)
    ensures
        forall|x: u16, a: u16, b: u16| #[trigger] ((x | a) | b) == x | (a | b),
        (1u16 << 0) == 1u16,
        (1u16 << 1) == 2u16,
        (1u16 << 2) == 4u16,
        (1u16 << 3) == 8u16,
        (1u16 << 4) == 16u16,
        (1u16 << 8) == 256u16,
        (4u16 | 4u16) == 4u16,
        (4u16 | 8u16) == 12u16,
        (4u16 | 12u16) == 12u16,
        (4u16 | 16u16) == 20u16,
        (256u16 | 8u16) == 264u16,
        (4u16 | 264u16) == 268u16,
        (4u16 | 256u16) == 260u16,
        (2u16 | 4u16) == 6u16,
        (6u16 | 4u16) == 6u16,
        (6u16 | 12u16) == 14u16,
        (6u16 | 1u16) == 7u16,
        (6u16 | 20u16) == 22u16,
        (6u16 | 268u16) == 270u16,
        forall|x: u16| #[trigger] spec_get_bit(x & 0xFEE0, 0) == false,
        forall|x: u16| #[trigger] spec_get_bit(x | 1, 0) == true,
        forall|x: u16| #[trigger] spec_get_bit(x | 4, 0) == spec_get_bit(x, 0),
        forall|x: u16| #[trigger] spec_get_bit(x | 6, 0) == spec_get_bit(x, 0),
        forall|x: u16| #[trigger] spec_get_bit(x | 12, 0) == spec_get_bit(x, 0),
        forall|x: u16| #[trigger] spec_get_bit(x | 14, 0) == spec_get_bit(x, 0),
        forall|x: u16| #[trigger] spec_get_bit(x | 20, 0) == spec_get_bit(x, 0),
        forall|x: u16| #[trigger] spec_get_bit(x | 22, 0) == spec_get_bit(x, 0),
        forall|x: u16| #[trigger] spec_get_bit(x | 260, 0) == spec_get_bit(x, 0),
        forall|x: u16| #[trigger] spec_get_bit(x | 268, 0) == spec_get_bit(x, 0),
        forall|x: u16| #[trigger] spec_get_bit(x | 270, 0) == spec_get_bit(x, 0),
        forall|x: u16| #[trigger] (x & 0xFF) < 256,
        spec_get_bit(0u16, 0) == false,
        spec_swap(0u16) == 0u16,
{
}

/// The recent-access trace only ever grows in place: what an observer has
/// already seen stays where it was.
pub open spec fn trace_extends(pre: Seq<(u16, u8)>, post: Seq<(u16, u8)>) -> bool {
    &&& post.len() >= pre.len()
    &&& forall|i: int| 0 <= i < pre.len() ==> post[i] == pre[i]
}

/// What every faulting instruction leaves behind: memory, registers, the
/// output and the instruction counter as they were, and the `HALT` bit as it
/// was — a fault aborts execution without halting the machine.
pub open spec fn fault_frame(pre: State, post: State) -> bool {
    &&& post.mem == pre.mem
    &&& post.regs == pre.regs
    &&& post.output == pre.output
    &&& post.executed == pre.executed
    &&& spec_get_bit(post.status, 0) == spec_get_bit(pre.status, 0)
}

/// A 15-bit sum: addition reduced modulo `0x8000`.
pub open spec fn arith15_add(b: u16, c: u16) -> u16 {
    ((b + c) % 0x8000) as u16
}

/// A 15-bit product: multiplication reduced modulo `0x8000`.
pub open spec fn arith15_mul(b: u16, c: u16) -> u16 {
    ((b * c) % 0x8000) as u16
}

/// Bitwise and, reduced modulo `0x8000`; the reduction never changes a value
/// whose operands already fit 15 bits, and is kept for bit-exactness.
pub open spec fn arith15_and(b: u16, c: u16) -> u16 {
    ((b & c) % 0x8000) as u16
}

/// Bitwise or, reduced modulo `0x8000`.
pub open spec fn arith15_or(b: u16, c: u16) -> u16 {
    ((b | c) % 0x8000) as u16
}

/// Bitwise complement, reduced modulo `0x8000`: the 15-bit inverse.
pub open spec fn arith15_not(b: u16) -> u16 {
    ((!b) % 0x8000) as u16
}

/// A store through `write_at` when the address is valid, the fault it raises
/// otherwise.
pub open spec fn write_eff(s: State, addr: u16, v: u16) -> Result<State, Error> {
    if addr_ok(addr) {
        Ok(write_at(s, addr, v))
    } else {
        Err(Error::MemoryInvalid)
    }
}

/// `set a b`: store the resolved value `b` at address `a`.
pub open spec fn eff_set(s: State) -> Result<State, Error> {
    if s.pc + 2 > 0x8000 {
        Err(Error::MemoryInvalid)
    } else {
        write_eff(adv(s, 2), opnd(s, 0), resolve_spec(s, opnd(s, 1)))
    }
}

/// `push a`: push the resolved value `a` onto the stack.
pub open spec fn eff_push(s: State) -> Result<State, Error> {
    if s.pc + 1 > 0x8000 {
        Err(Error::MemoryInvalid)
    } else {
        Ok(State { stack: s.stack.push(resolve_spec(s, opnd(s, 0))), ..adv(s, 1) })
    }
}

/// `pop a`: remove the top of the stack and store it at address `a`; an
/// empty stack is a fault.
pub open spec fn eff_pop(s: State) -> Result<State, Error> {
    if s.stack.len() == 0 {
        Err(Error::EmptyStack)
    } else if s.pc + 1 > 0x8000 {
        Err(Error::MemoryInvalid)
    } else {
        write_eff(State { stack: s.stack.drop_last(), ..adv(s, 1) }, opnd(s, 0), s.stack.last())
    }
}

/// `eq a b c`: store 1 at `a` when the resolved `b` and `c` are equal, 0
/// otherwise.
pub open spec fn eff_eq(s: State) -> Result<State, Error> {
    if s.pc + 3 > 0x8000 {
        Err(Error::MemoryInvalid)
    } else {
        write_eff(
            adv(s, 3),
            opnd(s, 0),
            (if resolve_spec(s, opnd(s, 1)) == resolve_spec(s, opnd(s, 2)) {
                1u16
            } else {
                0u16
            }),
        )
    }
}

/// `gt a b c`: store 1 at `a` when the resolved `b` is greater than the
/// resolved `c`, 0 otherwise.
pub open spec fn eff_gt(s: State) -> Result<State, Error> {
    if s.pc + 3 > 0x8000 {
        Err(Error::MemoryInvalid)
    } else {
        write_eff(
            adv(s, 3),
            opnd(s, 0),
            (if resolve_spec(s, opnd(s, 1)) > resolve_spec(s, opnd(s, 2)) {
                1u16
            } else {
                0u16
            }),
        )
    }
}

/// `jmp a`: jump to the resolved value `a`.
pub open spec fn eff_jmp(s: State) -> Result<State, Error> {
    if s.pc + 1 > 0x8000 {
        Err(Error::MemoryInvalid)
    } else {
        Ok(State { pc: resolve_spec(s, opnd(s, 0)), ..s })
    }
}

/// `jt a b`: when the resolved `a` is nonzero jump to `b`; the target is
/// taken as fetched, without resolution.
pub open spec fn eff_jt(s: State) -> Result<State, Error> {
    if s.pc + 2 > 0x8000 {
        Err(Error::MemoryInvalid)
    } else if resolve_spec(s, opnd(s, 0)) != 0 {
        Ok(State { pc: opnd(s, 1), ..s })
    } else {
        Ok(adv(s, 2))
    }
}

/// `jf a b`: when the resolved `a` is zero jump to `b`; the target is taken
/// as fetched, without resolution.
pub open spec fn eff_jf(s: State) -> Result<State, Error> {
    if s.pc + 2 > 0x8000 {
        Err(Error::MemoryInvalid)
    } else if resolve_spec(s, opnd(s, 0)) == 0 {
        Ok(State { pc: opnd(s, 1), ..s })
    } else {
        Ok(adv(s, 2))
    }
}

/// `add a b c`: store the 15-bit sum of the resolved `b` and `c` at `a`.
pub open spec fn eff_add(s: State) -> Result<State, Error> {
    if s.pc + 3 > 0x8000 {
        Err(Error::MemoryInvalid)
    } else {
        write_eff(
            adv(s, 3),
            opnd(s, 0),
            arith15_add(resolve_spec(s, opnd(s, 1)), resolve_spec(s, opnd(s, 2))),
        )
    }
}

/// `mult a b c`: store the 15-bit product of the resolved `b` and `c` at `a`.
pub open spec fn eff_mult(s: State) -> Result<State, Error> {
    if s.pc + 3 > 0x8000 {
        Err(Error::MemoryInvalid)
    } else {
        write_eff(
            adv(s, 3),
            opnd(s, 0),
            arith15_mul(resolve_spec(s, opnd(s, 1)), resolve_spec(s, opnd(s, 2))),
        )
    }
}

/// `mod a b c`: store the remainder of the resolved `b` by the resolved `c`
/// at `a`; a zero divisor is a fault.
pub open spec fn eff_mod(s: State) -> Result<State, Error> {
    if s.pc + 3 > 0x8000 {
        Err(Error::MemoryInvalid)
    } else if resolve_spec(s, opnd(s, 2)) == 0 {
        Err(Error::DivideByZero)
    } else {
        write_eff(
            adv(s, 3),
            opnd(s, 0),
            (resolve_spec(s, opnd(s, 1)) % resolve_spec(s, opnd(s, 2))) as u16,
        )
    }
}

/// `and a b c`: store the masked bitwise and of the resolved `b` and `c` at
/// `a`.
pub open spec fn eff_and(s: State) -> Result<State, Error> {
    if s.pc + 3 > 0x8000 {
        Err(Error::MemoryInvalid)
    } else {
        write_eff(
            adv(s, 3),
            opnd(s, 0),
            arith15_and(resolve_spec(s, opnd(s, 1)), resolve_spec(s, opnd(s, 2))),
        )
    }
}

/// `or a b c`: store the masked bitwise or of the resolved `b` and `c` at
/// `a`.
pub open spec fn eff_or(s: State) -> Result<State, Error> {
    if s.pc + 3 > 0x8000 {
        Err(Error::MemoryInvalid)
    } else {
        write_eff(
            adv(s, 3),
            opnd(s, 0),
            arith15_or(resolve_spec(s, opnd(s, 1)), resolve_spec(s, opnd(s, 2))),
        )
    }
}

/// `not a b`: store the 15-bit inverse of the resolved `b` at `a`.
pub open spec fn eff_not(s: State) -> Result<State, Error> {
    if s.pc + 2 > 0x8000 {
        Err(Error::MemoryInvalid)
    } else {
        write_eff(adv(s, 2), opnd(s, 0), arith15_not(resolve_spec(s, opnd(s, 1))))
    }
}

/// `rmem a b`: read the word the resolved `b` addresses and store it at `a`.
pub open spec fn eff_rmem(s: State) -> Result<State, Error> {
    if s.pc + 2 > 0x8000 {
        Err(Error::MemoryInvalid)
    } else if !addr_ok(resolve_spec(s, opnd(s, 1))) {
        Err(Error::MemoryInvalid)
    } else {
        write_eff(adv(s, 2), opnd(s, 0), read_at(s, resolve_spec(s, opnd(s, 1))))
    }
}

/// `wmem a b`: store the resolved value `b` at the address the resolved `a`
/// gives.
pub open spec fn eff_wmem(s: State) -> Result<State, Error> {
    if s.pc + 2 > 0x8000 {
        Err(Error::MemoryInvalid)
    } else {
        write_eff(adv(s, 2), resolve_spec(s, opnd(s, 0)), resolve_spec(s, opnd(s, 1)))
    }
}

/// `call a`: push the address of the next instruction and jump to the
/// resolved value `a`.
pub open spec fn eff_call(s: State) -> Result<State, Error> {
    if s.pc + 1 > 0x8000 {
        Err(Error::MemoryInvalid)
    } else {
        Ok(
            State {
                stack: s.stack.push((s.pc + 1) as u16),
                pc: resolve_spec(s, opnd(s, 0)),
                ..s
            },
        )
    }
}

/// `ret`: pop the return address into the program counter; an empty stack is
/// a fault.
pub open spec fn eff_ret(s: State) -> Result<State, Error> {
    if s.stack.len() == 0 {
        Err(Error::EmptyStack)
    } else {
        Ok(State { pc: s.stack.last(), stack: s.stack.drop_last(), ..s })
    }
}

/// `out a`: emit the low byte of the resolved value `a`.
pub open spec fn eff_out(s: State) -> Result<State, Error> {
    if s.pc + 1 > 0x8000 {
        Err(Error::MemoryInvalid)
    } else {
        Ok(State { output: s.output.push((resolve_spec(s, opnd(s, 0)) & 0xFF) as u8), ..adv(s, 1) })
    }
}

/// `in a`: take the next pending input byte and store it at address `a`;
/// exhausted input is a fault.
pub open spec fn eff_in(s: State) -> Result<State, Error> {
    if s.pc + 1 > 0x8000 {
        Err(Error::MemoryInvalid)
    } else if s.input.len() == 0 {
        Err(Error::FailedToReadLine)
    } else {
        write_eff(State { input: s.input.drop_first(), ..adv(s, 1) }, opnd(s, 0), s.input[0] as u16)
    }
}

/// A successful effect with the status word it publishes, an error as it is.
pub open spec fn fin(r: Result<State, Error>, w: u16) -> Result<State, Error> {
    match r {
        Ok(s) => Ok(with_status(s, w)),
        Err(e) => Err(e),
    }
}

/// What dispatching one fetched opcode does, from the state right after the
/// opcode fetch: the instruction counter ticks, then the opcode's effect
/// applies, and the status word publishes `MEMW`, `OUT` and `IN` as the
/// instruction's side effects dictate. An opcode outside `0x00..0x15` is a
/// fault.
pub open spec fn execute_spec(s: State, op: u16) -> Result<State, Error> {
    let s1 = State { executed: inc_exec(s.executed), ..s };
    match op {
        0x0000u16 => Ok(with_status(s1, s.status | 1)),
        0x0001u16 => fin(eff_set(s1), s.status | 12),
        0x0002u16 => fin(eff_push(s1), s.status | 4),
        0x0003u16 => fin(eff_pop(s1), s.status | 12),
        0x0004u16 => fin(eff_eq(s1), s.status | 12),
        0x0005u16 => fin(eff_gt(s1), s.status | 12),
        0x0006u16 => fin(eff_jmp(s1), s.status | 4),
        0x0007u16 => fin(eff_jt(s1), s.status | 4),
        0x0008u16 => fin(eff_jf(s1), s.status | 4),
        0x0009u16 => fin(eff_add(s1), s.status | 12),
        0x000Au16 => fin(eff_mult(s1), s.status | 12),
        0x000Bu16 => fin(eff_mod(s1), s.status | 12),
        0x000Cu16 => fin(eff_and(s1), s.status | 12),
        0x000Du16 => fin(eff_or(s1), s.status | 12),
        0x000Eu16 => fin(eff_not(s1), s.status | 12),
        0x000Fu16 => fin(eff_rmem(s1), s.status | 12),
        0x0010u16 => fin(eff_wmem(s1), s.status | 12),
        0x0011u16 => fin(eff_call(s1), s.status | 4),
        0x0012u16 => eff_ret(s1),
        0x0013u16 => fin(eff_out(s1), s.status | 20),
        0x0014u16 => fin(eff_in(s1), s.status | 268),
        0x0015u16 => Ok(s1),
        _ => Err(Error::UnknownOpcode),
    }
}

/// One full fetch-execute cycle from a non-halted state: the transient
/// status bits reset, `M1` and `MEMR` are published by the opcode fetch, and
/// the fetched opcode dispatches as [`execute_spec`] says. A program counter
/// outside `0x0000..0x8000` cannot be fetched from and is a fault.
pub open spec fn step_spec(s: State) -> Result<State, Error> {
    if s.pc >= 0x8000 {
        Err(Error::MemoryInvalid)
    } else {
        execute_spec(
            with_status(adv(s, 1), (s.status & 0xFEE0) | 6),
            s.mem[s.pc as int],
        )
    }
}

/// The logical word a little-endian byte pair of a program image encodes:
/// the first byte is the low half, the second the high half.
pub open spec fn le_word(lo: u8, hi: u8) -> u16 {
    (lo + hi * 256) as u16
}

/// How a program image lands in memory and how the byte swap behaves on
/// byte halves; proved once, used by the loader and the dumper.
pub proof fn lemma_swap_bytes()
    by (bit_vector)
    ensures
        forall|lo: u8, hi: u8|
            #[trigger] spec_swap(((lo as u16) << 8) | (hi as u16)) == lo + hi * 256,
        forall|w: u16| #[trigger] spec_swap(w) % 256 == w >> 8,
        forall|w: u16| #[trigger] spec_swap(w) / 256 == (w & 0xFF),
        forall|w: u16| (w >> 8) < 256,
{
}

/// Reading an address right after writing it yields the written word: for
/// every memory address `a < 0x8000` and every word `v`, what `peek(a)`
/// returns after `poke(a, v)` is `v`.
pub proof fn lemma_poke_then_peek_mem(s: State, a: u16, v: u16)
    requires
        s.wf(),
        a < 0x8000,
    ensures
        read_at(write_at(s, a, v), a) == v,
{
}

/// The same round trip through the register overlay: for every `r` below 8
/// and every word `v`, what `peek(0x8000 + r)` returns after
/// `poke(0x8000 + r, v)` is `v`.
pub proof fn lemma_poke_then_peek_reg(s: State, r: u16, v: u16)
    requires
        s.wf(),
        r < 8,
    ensures
        read_at(write_at(s, (0x8000 + r) as u16, v), (0x8000 + r) as u16) == v,
{
}

/// The status wrapper every `poke` applies changes no stored word, so the
/// round trips above hold across the real call sequence as well.
pub proof fn lemma_read_ignores_status(s: State, w: u16, a: u16)
    requires
        addr_ok(a),
    ensures
        read_at(with_status(s, w), a) == read_at(s, a),
{
}

/// The arithmetic instructions stay within 15 bits: every value `add`,
/// `mult` and `not` store is below `0x8000`.
pub proof fn lemma_arith15_bounded(b: u16, c: u16)
    ensures
        arith15_add(b, c) < 0x8000,
        arith15_mul(b, c) < 0x8000,
        arith15_not(b) < 0x8000,
{
}

/// Loading a program image and immediately dumping memory byte-wise
/// reproduces the image exactly; the bytes past its end are zero. The
/// hypotheses are the contracts of [`Machine::load_image`] and
/// [`Machine::dump_mem_bytes`].
pub proof fn lemma_image_round_trip(image: Seq<u8>, mem: Seq<u16>, dump: Seq<u8>)
    requires
        image.len() % 2 == 0,
        image.len() <= 0x10000,
        mem.len() == 0x8000,
        forall|k: int|
            0 <= k < image.len() / 2 ==> mem[k] == le_word(image[2 * k], image[2 * k + 1]),
        forall|k: int| image.len() / 2 <= k < 0x8000 ==> mem[k] == 0u16,
        dump.len() == 0x10000,
        forall|k: int|
            0 <= k < 0x8000 ==> dump[2 * k] as int == mem[k] % 256 && dump[2 * k + 1] as int
                == mem[k] / 256,
    ensures
        forall|i: int| 0 <= i < image.len() ==> dump[i] == image[i],
        forall|i: int| image.len() <= i < 0x10000 ==> dump[i] == 0u8,
{
    assert forall|i: int| 0 <= i < image.len() implies dump[i] == image[i] by {
        let k = i / 2;
        assert(0 <= k < image.len() / 2);
        assert(mem[k] == le_word(image[2 * k], image[2 * k + 1]));
        if i % 2 == 0 {
            assert(i == 2 * k);
            assert(dump[i] as int == mem[k] % 256);
            assert(mem[k] % 256 == image[2 * k] as int);
        } else {
            assert(i == 2 * k + 1);
            assert(dump[i] as int == mem[k] / 256);
            assert(mem[k] / 256 == image[2 * k + 1] as int);
        }
    }
    assert forall|i: int| image.len() <= i < 0x10000 implies dump[i] == 0u8 by {
        let k = i / 2;
        assert(image.len() / 2 <= k < 0x8000);
        assert(mem[k] == 0u16);
        if i % 2 == 0 {
            assert(dump[i] as int == mem[k] % 256);
        } else {
            assert(dump[i] as int == mem[k] / 256);
        }
    }
}

/// Whether `n` successful fetch-execute cycles lead from `s0` to `s1`: each
/// starts in a non-halted state and steps as [`step_spec`] says.
pub open spec fn steps_to(s0: State, s1: State, n: nat) -> bool
    decreases n,
{
    if n == 0 {
        s1 == s0
    } else {
        exists|mid: State|
            steps_to(s0, mid, (n - 1) as nat) && !mid.halted() && step_spec(mid) == Ok::<
                State,
                Error,
            >(s1)
    }
}

/// The instruction counter never decreases across a successful step.
pub proof fn lemma_step_executed_monotonic(s: State, s2: State)
    requires
        step_spec(s) == Ok::<State, Error>(s2),
    ensures
        s2.executed >= s.executed,
{
}

/// The virtual machine. Memory, registers, the stack and the counters are
/// public so that an attached observer (a front panel, a debugger, a test)
/// can inspect them between instructions; `mem` and `registers` hold words in
/// byte-swapped storage form.
pub struct Machine {
    /// The `0x8000` memory cells, stored byte-swapped.
    pub mem: Vec<u16>,
    /// The stack of logical words, bottom first.
    pub stack: Vec<u16>,
    /// The eight registers, stored byte-swapped.
    pub registers: Vec<u16>,
    /// Program counter.
    pub pc: u16,
    /// Status word.
    pub status: u16,
    /// Count of executed instructions; saturates at `u32::MAX`.
    pub executed: u32,
    /// Bounded trace of recent accesses, `(address, kind)`, to be drained by
    /// an observer; grows no further once `MAX_RECENTMEMACCESS_SIZE` entries
    /// are pending.
    pub recent_mem_access: Vec<(u16, u8)>,
    /// When set, an attached front end disassembles each fetched instruction.
    pub debug: bool,
    /// Bytes waiting for the `in` instruction, front first.
    pub input: Vec<u8>,
    /// Bytes the `out` instruction has emitted.
    pub output: Vec<u8>,
}

impl View for Machine {
    type V = State;

    open spec fn view(&self) -> State {
        State {
            mem: Seq::new(self.mem@.len(), |i: int| spec_swap(self.mem@[i])),
            regs: Seq::new(self.registers@.len(), |i: int| spec_swap(self.registers@[i])),
            stack: self.stack@,
            pc: self.pc,
            status: self.status,
            executed: self.executed,
            input: self.input@,
            output: self.output@,
        }
    }
}

impl Machine {
    /// Dimensions and caps every machine keeps from construction on.
    pub open spec fn wf(&self) -> bool {
        &&& self.mem@.len() == 0x8000
        &&& self.registers@.len() == 8
        &&& self.recent_mem_access@.len() <= 255
    }

    /// A fresh machine: zeroed memory and registers, empty stack, `pc` 0,
    /// cleared status, nothing executed, no pending input or output.
    pub fn new() -> (m: Machine)
        ensures
            m.wf(),
            m@.mem == Seq::new(0x8000 as nat, |i: int| 0u16),
            m@.regs == Seq::new(8 as nat, |i: int| 0u16),
            m@.stack == Seq::<u16>::empty(),
            m@.pc == 0u16,
            m@.status == 0u16,
            m@.executed == 0u32,
            m@.input == Seq::<u8>::empty(),
            m@.output == Seq::<u8>::empty(),
            !m@.halted(),
            m.recent_mem_access@ == Seq::<(u16, u8)>::empty(),
            m.debug == false,
    {
        let mut mem: Vec<u16> = Vec::new();
        let mut i: usize = 0;
        while i < TOM
            invariant
                i <= TOM,
                mem@.len() == i,
                forall|j: int| 0 <= j < i ==> mem@[j] == 0u16,
            decreases TOM - i,
        {
            mem.push(0u16);
            i = i + 1;
        }
        let mut registers: Vec<u16> = Vec::new();
        let mut r: usize = 0;
        while r < NUM_REG
            invariant
                r <= NUM_REG,
                registers@.len() == r,
                forall|j: int| 0 <= j < r ==> registers@[j] == 0u16,
            decreases NUM_REG - r,
        {
            registers.push(0u16);
            r = r + 1;
        }
        let m = Machine {
            mem,
            stack: Vec::new(),
            registers,
            pc: 0,
            status: 0,
            executed: 0,
            recent_mem_access: Vec::new(),
            debug: false,
            input: Vec::new(),
            output: Vec::new(),
        };
        proof {
            lemma_status_algebra();
            assert(m@.mem =~= Seq::new(0x8000 as nat, |i: int| 0u16));
            assert(m@.regs =~= Seq::new(8 as nat, |i: int| 0u16));
            assert(m@.stack =~= Seq::<u16>::empty());
            assert(m.recent_mem_access@ =~= Seq::<(u16, u8)>::empty());
            assert(m@.input =~= Seq::<u8>::empty());
            assert(m@.output =~= Seq::<u8>::empty());
        }
        m
    }

    /// Reads the logical word at `dest_addr`: a memory cell below `0x8000`, a
    /// register at `0x8000..0x8008`. Any other address is a fatal fault, and
    /// nothing but the status word changes. Sets `MEMR` in the status word
    /// and, on success, appends `(dest_addr, READ)` to the recent-access
    /// trace unless it is full.
    pub fn peek(&mut self, dest_addr: u16) -> (r: Result<u16, Error>)
        requires
            old(self).wf(),
        ensures
            final(self).wf(),
            final(self).debug == old(self).debug,
            r is Ok <==> addr_ok(dest_addr),
            addr_ok(dest_addr) ==> r == Ok::<u16, Error>(read_at(old(self)@, dest_addr))
                && final(self)@ == with_status(old(self)@, old(self).status | 4)
                && final(self).recent_mem_access@ == trace_push(
                old(self).recent_mem_access@,
                (dest_addr, RECENTMEMACCESS_READ_BIT),
            ),
            !addr_ok(dest_addr) ==> r == Err::<u16, Error>(Error::MemoryInvalid)
                && final(self)@ == with_status(old(self)@, old(self).status | 4)
                && final(self).recent_mem_access@ == old(self).recent_mem_access@,
    {
        proof {
            lemma_status_algebra();
        }
        set_bit(&mut self.status, MEMR_BIT);
        let val: u16;
        if dest_addr < TOM as u16 {
            val = self.mem[dest_addr as usize];
        } else if dest_addr < (TOM + NUM_REG) as u16 {
            val = self.registers[(dest_addr - TOM as u16) as usize];
        } else {
            proof {
                assert(self@ =~= with_status(old(self)@, old(self).status | 4));
            }
            return Err(Error::MemoryInvalid);
        }
        if self.recent_mem_access.len() < MAX_RECENTMEMACCESS_SIZE as usize {
            self.recent_mem_access.push((dest_addr, RECENTMEMACCESS_READ_BIT));
        }
        let out = swap_endian(val);
        proof {
            assert(self@ =~= with_status(old(self)@, old(self).status | 4));
        }
        Ok(out)
    }

    /// Stores the logical word `value` at `dest_addr`, byte-swapping it on
    /// the way in; address decoding mirrors `peek`, and an address at or
    /// above `0x8008` is a fatal fault that changes nothing but the status
    /// word. Sets `MEMW` in the status word and, on success, appends
    /// `(dest_addr, WRITE)` to the recent-access trace unless it is full.
    pub fn poke(&mut self, dest_addr: u16, value: u16) -> (r: Result<(), Error>)
        requires
            old(self).wf(),
        ensures
            final(self).wf(),
            final(self).debug == old(self).debug,
            r is Ok <==> addr_ok(dest_addr),
            addr_ok(dest_addr) ==> r == Ok::<(), Error>(())
                && final(self)@ == with_status(
                write_at(old(self)@, dest_addr, value),
                old(self).status | 8,
            )
                && final(self).recent_mem_access@ == trace_push(
                old(self).recent_mem_access@,
                (dest_addr, RECENTMEMACCESS_WRITE_BIT),
            ),
            !addr_ok(dest_addr) ==> r == Err::<(), Error>(Error::MemoryInvalid)
                && final(self)@ == with_status(old(self)@, old(self).status | 8)
                && final(self).recent_mem_access@ == old(self).recent_mem_access@,
    {
        proof {
            lemma_status_algebra();
        }
        set_bit(&mut self.status, MEMW_BIT);
        if dest_addr < TOM as u16 {
            let stored = swap_endian(value);
            self.mem.set(dest_addr as usize, stored);
            proof {
                assert(self@.mem =~= write_at(old(self)@, dest_addr, value).mem);
            }
        } else if dest_addr < (TOM + NUM_REG) as u16 {
            let stored = swap_endian(value);
            self.registers.set((dest_addr - TOM as u16) as usize, stored);
            proof {
                assert(self@.regs =~= write_at(old(self)@, dest_addr, value).regs);
            }
        } else {
            proof {
                assert(self@ =~= with_status(old(self)@, old(self).status | 8));
            }
            return Err(Error::MemoryInvalid);
        }
        if self.recent_mem_access.len() < MAX_RECENTMEMACCESS_SIZE as usize {
            self.recent_mem_access.push((dest_addr, RECENTMEMACCESS_WRITE_BIT));
        }
        proof {
            assert(self@ =~= with_status(
                write_at(old(self)@, dest_addr, value),
                old(self).status | 8,
            ));
        }
        Ok(())
    }

    /// Fetches the logical word at `mem[pc]` and advances `pc` past it; used
    /// to consume opcodes and inline operands. An instruction fetch is a
    /// plain memory dereference, so a program counter outside
    /// `0x0000..0x8000` — the register range included — is a fatal fault.
    /// Sets `MEMR` and, on success, appends `(pc, READ)` to the recent-access
    /// trace unless it is full.
    pub fn peek_inc(&mut self) -> (r: Result<u16, Error>)
        requires
            old(self).wf(),
        ensures
            final(self).wf(),
            final(self).debug == old(self).debug,
            r is Ok <==> old(self)@.pc < 0x8000,
            old(self)@.pc < 0x8000 ==> r == Ok::<u16, Error>(opnd(old(self)@, 0))
                && final(self)@ == with_status(adv(old(self)@, 1), old(self).status | 4)
                && final(self).recent_mem_access@ == trace_push(
                old(self).recent_mem_access@,
                (old(self)@.pc, RECENTMEMACCESS_READ_BIT),
            ),
            old(self)@.pc >= 0x8000 ==> r == Err::<u16, Error>(Error::MemoryInvalid)
                && final(self)@ == with_status(old(self)@, old(self).status | 4)
                && final(self).recent_mem_access@ == old(self).recent_mem_access@,
    {
        proof {
            lemma_status_algebra();
        }
        set_bit(&mut self.status, MEMR_BIT);
        if self.pc >= TOM as u16 {
            proof {
                assert(self@ =~= with_status(old(self)@, old(self).status | 4));
            }
            return Err(Error::MemoryInvalid);
        }
        let val: u16 = self.mem[self.pc as usize];
        if self.recent_mem_access.len() < MAX_RECENTMEMACCESS_SIZE as usize {
            self.recent_mem_access.push((self.pc, RECENTMEMACCESS_READ_BIT));
        }
        self.pc = self.pc + 1;
        let out = swap_endian(val);
        proof {
            assert(self@ =~= with_status(adv(old(self)@, 1), old(self).status | 4));
        }
        Ok(out)
    }

    /// Applies the operand value rule to a fetched word: an encoding in
    /// `0x8000..0x8008` is replaced by the contents of the corresponding
    /// register (a read that shows up in the status word and the trace); any
    /// other word — the 15-bit immediates below `0x8000` included — stands
    /// for itself.
    fn resolve_value(&mut self, v: u16) -> (r: u16)
        requires
            old(self).wf(),
        ensures
            final(self).wf(),
            final(self).debug == old(self).debug,
            r == resolve_spec(old(self)@, v),
            final(self)@ == with_status(
                old(self)@,
                (if is_reg_ref(v) {
                    old(self).status | 4
                } else {
                    old(self).status
                }),
            ),
            final(self).recent_mem_access@ == (if is_reg_ref(v) {
                trace_push(old(self).recent_mem_access@, (v, RECENTMEMACCESS_READ_BIT))
            } else {
                old(self).recent_mem_access@
            }),
    {
        if v >= TOM as u16 && v < (TOM + NUM_REG) as u16 {
            match self.peek(v) {
                Ok(x) => x,
                Err(_) => {
                    proof {
                        assert(false);
                    }
                    0
                },
            }
        } else {
            proof {
                assert(self@ =~= with_status(old(self)@, old(self).status));
            }
            v
        }
    }

    /// Fetches one operand word and applies the operand value rule to it.
    /// Fails exactly when the program counter has left `0x0000..0x8000`.
    fn fetch_value(&mut self) -> (r: Result<u16, Error>)
        requires
            old(self).wf(),
        ensures
            final(self).wf(),
            final(self).debug == old(self).debug,
            r is Ok <==> old(self)@.pc < 0x8000,
            old(self)@.pc < 0x8000 ==> r == Ok::<u16, Error>(
                resolve_spec(old(self)@, opnd(old(self)@, 0)),
            ) && final(self)@ == with_status(adv(old(self)@, 1), old(self).status | 4),
            old(self)@.pc >= 0x8000 ==> r == Err::<u16, Error>(Error::MemoryInvalid)
                && final(self)@ == with_status(old(self)@, old(self).status | 4),
            trace_extends(old(self).recent_mem_access@, final(self).recent_mem_access@),
    {
        proof {
            lemma_status_algebra();
        }
        let v: u16 = match self.peek_inc() {
            Ok(v) => v,
            Err(e) => {
                return Err(e);
            },
        };
        let out = self.resolve_value(v);
        proof {
            assert(self@ =~= with_status(adv(old(self)@, 1), old(self).status | 4));
        }
        Ok(out)
    }

    /// Clears the transient status bits (`M1`, `MEMR`, `MEMW`, `IN`, `OUT`,
    /// `HALT`) at the start of a fetch-execute cycle; the rest of the status
    /// word is untouched.
    fn reset_status(&mut self)
        ensures
            final(self).status == old(self).status & 0xFEE0,
            final(self).mem == old(self).mem,
            final(self).registers == old(self).registers,
            final(self).stack == old(self).stack,
            final(self).pc == old(self).pc,
            final(self).executed == old(self).executed,
            final(self).recent_mem_access == old(self).recent_mem_access,
            final(self).debug == old(self).debug,
            final(self).input == old(self).input,
            final(self).output == old(self).output,
    {
        clear_bit(&mut self.status, M1_BIT);
        clear_bit(&mut self.status, MEMR_BIT);
        clear_bit(&mut self.status, MEMW_BIT);
        clear_bit(&mut self.status, IN_BIT);
        clear_bit(&mut self.status, OUT_BIT);
        clear_bit(&mut self.status, HALT_BIT);
        proof {
            let w = old(self).status;
            assert(spec_clear_bit(
                spec_clear_bit(
                    spec_clear_bit(
                        spec_clear_bit(spec_clear_bit(spec_clear_bit(w, 1), 2), 3), 8),
                    4,
                ),
                0,
            ) == w & 0xFEE0) by (bit_vector);
        }
    }

    /// Returns `true` exactly when the `HALT` bit of the status word is set.
    pub fn is_halted(&self) -> (r: bool)
        ensures
            r == self@.halted(),
    {
        get_bit(&self.status, HALT_BIT)
    }

    /// Stops execution: sets the sticky `HALT` bit. Nothing else changes;
    /// only external operator action clears the bit again.
    pub fn halt(&mut self)
        ensures
            final(self)@ == with_status(old(self)@, old(self).status | 1),
            final(self)@.halted(),
            final(self).wf() == old(self).wf(),
            final(self).debug == old(self).debug,
            final(self).recent_mem_access == old(self).recent_mem_access,
    {
        proof {
            lemma_status_algebra();
        }
        set_bit(&mut self.status, HALT_BIT);
        proof {
            assert(self@ =~= with_status(old(self)@, old(self).status | 1));
        }
    }

    /// `set a b`: stores the resolved value of the second operand at the
    /// address the first gives.
    fn set(&mut self) -> (r: Result<(), Error>)
        requires
            old(self).wf(),
        ensures
            final(self).wf(),
            final(self).debug == old(self).debug,
            trace_extends(old(self).recent_mem_access@, final(self).recent_mem_access@),
            (match eff_set(old(self)@) {
                Ok(s2) => r == Ok::<(), Error>(()) && final(self)@ == with_status(
                    s2,
                    old(self).status | 12,
                ),
                Err(e) => r == Err::<(), Error>(e) && fault_frame(old(self)@, final(self)@),
            }),
    {
        proof {
            lemma_status_algebra();
        }
        let dest: u16 = match self.peek_inc() {
            Ok(v) => v,
            Err(e) => {
                return Err(e);
            },
        };
        let val: u16 = match self.fetch_value() {
            Ok(v) => v,
            Err(e) => {
                return Err(e);
            },
        };
        let r = self.poke(dest, val);
        proof {
            match eff_set(old(self)@) {
                Ok(s2) => {
                    assert(self@ =~= with_status(s2, old(self).status | 12));
                },
                Err(_) => {},
            }
        }
        r
    }

    /// `push a`: pushes the resolved value of the operand onto the stack.
    fn push(&mut self) -> (r: Result<(), Error>)
        requires
            old(self).wf(),
        ensures
            final(self).wf(),
            final(self).debug == old(self).debug,
            trace_extends(old(self).recent_mem_access@, final(self).recent_mem_access@),
            (match eff_push(old(self)@) {
                Ok(s2) => r == Ok::<(), Error>(()) && final(self)@ == with_status(
                    s2,
                    old(self).status | 4,
                ),
                Err(e) => r == Err::<(), Error>(e) && fault_frame(old(self)@, final(self)@),
            }),
    {
        proof {
            lemma_status_algebra();
        }
        let val: u16 = match self.fetch_value() {
            Ok(v) => v,
            Err(e) => {
                return Err(e);
            },
        };
        self.stack.push(val);
        proof {
            match eff_push(old(self)@) {
                Ok(s2) => {
                    assert(self@ =~= with_status(s2, old(self).status | 4));
                },
                Err(_) => {},
            }
        }
        Ok(())
    }

    /// `pop a`: removes the top of the stack and stores it at the address
    /// the operand gives; an empty stack is a fatal fault.
    fn pop(&mut self) -> (r: Result<(), Error>)
        requires
            old(self).wf(),
        ensures
            final(self).wf(),
            final(self).debug == old(self).debug,
            trace_extends(old(self).recent_mem_access@, final(self).recent_mem_access@),
            (match eff_pop(old(self)@) {
                Ok(s2) => r == Ok::<(), Error>(()) && final(self)@ == with_status(
                    s2,
                    old(self).status | 12,
                ),
                Err(e) => r == Err::<(), Error>(e) && fault_frame(old(self)@, final(self)@),
            }),
    {
        proof {
            lemma_status_algebra();
        }
        if self.stack.len() == 0 {
            return Err(Error::EmptyStack);
        }
        let value: u16 = match self.stack.pop() {
            Some(v) => v,
            None => {
                proof {
                    assert(false);
                }
                0
            },
        };
        let dest: u16 = match self.peek_inc() {
            Ok(v) => v,
            Err(e) => {
                return Err(e);
            },
        };
        let r = self.poke(dest, value);
        proof {
            match eff_pop(old(self)@) {
                Ok(s2) => {
                    assert(self@ =~= with_status(s2, old(self).status | 12));
                },
                Err(_) => {},
            }
        }
        r
    }

    /// `eq a b c`: stores 1 at `a` when the resolved `b` equals the resolved
    /// `c`, 0 otherwise.
    fn eq(&mut self) -> (r: Result<(), Error>)
        requires
            old(self).wf(),
        ensures
            final(self).wf(),
            final(self).debug == old(self).debug,
            trace_extends(old(self).recent_mem_access@, final(self).recent_mem_access@),
            (match eff_eq(old(self)@) {
                Ok(s2) => r == Ok::<(), Error>(()) && final(self)@ == with_status(
                    s2,
                    old(self).status | 12,
                ),
                Err(e) => r == Err::<(), Error>(e) && fault_frame(old(self)@, final(self)@),
            }),
    {
        proof {
            lemma_status_algebra();
        }
        let dest: u16 = match self.peek_inc() {
            Ok(v) => v,
            Err(e) => {
                return Err(e);
            },
        };
        let b: u16 = match self.fetch_value() {
            Ok(v) => v,
            Err(e) => {
                return Err(e);
            },
        };
        let c: u16 = match self.fetch_value() {
            Ok(v) => v,
            Err(e) => {
                return Err(e);
            },
        };
        let value: u16 = if b == c {
            1
        } else {
            0
        };
        let r = self.poke(dest, value);
        proof {
            match eff_eq(old(self)@) {
                Ok(s2) => {
                    assert(self@ =~= with_status(s2, old(self).status | 12));
                },
                Err(_) => {},
            }
        }
        r
    }

    /// `gt a b c`: stores 1 at `a` when the resolved `b` is greater than the
    /// resolved `c`, 0 otherwise.
    fn gt(&mut self) -> (r: Result<(), Error>)
        requires
            old(self).wf(),
        ensures
            final(self).wf(),
            final(self).debug == old(self).debug,
            trace_extends(old(self).recent_mem_access@, final(self).recent_mem_access@),
            (match eff_gt(old(self)@) {
                Ok(s2) => r == Ok::<(), Error>(()) && final(self)@ == with_status(
                    s2,
                    old(self).status | 12,
                ),
                Err(e) => r == Err::<(), Error>(e) && fault_frame(old(self)@, final(self)@),
            }),
    {
        proof {
            lemma_status_algebra();
        }
        let dest: u16 = match self.peek_inc() {
            Ok(v) => v,
            Err(e) => {
                return Err(e);
            },
        };
        let b: u16 = match self.fetch_value() {
            Ok(v) => v,
            Err(e) => {
                return Err(e);
            },
        };
        let c: u16 = match self.fetch_value() {
            Ok(v) => v,
            Err(e) => {
                return Err(e);
            },
        };
        let value: u16 = if b > c {
            1
        } else {
            0
        };
        let r = self.poke(dest, value);
        proof {
            match eff_gt(old(self)@) {
                Ok(s2) => {
                    assert(self@ =~= with_status(s2, old(self).status | 12));
                },
                Err(_) => {},
            }
        }
        r
    }

    /// `jmp a`: jumps to the resolved value of the operand.
    fn jmp(&mut self) -> (r: Result<(), Error>)
        requires
            old(self).wf(),
        ensures
            final(self).wf(),
            final(self).debug == old(self).debug,
            trace_extends(old(self).recent_mem_access@, final(self).recent_mem_access@),
            (match eff_jmp(old(self)@) {
                Ok(s2) => r == Ok::<(), Error>(()) && final(self)@ == with_status(
                    s2,
                    old(self).status | 4,
                ),
                Err(e) => r == Err::<(), Error>(e) && fault_frame(old(self)@, final(self)@),
            }),
    {
        proof {
            lemma_status_algebra();
        }
        let dest: u16 = match self.fetch_value() {
            Ok(v) => v,
            Err(e) => {
                return Err(e);
            },
        };
        self.pc = dest;
        proof {
            match eff_jmp(old(self)@) {
                Ok(s2) => {
                    assert(self@ =~= with_status(s2, old(self).status | 4));
                },
                Err(_) => {},
            }
        }
        Ok(())
    }

    /// `jt a b`: jumps to `b`, taken as fetched, when the resolved `a` is
    /// nonzero.
    fn jt(&mut self) -> (r: Result<(), Error>)
        requires
            old(self).wf(),
        ensures
            final(self).wf(),
            final(self).debug == old(self).debug,
            trace_extends(old(self).recent_mem_access@, final(self).recent_mem_access@),
            (match eff_jt(old(self)@) {
                Ok(s2) => r == Ok::<(), Error>(()) && final(self)@ == with_status(
                    s2,
                    old(self).status | 4,
                ),
                Err(e) => r == Err::<(), Error>(e) && fault_frame(old(self)@, final(self)@),
            }),
    {
        proof {
            lemma_status_algebra();
        }
        let val: u16 = match self.fetch_value() {
            Ok(v) => v,
            Err(e) => {
                return Err(e);
            },
        };
        let dest: u16 = match self.peek_inc() {
            Ok(v) => v,
            Err(e) => {
                return Err(e);
            },
        };
        if val != 0 {
            self.pc = dest;
        }
        proof {
            match eff_jt(old(self)@) {
                Ok(s2) => {
                    assert(self@ =~= with_status(s2, old(self).status | 4));
                },
                Err(_) => {},
            }
        }
        Ok(())
    }

    /// `jf a b`: jumps to `b`, taken as fetched, when the resolved `a` is
    /// zero.
    fn jf(&mut self) -> (r: Result<(), Error>)
        requires
            old(self).wf(),
        ensures
            final(self).wf(),
            final(self).debug == old(self).debug,
            trace_extends(old(self).recent_mem_access@, final(self).recent_mem_access@),
            (match eff_jf(old(self)@) {
                Ok(s2) => r == Ok::<(), Error>(()) && final(self)@ == with_status(
                    s2,
                    old(self).status | 4,
                ),
                Err(e) => r == Err::<(), Error>(e) && fault_frame(old(self)@, final(self)@),
            }),
    {
        proof {
            lemma_status_algebra();
        }
        let val_raw: u16 = match self.peek_inc() {
            Ok(v) => v,
            Err(e) => {
                return Err(e);
            },
        };
        let dest: u16 = match self.peek_inc() {
            Ok(v) => v,
            Err(e) => {
                return Err(e);
            },
        };
        let val: u16 = self.resolve_value(val_raw);
        if val == 0 {
            self.pc = dest;
        }
        proof {
            match eff_jf(old(self)@) {
                Ok(s2) => {
                    assert(self@ =~= with_status(s2, old(self).status | 4));
                },
                Err(_) => {},
            }
        }
        Ok(())
    }

    /// `add a b c`: stores the sum of the resolved `b` and `c`, reduced
    /// modulo `0x8000`, at `a`.
    fn add(&mut self) -> (r: Result<(), Error>)
        requires
            old(self).wf(),
        ensures
            final(self).wf(),
            final(self).debug == old(self).debug,
            trace_extends(old(self).recent_mem_access@, final(self).recent_mem_access@),
            (match eff_add(old(self)@) {
                Ok(s2) => r == Ok::<(), Error>(()) && final(self)@ == with_status(
                    s2,
                    old(self).status | 12,
                ),
                Err(e) => r == Err::<(), Error>(e) && fault_frame(old(self)@, final(self)@),
            }),
    {
        proof {
            lemma_status_algebra();
        }
        let dest: u16 = match self.peek_inc() {
            Ok(v) => v,
            Err(e) => {
                return Err(e);
            },
        };
        let b: u16 = match self.fetch_value() {
            Ok(v) => v,
            Err(e) => {
                return Err(e);
            },
        };
        let c: u16 = match self.fetch_value() {
            Ok(v) => v,
            Err(e) => {
                return Err(e);
            },
        };
        let sum: u16 = (((b as u32) + (c as u32)) % 0x8000) as u16;
        let r = self.poke(dest, sum);
        proof {
            match eff_add(old(self)@) {
                Ok(s2) => {
                    assert(self@ =~= with_status(s2, old(self).status | 12));
                },
                Err(_) => {},
            }
        }
        r
    }

    /// `mult a b c`: stores the product of the resolved `b` and `c`, reduced
    /// modulo `0x8000`, at `a`.
    fn mult(&mut self) -> (r: Result<(), Error>)
        requires
            old(self).wf(),
        ensures
            final(self).wf(),
            final(self).debug == old(self).debug,
            trace_extends(old(self).recent_mem_access@, final(self).recent_mem_access@),
            (match eff_mult(old(self)@) {
                Ok(s2) => r == Ok::<(), Error>(()) && final(self)@ == with_status(
                    s2,
                    old(self).status | 12,
                ),
                Err(e) => r == Err::<(), Error>(e) && fault_frame(old(self)@, final(self)@),
            }),
    {
        proof {
            lemma_status_algebra();
        }
        let dest: u16 = match self.peek_inc() {
            Ok(v) => v,
            Err(e) => {
                return Err(e);
            },
        };
        let b: u16 = match self.fetch_value() {
            Ok(v) => v,
            Err(e) => {
                return Err(e);
            },
        };
        let c: u16 = match self.fetch_value() {
            Ok(v) => v,
            Err(e) => {
                return Err(e);
            },
        };
        proof {
            assert((b as int) * (c as int) <= 0xFFFF * 0xFFFF) by (nonlinear_arith)
                requires
                    b <= 0xFFFF,
                    c <= 0xFFFF,
            ;
        }
        let product: u16 = (((b as u32) * (c as u32)) % 0x8000) as u16;
        let r = self.poke(dest, product);
        proof {
            match eff_mult(old(self)@) {
                Ok(s2) => {
                    assert(self@ =~= with_status(s2, old(self).status | 12));
                },
                Err(_) => {},
            }
        }
        r
    }

    /// `mod a b c`: stores the remainder of the resolved `b` by the resolved
    /// `c` at `a`; a zero divisor is a fatal fault.
    fn modulo(&mut self) -> (r: Result<(), Error>)
        requires
            old(self).wf(),
        ensures
            final(self).wf(),
            final(self).debug == old(self).debug,
            trace_extends(old(self).recent_mem_access@, final(self).recent_mem_access@),
            (match eff_mod(old(self)@) {
                Ok(s2) => r == Ok::<(), Error>(()) && final(self)@ == with_status(
                    s2,
                    old(self).status | 12,
                ),
                Err(e) => r == Err::<(), Error>(e) && fault_frame(old(self)@, final(self)@),
            }),
    {
        proof {
            lemma_status_algebra();
        }
        let dest: u16 = match self.peek_inc() {
            Ok(v) => v,
            Err(e) => {
                return Err(e);
            },
        };
        let b: u16 = match self.fetch_value() {
            Ok(v) => v,
            Err(e) => {
                return Err(e);
            },
        };
        let c: u16 = match self.fetch_value() {
            Ok(v) => v,
            Err(e) => {
                return Err(e);
            },
        };
        if c == 0 {
            return Err(Error::DivideByZero);
        }
        let r = self.poke(dest, b % c);
        proof {
            match eff_mod(old(self)@) {
                Ok(s2) => {
                    assert(self@ =~= with_status(s2, old(self).status | 12));
                },
                Err(_) => {},
            }
        }
        r
    }

    /// `and a b c`: stores the masked bitwise and of the resolved `b` and
    /// `c` at `a`.
    fn and(&mut self) -> (r: Result<(), Error>)
        requires
            old(self).wf(),
        ensures
            final(self).wf(),
            final(self).debug == old(self).debug,
            trace_extends(old(self).recent_mem_access@, final(self).recent_mem_access@),
            (match eff_and(old(self)@) {
                Ok(s2) => r == Ok::<(), Error>(()) && final(self)@ == with_status(
                    s2,
                    old(self).status | 12,
                ),
                Err(e) => r == Err::<(), Error>(e) && fault_frame(old(self)@, final(self)@),
            }),
    {
        proof {
            lemma_status_algebra();
        }
        let dest: u16 = match self.peek_inc() {
            Ok(v) => v,
            Err(e) => {
                return Err(e);
            },
        };
        let b: u16 = match self.fetch_value() {
            Ok(v) => v,
            Err(e) => {
                return Err(e);
            },
        };
        let c: u16 = match self.fetch_value() {
            Ok(v) => v,
            Err(e) => {
                return Err(e);
            },
        };
        let value: u16 = (b & c) % (TOM as u16);
        let r = self.poke(dest, value);
        proof {
            match eff_and(old(self)@) {
                Ok(s2) => {
                    assert(self@ =~= with_status(s2, old(self).status | 12));
                },
                Err(_) => {},
            }
        }
        r
    }

    /// `or a b c`: stores the masked bitwise or of the resolved `b` and `c`
    /// at `a`.
    fn or(&mut self) -> (r: Result<(), Error>)
        requires
            old(self).wf(),
        ensures
            final(self).wf(),
            final(self).debug == old(self).debug,
            trace_extends(old(self).recent_mem_access@, final(self).recent_mem_access@),
            (match eff_or(old(self)@) {
                Ok(s2) => r == Ok::<(), Error>(()) && final(self)@ == with_status(
                    s2,
                    old(self).status | 12,
                ),
                Err(e) => r == Err::<(), Error>(e) && fault_frame(old(self)@, final(self)@),
            }),
    {
        proof {
            lemma_status_algebra();
        }
        let dest: u16 = match self.peek_inc() {
            Ok(v) => v,
            Err(e) => {
                return Err(e);
            },
        };
        let b: u16 = match self.fetch_value() {
            Ok(v) => v,
            Err(e) => {
                return Err(e);
            },
        };
        let c: u16 = match self.fetch_value() {
            Ok(v) => v,
            Err(e) => {
                return Err(e);
            },
        };
        let value: u16 = (b | c) % (TOM as u16);
        let r = self.poke(dest, value);
        proof {
            match eff_or(old(self)@) {
                Ok(s2) => {
                    assert(self@ =~= with_status(s2, old(self).status | 12));
                },
                Err(_) => {},
            }
        }
        r
    }

    /// `not a b`: stores the 15-bit bitwise inverse of the resolved `b` at
    /// `a`.
    fn not(&mut self) -> (r: Result<(), Error>)
        requires
            old(self).wf(),
        ensures
            final(self).wf(),
            final(self).debug == old(self).debug,
            trace_extends(old(self).recent_mem_access@, final(self).recent_mem_access@),
            (match eff_not(old(self)@) {
                Ok(s2) => r == Ok::<(), Error>(()) && final(self)@ == with_status(
                    s2,
                    old(self).status | 12,
                ),
                Err(e) => r == Err::<(), Error>(e) && fault_frame(old(self)@, final(self)@),
            }),
    {
        proof {
            lemma_status_algebra();
        }
        let dest: u16 = match self.peek_inc() {
            Ok(v) => v,
            Err(e) => {
                return Err(e);
            },
        };
        let b: u16 = match self.fetch_value() {
            Ok(v) => v,
            Err(e) => {
                return Err(e);
            },
        };
        let value: u16 = (!b) % (TOM as u16);
        let r = self.poke(dest, value);
        proof {
            match eff_not(old(self)@) {
                Ok(s2) => {
                    assert(self@ =~= with_status(s2, old(self).status | 12));
                },
                Err(_) => {},
            }
        }
        r
    }

    /// `rmem a b`: reads the word the resolved `b` addresses and stores it
    /// at `a`.
    fn rmem(&mut self) -> (r: Result<(), Error>)
        requires
            old(self).wf(),
        ensures
            final(self).wf(),
            final(self).debug == old(self).debug,
            trace_extends(old(self).recent_mem_access@, final(self).recent_mem_access@),
            (match eff_rmem(old(self)@) {
                Ok(s2) => r == Ok::<(), Error>(()) && final(self)@ == with_status(
                    s2,
                    old(self).status | 12,
                ),
                Err(e) => r == Err::<(), Error>(e) && fault_frame(old(self)@, final(self)@),
            }),
    {
        proof {
            lemma_status_algebra();
        }
        let dest: u16 = match self.peek_inc() {
            Ok(v) => v,
            Err(e) => {
                return Err(e);
            },
        };
        let source: u16 = match self.fetch_value() {
            Ok(v) => v,
            Err(e) => {
                return Err(e);
            },
        };
        let value: u16 = match self.peek(source) {
            Ok(v) => v,
            Err(e) => {
                return Err(e);
            },
        };
        let r = self.poke(dest, value);
        proof {
            match eff_rmem(old(self)@) {
                Ok(s2) => {
                    assert(self@ =~= with_status(s2, old(self).status | 12));
                },
                Err(_) => {},
            }
        }
        r
    }

    /// `wmem a b`: stores the resolved value `b` at the address the resolved
    /// `a` gives.
    fn wmem(&mut self) -> (r: Result<(), Error>)
        requires
            old(self).wf(),
        ensures
            final(self).wf(),
            final(self).debug == old(self).debug,
            trace_extends(old(self).recent_mem_access@, final(self).recent_mem_access@),
            (match eff_wmem(old(self)@) {
                Ok(s2) => r == Ok::<(), Error>(()) && final(self)@ == with_status(
                    s2,
                    old(self).status | 12,
                ),
                Err(e) => r == Err::<(), Error>(e) && fault_frame(old(self)@, final(self)@),
            }),
    {
        proof {
            lemma_status_algebra();
        }
        let dest: u16 = match self.fetch_value() {
            Ok(v) => v,
            Err(e) => {
                return Err(e);
            },
        };
        let value: u16 = match self.fetch_value() {
            Ok(v) => v,
            Err(e) => {
                return Err(e);
            },
        };
        let r = self.poke(dest, value);
        proof {
            match eff_wmem(old(self)@) {
                Ok(s2) => {
                    assert(self@ =~= with_status(s2, old(self).status | 12));
                },
                Err(_) => {},
            }
        }
        r
    }

    /// `call a`: pushes the address of the next instruction onto the stack
    /// and jumps to the resolved value `a`.
    fn call(&mut self) -> (r: Result<(), Error>)
        requires
            old(self).wf(),
        ensures
            final(self).wf(),
            final(self).debug == old(self).debug,
            trace_extends(old(self).recent_mem_access@, final(self).recent_mem_access@),
            (match eff_call(old(self)@) {
                Ok(s2) => r == Ok::<(), Error>(()) && final(self)@ == with_status(
                    s2,
                    old(self).status | 4,
                ),
                Err(e) => r == Err::<(), Error>(e) && fault_frame(old(self)@, final(self)@),
            }),
    {
        proof {
            lemma_status_algebra();
        }
        let dest_raw: u16 = match self.peek_inc() {
            Ok(v) => v,
            Err(e) => {
                return Err(e);
            },
        };
        let return_to: u16 = self.pc;
        self.stack.push(return_to);
        let dest: u16 = self.resolve_value(dest_raw);
        self.pc = dest;
        proof {
            match eff_call(old(self)@) {
                Ok(s2) => {
                    assert(self@ =~= with_status(s2, old(self).status | 4));
                },
                Err(_) => {},
            }
        }
        Ok(())
    }

    /// `ret`: pops the return address into the program counter; an empty
    /// stack is a fatal fault.
    fn ret(&mut self) -> (r: Result<(), Error>)
        requires
            old(self).wf(),
        ensures
            final(self).wf(),
            final(self).debug == old(self).debug,
            trace_extends(old(self).recent_mem_access@, final(self).recent_mem_access@),
            (match eff_ret(old(self)@) {
                Ok(s2) => r == Ok::<(), Error>(()) && final(self)@ == s2,
                Err(e) => r == Err::<(), Error>(e) && fault_frame(old(self)@, final(self)@),
            }),
    {
        if self.stack.len() == 0 {
            return Err(Error::EmptyStack);
        }
        let value: u16 = match self.stack.pop() {
            Some(v) => v,
            None => {
                proof {
                    assert(false);
                }
                0
            },
        };
        self.pc = value;
        proof {
            match eff_ret(old(self)@) {
                Ok(s2) => {
                    assert(self@ =~= s2);
                },
                Err(_) => {},
            }
        }
        Ok(())
    }

    /// `out a`: emits the low byte of the resolved value `a` to the pending
    /// output.
    fn out(&mut self) -> (r: Result<(), Error>)
        requires
            old(self).wf(),
        ensures
            final(self).wf(),
            final(self).debug == old(self).debug,
            trace_extends(old(self).recent_mem_access@, final(self).recent_mem_access@),
            (match eff_out(old(self)@) {
                Ok(s2) => r == Ok::<(), Error>(()) && final(self)@ == with_status(
                    s2,
                    old(self).status | 20,
                ),
                Err(e) => r == Err::<(), Error>(e) && fault_frame(old(self)@, final(self)@),
            }),
    {
        proof {
            lemma_status_algebra();
        }
        let val: u16 = match self.fetch_value() {
            Ok(v) => v,
            Err(e) => {
                return Err(e);
            },
        };
        set_bit(&mut self.status, OUT_BIT);
        let lo: u8 = (val & 0x00FF) as u8;
        self.output.push(lo);
        proof {
            match eff_out(old(self)@) {
                Ok(s2) => {
                    assert(self@ =~= with_status(s2, old(self).status | 20));
                },
                Err(_) => {},
            }
        }
        Ok(())
    }

    /// `in a`: takes the next pending input byte and stores its code at the
    /// address the operand gives; exhausted input is a fatal fault.
    fn read_in(&mut self) -> (r: Result<(), Error>)
        requires
            old(self).wf(),
        ensures
            final(self).wf(),
            final(self).debug == old(self).debug,
            trace_extends(old(self).recent_mem_access@, final(self).recent_mem_access@),
            (match eff_in(old(self)@) {
                Ok(s2) => r == Ok::<(), Error>(()) && final(self)@ == with_status(
                    s2,
                    old(self).status | 268,
                ),
                Err(e) => r == Err::<(), Error>(e) && fault_frame(old(self)@, final(self)@),
            }),
    {
        proof {
            lemma_status_algebra();
        }
        let dest: u16 = match self.peek_inc() {
            Ok(v) => v,
            Err(e) => {
                return Err(e);
            },
        };
        set_bit(&mut self.status, IN_BIT);
        if self.input.len() == 0 {
            return Err(Error::FailedToReadLine);
        }
        let in_char: u8 = self.input.remove(0);
        proof {
            assert(old(self).input@.remove(0) =~= old(self).input@.drop_first());
        }
        let r = self.poke(dest, in_char as u16);
        proof {
            match eff_in(old(self)@) {
                Ok(s2) => {
                    assert(self@ =~= with_status(s2, old(self).status | 268));
                },
                Err(_) => {},
            }
        }
        r
    }

    /// `nop`: no operation.
    fn nop(&self) {
    }

    /// Counts the instruction and dispatches the fetched opcode, exactly as
    /// [`execute_spec`] says; an opcode outside `0x00..0x15` is a fatal
    /// fault.
    fn execute(&mut self, instruction: u16) -> (r: Result<(), Error>)
        requires
            old(self).wf(),
        ensures
            final(self).wf(),
            final(self).debug == old(self).debug,
            trace_extends(old(self).recent_mem_access@, final(self).recent_mem_access@),
            (match execute_spec(old(self)@, instruction) {
                Ok(s2) => r == Ok::<(), Error>(()) && final(self)@ == s2,
                Err(e) => r == Err::<(), Error>(e) && final(self)@.mem == old(self)@.mem
                    && final(self)@.regs == old(self)@.regs && final(self)@.output == old(
                    self,
                )@.output && final(self)@.executed == inc_exec(old(self)@.executed)
                    && spec_get_bit(final(self).status, 0) == spec_get_bit(old(self).status, 0),
            }),
    {
        if self.executed < u32::MAX {
            self.executed = self.executed + 1;
        }
        proof {
            let s1 = State { executed: inc_exec(old(self)@.executed), ..old(self)@ };
            assert(self@ =~= s1);
        }
        match instruction {
            0x0000u16 => {
                self.halt();
                Ok(())
            },
            0x0001u16 => self.set(),
            0x0002u16 => self.push(),
            0x0003u16 => self.pop(),
            0x0004u16 => self.eq(),
            0x0005u16 => self.gt(),
            0x0006u16 => self.jmp(),
            0x0007u16 => self.jt(),
            0x0008u16 => self.jf(),
            0x0009u16 => self.add(),
            0x000Au16 => self.mult(),
            0x000Bu16 => self.modulo(),
            0x000Cu16 => self.and(),
            0x000Du16 => self.or(),
            0x000Eu16 => self.not(),
            0x000Fu16 => self.rmem(),
            0x0010u16 => self.wmem(),
            0x0011u16 => self.call(),
            0x0012u16 => self.ret(),
            0x0013u16 => self.out(),
            0x0014u16 => self.read_in(),
            0x0015u16 => {
                self.nop();
                Ok(())
            },
            _ => Err(Error::UnknownOpcode),
        }
    }

    /// One fetch-execute cycle: on a running machine the transient status
    /// bits reset, `M1` is raised, the opcode at `pc` is fetched and
    /// dispatched; a halted machine is left untouched. The whole cycle
    /// behaves as [`step_spec`] says; on a fault the machine keeps its
    /// memory, registers and output, and is *not* halted. The instruction
    /// counter never decreases.
    pub fn fetch_and_execute(&mut self) -> (r: Result<(), Error>)
        requires
            old(self).wf(),
        ensures
            final(self).wf(),
            final(self).debug == old(self).debug,
            trace_extends(old(self).recent_mem_access@, final(self).recent_mem_access@),
            final(self).executed >= old(self).executed,
            old(self)@.halted() ==> r == Ok::<(), Error>(()) && *final(self) == *old(self),
            !old(self)@.halted() ==> (match step_spec(old(self)@) {
                Ok(s2) => r == Ok::<(), Error>(()) && final(self)@ == s2,
                Err(e) => r == Err::<(), Error>(e) && !final(self)@.halted() && final(self)@.mem
                    == old(self)@.mem && final(self)@.regs == old(self)@.regs
                    && final(self)@.output == old(self)@.output && final(self)@.executed == (
                if old(self)@.pc < 0x8000 {
                    inc_exec(old(self)@.executed)
                } else {
                    old(self)@.executed
                }),
            }),
    {
        if self.is_halted() {
            return Ok(());
        }
        proof {
            lemma_status_algebra();
        }
        self.reset_status();
        set_bit(&mut self.status, M1_BIT);
        let instruction: u16 = match self.peek_inc() {
            Ok(i) => i,
            Err(e) => {
                return Err(e);
            },
        };
        proof {
            assert(self@ =~= with_status(
                adv(old(self)@, 1),
                (old(self).status & 0xFEE0) | 6,
            ));
        }
        self.execute(instruction)
    }

    /// Runs fetch-execute cycles until the machine halts or an instruction
    /// faults. On success the final state is reachable from the starting
    /// state by successful steps and the machine has halted (short of the
    /// unreachable case of the instruction counter saturating first); on a
    /// fault some reachable state stepped into exactly that error, the
    /// machine keeps that state's memory, registers and output, and is not
    /// halted. The instruction counter never decreases.
    pub fn run(&mut self) -> (r: Result<(), Error>)
        requires
            old(self).wf(),
        ensures
            final(self).wf(),
            final(self).debug == old(self).debug,
            final(self).executed >= old(self).executed,
            (match r {
                Ok(()) => (exists|n: nat| steps_to(old(self)@, final(self)@, n))
                    && (final(self)@.halted() || final(self).executed == u32::MAX),
                Err(e) => !final(self)@.halted() && exists|n: nat, pre: State|
                    steps_to(old(self)@, pre, n) && !pre.halted()
                        && step_spec(pre) == Err::<State, Error>(e)
                        && final(self)@.mem == pre.mem && final(self)@.regs == pre.regs
                        && final(self)@.output == pre.output,
            }),
    {
        let ghost s0 = self@;
        let ghost e0 = self.executed;
        let ghost steps: nat = 0;
        let mut fuel: u64 = u64::MAX;
        proof {
            assert(steps_to(s0, self@, 0));
        }
        while !self.is_halted() && fuel > 0
            invariant
                self.wf(),
                self.debug == old(self).debug,
                s0 == old(self)@,
                e0 == old(self).executed,
                self.executed >= e0,
                self.executed == u32::MAX || self.executed >= e0 + (u64::MAX - fuel),
                steps_to(s0, self@, steps),
            decreases fuel,
        {
            let ghost pre = self@;
            match self.fetch_and_execute() {
                Ok(()) => {},
                Err(e) => {
                    proof {
                        assert(steps_to(s0, pre, steps));
                    }
                    return Err(e);
                },
            }
            proof {
                steps = steps + 1;
                assert(steps_to(s0, self@, steps));
            }
            fuel = fuel - 1;
        }
        Ok(())
    }

    /// Whether the machine is about to execute `in` with no input byte
    /// pending — the one situation in which a front end must read from its
    /// terminal before stepping, and the point where the dot sentinel can
    /// divert control to the debugger.
    pub fn needs_input(&self) -> (r: bool)
        requires
            self.wf(),
        ensures
            r == (self@.pc < 0x8000 && self@.mem[self@.pc as int] == 0x0014 && self@.input.len()
                == 0),
    {
        self.pc < TOM as u16 && swap_endian(self.mem[self.pc as usize]) == 0x0014
            && self.input.len() == 0
    }

    /// Loads a program image: a flat stream of little-endian byte pairs,
    /// byte `2k` the low half of word `k`, byte `2k+1` the high half. The
    /// pairs land byte-for-byte in the byte-swapped storage, so logical word
    /// `k` reads back as the pair encodes it; memory beyond the image end is
    /// zeroed. Nothing else — registers, stack, counters, status — changes.
    pub fn load_image(&mut self, image: &Vec<u8>)
        requires
            old(self).wf(),
            image@.len() % 2 == 0,
            image@.len() <= 0x10000,
        ensures
            final(self).wf(),
            forall|k: int|
                0 <= k < image@.len() / 2 ==> final(self)@.mem[k] == le_word(
                    image@[2 * k],
                    image@[2 * k + 1],
                ),
            forall|k: int| image@.len() / 2 <= k < 0x8000 ==> final(self)@.mem[k] == 0u16,
            final(self)@.regs == old(self)@.regs,
            final(self)@.stack == old(self)@.stack,
            final(self)@.pc == old(self)@.pc,
            final(self)@.status == old(self)@.status,
            final(self)@.executed == old(self)@.executed,
            final(self)@.input == old(self)@.input,
            final(self)@.output == old(self)@.output,
            final(self).recent_mem_access == old(self).recent_mem_access,
            final(self).debug == old(self).debug,
    {
        proof {
            lemma_swap_bytes();
            lemma_status_algebra();
        }
        let mut k: usize = 0;
        while k < TOM
            invariant
                self.wf(),
                k <= TOM,
                image@.len() % 2 == 0,
                image@.len() <= 0x10000,
                forall|j: int|
                    0 <= j < k && 2 * j < image@.len() ==> self@.mem[j] == le_word(
                        image@[2 * j],
                        image@[2 * j + 1],
                    ),
                forall|j: int| 0 <= j < k && 2 * j >= image@.len() ==> self@.mem[j] == 0u16,
                self.registers == old(self).registers,
                self.stack == old(self).stack,
                self.pc == old(self).pc,
                self.status == old(self).status,
                self.executed == old(self).executed,
                self.input == old(self).input,
                self.output == old(self).output,
                self.recent_mem_access == old(self).recent_mem_access,
                self.debug == old(self).debug,
            decreases TOM - k,
        {
            let ghost pre = self@;
            proof {
                lemma_swap_bytes();
                lemma_status_algebra();
            }
            if 2 * k < image.len() {
                let lo: u8 = image[2 * k];
                let hi: u8 = image[2 * k + 1];
                let stored: u16 = ((lo as u16) << 8) | (hi as u16);
                self.mem.set(k, stored);
                proof {
                    assert(spec_swap(stored) == lo + hi * 256);
                    assert(self@.mem =~= pre.mem.update(k as int, le_word(lo, hi)));
                }
            } else {
                self.mem.set(k, 0);
                proof {
                    assert(self@.mem =~= pre.mem.update(k as int, 0u16));
                }
            }
            k = k + 1;
        }
    }

    /// Dumps memory as the flat byte stream the loader reads: byte `2k` is
    /// the low half of logical word `k`, byte `2k+1` the high half. Loading
    /// an image and dumping reproduces the image (see
    /// [`lemma_image_round_trip`]).
    pub fn dump_mem_bytes(&self) -> (r: Vec<u8>)
        requires
            self.wf(),
        ensures
            r@.len() == 0x10000,
            forall|k: int|
                0 <= k < 0x8000 ==> r@[2 * k] as int == self@.mem[k] % 256 && r@[2 * k + 1] as int
                    == self@.mem[k] / 256,
    {
        proof {
            lemma_swap_bytes();
            lemma_status_algebra();
        }
        let mut out: Vec<u8> = Vec::new();
        let mut k: usize = 0;
        while k < TOM
            invariant
                self.wf(),
                k <= TOM,
                out@.len() == 2 * k,
                forall|j: int|
                    0 <= j < k ==> out@[2 * j] as int == self@.mem[j] % 256 && out@[2 * j
                        + 1] as int == self@.mem[j] / 256,
            decreases TOM - k,
        {
            proof {
                lemma_swap_bytes();
                lemma_status_algebra();
            }
            let w: u16 = self.mem[k];
            proof {
                assert((w >> 8) < 256);
                assert((w & 0xFF) < 256);
            }
            out.push((w >> 8) as u8);
            out.push((w & 0x00FF) as u8);
            k = k + 1;
        }
        out
    }
}

} // verus!
