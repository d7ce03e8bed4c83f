//! The disassembler: walks a window of memory by instruction length —
//! opcode word plus as many operand words as the opcode's arity — and
//! returns one structured line per instruction. An unknown opcode consumes
//! one word. Rendering the lines as text is the front end's business.

use vstd::prelude::*;

use crate::machine::Machine;
use crate::utils::swap_endian;

verus! {

/// One disassembled instruction: where it sits, its opcode word, and its
/// operand words (logical values, as fetched).
pub struct DisasmLine {
    /// The address of the opcode word.
    pub addr: u16,
    /// The logical opcode word.
    pub opcode: u16,
    /// The operand words that follow, as many as the arity allows before
    /// the top of memory.
    pub operands: Vec<u16>,
}

/// How many operand words each opcode carries; an unknown opcode carries
/// none and so consumes a single word.
pub open spec fn arity_spec(op: u16) -> int {
    match op {
        0x0000u16 => 0,
        0x0001u16 => 2,
        0x0002u16 => 1,
        0x0003u16 => 1,
        0x0004u16 => 3,
        0x0005u16 => 3,
        0x0006u16 => 1,
        0x0007u16 => 2,
        0x0008u16 => 2,
        0x0009u16 => 3,
        0x000Au16 => 3,
        0x000Bu16 => 3,
        0x000Cu16 => 3,
        0x000Du16 => 3,
        0x000Eu16 => 2,
        0x000Fu16 => 2,
        0x0010u16 => 2,
        0x0011u16 => 1,
        0x0012u16 => 0,
        0x0013u16 => 1,
        0x0014u16 => 1,
        0x0015u16 => 0,
        _ => 0,
    }
}

/// The operand words of the instruction at `addr`: the `n` words after the
/// opcode, cut short at the top of memory.
pub open spec fn operands_spec(mem: Seq<u16>, addr: int, n: int) -> Seq<u16> {
    let avail = 0x8000 - (addr + 1);
    Seq::new(
        (if n <= avail {
            n
        } else {
            avail
        }) as nat,
        |j: int| mem[addr + 1 + j],
    )
}

/// The disassembly of the window `[addr, end]`: one entry
/// `(address, opcode, operands)` per instruction, walking by instruction
/// length.
pub open spec fn disasm_spec(mem: Seq<u16>, addr: int, end: int) -> Seq<(u16, u16, Seq<u16>)>
    decreases 0x8010 - addr,
{
    if addr > end || addr < 0 || end >= 0x8000 {
        Seq::empty()
    } else {
        let op = mem[addr];
        let n = arity_spec(op);
        seq![(addr as u16, op, operands_spec(mem, addr, n))] + disasm_spec(mem, addr + 1 + n, end)
    }
}

/// The tuples a vector of lines stands for.
pub open spec fn lines_seq(ls: Seq<DisasmLine>) -> Seq<(u16, u16, Seq<u16>)> {
    Seq::new(ls.len(), |i: int| (ls[i].addr, ls[i].opcode, ls[i].operands@))
}

/// A well-formed listing for the window `[addr, end]`: the lines sit at
/// consecutive addresses from `addr` on, each carries exactly as many
/// operand words as its opcode's arity, and together they fill the window.
pub open spec fn lines_well_formed(ws: Seq<(u16, u16, Seq<u16>)>, addr: int, end: int) -> bool
    decreases ws.len(),
{
    if ws.len() == 0 {
        addr == end + 1
    } else {
        let w = ws[0];
        &&& w.0 == addr
        &&& w.2.len() == arity_spec(w.1)
        &&& addr + 1 + w.2.len() <= end + 1
        &&& lines_well_formed(ws.drop_first(), addr + 1 + w.2.len(), end)
    }
}

/// Whether memory holds a listing as assembled: at each line's address its
/// opcode word, followed by its operand words.
pub open spec fn mem_holds_lines(mem: Seq<u16>, ws: Seq<(u16, u16, Seq<u16>)>) -> bool
    decreases ws.len(),
{
    if ws.len() == 0 {
        true
    } else {
        let w = ws[0];
        &&& mem[w.0 as int] == w.1
        &&& (forall|j: int| 0 <= j < w.2.len() ==> mem[w.0 + 1 + j] == w.2[j])
        &&& mem_holds_lines(mem, ws.drop_first())
    }
}

/// Disassembly undoes assembly: a well-formed listing, laid down in memory
/// word for word, disassembles back to exactly the same lines.
pub proof fn lemma_disasm_assemble_identity(
    mem: Seq<u16>,
    ws: Seq<(u16, u16, Seq<u16>)>,
    start: int,
    end: int,
)
    requires
        0 <= start,
        end < 0x8000,
        start <= end + 1,
        lines_well_formed(ws, start, end),
        mem_holds_lines(mem, ws),
    ensures
        disasm_spec(mem, start, end) == ws,
    decreases ws.len(),
{
    if ws.len() == 0 {
        assert(disasm_spec(mem, start, end) =~= ws);
    } else {
        let w = ws[0];
        let n = arity_spec(w.1);
        assert(start <= end);
        assert(operands_spec(mem, start, n) =~= w.2);
        lemma_disasm_assemble_identity(mem, ws.drop_first(), start + 1 + n, end);
        assert(disasm_spec(mem, start, end) =~~= ws);
    }
}

/// How many operand words each opcode carries.
pub fn opcode_arity(op: u16) -> (n: usize)
    ensures
        n as int == arity_spec(op),
        n <= 3,
{
    match op {
        0x0000u16 => 0,
        0x0001u16 => 2,
        0x0002u16 => 1,
        0x0003u16 => 1,
        0x0004u16 => 3,
        0x0005u16 => 3,
        0x0006u16 => 1,
        0x0007u16 => 2,
        0x0008u16 => 2,
        0x0009u16 => 3,
        0x000Au16 => 3,
        0x000Bu16 => 3,
        0x000Cu16 => 3,
        0x000Du16 => 3,
        0x000Eu16 => 2,
        0x000Fu16 => 2,
        0x0010u16 => 2,
        0x0011u16 => 1,
        0x0012u16 => 0,
        0x0013u16 => 1,
        0x0014u16 => 1,
        0x0015u16 => 0,
        _ => 0,
    }
}

/// Disassembles the window `[start, end]` of the machine's memory into
/// structured lines, exactly as [`disasm_spec`] walks it.
pub fn disassemble_range(m: &Machine, start: u16, end: u16) -> (r: Vec<DisasmLine>)
    requires
        m.wf(),
        start <= end,
        end < 0x8000,
    ensures
        lines_seq(r@) == disasm_spec(m@.mem, start as int, end as int),
{
    let mut out: Vec<DisasmLine> = Vec::new();
    let mut addr: u16 = start;
    while addr <= end
        invariant
            m.wf(),
            end < 0x8000,
            disasm_spec(m@.mem, start as int, end as int) == lines_seq(out@) + disasm_spec(
                m@.mem,
                addr as int,
                end as int,
            ),
        decreases 0x8010 - addr,
    {
        let ghost pre_lines = lines_seq(out@);
        let op: u16 = swap_endian(m.mem[addr as usize]);
        let n: usize = opcode_arity(op);
        let mut operands: Vec<u16> = Vec::new();
        let mut j: usize = 0;
        while j < n && (addr as usize) + 1 + j < 0x8000
            invariant
                m.wf(),
                addr < 0x8000,
                n <= 3,
                j <= n,
                operands@.len() == j,
                forall|i: int|
                    0 <= i < j ==> operands@[i] == m@.mem[addr as int + 1 + i],
                addr as int + 1 + j <= 0x8000,
            decreases n - j,
        {
            operands.push(swap_endian(m.mem[(addr as usize) + 1 + j]));
            j = j + 1;
        }
        proof {
            assert(operands@ =~= operands_spec(m@.mem, addr as int, arity_spec(op)));
        }
        let line = DisasmLine { addr, opcode: op, operands };
        out.push(line);
        proof {
            assert(lines_seq(out@) =~= pre_lines + seq![
                (addr, op, operands_spec(m@.mem, addr as int, arity_spec(op))),
            ]);
            assert(disasm_spec(m@.mem, start as int, end as int) =~~= lines_seq(out@)
                + disasm_spec(m@.mem, addr as int + 1 + arity_spec(op), end as int));
        }
        addr = addr + 1 + (n as u16);
    }
    out
}

} // verus!
