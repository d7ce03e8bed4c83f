//! Rendering of the memory dump a fatal fault emits: one line per eight
//! stored words — the cell index, the words in uppercase hexadecimal, and a
//! printable-ASCII gutter with a dot for every byte outside `0x20..0x7E`.
//! The renderer returns bytes; writing them to a terminal is the front
//! end's business.

use vstd::prelude::*;

use crate::machine::Machine;

verus! {

/// The ASCII code of one uppercase hexadecimal digit.
pub open spec fn hex_digit_spec(n: int) -> u8 {
    if n < 10 {
        (0x30 + n) as u8
    } else {
        (0x37 + n) as u8
    }
}

/// A word as four uppercase hexadecimal digits, most significant first.
pub open spec fn hex4(w: u16) -> Seq<u8> {
    seq![
        hex_digit_spec(w as int / 4096),
        hex_digit_spec((w as int / 256) % 16),
        hex_digit_spec((w as int / 16) % 16),
        hex_digit_spec(w as int % 16),
    ]
}

/// A byte as the gutter shows it: itself when printable ASCII, a dot
/// otherwise.
pub open spec fn gutter_byte(b: int) -> u8 {
    if 0x20 <= b <= 0x7E {
        b as u8
    } else {
        0x2E
    }
}

/// The first `k` of a line's eight word fields: a space and four hex
/// digits each.
pub open spec fn words_part(mem: Seq<u16>, x: int, k: int) -> Seq<u8>
    decreases k,
{
    if k <= 0 {
        Seq::empty()
    } else {
        words_part(mem, x, k - 1) + seq![0x20u8] + hex4(mem[x + (k - 1)])
    }
}

/// The first `k` of a line's eight gutter pairs: the high byte of each
/// stored word, then its low byte.
pub open spec fn gutter_part(mem: Seq<u16>, x: int, k: int) -> Seq<u8>
    decreases k,
{
    if k <= 0 {
        Seq::empty()
    } else {
        gutter_part(mem, x, k - 1) + seq![
            gutter_byte(mem[x + (k - 1)] as int / 256),
            gutter_byte(mem[x + (k - 1)] as int % 256),
        ]
    }
}

/// One dump line for the eight stored words at cell index `x`: the index as
/// `0000:XXXX`, the word fields, a space, the gutter, and a newline.
pub open spec fn dump_line_spec(mem: Seq<u16>, x: int) -> Seq<u8> {
    seq![0x30u8, 0x30u8, 0x30u8, 0x30u8, 0x3Au8] + hex4(x as u16) + words_part(mem, x, 8) + seq![
        0x20u8,
    ] + gutter_part(mem, x, 8) + seq![0x0Au8]
}

/// The first `n` dump lines, in order.
pub open spec fn dump_lines_spec(mem: Seq<u16>, n: int) -> Seq<u8>
    decreases n,
{
    if n <= 0 {
        Seq::empty()
    } else {
        dump_lines_spec(mem, n - 1) + dump_line_spec(mem, 8 * (n - 1))
    }
}

/// The ASCII code of one uppercase hexadecimal digit.
fn hex_digit(n: u16) -> (c: u8)
    requires
        n < 16,
    ensures
        c == hex_digit_spec(n as int),
{
    if n < 10 {
        0x30 + (n as u8)
    } else {
        0x37 + (n as u8)
    }
}

/// Appends a word as four uppercase hexadecimal digits.
fn push_hex4(out: &mut Vec<u8>, w: u16)
    ensures
        final(out)@ == old(out)@ + hex4(w),
{
    let d0 = hex_digit(w / 4096);
    let d1 = hex_digit((w / 256) % 16);
    let d2 = hex_digit((w / 16) % 16);
    let d3 = hex_digit(w % 16);
    out.push(d0);
    out.push(d1);
    out.push(d2);
    out.push(d3);
    proof {
        assert(out@ =~= old(out)@ + hex4(w));
    }
}

/// Appends the two gutter characters of one stored word, high byte first.
fn push_gutter(out: &mut Vec<u8>, w: u16)
    ensures
        final(out)@ == old(out)@ + seq![gutter_byte(w as int / 256), gutter_byte(w as int % 256)],
{
    let hi: u8 = (w / 256) as u8;
    let lo: u8 = (w % 256) as u8;
    if 0x20 <= hi && hi <= 0x7E {
        out.push(hi);
    } else {
        out.push(0x2E);
    }
    if 0x20 <= lo && lo <= 0x7E {
        out.push(lo);
    } else {
        out.push(0x2E);
    }
    proof {
        assert(out@ =~= old(out)@ + seq![
            gutter_byte(w as int / 256),
            gutter_byte(w as int % 256),
        ]);
    }
}

impl Machine {
    /// Renders the memory dump a fatal fault emits: `0x1000` lines of eight
    /// stored words each, hexadecimal with a printable-ASCII gutter, exactly
    /// as [`dump_lines_spec`] lays them out over the raw storage.
    pub fn dump(&self) -> (r: Vec<u8>)
        requires
            self.wf(),
        ensures
            r@ == dump_lines_spec(self.mem@, 0x1000),
    {
        let mut out: Vec<u8> = Vec::new();
        let mut line: usize = 0;
        while line < 0x1000
            invariant
                self.wf(),
                line <= 0x1000,
                out@ == dump_lines_spec(self.mem@, line as int),
            decreases 0x1000 - line,
        {
            let x: usize = 8 * line;
            let ghost pre = out@;
            out.push(0x30);
            out.push(0x30);
            out.push(0x30);
            out.push(0x30);
            out.push(0x3A);
            push_hex4(&mut out, x as u16);
            proof {
                assert(out@ =~= pre + seq![0x30u8, 0x30u8, 0x30u8, 0x30u8, 0x3Au8] + hex4(
                    x as u16,
                ));
            }
            let ghost after_head = out@;
            let mut k: usize = 0;
            while k < 8
                invariant
                    self.wf(),
                    k <= 8,
                    x == 8 * line,
                    line < 0x1000,
                    out@ == after_head + words_part(self.mem@, x as int, k as int),
                decreases 8 - k,
            {
                let ghost before = out@;
                out.push(0x20);
                push_hex4(&mut out, self.mem[x + k]);
                proof {
                    assert(out@ =~= before + seq![0x20u8] + hex4(self.mem@[x + k]));
                    assert(out@ =~= after_head + words_part(self.mem@, x as int, k as int + 1));
                }
                k = k + 1;
            }
            out.push(0x20);
            let ghost after_words = out@;
            let mut g: usize = 0;
            while g < 8
                invariant
                    self.wf(),
                    g <= 8,
                    x == 8 * line,
                    line < 0x1000,
                    out@ == after_words + gutter_part(self.mem@, x as int, g as int),
                decreases 8 - g,
            {
                let ghost before = out@;
                push_gutter(&mut out, self.mem[x + g]);
                proof {
                    assert(out@ =~= after_words + gutter_part(self.mem@, x as int, g as int + 1));
                }
                g = g + 1;
            }
            out.push(0x0A);
            proof {
                assert(out@ =~= pre + dump_line_spec(self.mem@, x as int));
                assert(out@ =~= dump_lines_spec(self.mem@, line as int + 1));
            }
            line = line + 1;
        }
        out
    }
}

} // verus!
