//! Bit utilities over 16-bit words: single-bit manipulation of the status
//! word and the endian swap that mediates every access to stored words.

use vstd::prelude::*;

verus! {

/// What a word looks like with a single bit set.
pub open spec fn spec_set_bit(data: u16, bit_position: u16) -> u16 {
    data | (1u16 << bit_position)
}

/// What a word looks like with a single bit cleared.
pub open spec fn spec_clear_bit(data: u16, bit_position: u16) -> u16 {
    data & (0xFFFFu16 ^ (1u16 << bit_position))
}

/// Whether a single bit of a word is set.
pub open spec fn spec_get_bit(data: u16, bit_position: u16) -> bool {
    (data & (1u16 << bit_position)) > 0
}

/// A word with its two bytes exchanged.
pub open spec fn spec_swap(w: u16) -> u16 {
    ((w & 0x00FF) << 8) | (w >> 8)
}

/// Sets bit `bit_position` of `data`.
pub fn set_bit(data: &mut u16, bit_position: u16)
    requires
        bit_position < 16,
    ensures
        *final(data) == spec_set_bit(*old(data), bit_position),
{
    *data |= 1u16 << bit_position;
}

/// Clears bit `bit_position` of `data`.
pub fn clear_bit(data: &mut u16, bit_position: u16)
    requires
        bit_position < 16,
    ensures
        *final(data) == spec_clear_bit(*old(data), bit_position),
{
    *data &= 0xFFFFu16 ^ (1u16 << bit_position);
}

/// Returns `true` exactly when bit `bit_position` of `data` is set.
pub fn get_bit(data: &u16, bit_position: u16) -> (r: bool)
    requires
        bit_position < 16,
    ensures
        r == spec_get_bit(*data, bit_position),
{
    if (*data & (1u16 << bit_position)) > 0 {
        true
    } else {
        false
    }
}

/// Exchanges the two bytes of a 16-bit word: `0x00FE` becomes `0xFE00` and
/// `0xFE00` becomes `0x00FE`. Applying it twice gives the word back.
pub fn swap_endian(ushort: u16) -> (r: u16)
    ensures
        r == spec_swap(ushort),
        spec_swap(r) == ushort,
{
    assert(((ushort << 8) | (ushort >> 8)) == spec_swap(ushort)) by (bit_vector);
    assert(spec_swap((ushort << 8) | (ushort >> 8)) == ushort) by (bit_vector);
    (ushort << 8) | (ushort >> 8)
}

} // verus!
