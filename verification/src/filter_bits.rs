//! Bit arithmetic behind the 256-bit ICMPv6 type filter.

use vstd::prelude::*;

verus! {

/// The word of the filter that holds the message type `t`.
pub open spec fn filter_word(t: i32) -> int {
    t as int / 32
}

/// The bit of its word that holds the message type `t`.
///
/// The type's position in its word is `m = t % 32`; the bit is bit `m % 8`
/// of byte `m / 8`, bytes counted from the most significant one.
pub open spec fn filter_bit(t: i32) -> u32 {
    ((3 - (t as int % 32) / 8) * 8 + (t as int % 32) % 8) as u32
}

/// The filter word `w` once the message type `t` may pass.
pub open spec fn word_with_pass(w: u32, t: i32) -> u32 {
    w & !(1u32 << filter_bit(t))
}

/// Word index and bit position of the message type `t` in the filter.
pub fn filter_position(t: i32) -> (r: (usize, u32))
    requires
        0 <= t < 256,
    ensures
        r.0 as int == filter_word(t),
        r.0 < 8,
        r.1 == filter_bit(t),
        r.1 < 32,
{
    let major: i32 = t >> 5u32;
    let minor: i32 = t & 31i32;
    assert(major == t / 32 && minor == t % 32) by (bit_vector)
        requires
            0 <= t < 256,
            major == t >> 5u32,
            minor == t & 31i32,
    ;
    let bit: u32 = ((3 - minor / 8) * 8 + minor % 8) as u32;
    (major as usize, bit)
}

/// Clears bit `bit` of `w`.
pub fn clear_bit(w: u32, bit: u32) -> (r: u32)
    requires
        bit < 32,
    ensures
        r == w & !(1u32 << bit),
{
    let r: u32 = w & (0xFFFF_FFFFu32 ^ (1u32 << bit));
    assert(w & (0xFFFF_FFFFu32 ^ (1u32 << bit)) == w & !(1u32 << bit)) by (bit_vector)
        requires
            bit < 32,
    ;
    r
}

} // verus!
