//! The release threshold of the sustain pedal.
//!
//! A controller value is a normalized number carried as the bit pattern of an
//! IEEE 754 single-precision number. The pedal counts as held exactly when
//! that number is greater than one half. The comparison is made on the bits.

use vstd::prelude::*;

verus! {

/// The bit pattern of one half.
pub const HALF: u32 = 0x3f00_0000;

/// The bit pattern of positive infinity, the largest pattern without the
/// sign bit that is no NaN.
pub const INFINITY: u32 = 0x7f80_0000;

/// Whether the sign bit of the pattern is set.
pub open spec fn sign_of(bits: u32) -> bool {
    bits >> 31 == 1
}

/// The biased exponent of the pattern, 0 to 255.
pub open spec fn exponent_of(bits: u32) -> u32 {
    (bits >> 23) & 0xff
}

/// The fraction field of the pattern, 23 bits.
pub open spec fn fraction_of(bits: u32) -> u32 {
    bits & 0x7f_ffff
}

/// Whether the pattern is a NaN, which compares greater than nothing.
pub open spec fn is_nan(bits: u32) -> bool {
    exponent_of(bits) == 255 && fraction_of(bits) != 0
}

/// Whether the number that `bits` encodes is greater than one half.
///
/// One half has the biased exponent 126 and an empty fraction. A number is
/// greater exactly when it is positive, no NaN, and has a larger exponent or
/// the same exponent and any fraction bit set. Positive infinity is greater;
/// one half itself, zero, every negative number and every NaN are not.
pub open spec fn exceeds_half(bits: u32) -> bool {
    &&& !sign_of(bits)
    &&& !is_nan(bits)
    &&& (exponent_of(bits) > 126 || (exponent_of(bits) == 126 && fraction_of(bits) > 0))
}

/// The patterns of the numbers greater than one half are those above the
/// pattern of one half, up to the pattern of positive infinity: among
/// positive numbers a greater number has a greater pattern, and beyond
/// infinity lie only NaNs and the patterns with the sign bit set.
pub proof fn lemma_exceeds_half_is_a_range(bits: u32)
    ensures
        exceeds_half(bits) <==> HALF < bits <= INFINITY,
{
    assert(exceeds_half(bits) <==> HALF < bits <= INFINITY) by (bit_vector);
}

/// Decides whether a controller value holds the pedal down: whether it is
/// strictly greater than one half.
pub fn pedal_held(value: u32) -> (held: bool)
    ensures
        held == exceeds_half(value),
{
    proof {
        lemma_exceeds_half_is_a_range(value);
    }
    HALF < value && value <= INFINITY
}

} // verus!
