//! IEEE-754 bit patterns and the exact comparisons the show logic needs.
//!
//! Seconds are binary64 bit patterns (`u64`), gains are binary32 bit patterns
//! (`u32`). Comparisons against zero and one are exact on the patterns.

use vstd::prelude::*;

verus! {

/// Bit pattern of +1.0 in binary32.
pub const UNIT_GAIN: u32 = 0x3F80_0000;

/// Bit pattern of +0.0 in binary32.
pub const ZERO_GAIN: u32 = 0;

/// Bit pattern of -0.0 in binary32.
pub const NEGATIVE_ZERO_GAIN: u32 = 0x8000_0000;

/// Bit pattern of +infinity in binary32.
pub const POSITIVE_INFINITY_GAIN: u32 = 0x7F80_0000;

/// Bit pattern of -infinity in binary32.
pub const NEGATIVE_INFINITY_GAIN: u32 = 0xFF80_0000;

/// Bit pattern of +0.0 in binary64.
pub const ZERO_SECONDS: u64 = 0;

/// Bit pattern of -0.0 in binary64.
pub const NEGATIVE_ZERO_SECONDS: u64 = 0x8000_0000_0000_0000;

/// Bit pattern of +infinity in binary64.
pub const POSITIVE_INFINITY_SECONDS: u64 = 0x7FF0_0000_0000_0000;

/// Bit pattern of -infinity in binary64.
pub const NEGATIVE_INFINITY_SECONDS: u64 = 0xFFF0_0000_0000_0000;

/// `x < 0.0` for the binary64 value `x` with pattern `b`: the sign bit is set,
/// the value is not -0.0, and it is not a NaN (patterns above -infinity).
pub open spec fn seconds_is_negative(b: u64) -> bool {
    NEGATIVE_ZERO_SECONDS < b && b <= NEGATIVE_INFINITY_SECONDS
}

/// `x > 0.0` for the binary64 value `x` with pattern `b`: the sign bit is
/// clear, the value is not +0.0, and it is not a NaN.
pub open spec fn seconds_is_positive(b: u64) -> bool {
    ZERO_SECONDS < b && b <= POSITIVE_INFINITY_SECONDS
}

/// `x < 0.0` for the binary32 value `x` with pattern `b`.
pub open spec fn gain_is_negative(b: u32) -> bool {
    NEGATIVE_ZERO_GAIN < b && b <= NEGATIVE_INFINITY_GAIN
}

/// `x > 1.0` for the binary32 value `x` with pattern `b`.
pub open spec fn gain_is_above_unit(b: u32) -> bool {
    UNIT_GAIN < b && b <= POSITIVE_INFINITY_GAIN
}

/// `0.0 <= x && x <= 1.0` for the binary32 value `x` with pattern `b`
/// (both zeros are in range, NaNs are not).
pub open spec fn gain_in_unit_range(b: u32) -> bool {
    b <= UNIT_GAIN || b == NEGATIVE_ZERO_GAIN
}

/// The pattern of `x.clamp(0.0, 1.0)`: negative values become +0.0, values
/// above one become +1.0, everything else (both zeros, values in range and
/// NaNs) is returned unchanged.
pub open spec fn clamp_gain_spec(b: u32) -> u32 {
    if gain_is_negative(b) {
        ZERO_GAIN
    } else if gain_is_above_unit(b) {
        UNIT_GAIN
    } else {
        b
    }
}

/// `seconds < 0.0` on a binary64 pattern.
pub fn seconds_negative(b: u64) -> (r: bool)
    ensures
        r == seconds_is_negative(b),
{
    NEGATIVE_ZERO_SECONDS < b && b <= NEGATIVE_INFINITY_SECONDS
}

/// `seconds > 0.0` on a binary64 pattern.
pub fn seconds_positive(b: u64) -> (r: bool)
    ensures
        r == seconds_is_positive(b),
{
    ZERO_SECONDS < b && b <= POSITIVE_INFINITY_SECONDS
}

/// `(0.0..=1.0).contains(&gain)` on a binary32 pattern.
pub fn gain_in_range(b: u32) -> (r: bool)
    ensures
        r == gain_in_unit_range(b),
{
    b <= UNIT_GAIN || b == NEGATIVE_ZERO_GAIN
}

/// `gain.clamp(0.0, 1.0)` on a binary32 pattern.
pub fn clamp_gain(b: u32) -> (r: u32)
    ensures
        r == clamp_gain_spec(b),
{
    if NEGATIVE_ZERO_GAIN < b && b <= NEGATIVE_INFINITY_GAIN {
        ZERO_GAIN
    } else if UNIT_GAIN < b && b <= POSITIVE_INFINITY_GAIN {
        UNIT_GAIN
    } else {
        b
    }
}

/// Clamping to `0.0..=1.0`: a gain in range stays as it is, a negative one
/// becomes +0.0 and one above one becomes +1.0; what comes out is in range
/// unless a NaN went in.
pub proof fn lemma_clamp_gain_range(b: u32)
    ensures
        gain_in_unit_range(b) ==> clamp_gain_spec(b) == b,
        gain_is_negative(b) ==> clamp_gain_spec(b) == ZERO_GAIN,
        gain_is_above_unit(b) ==> clamp_gain_spec(b) == UNIT_GAIN,
        (gain_in_unit_range(b) || gain_is_negative(b) || gain_is_above_unit(b))
            ==> gain_in_unit_range(clamp_gain_spec(b)),
{
}

/// Clamping is idempotent.
pub proof fn lemma_clamp_gain_idempotent(b: u32)
    ensures
        clamp_gain_spec(clamp_gain_spec(b)) == clamp_gain_spec(b),
{
}

} // verus!
