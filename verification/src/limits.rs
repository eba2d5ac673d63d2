//! The magnitudes from which every float is an even integer.
use vstd::arithmetic::power2::{lemma2_to64, lemma2_to64_rest, pow2};
use vstd::prelude::*;

verus! {

/// Significand bits of `f64`, the implicit leading bit included.
pub const F64_MANTISSA_DIGITS: u32 = 53;

/// Significand bits of `f32`, the implicit leading bit included.
pub const F32_MANTISSA_DIGITS: u32 = 24;

/// `2^53`: every `f64` of at least this magnitude is an even integer.
pub const MAXINTFLOAT64: u64 = 1u64 << F64_MANTISSA_DIGITS;

/// `2^24`: every `f32` of at least this magnitude is an even integer.
pub const MAXINTFLOAT32: u64 = 1u64 << F32_MANTISSA_DIGITS;

/// Each threshold is two to the number of significand bits of its type.
pub proof fn lemma_maxintfloat_is_pow2()
    ensures
        MAXINTFLOAT64 == pow2(F64_MANTISSA_DIGITS as nat),
        MAXINTFLOAT32 == pow2(F32_MANTISSA_DIGITS as nat),
        MAXINTFLOAT64 == 9007199254740992,
        MAXINTFLOAT32 == 16777216,
{
    lemma2_to64();
    lemma2_to64_rest();
    assert(1u64 << 53u32 == 0x20000000000000u64) by (bit_vector);
    assert(1u64 << 24u32 == 0x1000000u64) by (bit_vector);
}

} // verus!
