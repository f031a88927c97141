//! IEEE 754 single precision values carried as their raw bit patterns.
//!
//! The file formats store `f32` values, and the library moves them around
//! as the `u32` bit patterns that `f32::to_bits` produces.  Equality of two
//! such values follows the IEEE 754 comparison that `f32 == f32` performs:
//! NaN equals nothing (not even itself) and positive zero equals negative zero.
use vstd::prelude::*;

verus! {

/// The bit pattern of `1.0f32`.
pub const F32_ONE_BITS: u32 = 0x3f80_0000u32;

/// The bit pattern is a NaN: all exponent bits set and a nonzero mantissa.
pub open spec fn f32_bits_is_nan(b: u32) -> bool {
    (b & 0x7f80_0000u32) == 0x7f80_0000u32 && (b & 0x007f_ffffu32) != 0
}

/// The bit pattern is positive or negative zero.
pub open spec fn f32_bits_is_zero(b: u32) -> bool {
    (b & 0x7fff_ffffu32) == 0
}

/// `a == b` for the two `f32` values with bit patterns `a` and `b`.
pub open spec fn f32_bits_eq(a: u32, b: u32) -> bool {
    &&& !f32_bits_is_nan(a)
    &&& !f32_bits_is_nan(b)
    &&& (a == b || (f32_bits_is_zero(a) && f32_bits_is_zero(b)))
}

/// Compares two `f32` values given by their bit patterns, as `f32 == f32` does.
pub fn f32_bits_equal(a: u32, b: u32) -> (r: bool)
    ensures
        r == f32_bits_eq(a, b),
{
    let a_nan = (a & 0x7f80_0000u32) == 0x7f80_0000u32 && (a & 0x007f_ffffu32) != 0;
    let b_nan = (b & 0x7f80_0000u32) == 0x7f80_0000u32 && (b & 0x007f_ffffu32) != 0;
    !a_nan && !b_nan && (a == b || ((a & 0x7fff_ffffu32) == 0 && (b & 0x7fff_ffffu32) == 0))
}

/// Componentwise `f32` equality of two vectors of equal length.
pub open spec fn f32_vectors_eq(a: Seq<u32>, b: Seq<u32>) -> bool {
    &&& a.len() == b.len()
    &&& forall|k: int| 0 <= k < a.len() ==> f32_bits_eq(#[trigger] a[k], b[k])
}

/// Compares two vectors of `f32` bit patterns the way `[f32; N] == [f32; N]` does.
pub fn f32_vectors_equal(a: &[u32], b: &[u32]) -> (r: bool)
    ensures
        r == f32_vectors_eq(a@, b@),
{
    if a.len() != b.len() {
        return false;
    }
    let mut k: usize = 0;
    while k < a.len()
        invariant
            a@.len() == b@.len(),
            k <= a@.len(),
            forall|m: int| 0 <= m < k ==> f32_bits_eq(#[trigger] a@[m], b@[m]),
        decreases a@.len() - k,
    {
        if !f32_bits_equal(a[k], b[k]) {
            return false;
        }
        k = k + 1;
    }
    true
}

} // verus!
