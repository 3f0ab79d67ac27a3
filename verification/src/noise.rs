//! Integer hashing behind the noise filter.
use vstd::prelude::*;

verus! {

/// How noise values are distributed.
#[derive(Clone, Copy, Debug)]
pub enum NoiseDistribution {
    /// Every value of the range is equally likely.
    Uniform,
    /// Normally distributed values.
    Gaussian,
}

/// The hash of `(u, v, w)`: a multiplicative mix of the three inputs followed by
/// xor-shift and multiply rounds, all modulo `2^32`.
pub open spec fn hash3_value(u: u32, v: u32, w: u32) -> u32 {
    let x0: u32 = u.wrapping_mul(374761393) ^ v.wrapping_mul(668265263) ^ w.wrapping_mul(2246822519);
    let x1: u32 = x0 ^ (x0 >> 13u32);
    let x2: u32 = x1.wrapping_mul(1274126177);
    x2 ^ (x2 >> 16u32)
}

/// Hashes three 32-bit values into one, with wrapping arithmetic (Thomas Wang style mix).
pub fn hash3(u: u32, v: u32, w: u32) -> (h: u32)
    ensures
        h == hash3_value(u, v, w),
{
    let mut x: u32 = u.wrapping_mul(374761393) ^ v.wrapping_mul(668265263) ^ w.wrapping_mul(2246822519);
    x ^= x >> 13;
    x = x.wrapping_mul(1274126177);
    x ^ (x >> 16)
}

} // verus!
