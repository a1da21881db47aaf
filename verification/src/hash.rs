//! A small integer mixing hash, used by render layers to pick a stable
//! pseudo-random overlay sprite per tile.

use vstd::prelude::*;

verus! {

/// The mixing rounds of [`hash`], with every intermediate truncated to
/// 32 bits exactly as the executable wrapping operations do.
pub open spec fn hash_spec(a0: u32) -> u32 {
    let a1 = (a0 ^ 61) ^ (a0 >> 16);
    let a2 = ((a1 + (a1 << 3)) % 0x1_0000_0000) as u32;
    let a3 = a2 ^ (a2 >> 4);
    let a4 = ((a3 * 0x27d4eb2d) % 0x1_0000_0000) as u32;
    a4 ^ (a4 >> 15)
}

/// Multiplicative integer hash: five mixing rounds of xors, shifts and
/// wrapping arithmetic.
pub fn hash(a0: u32) -> (r: u32)
    ensures
        r == hash_spec(a0),
{
    let a1 = (a0 ^ 61) ^ (a0 >> 16);
    let a2 = a1.wrapping_add(a1 << 3);
    let a3 = a2 ^ (a2 >> 4);
    let a4 = a3.wrapping_mul(0x27d4eb2d);
    a4 ^ (a4 >> 15)
}

/// Hashes a 2D coordinate by folding the two components together.
pub fn hash_v2(x: u32, y: u32) -> (r: u32)
    ensures
        r == hash_spec(x ^ (y << 16)),
{
    hash(x ^ (y << 16))
}

} // verus!
