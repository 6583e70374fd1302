//! The Morton (Z-order) codec: interleaves the bits of two 16-bit magnitudes
//! into one 32-bit index, and extracts them back.  The spatial bitset uses it
//! to place a coordinate's magnitudes into a linear bit range, one range per
//! quadrant of the plane.

use vstd::prelude::*;
use crate::math::Vec2;

verus! {

/// Spread the low 16 bits of `x` over the even bit positions of the result.
pub open spec fn spread_bits(x: u32) -> u32 {
    let a = (x | (x << 8)) & 0x00FF00FFu32;
    let b = (a | (a << 4)) & 0x0F0F0F0Fu32;
    let c = (b | (b << 2)) & 0x33333333u32;
    (c | (c << 1)) & 0x55555555u32
}

/// The Morton index of the pair `(x, y)`: bits of `x` at even positions,
/// bits of `y` at odd positions.
pub open spec fn zorder_spec(x: u32, y: u32) -> u32 {
    spread_bits(x) | (spread_bits(y) << 1)
}

/// Gather the even bit positions of `z` into the low 16 bits of the result.
pub open spec fn even_bits(z: u32) -> u32 {
    let a = z & 0x55555555u32;
    let b = (a | (a >> 1)) & 0x33333333u32;
    let c = (b | (b >> 2)) & 0x0F0F0F0Fu32;
    let d = (c | (c >> 4)) & 0x00FF00FFu32;
    (d | (d >> 8)) & 0x0000FFFFu32
}

/// Gather the odd bit positions of `z` into the low 16 bits of the result.
pub open spec fn odd_bits(z: u32) -> u32 {
    even_bits(z >> 1)
}

/// Each bit of the Morton index comes from the corresponding bit of one of
/// the two inputs: even positions from `x`, odd positions from `y`.
pub proof fn lemma_zorder_spec_bits(x: u32, y: u32, i: u32)
    by (bit_vector)
    requires
        x < 65536,
        y < 65536,
        i < 16,
    ensures
        crate::bits::word_bit(zorder_spec(x, y), (2 * i) as u32) == crate::bits::word_bit(x, i),
        crate::bits::word_bit(zorder_spec(x, y), (2 * i + 1) as u32) == crate::bits::word_bit(y, i),
{
}

/// Decoding a Morton index recovers the pair that was encoded.
pub proof fn lemma_zorder_roundtrip(x: u32, y: u32)
    by (bit_vector)
    requires
        x < 65536,
        y < 65536,
    ensures
        even_bits(zorder_spec(x, y)) == x,
        odd_bits(zorder_spec(x, y)) == y,
{
}

/// Every 32-bit value is the Morton index of its even/odd bit subsequences,
/// and those subsequences fit in 16 bits.
pub proof fn lemma_zorder_complete(z: u32)
    by (bit_vector)
    ensures
        zorder_spec(even_bits(z), odd_bits(z)) == z,
        even_bits(z) < 65536,
        odd_bits(z) < 65536,
{
}

/// Interleave the bits of `x` (even positions) and `y` (odd positions) into
/// a single Morton index.
pub fn zorder(x: u32, y: u32) -> (z: u32)
    requires
        x < 65536,
        y < 65536,
    ensures
        z == zorder_spec(x, y),
{
    let mut x = x;
    let mut y = y;

    x = (x | (x << 8)) & 0x00FF00FF;
    x = (x | (x << 4)) & 0x0F0F0F0F;
    x = (x | (x << 2)) & 0x33333333;
    x = (x | (x << 1)) & 0x55555555;

    y = (y | (y << 8)) & 0x00FF00FF;
    y = (y | (y << 4)) & 0x0F0F0F0F;
    y = (y | (y << 2)) & 0x33333333;
    y = (y | (y << 1)) & 0x55555555;

    x | (y << 1)
}

/// Extract the even and odd bit subsequences of `z` as a coordinate with
/// non-negative components.
pub fn zorder_inverse(z: u32) -> (v: Vec2)
    ensures
        v.x == even_bits(z) as int,
        v.y == odd_bits(z) as int,
        0 <= v.x < 65536,
        0 <= v.y < 65536,
{
    proof {
        lemma_zorder_complete(z);
    }
    let mut x = z & 0x55555555;
    x = (x | (x >> 1)) & 0x33333333;
    x = (x | (x >> 2)) & 0x0F0F0F0F;
    x = (x | (x >> 4)) & 0x00FF00FF;
    x = (x | (x >> 8)) & 0x0000FFFF;

    let mut y = (z >> 1) & 0x55555555;
    y = (y | (y >> 1)) & 0x33333333;
    y = (y | (y >> 2)) & 0x0F0F0F0F;
    y = (y | (y >> 4)) & 0x00FF00FF;
    y = (y | (y >> 8)) & 0x0000FFFF;

    Vec2::new(x as i32, y as i32)
}

/// The coordinates the Morton codec can represent: both magnitudes fit in
/// 16 bits.
pub open spec fn in_domain(v: Vec2) -> bool {
    -65536 < v.x < 65536 && -65536 < v.y < 65536
}

/// The magnitude of a small integer, as a 32-bit word.
pub open spec fn abs_mag(i: int) -> u32 {
    (if i < 0 {
        -i
    } else {
        i
    }) as u32
}

/// The quadrant of a coordinate: the sign of `x` and of `y`, each as one
/// bit.  `0` and positive values count as non-negative.
pub open spec fn quad_of(v: Vec2) -> int {
    2 * (if v.y < 0 {
        1int
    } else {
        0int
    }) + (if v.x < 0 {
        1int
    } else {
        0int
    })
}

/// The Morton index of a coordinate's magnitudes.
pub open spec fn zidx(v: Vec2) -> int {
    zorder_spec(abs_mag(v.x as int), abs_mag(v.y as int)) as int
}

/// The coordinate stored in quadrant `q` at Morton index `z`.
pub open spec fn recon(q: int, z: u32) -> Vec2 {
    Vec2 {
        x: (if q == 1 || q == 3 {
            -(even_bits(z) as int)
        } else {
            even_bits(z) as int
        }) as i32,
        y: (if q == 2 || q == 3 {
            -(odd_bits(z) as int)
        } else {
            odd_bits(z) as int
        }) as i32,
    }
}

/// Whether a slot `(q, z)` corresponds to an actual coordinate: a quadrant
/// with a negative axis needs a non-zero magnitude on that axis.
pub open spec fn valid_slot(q: int, z: u32) -> bool {
    &&& 0 <= q < 4
    &&& (q == 1 || q == 3 ==> even_bits(z) > 0)
    &&& (q == 2 || q == 3 ==> odd_bits(z) > 0)
}

/// A coordinate occupies the slot named by its quadrant and Morton index,
/// and can be recovered from it.
pub proof fn lemma_slot_of_coord(v: Vec2)
    requires
        in_domain(v),
    ensures
        valid_slot(quad_of(v), zidx(v) as u32),
        recon(quad_of(v), zidx(v) as u32) == v,
        0 <= zidx(v) < 0x1_0000_0000,
{
    lemma_zorder_roundtrip(abs_mag(v.x as int), abs_mag(v.y as int));
}

/// Every valid slot holds a representable coordinate that maps back to the
/// same slot; so distinct slots hold distinct coordinates.
pub proof fn lemma_coord_of_slot(q: int, z: u32)
    requires
        valid_slot(q, z),
    ensures
        in_domain(recon(q, z)),
        quad_of(recon(q, z)) == q,
        zidx(recon(q, z)) == z,
{
    lemma_zorder_complete(z);
}

/// The quadrant index of a coordinate.
pub fn quadrant_index(v: &Vec2) -> (q: usize)
    ensures
        q == quad_of(*v),
{
    let xneg: usize = if v.x < 0 {
        1
    } else {
        0
    };
    let yneg: usize = if v.y < 0 {
        1
    } else {
        0
    };
    yneg * 2 + xneg
}

/// The Morton index of a coordinate's magnitudes, as a bit-array index.
pub fn zorder_abs(v: &Vec2) -> (z: usize)
    requires
        in_domain(*v),
    ensures
        z == zidx(*v),
{
    let ax: u32 = if v.x < 0 {
        (-v.x) as u32
    } else {
        v.x as u32
    };
    let ay: u32 = if v.y < 0 {
        (-v.y) as u32
    } else {
        v.y as u32
    };
    zorder(ax, ay) as usize
}

} // verus!
