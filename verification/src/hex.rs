//! Cube and axial coordinates for the hex grid, and conversions to and from
//! the offset coordinates that the spatial bitset stores.

use vstd::prelude::*;
use crate::math::{abs_val, Vec2};

verus! {

/// A hex-grid position in cube coordinates (`x + y + z == 0` for positions
/// produced by the conversions).
#[derive(Clone, Copy, Debug, PartialEq, Eq, Structural)]
pub struct Cube {
    pub x: i32,
    pub y: i32,
    pub z: i32,
}

/// A hex-grid position in axial coordinates.
#[derive(Clone, Copy, Debug, PartialEq, Eq, Structural)]
pub struct Hex {
    pub q: i32,
    pub r: i32,
}

impl Default for Cube {
    fn default() -> (r: Cube)
        ensures
            r == (Cube { x: 0, y: 0, z: 0 }),
    {
        Cube { x: 0, y: 0, z: 0 }
    }
}

impl Cube {
    pub fn new(x: i32, y: i32, z: i32) -> (r: Cube)
        ensures
            r == (Cube { x, y, z }),
    {
        Cube { x, y, z }
    }

    /// The origin.
    pub fn zero() -> (r: Cube)
        ensures
            r == (Cube { x: 0, y: 0, z: 0 }),
    {
        Cube::default()
    }

    /// Componentwise sum.
    pub fn plus(self, rhs: Cube) -> (r: Cube)
        requires
            i32::MIN <= self.x + rhs.x <= i32::MAX,
            i32::MIN <= self.y + rhs.y <= i32::MAX,
            i32::MIN <= self.z + rhs.z <= i32::MAX,
        ensures
            r.x == self.x + rhs.x,
            r.y == self.y + rhs.y,
            r.z == self.z + rhs.z,
    {
        Cube::new(self.x + rhs.x, self.y + rhs.y, self.z + rhs.z)
    }

    /// Componentwise difference.
    pub fn minus(self, rhs: Cube) -> (r: Cube)
        requires
            i32::MIN <= self.x - rhs.x <= i32::MAX,
            i32::MIN <= self.y - rhs.y <= i32::MAX,
            i32::MIN <= self.z - rhs.z <= i32::MAX,
        ensures
            r.x == self.x - rhs.x,
            r.y == self.y - rhs.y,
            r.z == self.z - rhs.z,
    {
        Cube::new(self.x - rhs.x, self.y - rhs.y, self.z - rhs.z)
    }

    /// Componentwise scaling.
    pub fn scaled(self, k: i32) -> (r: Cube)
        requires
            i32::MIN <= self.x * k <= i32::MAX,
            i32::MIN <= self.y * k <= i32::MAX,
            i32::MIN <= self.z * k <= i32::MAX,
        ensures
            r.x == self.x * k,
            r.y == self.y * k,
            r.z == self.z * k,
    {
        Cube::new(self.x * k, self.y * k, self.z * k)
    }

    /// The axial view of this position.
    pub fn to_hex(self) -> (r: Hex)
        ensures
            r.q == self.x,
            r.r == self.z,
    {
        Hex { q: self.x, r: self.z }
    }
}

impl Hex {
    /// The cube view of this position.
    pub fn to_cube(self) -> (r: Cube)
        requires
            i32::MIN < self.q,
            i32::MIN <= -self.q - self.r <= i32::MAX,
        ensures
            r.x == self.q,
            r.y == -self.q - self.r,
            r.z == self.r,
    {
        Cube { x: self.q, y: -self.q - self.r, z: self.r }
    }
}

/// The six unit directions of the cube grid.
pub fn cube_directions() -> (r: [Cube; 6])
    ensures
        r@ == seq![
            Cube { x: 1, y: -1i32, z: 0 },
            Cube { x: 1, y: 0, z: -1i32 },
            Cube { x: 0, y: 1, z: -1i32 },
            Cube { x: -1i32, y: 1, z: 0 },
            Cube { x: -1i32, y: 0, z: 1 },
            Cube { x: 0, y: -1i32, z: 1 },
        ],
{
    let r = [
        Cube { x: 1, y: -1, z: 0 },
        Cube { x: 1, y: 0, z: -1 },
        Cube { x: 0, y: 1, z: -1 },
        Cube { x: -1, y: 1, z: 0 },
        Cube { x: -1, y: 0, z: 1 },
        Cube { x: 0, y: -1, z: 1 },
    ];
    proof {
        assert(r@ =~= seq![
            Cube { x: 1, y: -1i32, z: 0 },
            Cube { x: 1, y: 0, z: -1i32 },
            Cube { x: 0, y: 1, z: -1i32 },
            Cube { x: -1i32, y: 1, z: 0 },
            Cube { x: -1i32, y: 0, z: 1 },
            Cube { x: 0, y: -1i32, z: 1 },
        ]);
    }
    r
}

/// The distance measure the line drawer steps along: the `z` component
/// counts half.
pub open spec fn cube_distance_spec(a: Cube, b: Cube) -> int {
    abs_val(a.x - b.x) + abs_val(a.y - b.y) + abs_val(a.z - b.z) / 2
}

/// The distance measure between two cube positions.
pub fn cube_distance(a: &Cube, b: &Cube) -> (r: i32)
    requires
        i32::MIN < a.x - b.x <= i32::MAX,
        i32::MIN < a.y - b.y <= i32::MAX,
        i32::MIN < a.z - b.z <= i32::MAX,
        cube_distance_spec(*a, *b) <= i32::MAX,
    ensures
        r == cube_distance_spec(*a, *b),
{
    let dx: i32 = if a.x < b.x {
        b.x - a.x
    } else {
        a.x - b.x
    };
    let dy: i32 = if a.y < b.y {
        b.y - a.y
    } else {
        a.y - b.y
    };
    let dz: i32 = if a.z < b.z {
        b.z - a.z
    } else {
        a.z - b.z
    };
    dx + dy + dz / 2
}

/// The parity of a row of the offset layout: `0` for even rows, `1` for
/// odd ones.
pub open spec fn row_parity(y: int) -> int {
    abs_val(y) % 2
}

/// The cube position of an offset coordinate.
pub open spec fn offset_to_cube_spec(v: Vec2) -> Cube {
    let x = v.x - (v.y - row_parity(v.y as int)) / 2;
    Cube { x: x as i32, y: (-x - v.y) as i32, z: v.y }
}

/// The offset coordinate of a cube position.
pub open spec fn cube_to_offset_spec(c: Cube) -> Vec2 {
    let x = c.x + (c.z - row_parity(c.z as int)) / 2;
    Vec2 { x: x as i32, y: c.z }
}

impl Cube {
    /// Convert an offset coordinate (as the spatial bitset stores them) to
    /// cube coordinates.
    pub fn from_offset(v: Vec2) -> (r: Cube)
        requires
            -0x2000_0000 < v.x < 0x2000_0000,
            -0x2000_0000 < v.y < 0x2000_0000,
        ensures
            r == offset_to_cube_spec(v),
            r.x + r.y + r.z == 0,
    {
        let p: i32 = if v.y < 0 {
            (-v.y) % 2
        } else {
            v.y % 2
        };
        let x = v.x - (v.y - p) / 2;
        Cube { x, y: -x - v.y, z: v.y }
    }

    /// Convert back to the offset coordinate of this cube position.
    pub fn to_offset(self) -> (r: Vec2)
        requires
            -0x2000_0000 < self.x < 0x2000_0000,
            -0x2000_0000 < self.z < 0x2000_0000,
        ensures
            r == cube_to_offset_spec(self),
    {
        let p: i32 = if self.z < 0 {
            (-self.z) % 2
        } else {
            self.z % 2
        };
        let x = self.x + (self.z - p) / 2;
        Vec2 { x, y: self.z }
    }
}

/// Offset-to-cube conversion is undone by cube-to-offset conversion.
pub proof fn lemma_offset_cube_roundtrip(v: Vec2)
    requires
        -0x2000_0000 < v.x < 0x2000_0000,
        -0x2000_0000 < v.y < 0x2000_0000,
    ensures
        cube_to_offset_spec(offset_to_cube_spec(v)) == v,
{
}

} // verus!
