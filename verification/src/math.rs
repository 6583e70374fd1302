//! Small integer vector types used to address cells and pixels.

use vstd::prelude::*;

verus! {

/// Absolute value of a machine integer, as a mathematical integer.
pub open spec fn abs_val(x: int) -> int {
    if x < 0 {
        -x
    } else {
        x
    }
}

/// A signed 2D integer coordinate; the unit of identity in the spatial bitset.
#[derive(Clone, Copy, Debug, PartialEq, Eq, Structural, Hash)]
pub struct Vec2 {
    pub x: i32,
    pub y: i32,
}

impl Vec2 {
    pub fn new(x: i32, y: i32) -> (r: Vec2)
        ensures
            r == (Vec2 { x, y }),
    {
        Vec2 { x, y }
    }

    /// The L1 norm `|x| + |y|`.
    pub fn manhattan(&self) -> (r: i32)
        requires
            self.x > i32::MIN,
            self.y > i32::MIN,
            abs_val(self.x as int) + abs_val(self.y as int) <= i32::MAX,
        ensures
            r == abs_val(self.x as int) + abs_val(self.y as int),
    {
        let ax: i32 = if self.x < 0 { -self.x } else { self.x };
        let ay: i32 = if self.y < 0 { -self.y } else { self.y };
        ax + ay
    }

    /// Rotation by a quarter turn clockwise.
    pub fn rotate_right90(&self) -> (r: Vec2)
        requires
            self.x > i32::MIN,
        ensures
            r.x == self.y,
            r.y == -(self.x as int),
    {
        Vec2::new(self.y, -self.x)
    }

    /// Rotation by a quarter turn counter-clockwise.
    pub fn rotate_left90(&self) -> (r: Vec2)
        requires
            self.y > i32::MIN,
        ensures
            r.x == -(self.y as int),
            r.y == self.x,
    {
        Vec2::new(-self.y, self.x)
    }

    /// Componentwise sum.
    pub fn plus(self, rhs: Vec2) -> (r: Vec2)
        requires
            i32::MIN <= self.x + rhs.x <= i32::MAX,
            i32::MIN <= self.y + rhs.y <= i32::MAX,
        ensures
            r.x == self.x + rhs.x,
            r.y == self.y + rhs.y,
    {
        Vec2::new(self.x + rhs.x, self.y + rhs.y)
    }

    /// Componentwise scaling.
    pub fn scaled(self, k: i32) -> (r: Vec2)
        requires
            i32::MIN <= self.x * k <= i32::MAX,
            i32::MIN <= self.y * k <= i32::MAX,
        ensures
            r.x == self.x * k,
            r.y == self.y * k,
    {
        Vec2::new(self.x * k, self.y * k)
    }

    /// The unit vector of a compass direction.
    pub fn from_direction(c: char) -> (r: Vec2)
        requires
            c == 'N' || c == 'S' || c == 'E' || c == 'W',
        ensures
            c == 'N' ==> r == (Vec2 { x: 0, y: 1 }),
            c == 'S' ==> r == (Vec2 { x: 0, y: -1i32 }),
            c == 'E' ==> r == (Vec2 { x: 1, y: 0 }),
            c == 'W' ==> r == (Vec2 { x: -1i32, y: 0 }),
    {
        match c {
            'N' => Vec2::new(0, 1),
            'S' => Vec2::new(0, -1),
            'E' => Vec2::new(1, 0),
            _ => Vec2::new(-1, 0),
        }
    }
}

/// A signed 3D integer coordinate.
#[derive(Clone, Copy, Debug, PartialEq, Eq, Structural, Hash)]
pub struct Vec3 {
    pub x: i32,
    pub y: i32,
    pub z: i32,
}

impl Vec3 {
    pub fn new(x: i32, y: i32, z: i32) -> (r: Vec3)
        ensures
            r == (Vec3 { x, y, z }),
    {
        Vec3 { x, y, z }
    }

    /// The L1 norm `|x| + |y| + |z|`.
    pub fn manhattan(&self) -> (r: i32)
        requires
            self.x > i32::MIN,
            self.y > i32::MIN,
            self.z > i32::MIN,
            abs_val(self.x as int) + abs_val(self.y as int) + abs_val(self.z as int) <= i32::MAX,
        ensures
            r == abs_val(self.x as int) + abs_val(self.y as int) + abs_val(self.z as int),
    {
        let ax: i32 = if self.x < 0 { -self.x } else { self.x };
        let ay: i32 = if self.y < 0 { -self.y } else { self.y };
        let az: i32 = if self.z < 0 { -self.z } else { self.z };
        ax + ay + az
    }

    /// Componentwise sum.
    pub fn plus(self, rhs: Vec3) -> (r: Vec3)
        requires
            i32::MIN <= self.x + rhs.x <= i32::MAX,
            i32::MIN <= self.y + rhs.y <= i32::MAX,
            i32::MIN <= self.z + rhs.z <= i32::MAX,
        ensures
            r.x == self.x + rhs.x,
            r.y == self.y + rhs.y,
            r.z == self.z + rhs.z,
    {
        Vec3::new(self.x + rhs.x, self.y + rhs.y, self.z + rhs.z)
    }

    /// Componentwise scaling.
    pub fn scaled(self, k: i32) -> (r: Vec3)
        requires
            i32::MIN <= self.x * k <= i32::MAX,
            i32::MIN <= self.y * k <= i32::MAX,
            i32::MIN <= self.z * k <= i32::MAX,
        ensures
            r.x == self.x * k,
            r.y == self.y * k,
            r.z == self.z * k,
    {
        Vec3::new(self.x * k, self.y * k, self.z * k)
    }
}

/// A signed 4D integer coordinate.
#[derive(Clone, Copy, Debug, PartialEq, Eq, Structural, Hash)]
pub struct Vec4 {
    pub x: i32,
    pub y: i32,
    pub z: i32,
    pub w: i32,
}

impl Vec4 {
    pub fn new(x: i32, y: i32, z: i32, w: i32) -> (r: Vec4)
        ensures
            r == (Vec4 { x, y, z, w }),
    {
        Vec4 { x, y, z, w }
    }

    /// The L1 norm `|x| + |y| + |z| + |w|`.
    pub fn manhattan(&self) -> (r: i32)
        requires
            self.x > i32::MIN,
            self.y > i32::MIN,
            self.z > i32::MIN,
            self.w > i32::MIN,
            abs_val(self.x as int) + abs_val(self.y as int) + abs_val(self.z as int) + abs_val(
                self.w as int,
            ) <= i32::MAX,
        ensures
            r == abs_val(self.x as int) + abs_val(self.y as int) + abs_val(self.z as int) + abs_val(
                self.w as int,
            ),
    {
        let ax: i32 = if self.x < 0 { -self.x } else { self.x };
        let ay: i32 = if self.y < 0 { -self.y } else { self.y };
        let az: i32 = if self.z < 0 { -self.z } else { self.z };
        let aw: i32 = if self.w < 0 { -self.w } else { self.w };
        ax + ay + az + aw
    }

    /// Componentwise sum.
    pub fn plus(self, rhs: Vec4) -> (r: Vec4)
        requires
            i32::MIN <= self.x + rhs.x <= i32::MAX,
            i32::MIN <= self.y + rhs.y <= i32::MAX,
            i32::MIN <= self.z + rhs.z <= i32::MAX,
            i32::MIN <= self.w + rhs.w <= i32::MAX,
        ensures
            r.x == self.x + rhs.x,
            r.y == self.y + rhs.y,
            r.z == self.z + rhs.z,
            r.w == self.w + rhs.w,
    {
        Vec4::new(self.x + rhs.x, self.y + rhs.y, self.z + rhs.z, self.w + rhs.w)
    }

    /// Componentwise scaling.
    pub fn scaled(self, k: i32) -> (r: Vec4)
        requires
            i32::MIN <= self.x * k <= i32::MAX,
            i32::MIN <= self.y * k <= i32::MAX,
            i32::MIN <= self.z * k <= i32::MAX,
            i32::MIN <= self.w * k <= i32::MAX,
        ensures
            r.x == self.x * k,
            r.y == self.y * k,
            r.z == self.z * k,
            r.w == self.w * k,
    {
        Vec4::new(self.x * k, self.y * k, self.z * k, self.w * k)
    }
}

} // verus!
