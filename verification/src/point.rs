//! A two-dimensional integer vector, used for positions and sizes.

use vstd::prelude::*;

verus! {

/// A point of the integer grid, or the extent of a part along both axes.
#[derive(Clone, Copy, Debug, PartialEq, Eq, Structural, PartialOrd, Hash)]
pub struct Point {
    pub x: i32,
    pub y: i32,
}

/// The sign of an integer: `-1`, `0` or `1`.
pub open spec fn sign(v: int) -> int {
    if v > 0 {
        1
    } else if v < 0 {
        -1
    } else {
        0
    }
}

/// Whether `v` is the value of some `i32`.
pub open spec fn fits_i32(v: int) -> bool {
    i32::MIN <= v <= i32::MAX
}

fn sign_of(v: i32) -> (r: i32)
    ensures
        r == sign(v as int),
{
    if v > 0 {
        1
    } else if v < 0 {
        -1
    } else {
        0
    }
}

impl Point {
    /// The zero vector.
    pub fn zero() -> (r: Self)
        ensures
            r.x == 0,
            r.y == 0,
    {
        Point { x: 0, y: 0 }
    }

    /// The vector of the signs of both coordinates.
    pub fn signum(&self) -> (r: Self)
        ensures
            r.x == sign(self.x as int),
            r.y == sign(self.y as int),
    {
        Point { x: sign_of(self.x), y: sign_of(self.y) }
    }

    /// The sum of both coordinates.
    pub fn sum(&self) -> (r: i32)
        requires
            fits_i32(self.x + self.y),
        ensures
            r == self.x + self.y,
    {
        self.x + self.y
    }

    /// Whether this is the zero vector.
    pub fn is_empty(&self) -> (r: bool)
        ensures
            r == (self.x == 0 && self.y == 0),
    {
        self.x == 0 && self.y == 0
    }

    /// Whether the vector lies on one of the axes.
    pub fn is_line(&self) -> (r: bool)
        ensures
            r == (self.x == 0 || self.y == 0),
    {
        self.x == 0 || self.y == 0
    }

    /// The vector turned by a quarter turn, `(x, y)` to `(-y, x)`.
    pub fn rotated(&self) -> (r: Self)
        requires
            self.y != i32::MIN,
        ensures
            r.x == -self.y,
            r.y == self.x,
    {
        Point { x: -self.y, y: self.x }
    }
}

impl Default for Point {
    fn default() -> (r: Self)
        ensures
            r == (Point { x: 0, y: 0 }),
    {
        Point { x: 0, y: 0 }
    }
}

impl core::ops::Mul<i32> for Point {
    type Output = Point;

    /// Both coordinates multiplied by `rhs`.
    fn mul(self, rhs: i32) -> (r: Point) {
        Point { x: self.x * rhs, y: self.y * rhs }
    }
}

impl vstd::std_specs::ops::MulSpecImpl<i32> for Point {
    open spec fn obeys_mul_spec() -> bool {
        true
    }

    open spec fn mul_req(self, rhs: i32) -> bool {
        fits_i32(self.x * rhs) && fits_i32(self.y * rhs)
    }

    open spec fn mul_spec(self, rhs: i32) -> Point {
        Point { x: (self.x * rhs) as i32, y: (self.y * rhs) as i32 }
    }
}

impl core::ops::Add for Point {
    type Output = Point;

    /// The sum of two vectors, coordinate by coordinate.
    fn add(self, rhs: Point) -> (r: Point) {
        Point { x: self.x + rhs.x, y: self.y + rhs.y }
    }
}

impl vstd::std_specs::ops::AddSpecImpl for Point {
    open spec fn obeys_add_spec() -> bool {
        true
    }

    open spec fn add_req(self, rhs: Point) -> bool {
        fits_i32(self.x + rhs.x) && fits_i32(self.y + rhs.y)
    }

    open spec fn add_spec(self, rhs: Point) -> Point {
        Point { x: (self.x + rhs.x) as i32, y: (self.y + rhs.y) as i32 }
    }
}

impl core::ops::AddAssign for Point {
    /// Adds `rhs` to this vector in place.
    fn add_assign(&mut self, rhs: Point)
        requires
            fits_i32(old(self).x + rhs.x),
            fits_i32(old(self).y + rhs.y),
        ensures
            final(self).x == old(self).x + rhs.x,
            final(self).y == old(self).y + rhs.y,
    {
        self.x = self.x + rhs.x;
        self.y = self.y + rhs.y;
    }
}

impl core::ops::Sub for Point {
    type Output = Point;

    /// The difference of two vectors, coordinate by coordinate.
    fn sub(self, rhs: Point) -> (r: Point) {
        Point { x: self.x - rhs.x, y: self.y - rhs.y }
    }
}

impl vstd::std_specs::ops::SubSpecImpl for Point {
    open spec fn obeys_sub_spec() -> bool {
        true
    }

    open spec fn sub_req(self, rhs: Point) -> bool {
        fits_i32(self.x - rhs.x) && fits_i32(self.y - rhs.y)
    }

    open spec fn sub_spec(self, rhs: Point) -> Point {
        Point { x: (self.x - rhs.x) as i32, y: (self.y - rhs.y) as i32 }
    }
}

impl core::ops::SubAssign for Point {
    /// Subtracts `rhs` from this vector in place.
    fn sub_assign(&mut self, rhs: Point)
        requires
            fits_i32(old(self).x - rhs.x),
            fits_i32(old(self).y - rhs.y),
        ensures
            final(self).x == old(self).x - rhs.x,
            final(self).y == old(self).y - rhs.y,
    {
        self.x = self.x - rhs.x;
        self.y = self.y - rhs.y;
    }
}

} // verus!
