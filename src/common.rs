use vstd::prelude::*;

verus! {

/// A two-dimensional vector over a scalar type `T`.
#[derive(Debug, Copy, Clone, PartialEq, Eq, PartialOrd, Ord, Hash, Structural)]
pub struct Vector2X<T> {
    pub x: T,
    pub y: T,
}

/// Vector of unsigned integer coordinates.
pub type Vector2U = Vector2X<u32>;

/// Vector of signed integer coordinates.
pub type Vector2I = Vector2X<i32>;

impl<T> Vector2X<T> {
    pub fn new(x: T, y: T) -> (r: Self)
        ensures
            r.x == x,
            r.y == y,
    {
        Self { x, y }
    }
}

impl Vector2X<u32> {
    /// The vector with both coordinates zero.
    pub fn zero() -> (r: Self)
        ensures
            r.x == 0 && r.y == 0,
    {
        Self { x: 0, y: 0 }
    }
}

impl Vector2X<i32> {
    /// The vector with both coordinates zero.
    pub fn zero() -> (r: Self)
        ensures
            r.x == 0 && r.y == 0,
    {
        Self { x: 0, y: 0 }
    }
}

/// A sum of two `u32` values, wrapped around into the range of `u32`.
pub open spec fn wrap_u32(v: int) -> int {
    if v > u32::MAX { v - 0x1_0000_0000 } else { v }
}

/// A sum of two `i32` values, wrapped around into the range of `i32`.
pub open spec fn wrap_i32(v: int) -> int {
    if v > i32::MAX {
        v - 0x1_0000_0000
    } else if v < i32::MIN {
        v + 0x1_0000_0000
    } else {
        v
    }
}

impl core::ops::Add for Vector2X<u32> {
    type Output = Self;

    fn add(self, rhs: Self) -> (r: Self) {
        Self { x: self.x + rhs.x, y: self.y + rhs.y }
    }
}

impl vstd::std_specs::ops::AddSpecImpl for Vector2X<u32> {
    open spec fn obeys_add_spec() -> bool {
        true
    }

    open spec fn add_req(self, rhs: Self) -> bool {
        self.x + rhs.x <= u32::MAX && self.y + rhs.y <= u32::MAX
    }

    open spec fn add_spec(self, rhs: Self) -> Self {
        Vector2X { x: (self.x + rhs.x) as u32, y: (self.y + rhs.y) as u32 }
    }
}

impl core::ops::AddAssign for Vector2X<u32> {
    /// Adds `rhs` coordinate by coordinate, wrapping around at the bounds of `u32`.
    fn add_assign(&mut self, rhs: Self)
        ensures
            final(self).x == wrap_u32(old(self).x + rhs.x),
            final(self).y == wrap_u32(old(self).y + rhs.y),
    {
        self.x = self.x.wrapping_add(rhs.x);
        self.y = self.y.wrapping_add(rhs.y);
    }
}

} // verus!

verus! {

impl core::ops::Neg for Vector2X<i32> {
    type Output = Self;

    fn neg(self) -> (r: Self) {
        Self { x: -self.x, y: -self.y }
    }
}

impl vstd::std_specs::ops::NegSpecImpl for Vector2X<i32> {
    open spec fn obeys_neg_spec() -> bool {
        true
    }

    open spec fn neg_req(self) -> bool {
        self.x != i32::MIN && self.y != i32::MIN
    }

    open spec fn neg_spec(self) -> Self {
        Vector2X { x: (-self.x) as i32, y: (-self.y) as i32 }
    }
}

impl core::ops::Mul<i32> for Vector2X<i32> {
    type Output = Self;

    fn mul(self, rhs: i32) -> (r: Self) {
        Self { x: self.x * rhs, y: self.y * rhs }
    }
}

impl vstd::std_specs::ops::MulSpecImpl<i32> for Vector2X<i32> {
    open spec fn obeys_mul_spec() -> bool {
        true
    }

    open spec fn mul_req(self, rhs: i32) -> bool {
        i32::MIN <= self.x * rhs <= i32::MAX && i32::MIN <= self.y * rhs <= i32::MAX
    }

    open spec fn mul_spec(self, rhs: i32) -> Self {
        Vector2X { x: (self.x * rhs) as i32, y: (self.y * rhs) as i32 }
    }
}

impl core::ops::Add for Vector2X<i32> {
    type Output = Self;

    fn add(self, rhs: Self) -> (r: Self) {
        Self { x: self.x + rhs.x, y: self.y + rhs.y }
    }
}

impl vstd::std_specs::ops::AddSpecImpl for Vector2X<i32> {
    open spec fn obeys_add_spec() -> bool {
        true
    }

    open spec fn add_req(self, rhs: Self) -> bool {
        i32::MIN <= self.x + rhs.x <= i32::MAX && i32::MIN <= self.y + rhs.y <= i32::MAX
    }

    open spec fn add_spec(self, rhs: Self) -> Self {
        Vector2X { x: (self.x + rhs.x) as i32, y: (self.y + rhs.y) as i32 }
    }
}

impl core::ops::AddAssign for Vector2X<i32> {
    /// Adds `rhs` coordinate by coordinate, wrapping around at the bounds of `i32`.
    fn add_assign(&mut self, rhs: Self)
        ensures
            final(self).x == wrap_i32(old(self).x + rhs.x),
            final(self).y == wrap_i32(old(self).y + rhs.y),
    {
        self.x = self.x.wrapping_add(rhs.x);
        self.y = self.y.wrapping_add(rhs.y);
    }
}

impl core::ops::Sub for Vector2X<i32> {
    type Output = Self;

    fn sub(self, rhs: Self) -> (r: Self) {
        Self { x: self.x - rhs.x, y: self.y - rhs.y }
    }
}

impl vstd::std_specs::ops::SubSpecImpl for Vector2X<i32> {
    open spec fn obeys_sub_spec() -> bool {
        true
    }

    open spec fn sub_req(self, rhs: Self) -> bool {
        i32::MIN <= self.x - rhs.x <= i32::MAX && i32::MIN <= self.y - rhs.y <= i32::MAX
    }

    open spec fn sub_spec(self, rhs: Self) -> Self {
        Vector2X { x: (self.x - rhs.x) as i32, y: (self.y - rhs.y) as i32 }
    }
}

} // verus!
