//! A pair of coordinates: a grid position (`x` the column, `y` the row) or a
//! point on the screen, in pixels.

use vstd::prelude::*;

verus! {

/// Rust's integer division, which rounds toward zero.
pub open spec fn div_toward_zero(a: int, b: int) -> int {
    let m = abs(a) / abs(b);
    if (a < 0) == (b < 0) {
        m
    } else {
        -m
    }
}

/// The absolute value.
pub open spec fn abs(a: int) -> int {
    if a < 0 {
        -a
    } else {
        a
    }
}

/// `a / b` on `i32`, as Rust computes it.
fn div_i32(a: i32, b: i32) -> (q: i32)
    requires
        b != 0,
        !(a == i32::MIN && b == -1),
    ensures
        q == div_toward_zero(a as int, b as int),
{
    let ua: i64 = if a < 0 {
        -(a as i64)
    } else {
        a as i64
    };
    let ub: i64 = if b < 0 {
        -(b as i64)
    } else {
        b as i64
    };
    let m = ua / ub;
    assert(m <= ua) by (nonlinear_arith)
        requires
            ua >= 0,
            ub >= 1,
            m == ua / ub,
    ;
    if ub >= 2 {
        assert(m * 2 <= ua) by (nonlinear_arith)
            requires
                ua >= 0,
                ub >= 2,
                m == ua / ub,
        ;
    }
    if (a < 0) == (b < 0) {
        m as i32
    } else {
        -m as i32
    }
}

#[derive(Debug, Clone, Copy, PartialEq, Eq, Structural)]
pub struct Vector2<T> {
    pub x: T,
    pub y: T,
}

impl<T> Vector2<T> {
    pub fn new(x: T, y: T) -> (v: Vector2<T>)
        ensures
            v.x == x,
            v.y == y,
    {
        Vector2 { x, y }
    }
}

impl Vector2<i32> {
    pub fn add(&self, other: Vector2<i32>) -> (v: Vector2<i32>)
        requires
            i32::MIN <= self.x + other.x <= i32::MAX,
            i32::MIN <= self.y + other.y <= i32::MAX,
        ensures
            v.x == self.x + other.x,
            v.y == self.y + other.y,
    {
        Vector2 { x: self.x + other.x, y: self.y + other.y }
    }

    pub fn add_val(&self, val: i32) -> (v: Vector2<i32>)
        requires
            i32::MIN <= self.x + val <= i32::MAX,
            i32::MIN <= self.y + val <= i32::MAX,
        ensures
            v.x == self.x + val,
            v.y == self.y + val,
    {
        Vector2 { x: self.x + val, y: self.y + val }
    }

    pub fn sub(&self, other: Vector2<i32>) -> (v: Vector2<i32>)
        requires
            i32::MIN <= self.x - other.x <= i32::MAX,
            i32::MIN <= self.y - other.y <= i32::MAX,
        ensures
            v.x == self.x - other.x,
            v.y == self.y - other.y,
    {
        Vector2 { x: self.x - other.x, y: self.y - other.y }
    }

    pub fn scale(&self, val: i32) -> (v: Vector2<i32>)
        requires
            i32::MIN <= self.x * val <= i32::MAX,
            i32::MIN <= self.y * val <= i32::MAX,
        ensures
            v.x == self.x * val,
            v.y == self.y * val,
    {
        Vector2 { x: self.x * val, y: self.y * val }
    }

    /// Componentwise division, rounding toward zero.
    pub fn div(&self, other: Vector2<i32>) -> (v: Vector2<i32>)
        requires
            other.x != 0,
            other.y != 0,
            !(self.x == i32::MIN && other.x == -1),
            !(self.y == i32::MIN && other.y == -1),
        ensures
            v.x == div_toward_zero(self.x as int, other.x as int),
            v.y == div_toward_zero(self.y as int, other.y as int),
    {
        Vector2 { x: div_i32(self.x, other.x), y: div_i32(self.y, other.y) }
    }

    /// The smaller of the two components.
    pub fn min_component(&self) -> (m: i32)
        ensures
            m == if self.x < self.y {
                self.x
            } else {
                self.y
            },
    {
        if self.x < self.y {
            self.x
        } else {
            self.y
        }
    }
}

} // verus!
