//! The fixed-point scale and the three-component vector built on it.

use vstd::prelude::*;

verus! {

/// One whole unit of the fixed-point scale: a raw value `v` stands for the
/// number `v / UNIT`.
pub const UNIT: i64 = 1_000_000;

/// The number nearest to `v` that fits in sixty-four bits.
pub open spec fn clamp(v: int) -> i64 {
    if v < i64::MIN {
        i64::MIN
    } else if v > i64::MAX {
        i64::MAX
    } else {
        v as i64
    }
}

/// The product of two fixed-point numbers, rounded down and clamped.
pub open spec fn fixed_mul(a: i64, b: i64) -> i64 {
    clamp((a * b) / (UNIT as int))
}

/// `v / UNIT`, rounded down.
pub fn floor_unit(v: i128) -> (q: i128)
    requires
        i128::MIN + UNIT < v,
    ensures
        q == v as int / (UNIT as int),
{
    if v >= 0 {
        v / (UNIT as i128)
    } else {
        -((-v + (UNIT as i128 - 1)) / (UNIT as i128))
    }
}

/// The number nearest to `v` that fits in sixty-four bits.
pub fn clamp_exec(v: i128) -> (r: i64)
    ensures
        r == clamp(v as int),
{
    if v < i64::MIN as i128 {
        i64::MIN
    } else if v > i64::MAX as i128 {
        i64::MAX
    } else {
        v as i64
    }
}

/// The product of two fixed-point numbers, rounded down and clamped.
pub fn fixed_mul_exec(a: i64, b: i64) -> (r: i64)
    ensures
        r == fixed_mul(a, b),
{
    assert(-0x4000_0000_0000_0000_0000_0000_0000_0000 <= a * b
        <= 0x4000_0000_0000_0000_0000_0000_0000_0000) by (nonlinear_arith)
        requires
            -0x8000_0000_0000_0000 <= a <= 0x8000_0000_0000_0000,
            -0x8000_0000_0000_0000 <= b <= 0x8000_0000_0000_0000,
    ;
    let product: i128 = (a as i128) * (b as i128);
    clamp_exec(floor_unit(product))
}

/// A point or direction with three fixed-point components.
#[derive(Clone, Copy, Debug, PartialEq, Eq, Structural)]
pub struct Vector3 {
    pub x: i64,
    pub y: i64,
    pub z: i64,
}

impl Vector3 {
    pub fn new(x: i64, y: i64, z: i64) -> (v: Vector3)
        ensures
            v == (Vector3 { x, y, z }),
    {
        Vector3 { x, y, z }
    }

    pub fn zero() -> (v: Vector3)
        ensures
            v == (Vector3 { x: 0, y: 0, z: 0 }),
    {
        Vector3 { x: 0, y: 0, z: 0 }
    }
}

/// A vector of three unbounded integers, for specifications.
pub struct Int3 {
    pub x: int,
    pub y: int,
    pub z: int,
}

impl Int3 {
    pub open spec fn zero() -> Int3 {
        Int3 { x: 0, y: 0, z: 0 }
    }

    pub open spec fn plus(self, o: Int3) -> Int3 {
        Int3 { x: self.x + o.x, y: self.y + o.y, z: self.z + o.z }
    }

    pub open spec fn minus(self, o: Int3) -> Int3 {
        Int3 { x: self.x - o.x, y: self.y - o.y, z: self.z - o.z }
    }

    pub open spec fn times(self, k: int) -> Int3 {
        Int3 { x: self.x * k, y: self.y * k, z: self.z * k }
    }

    /// The cross product.
    pub open spec fn cross(self, o: Int3) -> Int3 {
        Int3 {
            x: self.y * o.z - self.z * o.y,
            y: self.z * o.x - self.x * o.z,
            z: self.x * o.y - self.y * o.x,
        }
    }

    /// The squared length.
    pub open spec fn norm_squared(self) -> int {
        self.x * self.x + self.y * self.y + self.z * self.z
    }
}

impl Vector3 {
    /// The vector as unbounded integers.
    pub open spec fn ints(self) -> Int3 {
        Int3 { x: self.x as int, y: self.y as int, z: self.z as int }
    }
}

} // verus!
