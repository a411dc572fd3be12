//! Three-component fixed-point vectors.

use vstd::prelude::*;
use crate::fixed::{SCALE, COORD_LIMIT, sqrt_floor, div_trunc, isqrt, div_toward_zero,
    lemma_sqrt_floor_bracket};

verus! {

/// A point or direction; each component is a fixed-point number.
#[derive(Clone, Copy, Debug, PartialEq, Eq, Structural)]
pub struct Vec3 {
    pub x: i64,
    pub y: i64,
    pub z: i64,
}

/// Every component lies in `[-lim, lim]`.
pub open spec fn bounded(v: Vec3, lim: int) -> bool {
    -lim <= v.x <= lim && -lim <= v.y <= lim && -lim <= v.z <= lim
}

/// A vector of in-range coordinates.
pub open spec fn in_range(v: Vec3) -> bool {
    bounded(v, COORD_LIMIT as int)
}

/// `a - b`, component by component.
pub open spec fn minus(a: Vec3, b: Vec3) -> Vec3 {
    Vec3 { x: (a.x - b.x) as i64, y: (a.y - b.y) as i64, z: (a.z - b.z) as i64 }
}

/// Dot product, in squared fixed-point steps.
pub open spec fn dot(a: Vec3, b: Vec3) -> int {
    a.x * b.x + a.y * b.y + a.z * b.z
}

/// Squared Euclidean length, in squared fixed-point steps.
pub open spec fn norm2(a: Vec3) -> int {
    dot(a, a)
}

/// Euclidean length rounded down, in fixed-point steps.
pub open spec fn length(a: Vec3) -> int {
    sqrt_floor(norm2(a))
}

/// One component of `c / len` as a fixed-point ratio; a zero length gives zero.
pub open spec fn unit_comp(c: int, len: int) -> int {
    if len == 0 {
        0
    } else {
        div_trunc(c * SCALE, len)
    }
}

/// `a` scaled to fixed-point length one; the zero vector stays zero.
pub open spec fn unit_of(a: Vec3) -> Vec3 {
    Vec3 {
        x: unit_comp(a.x as int, length(a)) as i64,
        y: unit_comp(a.y as int, length(a)) as i64,
        z: unit_comp(a.z as int, length(a)) as i64,
    }
}

/// `|c| <= len` whenever `c * c <= n` and `len` is the floor root of `n`.
proof fn lemma_comp_le_length(c: int, n: int)
    requires
        0 <= c * c <= n,
    ensures
        -sqrt_floor(n) <= c <= sqrt_floor(n),
{
    lemma_sqrt_floor_bracket(n);
    let s = sqrt_floor(n);
    if c > s {
        assert((s + 1) * (s + 1) <= c * c) by (nonlinear_arith)
            requires
                c >= s + 1,
                s >= 0,
        ;
    }
    if -c > s {
        assert((s + 1) * (s + 1) <= c * c) by (nonlinear_arith)
            requires
                -c >= s + 1,
                s >= 0,
        ;
    }
}

impl Vec3 {
    pub fn new(x: i64, y: i64, z: i64) -> (r: Vec3)
        ensures
            r.x == x && r.y == y && r.z == z,
    {
        Vec3 { x, y, z }
    }

    /// The zero vector.
    pub fn zero() -> (r: Vec3)
        ensures
            r.x == 0 && r.y == 0 && r.z == 0,
    {
        Vec3 { x: 0, y: 0, z: 0 }
    }

    /// Component-wise difference `self - o`.
    pub fn sub(&self, o: &Vec3) -> (r: Vec3)
        requires
            in_range(*self),
            in_range(*o),
        ensures
            r.x == self.x - o.x && r.y == self.y - o.y && r.z == self.z - o.z,
            bounded(r, 2 * COORD_LIMIT),
    {
        Vec3 { x: self.x - o.x, y: self.y - o.y, z: self.z - o.z }
    }

    /// Dot product.
    pub fn dot(&self, o: &Vec3) -> (r: i128)
        requires
            bounded(*self, 2 * COORD_LIMIT),
            bounded(*o, 2 * COORD_LIMIT),
        ensures
            r == dot(*self, *o),
    {
        proof {
            assert(-0x4000000000000000 <= self.x * o.x <= 0x4000000000000000) by (nonlinear_arith)
                requires
                    -32000000 <= self.x <= 32000000,
                    -32000000 <= o.x <= 32000000,
            ;
            assert(-0x4000000000000000 <= self.y * o.y <= 0x4000000000000000) by (nonlinear_arith)
                requires
                    -32000000 <= self.y <= 32000000,
                    -32000000 <= o.y <= 32000000,
            ;
            assert(-0x4000000000000000 <= self.z * o.z <= 0x4000000000000000) by (nonlinear_arith)
                requires
                    -32000000 <= self.z <= 32000000,
                    -32000000 <= o.z <= 32000000,
            ;
        }
        (self.x as i128) * (o.x as i128) + (self.y as i128) * (o.y as i128) + (self.z as i128) * (
        o.z as i128)
    }

    /// Squared length.
    pub fn norm2(&self) -> (r: u64)
        requires
            bounded(*self, 2 * COORD_LIMIT),
        ensures
            r == norm2(*self),
            r <= 3072000000000000,
    {
        proof {
            assert(0 <= self.x * self.x <= 32000000 * 32000000) by (nonlinear_arith)
                requires
                    -32000000 <= self.x <= 32000000,
            ;
            assert(0 <= self.y * self.y <= 32000000 * 32000000) by (nonlinear_arith)
                requires
                    -32000000 <= self.y <= 32000000,
            ;
            assert(0 <= self.z * self.z <= 32000000 * 32000000) by (nonlinear_arith)
                requires
                    -32000000 <= self.z <= 32000000,
            ;
        }
        let d = self.dot(self);
        d as u64
    }

    /// Length rounded down.
    pub fn length(&self) -> (r: i64)
        requires
            bounded(*self, 2 * COORD_LIMIT),
        ensures
            r == length(*self),
            0 <= r <= 64000000,
    {
        let n = self.norm2();
        let r = isqrt(n);
        proof {
            lemma_sqrt_floor_bracket(n as int);
            if r > 64000000 {
                assert(r * r > 64000000 * 64000000) by (nonlinear_arith)
                    requires
                        r > 64000000,
                ;
            }
        }
        r as i64
    }

    /// This vector scaled to unit length; the zero vector stays zero.
    pub fn unit(&self) -> (r: Vec3)
        requires
            bounded(*self, 2 * COORD_LIMIT),
        ensures
            r == unit_of(*self),
            bounded(r, SCALE as int),
    {
        let len = self.length();
        if len == 0 {
            return Vec3 { x: 0, y: 0, z: 0 };
        }
        proof {
            let n = norm2(*self);
            assert(0 <= self.x * self.x && 0 <= self.y * self.y && 0 <= self.z * self.z)
                by (nonlinear_arith);
            lemma_comp_le_length(self.x as int, n);
            lemma_comp_le_length(self.y as int, n);
            lemma_comp_le_length(self.z as int, n);
        }
        let x = Self::unit_component(self.x, len);
        let y = Self::unit_component(self.y, len);
        let z = Self::unit_component(self.z, len);
        Vec3 { x, y, z }
    }

    fn unit_component(c: i64, len: i64) -> (r: i64)
        requires
            0 < len <= 64000000,
            -len <= c <= len,
        ensures
            r == unit_comp(c as int, len as int),
            -SCALE <= r <= SCALE,
    {
        assert(-64000000000 <= (c as i128) * (SCALE as i128) <= 64000000000) by (nonlinear_arith)
            requires
                -64000000 <= c <= 64000000,
                SCALE == 1000,
        ;
        let q = div_toward_zero((c as i128) * (SCALE as i128), len as i128);
        proof {
            let a: int = c * 1000;
            assert(SCALE == 1000);
            let l: int = len as int;
            if a >= 0 {
                assert(a / l <= 1000) by (nonlinear_arith)
                    requires
                        a == c * 1000,
                        0 <= a,
                        c <= l,
                        l > 0,
                ;
            } else {
                assert((-a) / l <= 1000) by (nonlinear_arith)
                    requires
                        a == c * 1000,
                        a < 0,
                        -l <= c,
                        l > 0,
                ;
            }
        }
        q as i64
    }
}

} // verus!
