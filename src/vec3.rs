//! Vectors in 3D space with fixed-point components.
use vstd::prelude::*;
use crate::fixed::{
    in_range, sat, saturate, div_floor, fx_mul, isqrt, sqrt_floor, is_sqrt_floor, lemma_prod_bound,
    SCALE, LIMIT,
};

verus! {

/// A vector in 3D space; each component is a fixed-point scalar.
#[derive(Debug, Clone, Copy, PartialEq, Eq, Structural)]
pub struct Vec3 {
    pub x: i64,
    pub y: i64,
    pub z: i64,
}

/// The vector whose components are `x`, `y`, `z` saturated into range.
pub open spec fn vsat(x: int, y: int, z: int) -> Vec3 {
    Vec3 { x: sat(x) as i64, y: sat(y) as i64, z: sat(z) as i64 }
}

/// The quotient `n / k` rounded down, for either sign of `k`.
pub open spec fn quot(n: int, k: int) -> int {
    if k > 0 {
        n / k
    } else {
        (-n) / (-k)
    }
}

impl Vec3 {
    /// Every component lies in `[-LIMIT, LIMIT]`.
    pub open spec fn wf(self) -> bool {
        in_range(self.x as int) && in_range(self.y as int) && in_range(self.z as int)
    }

    /// The exact inner product, in raw units squared.
    pub open spec fn dot_raw(self, o: Vec3) -> int {
        self.x * o.x + self.y * o.y + self.z * o.z
    }

    pub open spec fn norm_sq(self) -> int {
        self.dot_raw(self)
    }

    /// The Euclidean length as a scalar, rounded down.
    pub open spec fn length(self) -> int {
        sat(sqrt_floor(self.norm_sq()))
    }

    pub open spec fn plus(self, o: Vec3) -> Vec3 {
        vsat(self.x + o.x, self.y + o.y, self.z + o.z)
    }

    pub open spec fn minus(self, o: Vec3) -> Vec3 {
        vsat(self.x - o.x, self.y - o.y, self.z - o.z)
    }

    pub open spec fn negation(self) -> Vec3 {
        Vec3 { x: -self.x as i64, y: -self.y as i64, z: -self.z as i64 }
    }

    /// Every component multiplied by the scalar `k`.
    pub open spec fn times(self, k: int) -> Vec3 {
        vsat(self.x * k / SCALE as int, self.y * k / SCALE as int, self.z * k / SCALE as int)
    }

    /// Every component divided by the nonzero scalar `k`.
    pub open spec fn divided(self, k: int) -> Vec3 {
        vsat(quot(self.x * SCALE, k), quot(self.y * SCALE, k), quot(self.z * SCALE, k))
    }

    /// The vector scaled to length one; the zero vector stays as it is.
    pub open spec fn unit(self) -> Vec3 {
        let l = self.length();
        if l == 0 {
            self
        } else {
            vsat(self.x * SCALE / l, self.y * SCALE / l, self.z * SCALE / l)
        }
    }

    /// Returns the vector with the given components, each saturated into range.
    pub fn new(x: i64, y: i64, z: i64) -> (r: Vec3)
        ensures
            r == vsat(x as int, y as int, z as int),
            r.wf(),
    {
        Vec3 { x: saturate(x as i128), y: saturate(y as i128), z: saturate(z as i128) }
    }

    /// The exact inner product, in raw units squared.
    pub fn dot_exact(&self, other: Vec3) -> (r: i128)
        requires
            self.wf(),
            other.wf(),
        ensures
            r == self.dot_raw(other),
            -3 * LIMIT * LIMIT <= r <= 3 * LIMIT * LIMIT,
    {
        proof {
            lemma_prod_bound(self.x as int, other.x as int, LIMIT as int, LIMIT as int);
            lemma_prod_bound(self.y as int, other.y as int, LIMIT as int, LIMIT as int);
            lemma_prod_bound(self.z as int, other.z as int, LIMIT as int, LIMIT as int);
        }
        (self.x as i128) * (other.x as i128) + (self.y as i128) * (other.y as i128) + (
        self.z as i128) * (other.z as i128)
    }

    /// Returns the dot product (inner product) of the two vectors.
    pub fn dot(&self, other: Vec3) -> (r: i64)
        requires
            self.wf(),
            other.wf(),
        ensures
            r == sat(self.dot_raw(other) / SCALE as int),
    {
        saturate(div_floor(self.dot_exact(other), SCALE as i128))
    }

    /// Returns the length (Euclidean norm) of the vector.
    pub fn len(&self) -> (r: i64)
        requires
            self.wf(),
        ensures
            r == self.length(),
            0 <= r <= LIMIT,
            r == 0 <==> self.norm_sq() == 0,
    {
        let sq = self.dot_exact(*self);
        proof {
            assert(self.norm_sq() >= 0) by (nonlinear_arith);
        }
        let s = isqrt(sq as u128);
        proof {
            if self.norm_sq() > 0 {
                assert(s > 0) by (nonlinear_arith)
                    requires
                        is_sqrt_floor(sq as int, s as int),
                        sq > 0,
                ;
            } else {
                assert(s == 0) by (nonlinear_arith)
                    requires
                        is_sqrt_floor(sq as int, s as int),
                        sq == 0,
                ;
            }
        }
        if s > LIMIT as u128 {
            LIMIT
        } else {
            s as i64
        }
    }

    /// Returns a vector with the same direction and length one (the zero vector is returned as
    /// it is).
    pub fn normalized(&self) -> (r: Vec3)
        requires
            self.wf(),
        ensures
            r == self.unit(),
            r.wf(),
    {
        let l = self.len();
        if l == 0 {
            *self
        } else {
            proof {
                lemma_prod_bound(self.x as int, SCALE as int, LIMIT as int, SCALE as int);
                lemma_prod_bound(self.y as int, SCALE as int, LIMIT as int, SCALE as int);
                lemma_prod_bound(self.z as int, SCALE as int, LIMIT as int, SCALE as int);
            }
            let l = l as i128;
            Vec3 {
                x: saturate(div_floor(self.x as i128 * SCALE as i128, l)),
                y: saturate(div_floor(self.y as i128 * SCALE as i128, l)),
                z: saturate(div_floor(self.z as i128 * SCALE as i128, l)),
            }
        }
    }

    /// Multiplies every component by the scalar `k`.
    pub fn scale(&self, k: i64) -> (r: Vec3)
        requires
            self.wf(),
            in_range(k as int),
        ensures
            r == self.times(k as int),
            r.wf(),
    {
        Vec3 { x: fx_mul(self.x, k), y: fx_mul(self.y, k), z: fx_mul(self.z, k) }
    }

    /// Divides every component by the scalar `k`, which must not be zero.
    pub fn div(&self, k: i64) -> (r: Vec3)
        requires
            self.wf(),
            in_range(k as int),
            k != 0,
        ensures
            r == self.divided(k as int),
            r.wf(),
    {
        proof {
            lemma_prod_bound(self.x as int, SCALE as int, LIMIT as int, SCALE as int);
            lemma_prod_bound(self.y as int, SCALE as int, LIMIT as int, SCALE as int);
            lemma_prod_bound(self.z as int, SCALE as int, LIMIT as int, SCALE as int);
        }
        let s = SCALE as i128;
        if k > 0 {
            let d = k as i128;
            Vec3 {
                x: saturate(div_floor(self.x as i128 * s, d)),
                y: saturate(div_floor(self.y as i128 * s, d)),
                z: saturate(div_floor(self.z as i128 * s, d)),
            }
        } else {
            let d = -(k as i128);
            Vec3 {
                x: saturate(div_floor(-(self.x as i128 * s), d)),
                y: saturate(div_floor(-(self.y as i128 * s), d)),
                z: saturate(div_floor(-(self.z as i128 * s), d)),
            }
        }
    }

    pub fn add(&self, other: Vec3) -> (r: Vec3)
        requires
            self.wf(),
            other.wf(),
        ensures
            r == self.plus(other),
            r.wf(),
    {
        Vec3 {
            x: saturate(self.x as i128 + other.x as i128),
            y: saturate(self.y as i128 + other.y as i128),
            z: saturate(self.z as i128 + other.z as i128),
        }
    }

    pub fn sub(&self, other: Vec3) -> (r: Vec3)
        requires
            self.wf(),
            other.wf(),
        ensures
            r == self.minus(other),
            r.wf(),
    {
        Vec3 {
            x: saturate(self.x as i128 - other.x as i128),
            y: saturate(self.y as i128 - other.y as i128),
            z: saturate(self.z as i128 - other.z as i128),
        }
    }

    pub fn neg(&self) -> (r: Vec3)
        requires
            self.wf(),
        ensures
            r == self.negation(),
            r.wf(),
    {
        Vec3 { x: -self.x, y: -self.y, z: -self.z }
    }
}

} // verus!
