//! Rays: half-lines `origin + t * direction`.
use vstd::prelude::*;
use crate::fixed::{saturate, div_floor, lemma_prod_bound, SCALE, LIMIT};
use crate::vec3::{Vec3, vsat};

verus! {

/// A ray defined by `origin + t * direction` for `t >= 0`; the direction is not normalized.
#[derive(Debug, Clone, Copy, PartialEq, Eq, Structural)]
pub struct Ray {
    pub origin: Vec3,
    pub direction: Vec3,
}

impl Ray {
    pub open spec fn wf(self) -> bool {
        self.origin.wf() && self.direction.wf()
    }

    /// The point at parameter `t` (a fixed-point scalar).
    pub open spec fn point_at(self, t: int) -> Vec3 {
        let o = self.origin;
        let d = self.direction;
        vsat(
            o.x + t * d.x / SCALE as int,
            o.y + t * d.y / SCALE as int,
            o.z + t * d.z / SCALE as int,
        )
    }

    pub fn at(&self, t: i64) -> (r: Vec3)
        requires
            self.wf(),
        ensures
            r == self.point_at(t as int),
            r.wf(),
    {
        let o = self.origin;
        let d = self.direction;
        proof {
            lemma_prod_bound(t as int, d.x as int, 0x8000_0000_0000_0000, LIMIT as int);
            lemma_prod_bound(t as int, d.y as int, 0x8000_0000_0000_0000, LIMIT as int);
            lemma_prod_bound(t as int, d.z as int, 0x8000_0000_0000_0000, LIMIT as int);
        }
        let s = SCALE as i128;
        Vec3 {
            x: saturate(o.x as i128 + div_floor(t as i128 * d.x as i128, s)),
            y: saturate(o.y as i128 + div_floor(t as i128 * d.y as i128, s)),
            z: saturate(o.z as i128 + div_floor(t as i128 * d.z as i128, s)),
        }
    }
}

} // verus!
