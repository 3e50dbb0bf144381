//! Approximate equality of fixed-point values.
use vstd::prelude::*;
use crate::canvas::Canvas;
use crate::color::Color;
use crate::vec3::Vec3;

verus! {

/// Two scalars are approximately equal when they differ by less than this many raw units.
pub const EPS: i64 = 5;

pub open spec fn near(a: int, b: int) -> bool {
    -EPS < a - b < EPS
}

/// Used for types that can be compared for approximate equality.
pub trait ApproxEq: Sized {
    spec fn approx_eq_spec(self, other: Self) -> bool;

    /// Returns true if the two values are approximately equal.
    fn approx_eq(self, other: Self) -> (r: bool)
        ensures
            r == self.approx_eq_spec(other),
    ;
}

fn near_exec(a: i64, b: i64) -> (r: bool)
    ensures
        r == near(a as int, b as int),
{
    let d = a as i128 - b as i128;
    -(EPS as i128) < d && d < EPS as i128
}

impl ApproxEq for i64 {
    open spec fn approx_eq_spec(self, other: i64) -> bool {
        near(self as int, other as int)
    }

    fn approx_eq(self, other: i64) -> (r: bool) {
        near_exec(self, other)
    }
}

impl ApproxEq for &Vec<i64> {
    open spec fn approx_eq_spec(self, other: &Vec<i64>) -> bool {
        &&& self@.len() == other@.len()
        &&& forall|i: int| 0 <= i < self@.len() ==> near(#[trigger] self@[i] as int, other@[i] as int)
    }

    fn approx_eq(self, other: &Vec<i64>) -> (r: bool) {
        if self.len() != other.len() {
            return false;
        }
        let mut k: usize = 0;
        while k < self.len()
            invariant
                self@.len() == other@.len(),
                k <= self@.len(),
                forall|i: int| 0 <= i < k ==> near(#[trigger] self@[i] as int, other@[i] as int),
            decreases self@.len() - k,
        {
            if !near_exec(self[k], other[k]) {
                return false;
            }
            k += 1;
        }
        true
    }
}

impl ApproxEq for Vec3 {
    open spec fn approx_eq_spec(self, other: Vec3) -> bool {
        near(self.x as int, other.x as int) && near(self.y as int, other.y as int) && near(
            self.z as int,
            other.z as int,
        )
    }

    fn approx_eq(self, other: Vec3) -> (r: bool) {
        near_exec(self.x, other.x) && near_exec(self.y, other.y) && near_exec(self.z, other.z)
    }
}

pub open spec fn color_near(a: Color, b: Color) -> bool {
    near(a.0 as int, b.0 as int) && near(a.1 as int, b.1 as int) && near(a.2 as int, b.2 as int)
}

fn color_near_exec(a: Color, b: Color) -> (r: bool)
    ensures
        r == color_near(a, b),
{
    near_exec(a.0, b.0) && near_exec(a.1, b.1) && near_exec(a.2, b.2)
}

impl ApproxEq for Color {
    open spec fn approx_eq_spec(self, other: Color) -> bool {
        color_near(self, other)
    }

    fn approx_eq(self, other: Color) -> (r: bool) {
        color_near_exec(self, other)
    }
}

impl ApproxEq for &Canvas {
    open spec fn approx_eq_spec(self, other: &Canvas) -> bool {
        &&& self.width == other.width
        &&& self.height == other.height
        &&& self.pixels@.len() == other.pixels@.len()
        &&& forall|i: int| 0 <= i < self.pixels@.len() ==> color_near(#[trigger] self.pixels@[i], other.pixels@[i])
    }

    fn approx_eq(self, other: &Canvas) -> (r: bool) {
        if self.width != other.width || self.height != other.height || self.pixels.len()
            != other.pixels.len() {
            return false;
        }
        let mut k: usize = 0;
        while k < self.pixels.len()
            invariant
                self.pixels@.len() == other.pixels@.len(),
                k <= self.pixels@.len(),
                forall|i: int| 0 <= i < k ==> color_near(#[trigger] self.pixels@[i], other.pixels@[i]),
            decreases self.pixels@.len() - k,
        {
            if !color_near_exec(self.pixels[k], other.pixels[k]) {
                return false;
            }
            k += 1;
        }
        true
    }
}

} // verus!
