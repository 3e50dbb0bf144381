//! Scenes: spheres, their materials, and lights.
use vstd::prelude::*;
use crate::color::Color;
use crate::fixed::{
    in_range, param_sat, saturate_param, div_floor, isqrt, sqrt_floor, is_sqrt_floor,
    lemma_prod_bound, SCALE, LIMIT,
};
use crate::ray::Ray;
use crate::vec3::Vec3;

verus! {

/// A scene that can be rendered by a raytracer.
#[derive(Debug)]
pub struct Scene {
    pub background_color: Color,
    pub lights: Vec<Light>,
    pub spheres: Vec<Sphere>,
}

/// A source of (white) light in the scene.
#[derive(Debug, Clone, Copy, PartialEq, Eq, Structural)]
pub struct Light {
    /// The intensity of the light, a fixed-point scalar.
    pub intensity: i64,
    /// Describes where the light comes from.
    pub source: LightSource,
}

/// Describes where a light comes from.
#[derive(Debug, Clone, Copy, PartialEq, Eq, Structural)]
pub enum LightSource {
    /// Ambient light has the same intensity anywhere in the scene.
    Ambient,
    /// A point light appears to shine from a single point.
    Point { position: Vec3 },
    /// A directional light shines in a fixed direction.
    Directional { direction: Vec3 },
}

/// Defines how an object reflects light.
#[derive(Debug, Clone, Copy, PartialEq, Eq, Structural)]
pub struct Material {
    /// The object's color.
    pub color: Color,
    /// A parameter to model specular reflection; higher values mean a shinier surface.
    pub specular: Option<i32>,
    /// How reflective the surface is, from zero (not reflective) to `SCALE` (perfect mirror).
    pub reflective: i64,
}

/// A sphere in a scene.
#[derive(Debug, Clone, Copy, PartialEq, Eq, Structural)]
pub struct Sphere {
    pub center: Vec3,
    pub radius: i64,
    pub material: Material,
}

impl Light {
    pub open spec fn wf(self) -> bool {
        &&& in_range(self.intensity as int)
        &&& match self.source {
            LightSource::Ambient => true,
            LightSource::Point { position } => position.wf(),
            LightSource::Directional { direction } => direction.wf(),
        }
    }
}

impl Material {
    pub open spec fn wf(self) -> bool {
        self.color.wf() && in_range(self.reflective as int)
    }

    /// A black, dull, non-reflective material.
    pub fn black() -> (r: Material)
        ensures
            r == (Material { color: Color(0, 0, 0), specular: None, reflective: 0 }),
    {
        Material { color: Color::black(), specular: None, reflective: 0 }
    }
}

impl Scene {
    pub open spec fn wf(&self) -> bool {
        &&& self.background_color.wf()
        &&& forall|i: int| 0 <= i < self.lights@.len() ==> (#[trigger] self.lights@[i]).wf()
        &&& forall|i: int| 0 <= i < self.spheres@.len() ==> (#[trigger] self.spheres@[i]).wf()
    }
}

/// The root of `a t^2 + b t + c` for numerator `num` (that is, `-b ± sqrt(disc)`): the
/// parameter `num / (2 a)` as a scalar, rounded down.
pub open spec fn root_param(num: int, a: int) -> int {
    param_sat(num * SCALE as int / (2 * a))
}

impl Sphere {
    pub open spec fn wf(self) -> bool {
        self.center.wf() && in_range(self.radius as int) && self.material.wf()
    }

    /// The quadratic `a t^2 + b t + c` whose roots are the intersections, in raw units squared:
    /// `|co + t d|^2 = r^2` with `co = origin - center`.
    pub open spec fn quad_a(self, ray: Ray) -> int {
        ray.direction.norm_sq()
    }

    pub open spec fn quad_b(self, ray: Ray) -> int {
        let d = ray.direction;
        let o = ray.origin;
        let c = self.center;
        2 * ((o.x - c.x) * d.x + (o.y - c.y) * d.y + (o.z - c.z) * d.z)
    }

    pub open spec fn quad_c(self, ray: Ray) -> int {
        let o = ray.origin;
        let c = self.center;
        (o.x - c.x) * (o.x - c.x) + (o.y - c.y) * (o.y - c.y) + (o.z - c.z) * (o.z - c.z) - self.radius
            * self.radius
    }

    pub open spec fn discriminant(self, ray: Ray) -> int {
        let b = self.quad_b(ray);
        b * b - 4 * (self.quad_a(ray) * self.quad_c(ray))
    }

    /// The parameters at which the ray meets the sphere, ascending: none when the discriminant
    /// is negative (or the direction is zero), one when it is zero, two otherwise.
    pub open spec fn roots(self, ray: Ray) -> Seq<int> {
        let a = self.quad_a(ray);
        let b = self.quad_b(ray);
        let disc = self.discriminant(ray);
        if a == 0 || disc < 0 {
            seq![]
        } else if disc == 0 {
            seq![root_param(-b, a)]
        } else {
            let s = sqrt_floor(disc);
            seq![root_param(-b - s, a), root_param(-b + s, a)]
        }
    }

    /// Returns the values `t` where the ray intersects the sphere, in ascending order.
    pub fn intersect_ray(&self, ray: Ray) -> (r: Vec<i64>)
        requires
            self.wf(),
            ray.wf(),
        ensures
            r@.len() == self.roots(ray).len(),
            forall|i: int| 0 <= i < r@.len() ==> r@[i] == #[trigger] self.roots(ray)[i],
            r@.len() <= 2,
            r@.len() == 2 ==> r@[0] <= r@[1],
    {
        let o = ray.origin;
        let d = ray.direction;
        let c = self.center;
        let cox = o.x as i128 - c.x as i128;
        let coy = o.y as i128 - c.y as i128;
        let coz = o.z as i128 - c.z as i128;
        proof {
            lemma_prod_bound(cox as int, d.x as int, 0x2000_0000, 0x1000_0000);
            lemma_prod_bound(coy as int, d.y as int, 0x2000_0000, 0x1000_0000);
            lemma_prod_bound(coz as int, d.z as int, 0x2000_0000, 0x1000_0000);
            lemma_prod_bound(cox as int, cox as int, 0x2000_0000, 0x2000_0000);
            lemma_prod_bound(coy as int, coy as int, 0x2000_0000, 0x2000_0000);
            lemma_prod_bound(coz as int, coz as int, 0x2000_0000, 0x2000_0000);
            lemma_prod_bound(self.radius as int, self.radius as int, 0x1000_0000, 0x1000_0000);
            assert(cox * cox >= 0 && coy * coy >= 0 && coz * coz >= 0) by (nonlinear_arith);
            assert(self.radius * self.radius >= 0) by (nonlinear_arith);
        }
        let a = d.dot_exact(d);
        let b = 2 * (cox * d.x as i128 + coy * d.y as i128 + coz * d.z as i128);
        let cc = cox * cox + coy * coy + coz * coz - self.radius as i128 * self.radius as i128;
        assert(a == self.quad_a(ray));
        assert(b == self.quad_b(ray));
        assert(cc == self.quad_c(ray));
        if a == 0 {
            return Vec::new();
        }
        proof {
            assert(0 <= a <= 0x300_0000_0000_0000) by {
                assert(d.x * d.x >= 0 && d.y * d.y >= 0 && d.z * d.z >= 0) by (nonlinear_arith);
            }
            assert(-0xC00_0000_0000_0000 <= b <= 0xC00_0000_0000_0000);
            assert(-0xC00_0000_0000_0000 <= cc <= 0xC00_0000_0000_0000);
            lemma_prod_bound(b as int, b as int, 0xC00_0000_0000_0000, 0xC00_0000_0000_0000);
            lemma_prod_bound(a as int, cc as int, 0x300_0000_0000_0000, 0xC00_0000_0000_0000);
        }
        let disc = b * b - 4 * (a * cc);
        if disc < 0 {
            return Vec::new();
        }
        if disc == 0 {
            let t = root(-b, a);
            return vec![t];
        }
        let s = isqrt(disc as u128);
        proof {
            assert(s < 0x2000_0000_0000_0000) by (nonlinear_arith)
                requires
                    s * s <= disc,
                    disc < 0x200_0000_0000_0000_0000_0000_0000_0000,
                    s >= 0,
            ;
        }
        let s = s as i128;
        let t1 = root(-b - s, a);
        let t2 = root(-b + s, a);
        proof {
            vstd::arithmetic::div_mod::lemma_div_is_ordered(
                (-b - s) * SCALE as int,
                (-b + s) * SCALE as int,
                2 * a,
            );
        }
        vec![t1, t2]
    }
}

/// `|d|^2` times the squared distance from the center to the ray's line, in raw units to the
/// fourth: `|d|^2 |co|^2 - (co . d)^2` with `co = origin - center`.
pub open spec fn offset_sq_scaled(s: Sphere, ray: Ray) -> int {
    let o = ray.origin;
    let c = s.center;
    let co = (o.x - c.x) * (o.x - c.x) + (o.y - c.y) * (o.y - c.y) + (o.z - c.z) * (o.z - c.z);
    let cd = s.quad_b(ray) / 2;
    ray.direction.norm_sq() * co - cd * cd
}

proof fn lemma_discriminant_offset(s: Sphere, ray: Ray)
    ensures
        s.discriminant(ray) == 4 * (s.quad_a(ray) * (s.radius * s.radius) - offset_sq_scaled(s, ray)),
{
    let o = ray.origin;
    let c = s.center;
    let d = ray.direction;
    let x = (o.x - c.x) * d.x + (o.y - c.y) * d.y + (o.z - c.z) * d.z;
    let co = (o.x - c.x) * (o.x - c.x) + (o.y - c.y) * (o.y - c.y) + (o.z - c.z) * (o.z - c.z);
    let a = s.quad_a(ray);
    let rr = s.radius * s.radius;
    assert(s.quad_b(ray) == 2 * x);
    assert(s.quad_b(ray) / 2 == x);
    assert(s.quad_c(ray) == co - rr);
    assert((2 * x) * (2 * x) - 4 * (a * (co - rr)) == 4 * (a * rr - (a * co - x * x)))
        by (nonlinear_arith);
}

/// A ray along the z axis from the origin meets a sphere centered on that axis at distance `d`
/// and of radius `r < d` exactly at `d - r` and `d + r`, in that order.
pub proof fn lemma_axis_roots(d: i64, r: i64, m: Material)
    requires
        0 < r < d <= LIMIT,
    ensures
        (Sphere { center: Vec3 { x: 0, y: 0, z: d }, radius: r, material: m }).roots(
            Ray { origin: Vec3 { x: 0, y: 0, z: 0 }, direction: Vec3 { x: 0, y: 0, z: SCALE } },
        ) == seq![d - r, d + r],
{
    let s = Sphere { center: Vec3 { x: 0, y: 0, z: d }, radius: r, material: m };
    let ray = Ray { origin: Vec3 { x: 0, y: 0, z: 0 }, direction: Vec3 { x: 0, y: 0, z: SCALE } };
    let q = SCALE as int;
    let di = d as int;
    let ri = r as int;
    assert(s.quad_a(ray) == q * q);
    assert(s.quad_b(ray) == 2 * ((-di) * q));
    assert(s.quad_c(ray) == (-di) * (-di) - ri * ri);
    let b = s.quad_b(ray);
    assert(s.discriminant(ray) == (2 * ri * q) * (2 * ri * q)) by (nonlinear_arith)
        requires
            s.discriminant(ray) == b * b - 4 * ((q * q) * ((-di) * (-di) - ri * ri)),
            b == 2 * ((-di) * q),
    ;
    let sq = 2 * ri * q;
    assert(sq > 0) by (nonlinear_arith)
        requires
            ri > 0,
            q > 0,
            sq == 2 * ri * q,
    ;
    assert(is_sqrt_floor(sq * sq, sq)) by (nonlinear_arith)
        requires
            sq > 0,
    ;
    crate::fixed::lemma_sqrt_floor_is(sq * sq, sq);
    assert(-b - sq == 2 * q * (di - ri)) by (nonlinear_arith)
        requires
            b == 2 * ((-di) * q),
            sq == 2 * ri * q,
    ;
    assert(-b + sq == 2 * q * (di + ri)) by (nonlinear_arith)
        requires
            b == 2 * ((-di) * q),
            sq == 2 * ri * q,
    ;
    assert((2 * q * (di - ri)) * q == (di - ri) * (2 * (q * q))) by (nonlinear_arith);
    assert((2 * q * (di + ri)) * q == (di + ri) * (2 * (q * q))) by (nonlinear_arith);
    vstd::arithmetic::div_mod::lemma_div_multiples_vanish(di - ri, 2 * (q * q));
    vstd::arithmetic::div_mod::lemma_div_multiples_vanish(di + ri, 2 * (q * q));
    let a = s.quad_a(ray);
    assert(a == q * q);
    assert(s.discriminant(ray) > 0) by (nonlinear_arith)
        requires
            s.discriminant(ray) == sq * sq,
            sq > 0,
    ;
    assert(sqrt_floor(s.discriminant(ray)) == sq);
    assert((-b - sq) * q / (2 * a) == di - ri);
    assert((-b + sq) * q / (2 * a) == di + ri);
    assert(root_param(-b - sq, a) == di - ri);
    assert(root_param(-b + sq, a) == di + ri);
    assert(s.roots(ray) =~= seq![d - r, d + r]);
}

/// A sphere whose center lies farther from the ray's line than its radius is never hit.
pub proof fn lemma_miss(s: Sphere, ray: Ray)
    requires
        offset_sq_scaled(s, ray) > s.quad_a(ray) * (s.radius * s.radius),
    ensures
        s.roots(ray).len() == 0,
{
    lemma_discriminant_offset(s, ray);
}

/// A sphere whose center lies exactly its radius away from the line of a ray with a nonzero
/// direction is touched once.
pub proof fn lemma_tangent(s: Sphere, ray: Ray)
    requires
        ray.direction.norm_sq() != 0,
        offset_sq_scaled(s, ray) == s.quad_a(ray) * (s.radius * s.radius),
    ensures
        s.roots(ray).len() == 1,
{
    lemma_discriminant_offset(s, ray);
}

/// The parameter `num / (2 a)` as a scalar, rounded down.
fn root(num: i128, a: i128) -> (t: i64)
    requires
        0 < a <= 3 * LIMIT * LIMIT,
        -0x4000_0000_0000_0000 < num < 0x4000_0000_0000_0000,
    ensures
        t == root_param(num as int, a as int),
{
    proof {
        lemma_prod_bound(num as int, SCALE as int, 0x4000_0000_0000_0000, SCALE as int);
    }
    saturate_param(div_floor(num * SCALE as i128, 2 * a))
}

} // verus!
