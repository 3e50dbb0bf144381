//! The recursive ray tracer: closest hits, lighting, reflections.
use vstd::prelude::*;
use std::ops::Range;
use crate::canvas::{Canvas, in_bounds, x_of, y_of, lemma_index_of};
use crate::color::Color;
use crate::fixed::{
    in_range, sat, fmul, fpow, fx_mul, fx_pow, fx_add, fx_sub, saturate, div_floor,
    lemma_prod_bound, SCALE, LIMIT,
};
use crate::ray::Ray;
use crate::scene::{LightSource, Light, Scene, Sphere};
use crate::vec3::{Vec3, vsat};

verus! {

/// Smallest parameter of a shadow or reflection ray, against self-intersection (0.001).
pub const EPSILON: i64 = 10;

/// `t` is a parameter in `[lo, hi)` at which the ray meets sphere `i`.
pub open spec fn is_hit(spheres: Seq<Sphere>, ray: Ray, lo: int, hi: int, i: int, t: int) -> bool {
    &&& 0 <= i < spheres.len()
    &&& spheres[i].roots(ray).contains(t)
    &&& lo <= t < hi
}

/// Sphere `i` at `t` is the closest hit, and no sphere before `i` is hit at `t`.
pub open spec fn is_nearest(
    spheres: Seq<Sphere>,
    ray: Ray,
    lo: int,
    hi: int,
    i: int,
    t: int,
) -> bool {
    &&& is_hit(spheres, ray, lo, hi, i, t)
    &&& forall|j: int, u: int| #[trigger] is_hit(spheres, ray, lo, hi, j, u) ==> t <= u
    &&& forall|j: int, u: int| 0 <= j < i && #[trigger] is_hit(spheres, ray, lo, hi, j, u) ==> t < u
}

/// The index and parameter of the closest hit, if any.
pub open spec fn nearest(spheres: Seq<Sphere>, ray: Ray, lo: int, hi: int) -> Option<(int, int)> {
    if exists|i: int, t: int| is_nearest(spheres, ray, lo, hi, i, t) {
        Some(choose|i: int, t: int| is_nearest(spheres, ray, lo, hi, i, t))
    } else {
        None
    }
}

/// The closest sphere hit and its parameter, if any.
pub open spec fn closest(spheres: Seq<Sphere>, ray: Ray, lo: int, hi: int) -> Option<(Sphere, int)> {
    match nearest(spheres, ray, lo, hi) {
        Some((i, t)) => Some((spheres[i], t)),
        None => None,
    }
}

pub proof fn lemma_nearest_unique(
    spheres: Seq<Sphere>,
    ray: Ray,
    lo: int,
    hi: int,
    i: int,
    t: int,
    j: int,
    u: int,
)
    requires
        is_nearest(spheres, ray, lo, hi, i, t),
        is_nearest(spheres, ray, lo, hi, j, u),
    ensures
        i == j,
        t == u,
{
    assert(is_hit(spheres, ray, lo, hi, j, u));
    assert(is_hit(spheres, ray, lo, hi, i, t));
    assert(t <= u && u <= t);
    if i < j {
        assert(u < t);
    } else if j < i {
        assert(t < u);
    }
}

/// Any closest hit is the one that `nearest` names.
pub proof fn lemma_nearest_is(spheres: Seq<Sphere>, ray: Ray, lo: int, hi: int, i: int, t: int)
    requires
        is_nearest(spheres, ray, lo, hi, i, t),
    ensures
        nearest(spheres, ray, lo, hi) == Some((i, t)),
{
    let (ci, ct) = choose|i: int, t: int| is_nearest(spheres, ray, lo, hi, i, t);
    lemma_nearest_unique(spheres, ray, lo, hi, i, t, ci, ct);
}

/// The least parameter at which sphere `k` is hit, if it is hit at all.
proof fn lemma_least_root(spheres: Seq<Sphere>, ray: Ray, lo: int, hi: int, k: int) -> (r: Option<int>)
    requires
        0 <= k < spheres.len(),
    ensures
        r is None ==> forall|u: int| !#[trigger] is_hit(spheres, ray, lo, hi, k, u),
        r matches Some(u) ==> is_hit(spheres, ray, lo, hi, k, u) && forall|w: int|
            #[trigger] is_hit(spheres, ray, lo, hi, k, w) ==> u <= w,
{
    let rs = spheres[k].roots(ray);
    assert(rs.len() <= 2);
    let in0 = rs.len() >= 1 && lo <= rs[0] < hi;
    let in1 = rs.len() >= 2 && lo <= rs[1] < hi;
    assert forall|w: int| #[trigger] is_hit(spheres, ray, lo, hi, k, w) implies (in0 && rs[0] == w) || (in1
        && rs[1] == w) by {
        let q = choose|q: int| 0 <= q < rs.len() && rs[q] == w;
        assert(q == 0 || q == 1);
    }
    if in0 && (!in1 || rs[0] <= rs[1]) {
        assert(rs.contains(rs[0]));
        assert(is_hit(spheres, ray, lo, hi, k, rs[0]));
        Some(rs[0])
    } else if in1 {
        assert(rs.contains(rs[1]));
        assert(is_hit(spheres, ray, lo, hi, k, rs[1]));
        Some(rs[1])
    } else {
        None
    }
}

/// Whenever a sphere is hit, some hit is the closest.
pub proof fn lemma_nearest_exists(spheres: Seq<Sphere>, ray: Ray, lo: int, hi: int, i: int, t: int)
    requires
        is_hit(spheres, ray, lo, hi, i, t),
    ensures
        exists|j: int, u: int| is_nearest(spheres, ray, lo, hi, j, u),
        nearest(spheres, ray, lo, hi) is Some,
    decreases spheres.len(),
{
    let n = spheres.len() - 1;
    let pre = spheres.drop_last();
    assert forall|j: int, u: int| 0 <= j < n implies #[trigger] is_hit(spheres, ray, lo, hi, j, u)
        == is_hit(pre, ray, lo, hi, j, u) by {
        assert(pre[j] == spheres[j]);
    }
    let last = lemma_least_root(spheres, ray, lo, hi, n);
    if exists|j: int, u: int| is_hit(pre, ray, lo, hi, j, u) {
        let (j, u) = choose|j: int, u: int| is_hit(pre, ray, lo, hi, j, u);
        lemma_nearest_exists(pre, ray, lo, hi, j, u);
        let (j0, t0) = choose|j: int, u: int| is_nearest(pre, ray, lo, hi, j, u);
        assert(is_hit(pre, ray, lo, hi, j0, t0));
        assert(is_hit(spheres, ray, lo, hi, j0, t0));
        match last {
            Some(u1) => {
                if u1 < t0 {
                    assert forall|j: int, u: int| #[trigger] is_hit(spheres, ray, lo, hi, j, u) implies u1 <= u by {
                        if j < n {
                            assert(is_hit(pre, ray, lo, hi, j, u));
                        }
                    }
                    assert(is_nearest(spheres, ray, lo, hi, n, u1));
                } else {
                    assert forall|j: int, u: int| #[trigger] is_hit(spheres, ray, lo, hi, j, u) implies t0 <= u by {
                        if j < n {
                            assert(is_hit(pre, ray, lo, hi, j, u));
                        }
                    }
                    assert forall|j: int, u: int| 0 <= j < j0 && #[trigger] is_hit(spheres, ray, lo, hi, j, u) implies t0 < u by {
                        assert(is_hit(pre, ray, lo, hi, j, u));
                    }
                    assert(is_nearest(spheres, ray, lo, hi, j0, t0));
                }
            },
            None => {
                assert forall|j: int, u: int| #[trigger] is_hit(spheres, ray, lo, hi, j, u) implies t0 <= u by {
                    if j < n {
                        assert(is_hit(pre, ray, lo, hi, j, u));
                    }
                }
                assert forall|j: int, u: int| 0 <= j < j0 && #[trigger] is_hit(spheres, ray, lo, hi, j, u) implies t0 < u by {
                    assert(is_hit(pre, ray, lo, hi, j, u));
                }
                assert(is_nearest(spheres, ray, lo, hi, j0, t0));
            },
        }
    } else {
        if i < n {
            assert(is_hit(pre, ray, lo, hi, i, t));
        }
        let u1 = last.unwrap();
        assert forall|j: int, u: int| 0 <= j < n implies !#[trigger] is_hit(spheres, ray, lo, hi, j, u) by {
            if is_hit(spheres, ray, lo, hi, j, u) {
                assert(is_hit(pre, ray, lo, hi, j, u));
            }
        }
        assert(is_nearest(spheres, ray, lo, hi, n, u1));
    }
}

/// Finds the first intersection between the ray and a sphere of the scene.
///
/// Among the parameters `t` in `t_range` at which the ray meets a sphere, the smallest is
/// selected; of several spheres hit at that `t`, the first in the scene wins.
pub fn closest_intersection(scene: &Scene, ray: Ray, t_range: Range<i64>) -> (r: Option<(Sphere, i64)>)
    requires
        scene.wf(),
        ray.wf(),
    ensures
        r is None <==> !exists|i: int, t: int|
            is_hit(scene.spheres@, ray, t_range.start as int, t_range.end as int, i, t),
        r matches Some((s, t)) ==> exists|i: int|
            is_nearest(scene.spheres@, ray, t_range.start as int, t_range.end as int, i, t as int)
                && scene.spheres@[i] == s,
        match r {
            Some((s, t)) => closest(scene.spheres@, ray, t_range.start as int, t_range.end as int)
                == Some((s, t as int)),
            None => closest(scene.spheres@, ray, t_range.start as int, t_range.end as int) is None,
        },
{
    let ghost sp = scene.spheres@;
    let ghost lo = t_range.start as int;
    let ghost hi = t_range.end as int;
    let mut closest: Option<(Sphere, i64)> = None;
    let ghost mut best: int = -1;
    let mut k: usize = 0;
    while k < scene.spheres.len()
        invariant
            scene.wf(),
            ray.wf(),
            sp == scene.spheres@,
            lo == t_range.start,
            hi == t_range.end,
            k <= sp.len(),
            closest is None ==> forall|j: int, u: int| 0 <= j < k ==> !#[trigger] is_hit(sp, ray, lo, hi, j, u),
            closest matches Some((s, t)) ==> {
                &&& 0 <= best < k
                &&& sp[best] == s
                &&& is_hit(sp, ray, lo, hi, best, t as int)
                &&& forall|j: int, u: int| 0 <= j < k && #[trigger] is_hit(sp, ray, lo, hi, j, u) ==> t <= u
                &&& forall|j: int, u: int| 0 <= j < best && #[trigger] is_hit(sp, ray, lo, hi, j, u) ==> t < u
            },
        decreases sp.len() - k,
    {
        let sphere = scene.spheres[k];
        let ts = sphere.intersect_ray(ray);
        let ghost roots = sphere.roots(ray);
        let mut m: usize = 0;
        while m < ts.len()
            invariant
                scene.wf(),
                ray.wf(),
                sp == scene.spheres@,
                lo == t_range.start,
                hi == t_range.end,
                k < sp.len(),
                sphere == sp[k as int],
                roots == sphere.roots(ray),
                ts@.len() == roots.len(),
                forall|q: int| 0 <= q < ts@.len() ==> ts@[q] == #[trigger] roots[q],
                m <= ts@.len(),
                closest is None ==> {
                    &&& forall|j: int, u: int| 0 <= j < k ==> !#[trigger] is_hit(sp, ray, lo, hi, j, u)
                    &&& forall|q: int| 0 <= q < m ==> !(lo <= #[trigger] roots[q] < hi)
                },
                closest matches Some((s, t)) ==> {
                    &&& 0 <= best <= k
                    &&& sp[best] == s
                    &&& is_hit(sp, ray, lo, hi, best, t as int)
                    &&& forall|j: int, u: int| 0 <= j < k && #[trigger] is_hit(sp, ray, lo, hi, j, u) ==> t <= u
                    &&& forall|q: int| 0 <= q < m && lo <= #[trigger] roots[q] < hi ==> t <= roots[q]
                    &&& forall|j: int, u: int| 0 <= j < best && #[trigger] is_hit(sp, ray, lo, hi, j, u) ==> t < u
                },
            decreases ts@.len() - m,
        {
            let t = ts[m];
            if t_range.start <= t && t < t_range.end {
                let better = match closest {
                    None => true,
                    Some((_, ct)) => t < ct,
                };
                if better {
                    proof {
                        assert(roots[m as int] == t);
                        assert(roots.contains(t as int));
                        assert(is_hit(sp, ray, lo, hi, k as int, t as int));
                        best = k as int;
                    }
                    closest = Some((sphere, t));
                }
            }
            m += 1;
        }
        proof {
            assert forall|u: int| #[trigger] is_hit(sp, ray, lo, hi, k as int, u) implies exists|q: int|
                0 <= q < roots.len() && roots[q] == u && lo <= roots[q] < hi by {}
        }
        k += 1;
    }
    proof {
        match closest {
            Some((s, t)) => {
                assert(is_nearest(sp, ray, lo, hi, best, t as int));
                lemma_nearest_is(sp, ray, lo, hi, best, t as int);
            },
            None => {
                assert(!exists|i: int, t: int| is_nearest(sp, ray, lo, hi, i, t));
            },
        }
    }
    closest
}

/// The mirror image of `r` about the normal `n`: `r - 2 n (n . r)`, with the normal taken as
/// a unit vector.
pub open spec fn reflection(r: Vec3, n: Vec3) -> Vec3 {
    let nr = n.dot_raw(r);
    let ss = SCALE * SCALE;
    vsat(r.x - 2 * n.x * nr / ss, r.y - 2 * n.y * nr / ss, r.z - 2 * n.z * nr / ss)
}

/// Calculates how a ray would be reflected by a surface, given the surface normal.
pub fn reflect_ray(r: Vec3, n: Vec3) -> (out: Vec3)
    requires
        r.wf(),
        n.wf(),
    ensures
        out == reflection(r, n),
        out.wf(),
{
    let nr = n.dot_exact(r);
    let ss: i128 = 100_000_000;
    assert(ss == SCALE * SCALE);
    proof {
        let b = 0x3_0000_0000_0000_0000;
        lemma_prod_bound(n.x as int, nr as int, LIMIT as int, b);
        lemma_prod_bound(n.y as int, nr as int, LIMIT as int, b);
        lemma_prod_bound(n.z as int, nr as int, LIMIT as int, b);
        assert(2 * n.x * nr == 2 * (n.x * nr)) by (nonlinear_arith);
        assert(2 * n.y * nr == 2 * (n.y * nr)) by (nonlinear_arith);
        assert(2 * n.z * nr == 2 * (n.z * nr)) by (nonlinear_arith);
    }
    Vec3 {
        x: saturate(r.x as i128 - div_floor(2 * (n.x as i128 * nr), ss)),
        y: saturate(r.y as i128 - div_floor(2 * (n.y as i128 * nr), ss)),
        z: saturate(r.z as i128 - div_floor(2 * (n.z as i128 * nr), ss)),
    }
}

/// `x` raised to the power `e`; a negative power is the reciprocal, which saturates when the
/// positive power is not above zero.
pub open spec fn power(x: int, e: int) -> int {
    if e >= 0 {
        fpow(x, e as nat)
    } else {
        let y = fpow(x, (-e) as nat);
        if y > 0 {
            sat(SCALE * SCALE / y)
        } else {
            LIMIT as int
        }
    }
}

/// Diffuse reflection: `intensity * max(0, n . l) / (|n| |l|)`.
pub open spec fn diffuse(intensity: int, n: Vec3, l: Vec3) -> int {
    let nl = n.dot_raw(l);
    if nl > 0 {
        sat(intensity * nl / (n.length() * l.length()))
    } else {
        0
    }
}

/// Specular reflection: `intensity * (max(0, r . v) / (|r| |v|))^e`, where `r` is `-l`
/// reflected about `n`; nothing when there is no exponent.
pub open spec fn specular(intensity: int, n: Vec3, l: Vec3, v: Vec3, e: Option<i32>) -> int {
    match e {
        None => 0,
        Some(e) => {
            let r = reflection(l.negation(), n);
            let rv = r.dot_raw(v);
            if rv > 0 {
                fmul(intensity, power(sat(rv * SCALE / (r.length() * v.length())), e as int))
            } else {
                0
            }
        },
    }
}

/// Light arriving along `l` at `p`: nothing when a sphere lies in the way within
/// `[EPSILON, t_max)`, else the diffuse and specular terms.
pub open spec fn directed_light(
    spheres: Seq<Sphere>,
    intensity: int,
    l: Vec3,
    t_max: int,
    p: Vec3,
    n: Vec3,
    v: Vec3,
    e: Option<i32>,
) -> int {
    if closest(spheres, Ray { origin: p, direction: l }, EPSILON as int, t_max) is Some {
        0
    } else {
        sat(diffuse(intensity, n, l) + specular(intensity, n, l, v, e))
    }
}

/// The vector from `p` toward a point or directional source.
pub open spec fn to_light(source: LightSource, p: Vec3) -> Vec3 {
    match source {
        LightSource::Point { position } => position.minus(p),
        LightSource::Directional { direction } => direction,
        LightSource::Ambient => Vec3 { x: 0, y: 0, z: 0 },
    }
}

/// Where the shadow test along `to_light` stops: at the light for a point source (one), never
/// for a directional one.
pub open spec fn shadow_limit(source: LightSource) -> int {
    match source {
        LightSource::Point { .. } => SCALE as int,
        _ => i64::MAX as int,
    }
}

/// What one light contributes at point `p` with normal `n`, seen from direction `v`.
pub open spec fn light_intensity(
    spheres: Seq<Sphere>,
    light: Light,
    p: Vec3,
    n: Vec3,
    v: Vec3,
    e: Option<i32>,
) -> int {
    match light.source {
        LightSource::Ambient => light.intensity as int,
        _ => directed_light(
            spheres,
            light.intensity as int,
            to_light(light.source, p),
            shadow_limit(light.source),
            p,
            n,
            v,
            e,
        ),
    }
}

/// The sum of what the lights contribute, saturated after each light.
pub open spec fn lighting(
    spheres: Seq<Sphere>,
    lights: Seq<Light>,
    p: Vec3,
    n: Vec3,
    v: Vec3,
    e: Option<i32>,
) -> int
    decreases lights.len(),
{
    if lights.len() == 0 {
        0
    } else {
        sat(
            lighting(spheres, lights.drop_last(), p, n, v, e) + light_intensity(
                spheres,
                lights.last(),
                p,
                n,
                v,
                e,
            ),
        )
    }
}

proof fn lemma_zero_norm(v: Vec3)
    requires
        v.norm_sq() == 0,
    ensures
        v.x == 0 && v.y == 0 && v.z == 0,
{
    assert(v.x == 0 && v.y == 0 && v.z == 0) by (nonlinear_arith)
        requires
            v.x * v.x + v.y * v.y + v.z * v.z == 0,
    ;
}

fn power_of(x: i64, e: i32) -> (r: i64)
    requires
        in_range(x as int),
    ensures
        r == power(x as int, e as int),
        in_range(r as int),
{
    if e >= 0 {
        fx_pow(x, e as u32)
    } else {
        let k = (-(e as i64)) as u32;
        let y = fx_pow(x, k);
        if y > 0 {
            saturate(div_floor(100_000_000, y as i128))
        } else {
            LIMIT
        }
    }
}

fn diffuse_of(intensity: i64, n: Vec3, l: Vec3) -> (r: i64)
    requires
        in_range(intensity as int),
        n.wf(),
        l.wf(),
    ensures
        r == diffuse(intensity as int, n, l),
        in_range(r as int),
{
    let nl = n.dot_exact(l);
    if nl > 0 {
        let ln = n.len();
        let ll = l.len();
        proof {
            if ln == 0 {
                lemma_zero_norm(n);
            }
            if ll == 0 {
                lemma_zero_norm(l);
            }
            lemma_prod_bound(ln as int, ll as int, LIMIT as int, LIMIT as int);
            assert(ln * ll > 0) by (nonlinear_arith)
                requires
                    ln > 0,
                    ll > 0,
            ;
            lemma_prod_bound(intensity as int, nl as int, LIMIT as int, 0x3_0000_0000_0000_0000);
        }
        saturate(div_floor(intensity as i128 * nl, ln as i128 * ll as i128))
    } else {
        0
    }
}

fn specular_of(intensity: i64, n: Vec3, l: Vec3, v: Vec3, e: Option<i32>) -> (r: i64)
    requires
        in_range(intensity as int),
        n.wf(),
        l.wf(),
        v.wf(),
    ensures
        r == specular(intensity as int, n, l, v, e),
        in_range(r as int),
{
    match e {
        None => 0,
        Some(e) => {
            let r = reflect_ray(l.neg(), n);
            let rv = r.dot_exact(v);
            if rv > 0 {
                let lr = r.len();
                let lv = v.len();
                proof {
                    if lr == 0 {
                        lemma_zero_norm(r);
                    }
                    if lv == 0 {
                        lemma_zero_norm(v);
                    }
                    lemma_prod_bound(lr as int, lv as int, LIMIT as int, LIMIT as int);
                    assert(lr * lv > 0) by (nonlinear_arith)
                        requires
                            lr > 0,
                            lv > 0,
                    ;
                    lemma_prod_bound(rv as int, SCALE as int, 0x3_0000_0000_0000_0000, SCALE as int);
                }
                let cos = saturate(div_floor(rv * SCALE as i128, lr as i128 * lv as i128));
                fx_mul(intensity, power_of(cos, e))
            } else {
                0
            }
        },
    }
}

/// Light from a point or directional source along `l`, with the shadow test.
fn directed_light_of(
    scene: &Scene,
    intensity: i64,
    l: Vec3,
    t_max: i64,
    p: Vec3,
    n: Vec3,
    v: Vec3,
    e: Option<i32>,
) -> (r: i64)
    requires
        scene.wf(),
        in_range(intensity as int),
        l.wf(),
        p.wf(),
        n.wf(),
        v.wf(),
    ensures
        r == directed_light(scene.spheres@, intensity as int, l, t_max as int, p, n, v, e),
        in_range(r as int),
{
    let ray = Ray { origin: p, direction: l };
    if closest_intersection(scene, ray, EPSILON..t_max).is_some() {
        return 0;
    }
    fx_add(diffuse_of(intensity, n, l), specular_of(intensity, n, l, v, e))
}

/// Computes the light intensity at a point on a surface of the scene, with shadows but without
/// reflections.
///
/// `p` and `n` are the point and its surface normal; `v` is the direction toward the camera and
/// `specular` the material's specular exponent, if it has one.
pub fn compute_lighting(scene: &Scene, p: Vec3, n: Vec3, v: Vec3, specular: Option<i32>) -> (r: i64)
    requires
        scene.wf(),
        p.wf(),
        n.wf(),
        v.wf(),
    ensures
        r == lighting(scene.spheres@, scene.lights@, p, n, v, specular),
        in_range(r as int),
{
    let mut i: i64 = 0;
    let mut k: usize = 0;
    while k < scene.lights.len()
        invariant
            scene.wf(),
            p.wf(),
            n.wf(),
            v.wf(),
            k <= scene.lights@.len(),
            i == lighting(scene.spheres@, scene.lights@.subrange(0, k as int), p, n, v, specular),
            in_range(i as int),
        decreases scene.lights@.len() - k,
    {
        let light = scene.lights[k];
        assert(light.wf());
        let intensity = light.intensity;
        let c = match light.source {
            LightSource::Ambient => intensity,
            LightSource::Point { position } => directed_light_of(
                scene,
                intensity,
                position.sub(p),
                SCALE,
                p,
                n,
                v,
                specular,
            ),
            LightSource::Directional { direction } => directed_light_of(
                scene,
                intensity,
                direction,
                i64::MAX,
                p,
                n,
                v,
                specular,
            ),
        };
        assert(scene.lights@.subrange(0, k + 1).drop_last() == scene.lights@.subrange(0, k as int));
        i = fx_add(i, c);
        k += 1;
    }
    assert(scene.lights@.subrange(0, k as int) == scene.lights@);
    i
}

/// The blend of a local color and a reflected one: `local (1 - k) + reflected k`.
pub open spec fn blend(local: Color, reflected: Color, k: int) -> Color {
    local.times(sat(SCALE - k)).plus(reflected.times(k))
}

/// The color of sphere `s` where `ray` hits it at `t`, lit by the scene, without reflections.
pub open spec fn local_color(scene: &Scene, ray: Ray, s: Sphere, t: int) -> Color {
    let p = ray.point_at(t);
    let n = p.minus(s.center).unit();
    let m = s.material;
    m.color.times(lighting(scene.spheres@, scene.lights@, p, n, ray.direction.negation(), m.specular))
}

/// The mirror ray leaving sphere `s` where `ray` hits it at `t`.
pub open spec fn bounce(ray: Ray, s: Sphere, t: int) -> Ray {
    let p = ray.point_at(t);
    let n = p.minus(s.center).unit();
    Ray { origin: p, direction: reflection(ray.direction, n) }
}

/// The color seen along `ray` over parameters `[lo, hi)`, with at most `depth` reflections.
pub open spec fn trace(scene: &Scene, ray: Ray, lo: int, hi: int, depth: int) -> Color
    decreases depth,
{
    match closest(scene.spheres@, ray, lo, hi) {
        None => scene.background_color,
        Some((s, t)) => {
            let local = local_color(scene, ray, s, t);
            if depth <= 0 || s.material.reflective <= 0 {
                local
            } else {
                let reflected = trace(scene, bounce(ray, s, t), EPSILON as int, i64::MAX as int, depth - 1);
                blend(local, reflected, s.material.reflective as int)
            }
        },
    }
}

/// A ray that meets no sphere in `[lo, hi)` sees exactly the background color, whatever the
/// depth.
pub proof fn lemma_background(scene: &Scene, ray: Ray, lo: int, hi: int, depth: int)
    requires
        !exists|i: int, t: int| is_hit(scene.spheres@, ray, lo, hi, i, t),
    ensures
        trace(scene, ray, lo, hi, depth) == scene.background_color,
{
    assert(nearest(scene.spheres@, ray, lo, hi) is None);
}

/// Reflection splits the color between the surface and its mirror image: at depth zero, or on
/// a surface that does not reflect, the color is the local one; otherwise it is the local color
/// weighted by `1 - r` plus what the mirror ray sees, one level shallower, weighted by `r`.
pub proof fn lemma_reflection_split(scene: &Scene, ray: Ray, lo: int, hi: int, s: Sphere, t: int, depth: int)
    requires
        closest(scene.spheres@, ray, lo, hi) == Some((s, t)),
    ensures
        trace(scene, ray, lo, hi, 0) == local_color(scene, ray, s, t),
        s.material.reflective <= 0 ==> trace(scene, ray, lo, hi, depth) == local_color(scene, ray, s, t),
        depth >= 1 && s.material.reflective > 0 ==> trace(scene, ray, lo, hi, depth) == blend(
            local_color(scene, ray, s, t),
            trace(scene, bounce(ray, s, t), EPSILON as int, i64::MAX as int, depth - 1),
            s.material.reflective as int,
        ),
{
}

/// With one reflection, a reflective sphere whose mirror ray hits a second sphere shows its own
/// local color weighted by `1 - r` plus the second sphere's local color weighted by `r`.
pub proof fn lemma_one_bounce(
    scene: &Scene,
    ray: Ray,
    lo: int,
    hi: int,
    s: Sphere,
    t: int,
    s2: Sphere,
    t2: int,
)
    requires
        closest(scene.spheres@, ray, lo, hi) == Some((s, t)),
        s.material.reflective > 0,
        closest(scene.spheres@, bounce(ray, s, t), EPSILON as int, i64::MAX as int) == Some((s2, t2)),
    ensures
        trace(scene, ray, lo, hi, 1) == blend(
            local_color(scene, ray, s, t),
            local_color(scene, bounce(ray, s, t), s2, t2),
            s.material.reflective as int,
        ),
{
    lemma_reflection_split(scene, bounce(ray, s, t), EPSILON as int, i64::MAX as int, s2, t2, 0);
}

/// Under a single ambient light of intensity `k`, the lighting is `k` at every point, for every
/// normal, view direction and exponent.
pub proof fn lemma_ambient_only(spheres: Seq<Sphere>, k: i64, p: Vec3, n: Vec3, v: Vec3, e: Option<i32>)
    requires
        in_range(k as int),
    ensures
        lighting(spheres, seq![Light { intensity: k, source: LightSource::Ambient }], p, n, v, e) == k,
{
    let ls = seq![Light { intensity: k, source: LightSource::Ambient }];
    assert(ls.drop_last().len() == 0);
    assert(lighting(spheres, ls.drop_last(), p, n, v, e) == 0);
    assert(ls.last() == Light { intensity: k, source: LightSource::Ambient });
}

/// A point or directional light whose way from `p` is blocked by a sphere contributes nothing
/// at `p`.
pub proof fn lemma_shadowed(
    spheres: Seq<Sphere>,
    light: Light,
    p: Vec3,
    n: Vec3,
    v: Vec3,
    e: Option<i32>,
    i: int,
    t: int,
)
    requires
        !(light.source is Ambient),
        is_hit(
            spheres,
            Ray { origin: p, direction: to_light(light.source, p) },
            EPSILON as int,
            shadow_limit(light.source),
            i,
            t,
        ),
    ensures
        light_intensity(spheres, light, p, n, v, e) == 0,
        lighting(spheres, seq![light], p, n, v, e) == 0,
{
    lemma_nearest_exists(
        spheres,
        Ray { origin: p, direction: to_light(light.source, p) },
        EPSILON as int,
        shadow_limit(light.source),
        i,
        t,
    );
    let ls = seq![light];
    assert(ls.drop_last().len() == 0);
    assert(lighting(spheres, ls.drop_last(), p, n, v, e) == 0);
    assert(ls.last() == light);
}

/// Reflecting a vector that is a multiple of a unit normal reverses it.
pub proof fn lemma_reflect_aligned(r: Vec3, n: Vec3, k: int)
    requires
        r.wf(),
        n.norm_sq() == SCALE * SCALE,
        r.x == k * n.x,
        r.y == k * n.y,
        r.z == k * n.z,
    ensures
        reflection(r, n) == r.negation(),
{
    let ss = SCALE * SCALE;
    let nr = n.dot_raw(r);
    assert(nr == k * n.norm_sq()) by (nonlinear_arith)
        requires
            r.x == k * n.x,
            r.y == k * n.y,
            r.z == k * n.z,
            nr == n.x * r.x + n.y * r.y + n.z * r.z,
    ;
    assert(2 * n.x * nr == (2 * k * n.x) * ss) by (nonlinear_arith)
        requires
            nr == k * ss,
    ;
    assert(2 * n.y * nr == (2 * k * n.y) * ss) by (nonlinear_arith)
        requires
            nr == k * ss,
    ;
    assert(2 * n.z * nr == (2 * k * n.z) * ss) by (nonlinear_arith)
        requires
            nr == k * ss,
    ;
    vstd::arithmetic::div_mod::lemma_div_multiples_vanish(2 * k * n.x, ss);
    vstd::arithmetic::div_mod::lemma_div_multiples_vanish(2 * k * n.y, ss);
    vstd::arithmetic::div_mod::lemma_div_multiples_vanish(2 * k * n.z, ss);
    assert(r.x - (2 * k * n.x) == -r.x) by (nonlinear_arith)
        requires
            r.x == k * n.x,
    ;
    assert(r.y - (2 * k * n.y) == -r.y) by (nonlinear_arith)
        requires
            r.y == k * n.y,
    ;
    assert(r.z - (2 * k * n.z) == -r.z) by (nonlinear_arith)
        requires
            r.z == k * n.z,
    ;
}

/// Reflecting a vector perpendicular to the normal leaves it unchanged.
pub proof fn lemma_reflect_perpendicular(r: Vec3, n: Vec3)
    requires
        r.wf(),
        n.dot_raw(r) == 0,
    ensures
        reflection(r, n) == r,
{
    assert(2 * n.x * 0 == 0 && 2 * n.y * 0 == 0 && 2 * n.z * 0 == 0);
}

/// Traces one ray through the scene and returns the color it sees.
///
/// With no sphere hit in `t_range` this is the background color. Otherwise the color of the
/// closest sphere, lit by the scene's lights, is blended with what its mirror reflection sees,
/// as long as `recursion_depth` is positive and the sphere is reflective.
pub fn trace_ray(scene: &Scene, ray: Ray, t_range: Range<i64>, recursion_depth: i32) -> (r: Color)
    requires
        scene.wf(),
        ray.wf(),
    ensures
        r == trace(scene, ray, t_range.start as int, t_range.end as int, recursion_depth as int),
        r.wf(),
    decreases recursion_depth,
{
    match closest_intersection(scene, ray, t_range) {
        None => scene.background_color,
        Some((sphere, t)) => {
            assert(sphere.wf());
            let p = ray.at(t);
            let n = p.sub(sphere.center).normalized();
            let material = sphere.material;
            let local_color = material.color.scale(
                compute_lighting(scene, p, n, ray.direction.neg(), material.specular),
            );
            let r = material.reflective;
            if recursion_depth <= 0 || r <= 0 {
                return local_color;
            }
            let reflected_color = trace_ray(
                scene,
                Ray { origin: p, direction: reflect_ray(ray.direction, n) },
                EPSILON..i64::MAX,
                recursion_depth - 1,
            );
            local_color.scale(fx_sub(SCALE, r)).add(reflected_color.scale(r))
        },
    }
}

/// Reflections traced for each primary ray.
pub const RECURSION_DEPTH: i32 = 3;

/// Samples averaged per pixel: a grid of 5 by 5.
pub const SAMPLES: i64 = 25;

/// Offset of the `k`-th sample along an axis, in pixels: -0.4, -0.2, 0, 0.2, 0.4.
pub open spec fn sample_offset(k: int) -> int {
    -4000 + 2000 * k
}

/// Renders a static image with raytracing.
pub struct Raytracer {
    pub canvas_width: usize,
    pub canvas_height: usize,
    pub viewport_width: i64,
    pub viewport_height: i64,
    pub distance_to_projection_plane: i64,
    pub scene: Scene,
}

impl Raytracer {
    pub open spec fn wf(&self) -> bool {
        &&& self.scene.wf()
        &&& in_range(self.viewport_width as int)
        &&& in_range(self.viewport_height as int)
        &&& in_range(self.distance_to_projection_plane as int)
        &&& self.canvas_width <= i32::MAX
        &&& self.canvas_height <= i32::MAX
        &&& self.canvas_width * self.canvas_height <= usize::MAX
    }

    /// The direction through canvas point `(x, y)`, given as scalars in pixels.
    pub open spec fn viewport(&self, x: int, y: int) -> Vec3 {
        vsat(
            x * self.viewport_width / (SCALE * self.canvas_width),
            y * self.viewport_height / (SCALE * self.canvas_height),
            self.distance_to_projection_plane as int,
        )
    }

    /// The color of sample `k` (of 25) of pixel `(x, y)`.
    pub open spec fn sample(&self, x: int, y: int, k: int) -> Color {
        let direction = self.viewport(
            x * SCALE + sample_offset(k / 5),
            y * SCALE + sample_offset(k % 5),
        );
        trace(
            &self.scene,
            Ray { origin: Vec3 { x: 0, y: 0, z: 0 }, direction },
            SCALE as int,
            i64::MAX as int,
            RECURSION_DEPTH as int,
        )
    }

    /// The channel-wise sums of the first `k` samples of pixel `(x, y)`, exact.
    pub open spec fn channel_sums(&self, x: int, y: int, k: nat) -> (int, int, int)
        decreases k,
    {
        if k == 0 {
            (0, 0, 0)
        } else {
            let s = self.channel_sums(x, y, (k - 1) as nat);
            let c = self.sample(x, y, k - 1);
            (s.0 + c.0, s.1 + c.1, s.2 + c.2)
        }
    }

    /// The color of pixel `(x, y)`: the average of its 25 samples, each channel rounded down.
    pub open spec fn pixel_color(&self, x: int, y: int) -> Color {
        let s = self.channel_sums(x, y, SAMPLES as nat);
        Color((s.0 / SAMPLES as int) as i64, (s.1 / SAMPLES as int) as i64, (s.2 / SAMPLES as int) as i64)
    }

    proof fn lemma_uniform_sums(&self, x: int, y: int, c: Color, k: nat)
        requires
            k <= SAMPLES,
            forall|j: int| 0 <= j < SAMPLES ==> #[trigger] self.sample(x, y, j) == c,
        ensures
            self.channel_sums(x, y, k) == (k * c.0, k * c.1, k * c.2),
        decreases k,
    {
        if k > 0 {
            self.lemma_uniform_sums(x, y, c, (k - 1) as nat);
            assert(self.sample(x, y, k - 1) == c);
            assert((k - 1) * c.0 + c.0 == k * c.0) by (nonlinear_arith);
            assert((k - 1) * c.1 + c.1 == k * c.1) by (nonlinear_arith);
            assert((k - 1) * c.2 + c.2 == k * c.2) by (nonlinear_arith);
            let s = self.channel_sums(x, y, (k - 1) as nat);
            assert(self.channel_sums(x, y, k) == (s.0 + c.0, s.1 + c.1, s.2 + c.2));
        } else {
            assert(0 * c.0 == 0 && 0 * c.1 == 0 && 0 * c.2 == 0);
        }
    }

    /// When all 25 samples of a pixel see the same color, the pixel has exactly that color.
    pub proof fn lemma_uniform_average(&self, x: int, y: int, c: Color)
        requires
            forall|j: int| 0 <= j < SAMPLES ==> #[trigger] self.sample(x, y, j) == c,
        ensures
            self.pixel_color(x, y) == c,
    {
        self.lemma_uniform_sums(x, y, c, SAMPLES as nat);
        vstd::arithmetic::div_mod::lemma_div_multiples_vanish(c.0 as int, 25);
        vstd::arithmetic::div_mod::lemma_div_multiples_vanish(c.1 as int, 25);
        vstd::arithmetic::div_mod::lemma_div_multiples_vanish(c.2 as int, 25);
    }

    /// In a scene without spheres, every pixel has exactly the background color.
    pub proof fn lemma_empty_scene(&self, x: int, y: int)
        requires
            self.scene.spheres@.len() == 0,
        ensures
            self.pixel_color(x, y) == self.scene.background_color,
    {
        assert forall|j: int| 0 <= j < SAMPLES implies #[trigger] self.sample(x, y, j)
            == self.scene.background_color by {
            let direction = self.viewport(
                x * SCALE + sample_offset(j / 5),
                y * SCALE + sample_offset(j % 5),
            );
            lemma_background(
                &self.scene,
                Ray { origin: Vec3 { x: 0, y: 0, z: 0 }, direction },
                SCALE as int,
                i64::MAX as int,
                RECURSION_DEPTH as int,
            );
        }
        self.lemma_uniform_average(x, y, self.scene.background_color);
    }

    /// The canvas with the pixels in `[-w/2, x)` done, and in column `x` those below `y`.
    pub open spec fn partial_image(&self, x: int, y: int) -> Seq<Color> {
        let w = self.canvas_width as int;
        let h = self.canvas_height as int;
        Seq::new(
            (w * h) as nat,
            |i: int|
                {
                    let px = x_of(w, i);
                    let py = y_of(w, h, i);
                    if in_bounds(w, h, px, py) && (px < x || (px == x && py < y)) {
                        self.pixel_color(px, py)
                    } else {
                        Color(0, 0, 0)
                    }
                },
        )
    }

    /// The rendered canvas: every pixel in bounds has its color, the rest stays black.
    pub open spec fn image(&self) -> Seq<Color> {
        let w = self.canvas_width as int;
        let h = self.canvas_height as int;
        Seq::new(
            (w * h) as nat,
            |i: int|
                if in_bounds(w, h, x_of(w, i), y_of(w, h, i)) {
                    self.pixel_color(x_of(w, i), y_of(w, h, i))
                } else {
                    Color(0, 0, 0)
                },
        )
    }

    /// Runs the raytracer: traces 25 samples through each pixel and stores their average.
    pub fn go(&self) -> (r: Canvas)
        requires
            self.wf(),
        ensures
            r.wf(),
            r.width == self.canvas_width,
            r.height == self.canvas_height,
            r.pixels@ == self.image(),
    {
        let mut canvas = Canvas::new(self.canvas_width, self.canvas_height);
        let ghost w = self.canvas_width as int;
        let ghost h = self.canvas_height as int;
        let w2 = (self.canvas_width / 2) as i64;
        let h2 = (self.canvas_height / 2) as i64;
        assert(canvas.pixels@ == self.partial_image(-w2 as int, -h2 as int));
        let mut x: i64 = -w2;
        while x < w2
            invariant
                self.wf(),
                w == self.canvas_width,
                h == self.canvas_height,
                w2 == w / 2,
                h2 == h / 2,
                -w2 <= x <= w2,
                canvas.wf(),
                canvas.width == w,
                canvas.height == h,
                canvas.pixels@ == self.partial_image(x as int, -h2 as int),
            decreases w2 - x,
        {
            let mut y: i64 = -h2;
            while y < h2
                invariant
                    self.wf(),
                    w == self.canvas_width,
                    h == self.canvas_height,
                    w2 == w / 2,
                    h2 == h / 2,
                    -w2 <= x < w2,
                    -h2 <= y <= h2,
                    canvas.wf(),
                    canvas.width == w,
                    canvas.height == h,
                    canvas.pixels@ == self.partial_image(x as int, y as int),
                decreases h2 - y,
            {
                let color = self.pixel_color_at(x, y);
                let ghost before = canvas.pixels@;
                canvas.put_pixel(x as i32, y as i32, color);
                proof {
                    lemma_index_of(w, h, x as int, y as int);
                    assert(canvas.pixels@ =~= self.partial_image(x as int, y + 1));
                }
                y += 1;
            }
            assert(canvas.pixels@ =~= self.partial_image(x + 1, -h2 as int));
            x += 1;
        }
        assert(canvas.pixels@ =~= self.image());
        canvas
    }

    fn canvas_to_viewport(&self, x: i64, y: i64) -> (r: Vec3)
        requires
            self.wf(),
            self.canvas_width > 0,
            self.canvas_height > 0,
            -0x4000_0000_0000 <= x <= 0x4000_0000_0000,
            -0x4000_0000_0000 <= y <= 0x4000_0000_0000,
        ensures
            r == self.viewport(x as int, y as int),
            r.wf(),
    {
        proof {
            lemma_prod_bound(x as int, self.viewport_width as int, 0x4000_0000_0000, LIMIT as int);
            lemma_prod_bound(y as int, self.viewport_height as int, 0x4000_0000_0000, LIMIT as int);
        }
        let s = SCALE as i128;
        let cw = self.canvas_width as i128;
        let ch = self.canvas_height as i128;
        Vec3 {
            x: saturate(div_floor(x as i128 * self.viewport_width as i128, s * cw)),
            y: saturate(div_floor(y as i128 * self.viewport_height as i128, s * ch)),
            z: self.distance_to_projection_plane,
        }
    }

    fn pixel_color_at(&self, x: i64, y: i64) -> (c: Color)
        requires
            self.wf(),
            self.canvas_width > 0,
            self.canvas_height > 0,
            -0x8000_0000 <= x <= 0x8000_0000,
            -0x8000_0000 <= y <= 0x8000_0000,
        ensures
            c == self.pixel_color(x as int, y as int),
            c.wf(),
    {
        let origin = Vec3 { x: 0, y: 0, z: 0 };
        let mut r: i64 = 0;
        let mut g: i64 = 0;
        let mut b: i64 = 0;
        let mut k: i64 = 0;
        while k < SAMPLES
            invariant
                self.wf(),
                self.canvas_width > 0,
                self.canvas_height > 0,
                -0x8000_0000 <= x <= 0x8000_0000,
                -0x8000_0000 <= y <= 0x8000_0000,
                0 <= k <= SAMPLES,
                origin == (Vec3 { x: 0, y: 0, z: 0 }),
                (r as int, g as int, b as int) == self.channel_sums(x as int, y as int, k as nat),
                -k * LIMIT <= r <= k * LIMIT,
                -k * LIMIT <= g <= k * LIMIT,
                -k * LIMIT <= b <= k * LIMIT,
            decreases SAMPLES - k,
        {
            proof {
                lemma_prod_bound(x as int, SCALE as int, 0x8000_0000, SCALE as int);
                lemma_prod_bound(y as int, SCALE as int, 0x8000_0000, SCALE as int);
            }
            let direction = self.canvas_to_viewport(
                x * SCALE + (-4000 + 2000 * (k / 5)),
                y * SCALE + (-4000 + 2000 * (k % 5)),
            );
            let ray = Ray { origin, direction };
            let color = trace_ray(&self.scene, ray, SCALE..i64::MAX, RECURSION_DEPTH);
            r = r + color.0;
            g = g + color.1;
            b = b + color.2;
            k += 1;
        }
        let n = SAMPLES as i128;
        Color(div_floor(r as i128, n) as i64, div_floor(g as i128, n) as i64, div_floor(b as i128, n) as i64)
    }
}

} // verus!
