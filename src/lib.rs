//! A ray tracer over spheres and lights.
//!
//! It casts rays from an eye at the origin through a viewport, finds the closest sphere along
//! each, shades it with ambient, point and directional lights (diffuse and specular terms, with
//! shadows), and blends in mirror reflections up to a fixed depth.
//!
//! All quantities are fixed-point scalars (see `fixed`): an `i64` counting ten-thousandths of a
//! unit. Each operation rounds down and saturates at `fixed::LIMIT`, so every result is defined
//! and every function's contract states it exactly.
use vstd::prelude::*;

pub mod approx;
pub mod canvas;
pub mod color;
pub mod fixed;
pub mod ray;
pub mod raytracer;
pub mod scene;
pub mod vec3;

use crate::canvas::Canvas;
use crate::color::Color;
use crate::raytracer::Raytracer;
use crate::scene::{Light, LightSource, Material, Scene, Sphere};
use crate::vec3::Vec3;

verus! {

/// The lights of the showcase scene: ambient 0.2, a point light 0.6 at (2, 1, 0), and a
/// directional light 0.2 from (1, 4, 4).
pub open spec fn showcase_lights() -> Seq<Light> {
    seq![
        Light { intensity: 2000, source: LightSource::Ambient },
        Light {
            intensity: 6000,
            source: LightSource::Point { position: Vec3 { x: 20000, y: 10000, z: 0 } },
        },
        Light {
            intensity: 2000,
            source: LightSource::Directional { direction: Vec3 { x: 10000, y: 40000, z: 40000 } },
        },
    ]
}

pub open spec fn showcase_sphere(x: i64, y: i64, z: i64, radius: i64, color: Color, specular: i32, reflective: i64) -> Sphere {
    Sphere {
        center: Vec3 { x, y, z },
        radius,
        material: Material { color, specular: Some(specular), reflective },
    }
}

/// The spheres of the showcase scene: red, blue and green unit spheres, and a large yellow one
/// as the ground.
pub open spec fn showcase_spheres() -> Seq<Sphere> {
    seq![
        showcase_sphere(0, -10000i64, 30000, 10000, Color(10000, 0, 0), 500, 2000),
        showcase_sphere(20000, 0, 40000, 10000, Color(0, 0, 10000), 500, 3000),
        showcase_sphere(-20000i64, 0, 40000, 10000, Color(0, 10000, 0), 10, 4000),
        showcase_sphere(0, -50010000i64, 0, 50000000, Color(10000, 10000, 0), 1000, 5000),
    ]
}

/// Renders the showcase scene on a 640 by 640 canvas, through a viewport of one by one at
/// distance one.
pub fn raytracing() -> (r: Canvas)
    ensures
        exists|rt: Raytracer|
            {
                &&& rt.wf()
                &&& rt.canvas_width == 640
                &&& rt.canvas_height == 640
                &&& rt.viewport_width == 10000
                &&& rt.viewport_height == 10000
                &&& rt.distance_to_projection_plane == 10000
                &&& rt.scene.background_color == Color(0, 0, 0)
                &&& rt.scene.lights@ == showcase_lights()
                &&& rt.scene.spheres@ == showcase_spheres()
                &&& r.width == 640
                &&& r.height == 640
                &&& r.pixels@ == rt.image()
            },
{
    let lights = vec![
        Light { intensity: 2000, source: LightSource::Ambient },
        Light { intensity: 6000, source: LightSource::Point { position: Vec3 { x: 20000, y: 10000, z: 0 } } },
        Light {
            intensity: 2000,
            source: LightSource::Directional { direction: Vec3 { x: 10000, y: 40000, z: 40000 } },
        },
    ];
    let spheres = vec![
        Sphere {
            center: Vec3 { x: 0, y: -10000, z: 30000 },
            radius: 10000,
            material: Material { color: Color(10000, 0, 0), specular: Some(500), reflective: 2000 },
        },
        Sphere {
            center: Vec3 { x: 20000, y: 0, z: 40000 },
            radius: 10000,
            material: Material { color: Color(0, 0, 10000), specular: Some(500), reflective: 3000 },
        },
        Sphere {
            center: Vec3 { x: -20000, y: 0, z: 40000 },
            radius: 10000,
            material: Material { color: Color(0, 10000, 0), specular: Some(10), reflective: 4000 },
        },
        Sphere {
            center: Vec3 { x: 0, y: -50010000, z: 0 },
            radius: 50000000,
            material: Material { color: Color(10000, 10000, 0), specular: Some(1000), reflective: 5000 },
        },
    ];
    assert(lights@ == showcase_lights());
    assert(spheres@ == showcase_spheres());
    let scene = Scene { background_color: Color::black(), lights, spheres };
    let raytracer = Raytracer {
        canvas_width: 640,
        canvas_height: 640,
        viewport_width: 10000,
        viewport_height: 10000,
        distance_to_projection_plane: 10000,
        scene,
    };
    assert(raytracer.scene.wf());
    raytracer.go()
}

} // verus!
