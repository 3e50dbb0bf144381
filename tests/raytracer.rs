use raytracing::approx::ApproxEq;
use raytracing::color::Color;
use raytracing::ray::Ray;
use raytracing::raytracer::{closest_intersection, compute_lighting, reflect_ray, trace_ray, Raytracer};
use raytracing::scene::{Light, LightSource, Material, Scene, Sphere};
use raytracing::vec3::Vec3;

fn fx(v: f64) -> i64 {
    (v * 10000.0).round() as i64
}

fn v3(x: f64, y: f64, z: f64) -> Vec3 {
    Vec3::new(fx(x), fx(y), fx(z))
}

fn rgb(r: f64, g: f64, b: f64) -> Color {
    Color(fx(r), fx(g), fx(b))
}

#[test]
fn reflect_ray_works() {
    let n = v3(0.0, 1.0, 0.0);
    let r = v3(0.0, -1.0, 0.0);
    assert!(reflect_ray(r, n).approx_eq(v3(0.0, 1.0, 0.0)));

    let r = v3(1.0, -1.0, 0.0);
    assert!(reflect_ray(r, n).approx_eq(v3(1.0, 1.0, 0.0)));

    let n = v3(-1.0, 0.0, 1.0).normalized();
    let r = v3(1.0, 0.0, -1.0);
    assert!(reflect_ray(r, n).approx_eq(v3(-1.0, 0.0, 1.0)));

    let r = v3(1.0, 0.0, 0.0);
    assert!(reflect_ray(r, n).approx_eq(v3(0.0, 0.0, 1.0)));
}

#[test]
fn closest_intersection_works() {
    // set up scene with two spheres
    let scene = Scene {
        background_color: Color::black(),
        lights: vec![],
        spheres: vec![
            Sphere { center: v3(0.0, 0.0, 3.0), radius: fx(1.0), material: Material::black() },
            Sphere { center: v3(0.0, 0.0, 7.0), radius: fx(2.0), material: Material::black() },
        ],
    };

    // ray doesn't hit any sphere
    let origin = v3(0.0, 0.0, 0.0);
    let direction = v3(0.0, 1.0, 0.0);
    let ray = Ray { origin, direction };
    assert!(closest_intersection(&scene, ray, 0..i64::MAX).is_none());

    // ray hits the first sphere
    let origin = v3(0.0, -2.0, 3.0);
    let direction = v3(0.0, 1.0, 0.0);
    let ray = Ray { origin, direction };
    let (sphere, t) = closest_intersection(&scene, ray, 0..i64::MAX).unwrap();
    assert_eq!(sphere.radius, fx(1.0));
    assert!(t.approx_eq(fx(1.0)));

    // ray hits both spheres, closest_intersection should return the first hit
    let origin = v3(0.0, 0.0, 0.0);
    let direction = v3(0.0, 0.0, 1.0);
    let ray = Ray { origin, direction };
    let (sphere, t) = closest_intersection(&scene, ray, 0..i64::MAX).unwrap();
    assert_eq!(sphere.radius, fx(1.0));
    assert!(t.approx_eq(fx(2.0)));

    // ray hits both spheres, but only the hit for sphere 2 is within the range
    let (sphere, t) = closest_intersection(&scene, ray, fx(5.0)..i64::MAX).unwrap();
    assert_eq!(sphere.radius, fx(2.0));
    assert!(t.approx_eq(fx(5.0)));

    // ray hits both spheres, but neither is within the range
    assert!(closest_intersection(&scene, ray, fx(10.0)..i64::MAX).is_none());
    assert!(closest_intersection(&scene, ray, i64::MIN..fx(1.0)).is_none());
}

#[test]
fn compute_lighting_works() {
    // only ambient light
    let background_color = rgb(0.0, 0.0, 1.0);
    let scene = Scene {
        background_color,
        lights: vec![Light { intensity: fx(0.8), source: LightSource::Ambient }],
        spheres: vec![
            Sphere { center: v3(0.0, 0.0, -2.0), radius: fx(1.0), material: Material::black() },
            Sphere { center: v3(0.0, 0.0, 2.0), radius: fx(1.0), material: Material::black() },
        ],
    };
    let p = v3(0.0, 0.0, 1.0);
    let n = v3(0.0, 0.0, -1.0);
    let v = n;
    assert!(compute_lighting(&scene, p, n, v, None).approx_eq(fx(0.8)));

    // only directional light, point is in shadow
    let scene = Scene {
        lights: vec![Light {
            intensity: fx(0.7),
            source: LightSource::Directional { direction: v3(0.0, 0.0, 1.0) },
        }],
        ..scene
    };
    let p = v3(0.0, 0.0, 1.0);
    let n = v3(0.0, 0.0, 1.0);
    let v = v3(0.0, 0.0, 1.0);
    assert!(compute_lighting(&scene, p, n, v, None).approx_eq(fx(0.0)));

    // only directional light, camera is facing the back of the object
    let n = v3(0.0, 0.0, -1.0);
    let p = v3(0.0, 0.0, 1.0);
    assert!(compute_lighting(&scene, p, n, v, None).approx_eq(fx(0.0)));

    // only directional light
    let n = v3(0.0, 0.0, 1.0);
    let p = v3(0.0, 0.0, 3.0);
    assert!(compute_lighting(&scene, p, n, v, None).approx_eq(fx(0.7)));
    assert!(compute_lighting(&scene, p, n, v, Some(2)).approx_eq(fx(0.7 + 0.7)));

    // only directional light at a 45 degree angle to the surface
    let scene = Scene {
        lights: vec![Light {
            intensity: fx(0.7),
            source: LightSource::Directional { direction: v3(0.0, 1.0, 1.0).normalized() },
        }],
        ..scene
    };
    let diffuse = 0.7 / 2f64.sqrt();
    let specular = 0.7 / 2f64;
    assert!(compute_lighting(&scene, p, n, v, None).approx_eq(fx(diffuse)));
    assert!(compute_lighting(&scene, p, n, v, Some(2)).approx_eq(fx(diffuse + specular)));

    // only point light, point is in shadow
    let scene = Scene {
        lights: vec![Light {
            intensity: fx(0.7),
            source: LightSource::Point { position: v3(0.0, 0.0, 5.0) },
        }],
        ..scene
    };
    let p = v3(0.0, 0.0, 1.0);
    let n = v3(0.0, 0.0, 1.0);
    let v = v3(0.0, 0.0, 1.0);
    assert!(compute_lighting(&scene, p, n, v, None).approx_eq(fx(0.0)));

    // only point light
    let n = v3(0.0, 0.0, 1.0);
    let p = v3(0.0, 0.0, 3.0);
    assert!(compute_lighting(&scene, p, n, v, None).approx_eq(fx(0.7)));
    assert!(compute_lighting(&scene, p, n, v, Some(2)).approx_eq(fx(0.7 + 0.7)));
}

#[test]
fn trace_ray_works() {
    // scene with two spheres, symetrically to the left and right of the origin
    let red = rgb(1.0, 0.0, 0.0);
    let green = rgb(0.0, 1.0, 0.0);
    let blue = rgb(0.0, 0.0, 1.0);
    let mut scene = Scene {
        background_color: blue,
        lights: vec![Light { intensity: fx(0.8), source: LightSource::Ambient }],
        spheres: vec![
            Sphere {
                center: v3(0.0, 0.0, -2.0),
                radius: fx(1.0),
                material: Material { color: green, specular: None, reflective: 0 },
            },
            Sphere {
                center: v3(0.0, 0.0, 2.0),
                radius: fx(1.0),
                material: Material { color: red, specular: None, reflective: 0 },
            },
        ],
    };

    // ray doesn't hit anything => background color
    let ray = Ray { origin: v3(0.0, 0.0, 0.0), direction: v3(0.0, 1.0, 0.0) };
    assert!(trace_ray(&scene, ray, 0..i64::MAX, 2).approx_eq(blue));

    // ray hits red sphere, it's not reflective => just red
    let ray = Ray { origin: v3(0.0, 0.0, 0.0), direction: v3(0.0, 0.0, 1.0) };
    assert!(trace_ray(&scene, ray, 0..i64::MAX, 2).approx_eq(rgb(0.8, 0.0, 0.0)));

    // ray hits red sphere, recursion depth 0 => just red
    let ray = Ray { origin: v3(0.0, 0.0, 0.0), direction: v3(0.0, 0.0, 1.0) };
    scene.spheres[1].material.reflective = fx(0.6);
    assert!(trace_ray(&scene, ray, 0..i64::MAX, 0).approx_eq(rgb(0.8, 0.0, 0.0)));

    // ray hits red sphere, it reflects green sphere => red + green
    let ray = Ray { origin: v3(0.0, 0.0, 0.0), direction: v3(0.0, 0.0, 1.0) };
    let want = rgb(0.8 * 0.4, 0.8 * 0.6, 0.0);
    assert!(trace_ray(&scene, ray, 0..i64::MAX, 1).approx_eq(want));

    // both spheres are reflective, recursion depth 2 => red + green + some more red
    scene.spheres[0].material.reflective = fx(0.6);
    let want = rgb(0.8 * (0.4 + 0.6 * 0.6), 0.8 * 0.6 * 0.4, 0.0);
    assert!(trace_ray(&scene, ray, 0..i64::MAX, 2).approx_eq(want));
}

fn mirror_scene() -> Scene {
    Scene {
        background_color: rgb(0.0, 0.0, 1.0),
        lights: vec![Light { intensity: fx(0.8), source: LightSource::Ambient }],
        spheres: vec![
            Sphere {
                center: v3(0.0, 0.0, -2.0),
                radius: fx(1.0),
                material: Material { color: rgb(0.0, 1.0, 0.0), specular: None, reflective: fx(0.6) },
            },
            Sphere {
                center: v3(0.0, 0.0, 2.0),
                radius: fx(1.0),
                material: Material { color: rgb(1.0, 0.0, 0.0), specular: None, reflective: fx(0.6) },
            },
        ],
    }
}

#[test]
fn reflection_split_by_depth_is_exact() {
    let scene = mirror_scene();
    let ray = Ray { origin: v3(0.0, 0.0, 0.0), direction: v3(0.0, 0.0, 1.0) };
    assert_eq!(trace_ray(&scene, ray, 0..i64::MAX, 0), Color(8000, 0, 0));
    assert_eq!(trace_ray(&scene, ray, 0..i64::MAX, 1), Color(3200, 4800, 0));
    assert_eq!(trace_ray(&scene, ray, 0..i64::MAX, 2), Color(6080, 1920, 0));
    assert_eq!(trace_ray(&scene, ray, 0..i64::MAX, -5), Color(8000, 0, 0));
}

#[test]
fn ray_missing_everything_sees_background() {
    let scene = mirror_scene();
    let ray = Ray { origin: v3(0.0, 0.0, 0.0), direction: v3(1.0, 0.0, 0.0) };
    assert_eq!(trace_ray(&scene, ray, 0..i64::MAX, 3), rgb(0.0, 0.0, 1.0));
    // the spheres are there, but outside the range
    let ray = Ray { origin: v3(0.0, 0.0, 0.0), direction: v3(0.0, 0.0, 1.0) };
    assert_eq!(trace_ray(&scene, ray, fx(3.5)..i64::MAX, 3), rgb(0.0, 0.0, 1.0));
}

#[test]
fn ambient_light_is_the_same_everywhere() {
    let scene = Scene {
        background_color: Color::black(),
        lights: vec![Light { intensity: fx(0.35), source: LightSource::Ambient }],
        spheres: vec![Sphere { center: v3(0.0, 0.0, 2.0), radius: fx(1.0), material: Material::black() }],
    };
    for (p, n, v) in [
        (v3(0.0, 0.0, 1.0), v3(0.0, 0.0, -1.0), v3(0.0, 0.0, -1.0)),
        (v3(5.0, -3.0, 2.0), v3(1.0, 2.0, 3.0), v3(-4.0, 0.0, 0.5)),
        (v3(0.0, 0.0, 0.0), v3(0.0, 0.0, 0.0), v3(0.0, 0.0, 0.0)),
    ] {
        assert_eq!(compute_lighting(&scene, p, n, v, None), fx(0.35));
        assert_eq!(compute_lighting(&scene, p, n, v, Some(7)), fx(0.35));
    }
}

#[test]
fn blocked_lights_contribute_nothing() {
    // a blocker between the lit point and both sources
    let blocker = Sphere { center: v3(0.0, 2.0, 0.0), radius: fx(0.5), material: Material::black() };
    let p = v3(0.0, 0.0, 0.0);
    let n = v3(0.0, 1.0, 0.0);
    let v = v3(0.0, 1.0, 0.0);
    let point = Scene {
        background_color: Color::black(),
        lights: vec![Light { intensity: fx(0.6), source: LightSource::Point { position: v3(0.0, 4.0, 0.0) } }],
        spheres: vec![blocker],
    };
    assert_eq!(compute_lighting(&point, p, n, v, Some(10)), 0);
    let directional = Scene {
        background_color: Color::black(),
        lights: vec![Light { intensity: fx(0.6), source: LightSource::Directional { direction: v3(0.0, 1.0, 0.0) } }],
        spheres: vec![blocker],
    };
    assert_eq!(compute_lighting(&directional, p, n, v, Some(10)), 0);
    // a point light in front of the blocker is not blocked
    let near = Scene {
        background_color: Color::black(),
        lights: vec![Light { intensity: fx(0.6), source: LightSource::Point { position: v3(0.0, 1.0, 0.0) } }],
        spheres: vec![blocker],
    };
    assert_eq!(compute_lighting(&near, p, n, v, None), fx(0.6));
}

#[test]
fn reflection_of_aligned_and_perpendicular_vectors() {
    let n = v3(0.0, 1.0, 0.0);
    assert_eq!(reflect_ray(v3(0.0, 2.5, 0.0), n), v3(0.0, -2.5, 0.0));
    assert_eq!(reflect_ray(v3(0.0, -3.0, 0.0), n), v3(0.0, 3.0, 0.0));
    assert_eq!(reflect_ray(v3(4.0, 0.0, -1.5), n), v3(4.0, 0.0, -1.5));
    let n = v3(0.6, 0.0, 0.8);
    assert_eq!(reflect_ray(v3(1.2, 0.0, 1.6), n), v3(-1.2, 0.0, -1.6));
    assert_eq!(reflect_ray(v3(0.8, 3.0, -0.6), n), v3(0.8, 3.0, -0.6));
}

#[test]
fn specular_exponents_shape_the_highlight() {
    let scene = Scene {
        background_color: Color::black(),
        lights: vec![Light {
            intensity: fx(0.5),
            source: LightSource::Directional { direction: v3(0.0, 1.0, 1.0).normalized() },
        }],
        spheres: vec![],
    };
    let p = v3(0.0, 0.0, 0.0);
    let n = v3(0.0, 0.0, 1.0);
    let v = v3(0.0, 0.0, 1.0);
    let diffuse = compute_lighting(&scene, p, n, v, None);
    let s1 = compute_lighting(&scene, p, n, v, Some(1)) - diffuse;
    let s10 = compute_lighting(&scene, p, n, v, Some(10)) - diffuse;
    let s0 = compute_lighting(&scene, p, n, v, Some(0)) - diffuse;
    assert!(s1.approx_eq(fx(0.5 / 2f64.sqrt())));
    assert!(s10 < s1 && s10 > 0);
    assert_eq!(s0, fx(0.5));
    // a negative exponent is the reciprocal power: cos^-2 = 2
    let sm2 = compute_lighting(&scene, p, n, v, Some(-2)) - diffuse;
    assert!((sm2 - fx(1.0)).abs() < 10);
}

#[test]
fn small_render_uses_the_centered_grid() {
    let raytracer = Raytracer {
        canvas_width: 4,
        canvas_height: 3,
        viewport_width: fx(1.0),
        viewport_height: fx(1.0),
        distance_to_projection_plane: fx(1.0),
        scene: Scene {
            background_color: rgb(0.0, 0.0, 1.0),
            lights: vec![Light { intensity: fx(1.0), source: LightSource::Ambient }],
            spheres: vec![],
        },
    };
    let canvas = raytracer.go();
    assert_eq!(canvas.width, 4);
    assert_eq!(canvas.height, 3);
    // rows y = 0 and y = -1 (from the top) are drawn; y stays in [-1, 1), so the bottom row
    // stays black
    for i in 0..8 {
        assert_eq!(canvas.pixels[i], rgb(0.0, 0.0, 1.0));
    }
    for i in 8..12 {
        assert_eq!(canvas.pixels[i], Color::black());
    }
}

#[test]
fn empty_scene_renders_the_exact_background() {
    for background in [Color(24, 0, 0), Color(9999, 1, -3), rgb(0.25, 0.5, 0.75)] {
        let raytracer = Raytracer {
            canvas_width: 2,
            canvas_height: 2,
            viewport_width: fx(1.0),
            viewport_height: fx(1.0),
            distance_to_projection_plane: fx(1.0),
            scene: Scene { background_color: background, lights: vec![], spheres: vec![] },
        };
        let canvas = raytracer.go();
        assert_eq!(canvas.pixels, vec![background; 4]);
    }
}
