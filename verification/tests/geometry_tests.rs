//! Intersection, tracing, lights, and texture addressing.
//!
//! All values are fixed-point with scale 256: `256` is `1.0`, `-1280` is
//! `-5.0`.

use raytracer::color::Color;
use raytracer::point::Point;
use raytracer::rendering::{Ray, TextureCoords};
use raytracer::scene::{
    wrap, Coloration, DirectionalLight, Element, Intersection, Light, Material, Plane, Scene,
    Sphere, SphericalLight, SurfaceType, Texture,
};
use raytracer::vector::Vector3;

fn diffuse(red: i64, green: i64, blue: i64) -> Material {
    Material {
        coloration: Coloration::Color(Color { red, green, blue }),
        albedo: 256,
        surface: SurfaceType::Diffuse,
    }
}

fn unit_sphere_at(x: i64, y: i64, z: i64) -> Sphere {
    Sphere { center: Point { x, y, z }, radius: 256, material: diffuse(102, 256, 102) }
}

#[test]
fn sphere_intersect_through_center() {
    // ray from the origin straight at a unit sphere centered 5 units away:
    // the near root lies at distance 4
    let s = unit_sphere_at(0, 0, -1280);
    let ray = Ray {
        origin: Point { x: 0, y: 0, z: 0 },
        direction: Vector3 { x: 0, y: 0, z: -256 },
    };
    assert_eq!(s.intersect(&ray), Some(1024));
}

#[test]
fn sphere_intersect_miss_outside_radius() {
    // closest approach is 2 units from the center of a 1-unit sphere
    let s = unit_sphere_at(512, 0, -1280);
    let ray = Ray {
        origin: Point { x: 0, y: 0, z: 0 },
        direction: Vector3 { x: 0, y: 0, z: -256 },
    };
    assert_eq!(s.intersect(&ray), None);
}

#[test]
fn sphere_intersect_grazing_hit() {
    // closest approach exactly equal to the radius still counts as a hit,
    // at the distance of the center's projection on the ray
    let s = unit_sphere_at(256, 0, -1280);
    let ray = Ray {
        origin: Point { x: 0, y: 0, z: 0 },
        direction: Vector3 { x: 0, y: 0, z: -256 },
    };
    assert_eq!(s.intersect(&ray), Some(1280));
}

#[test]
fn sphere_intersect_behind_origin() {
    // the sphere lies entirely behind the ray: both roots negative, no hit
    let s = unit_sphere_at(0, 0, -1280);
    let ray = Ray {
        origin: Point { x: 0, y: 0, z: 0 },
        direction: Vector3 { x: 0, y: 0, z: 256 },
    };
    assert_eq!(s.intersect(&ray), None);
}

#[test]
fn sphere_intersect_from_inside() {
    // origin inside the sphere: the near root is negative and is discarded,
    // the far root (center distance + radius = 6) is reported
    let s = unit_sphere_at(0, 0, -1280);
    let ray = Ray {
        origin: Point { x: 0, y: 0, z: -1280 },
        direction: Vector3 { x: 0, y: 0, z: -256 },
    };
    assert_eq!(s.intersect(&ray), Some(256));
}

#[test]
fn plane_intersect_head_on() {
    // floor one unit below, ray straight down: hit at distance 1
    let p = Plane {
        origin: Point { x: 0, y: -256, z: 0 },
        normal: Vector3 { x: 0, y: -256, z: 0 },
        material: diffuse(256, 256, 256),
    };
    let down = Ray {
        origin: Point { x: 0, y: 0, z: 0 },
        direction: Vector3 { x: 0, y: -256, z: 0 },
    };
    assert_eq!(p.intersect(&down), Some(256));
    // approaching from the back face: no hit (the plane is one-sided)
    let up = Ray {
        origin: Point { x: 0, y: -512, z: 0 },
        direction: Vector3 { x: 0, y: 256, z: 0 },
    };
    assert_eq!(p.intersect(&up), None);
    // surface normal points against the stored normal
    let n = p.surface_normal(&Point { x: 0, y: -256, z: 0 });
    assert_eq!((n.x, n.y, n.z), (0, 256, 0));
}

#[test]
fn trace_picks_nearest_and_breaks_ties_by_order() {
    let near = unit_sphere_at(0, 0, -1280);
    let far = unit_sphere_at(0, 0, -2560);
    let twin = unit_sphere_at(0, 0, -1280);
    let scene = Scene {
        width: 800,
        height: 600,
        fov_adjustment: 256,
        max_recursion_depth: 1,
        shadow_bias: 13,
        elements: vec![
            Element::Sphere(far),
            Element::Sphere(near),
            Element::Sphere(twin),
        ],
        lights: vec![],
    };
    let ray = Ray {
        origin: Point { x: 0, y: 0, z: 0 },
        direction: Vector3 { x: 0, y: 0, z: -256 },
    };
    let isect = scene.trace(&ray).expect("must hit");
    assert_eq!(isect.distance, 1024);
    // elements 1 and 2 report the same distance; the first listed wins
    assert_eq!(isect.index, 1);
    // a ray that misses everything
    let away = Ray {
        origin: Point { x: 0, y: 0, z: 0 },
        direction: Vector3 { x: 0, y: 0, z: 256 },
    };
    assert!(scene.trace(&away).is_none());
}

#[test]
fn intersection_new_records_fields() {
    let i = Intersection::new(1024, 3);
    assert_eq!(i.distance, 1024);
    assert_eq!(i.index, 3);
}

#[test]
fn directional_light_constant_intensity() {
    let l = Light::Directional(DirectionalLight {
        direction: Vector3 { x: 0, y: 0, z: -256 },
        color: Color { red: 256, green: 256, blue: 256 },
        intensity: 25600,
    });
    let a = Point { x: 0, y: 0, z: 0 };
    let b = Point { x: 100000, y: -50000, z: 7777 };
    assert_eq!(l.intensity(&a), 25600);
    assert_eq!(l.intensity(&a), l.intensity(&b));
    // direction toward the light is the negated beam direction
    let d = l.direction_from(&a);
    assert_eq!((d.x, d.y, d.z), (0, 0, 256));
    // a directional light is infinitely far away
    assert_eq!(l.distance(&a), None);
}

#[test]
fn spherical_light_inverse_square_falloff() {
    // light of intensity 100 at distance 2: 100 / (4 pi * 4) = 1.989...;
    // in fixed-point units: 25600 * 2^24 / (3217 * 512^2) = 509
    let l = Light::Spherical(SphericalLight {
        position: Point { x: 0, y: 512, z: 0 },
        color: Color { red: 256, green: 256, blue: 256 },
        intensity: 25600,
    });
    let p = Point { x: 0, y: 0, z: 0 };
    assert_eq!(l.intensity(&p), 509);
    assert_eq!(l.distance(&p), Some(512));
    let d = l.direction_from(&p);
    assert_eq!((d.x, d.y, d.z), (0, 256, 0));
}

#[test]
fn wrap_is_periodic() {
    // 1.25 on a 10-cell texture lands on the same cell as 0.25
    assert_eq!(wrap(320, 10), wrap(64, 10));
    assert_eq!(wrap(64, 10), 2);
    // -0.25 lands on the same cell as 0.75
    assert_eq!(wrap(-64, 10), wrap(192, 10));
    assert_eq!(wrap(192, 10), 7);
    // whole-period shifts never change the cell
    for v in [-1000i64, -256, -100, 0, 100, 255, 999] {
        assert_eq!(wrap(v + 256, 10), wrap(v, 10));
    }
}

#[test]
fn coloration_resolves_solid_and_texture() {
    let solid = Coloration::Color(Color { red: 10, green: 20, blue: 30 });
    let tc = TextureCoords { x: 320, y: 0 };
    assert_eq!(solid.color(&tc), Color { red: 10, green: 20, blue: 30 });

    // a 10x1 texture whose cells decode to distinct colors: sampling at
    // x = 1.25 and x = 0.25 reads the same cell
    let mut pixels = Vec::new();
    for i in 0..10u8 {
        pixels.push(raytracer::color::Rgba8 { r: 255, g: i * 20, b: 0, a: 255 });
    }
    let tex = Coloration::Texture(Texture { width: 10, height: 1, pixels });
    let a = tex.color(&TextureCoords { x: 320, y: 0 });
    let b = tex.color(&TextureCoords { x: 64, y: 0 });
    assert_eq!(a, b);
    assert_eq!(a.red, 256);
    let c = tex.color(&TextureCoords { x: -64, y: 0 });
    let d = tex.color(&TextureCoords { x: 192, y: 0 });
    assert_eq!(c, d);
    assert_ne!(a, c);
}

#[test]
fn element_material_access() {
    let s = unit_sphere_at(0, 0, -1280);
    let e = Element::Sphere(s);
    assert_eq!(e.material().albedo, 256);
    match &e.material().coloration {
        Coloration::Color(c) => assert_eq!(*c, Color { red: 102, green: 256, blue: 102 }),
        Coloration::Texture(_) => panic!("expected a solid color"),
    }
}

#[test]
fn scene_validation_rejects_portrait_dimensions() {
    // the camera model requires width > height: a malformed scene is
    // reported before any pixel work
    let good = Scene {
        width: 800,
        height: 600,
        fov_adjustment: 256,
        max_recursion_depth: 1,
        shadow_bias: 13,
        elements: vec![],
        lights: vec![],
    };
    assert!(good.is_valid());
    let portrait = Scene { width: 600, height: 800, ..good };
    assert!(!portrait.is_valid());
    let flat = Scene {
        width: 800,
        height: 600,
        fov_adjustment: 0,
        max_recursion_depth: 1,
        shadow_bias: 13,
        elements: vec![],
        lights: vec![],
    };
    assert!(!flat.is_valid());
    let bad_radius = Scene {
        width: 800,
        height: 600,
        fov_adjustment: 256,
        max_recursion_depth: 1,
        shadow_bias: 13,
        elements: vec![Element::Sphere(Sphere {
            center: Point { x: 0, y: 0, z: 0 },
            radius: 0,
            material: diffuse(1, 2, 3),
        })],
        lights: vec![],
    };
    assert!(!bad_radius.is_valid());
}
