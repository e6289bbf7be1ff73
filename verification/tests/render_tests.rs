//! Whole-image rendering and shading.

use raytracer::color::{Color, Rgba8};
use raytracer::point::Point;
use raytracer::rendering::{cast_ray, Ray};
use raytracer::scene::{
    Coloration, DirectionalLight, Element, Light, Material, Plane, Scene, Sphere, SphericalLight,
    SurfaceType,
};
use raytracer::vector::Vector3;
use raytracer::{render, render_into};

fn diffuse(red: i64, green: i64, blue: i64) -> Material {
    Material {
        coloration: Coloration::Color(Color { red, green, blue }),
        albedo: 256,
        surface: SurfaceType::Diffuse,
    }
}

fn white_directional() -> Light {
    Light::Directional(DirectionalLight {
        direction: Vector3 { x: 0, y: 0, z: -256 },
        color: Color { red: 256, green: 256, blue: 256 },
        intensity: 256,
    })
}

fn one_sphere_scene() -> Scene {
    Scene {
        width: 800,
        height: 600,
        // field of view 90 degrees: tan(45 degrees) = 1.0
        fov_adjustment: 256,
        max_recursion_depth: 1,
        shadow_bias: 13,
        elements: vec![Element::Sphere(Sphere {
            center: Point { x: 0, y: 0, z: -1280 },
            radius: 256,
            material: diffuse(102, 256, 102),
        })],
        lights: vec![white_directional()],
    }
}

#[test]
fn test_can_render_scene() {
    let scene = one_sphere_scene();
    let img = render(&scene);
    assert_eq!(scene.width as usize * scene.height as usize, img.len());
    assert_eq!(img.len(), 800 * 600);
}

#[test]
fn create_prime_center_pixel_looks_forward() {
    let scene = one_sphere_scene();
    let ray = Ray::create_prime(400, 300, &scene);
    assert_eq!((ray.origin.x, ray.origin.y, ray.origin.z), (0, 0, 0));
    assert_eq!((ray.direction.x, ray.direction.y, ray.direction.z), (0, 0, -256));
    // a corner ray leans up and left
    let corner = Ray::create_prime(0, 0, &scene);
    assert!(corner.direction.x < 0);
    assert!(corner.direction.y > 0);
    assert!(corner.direction.z < 0);
}

#[test]
fn end_to_end_sphere_silhouette() {
    // width 800, height 600, fov 90 degrees, one unit sphere at (0,0,-5)
    // with solid color (0.4, 1.0, 0.4) and one directional light: the
    // sphere's silhouette is colored, everything else is background black
    let scene = one_sphere_scene();
    let img = render(&scene);
    assert_eq!(img.len(), 800 * 600);
    let black = Rgba8 { r: 0, g: 0, b: 0, a: 255 };
    let center = img[300 * 800 + 400];
    assert_ne!(center, black);
    // the lit sphere keeps the solid color's hue: green dominates
    assert!(center.g > center.r);
    assert_eq!(center.r, center.b);
    // pixels far from the silhouette are background black
    assert_eq!(img[0], black);
    assert_eq!(img[599 * 800 + 799], black);
    assert_eq!(img[300 * 800], black);
}

#[test]
fn render_into_matches_render() {
    let mut scene = one_sphere_scene();
    scene.width = 40;
    scene.height = 30;
    let img = render(&scene);
    let mut buf: Vec<Rgba8> = vec![Rgba8 { r: 9, g: 9, b: 9, a: 9 }; 7];
    render_into(&scene, &mut buf);
    assert_eq!(buf.len(), 40 * 30);
    assert_eq!(img, buf);
}

#[test]
fn depth_zero_recursion_bound_returns_background() {
    // with max_recursion_depth = 0 the recursion floor is hit before any
    // hit test: every ray yields black
    let mut scene = one_sphere_scene();
    scene.max_recursion_depth = 0;
    let hit_ray = Ray {
        origin: Point { x: 0, y: 0, z: 0 },
        direction: Vector3 { x: 0, y: 0, z: -256 },
    };
    let c = cast_ray(&scene, &hit_ray, 0);
    assert_eq!(c, Color { red: 0, green: 0, blue: 0 });
    // the same ray shades the sphere once a recursion budget exists
    scene.max_recursion_depth = 1;
    let lit = cast_ray(&scene, &hit_ray, 0);
    assert!(lit.green > 0);
    // and the budget also floors deeper calls
    assert_eq!(cast_ray(&scene, &hit_ray, 1), Color { red: 0, green: 0, blue: 0 });
}

#[test]
fn shading_formula_exact_value() {
    // a white unit sphere head-on under a white directional light of
    // intensity 1 with albedo 1: the Lambertian cosine term is 1, so each
    // channel is 1 * 1 * 1 * (1 / pi) = floor(65536 / 804) = 81
    let scene = Scene {
        width: 800,
        height: 600,
        fov_adjustment: 256,
        max_recursion_depth: 1,
        shadow_bias: 13,
        elements: vec![Element::Sphere(Sphere {
            center: Point { x: 0, y: 0, z: -1280 },
            radius: 256,
            material: diffuse(256, 256, 256),
        })],
        lights: vec![white_directional()],
    };
    let ray = Ray {
        origin: Point { x: 0, y: 0, z: 0 },
        direction: Vector3 { x: 0, y: 0, z: -256 },
    };
    let c = cast_ray(&scene, &ray, 0);
    assert_eq!(c, Color { red: 81, green: 81, blue: 81 });
}

#[test]
fn shadow_of_occluding_sphere_darkens_plane() {
    // a point light above a floor, with a small sphere directly between
    // the light and the point below it: that point is occluded and renders
    // exactly background-dark, while a point to the side stays lit
    let scene = Scene {
        width: 800,
        height: 600,
        fov_adjustment: 256,
        max_recursion_depth: 1,
        shadow_bias: 13,
        elements: vec![
            Element::Plane(Plane {
                origin: Point { x: 0, y: -256, z: 0 },
                normal: Vector3 { x: 0, y: -256, z: 0 },
                material: diffuse(256, 256, 256),
            }),
            Element::Sphere(Sphere {
                center: Point { x: 0, y: 64, z: -1280 },
                radius: 128,
                material: diffuse(256, 0, 0),
            }),
        ],
        lights: vec![Light::Spherical(SphericalLight {
            position: Point { x: 0, y: 512, z: -1280 },
            color: Color { red: 256, green: 256, blue: 256 },
            intensity: 25600,
        })],
    };
    // toward the floor point straight below the light
    let shadowed_ray = Ray {
        origin: Point { x: 0, y: 0, z: 0 },
        direction: Vector3 { x: 0, y: -256, z: -1280 }.normalize(),
    };
    // toward a floor point far to the side
    let lit_ray = Ray {
        origin: Point { x: 0, y: 0, z: 0 },
        direction: Vector3 { x: 2560, y: -256, z: -1280 }.normalize(),
    };
    let shadowed = cast_ray(&scene, &shadowed_ray, 0);
    let lit = cast_ray(&scene, &lit_ray, 0);
    assert!(lit.red > 0, "side point must be lit, got {:?}", lit);
    assert!(shadowed.red < lit.red, "occluded {:?} not darker than lit {:?}", shadowed, lit);
    assert_eq!(shadowed, Color { red: 0, green: 0, blue: 0 });
}
