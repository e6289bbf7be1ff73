//! Primary rays, ray-surface intersection, and shading.

use vstd::prelude::*;
use crate::color::{Color, clamp_val, black};
use crate::scene::coloration_color_spec;
use crate::fixed::{iabs, fix_mul, fix_div, sqrt_floor, fmul, fdiv, isqrt_u128, lemma_abs_mul_le,
    lemma_tdiv_mag, lemma_sqrt_floor_eq, lemma_div_lt};
use crate::point::Point;
use crate::vector::{Vector3, dot_val, norm2_raw, normalize_comps, lemma_square_bounds};
use crate::scene::{Scene, Element, Sphere, Plane, Material, Light, Intersection,
    element_material_spec, light_color_spec, light_dir_from_spec, light_intensity_spec,
    light_distance_spec, MAX_COORD, MAX_TRACE_ORIGIN, DIST_FACTOR, PI_FIX};

verus! {

/// Where on a surface a texture is sampled, as fixed-point coordinates.
#[derive(Clone, Copy, Debug)]
pub struct TextureCoords {
    pub x: i64,
    pub y: i64,
}

/// A ray: an origin and a unit-scaled direction.
#[derive(Clone, Copy, Debug)]
pub struct Ray {
    pub origin: Point,
    pub direction: Vector3,
}

/// The magnitude scale of a ray: the largest origin coordinate, but at
/// least `MAX_COORD`.  Every distance the tracer reports for the ray is at
/// most `DIST_FACTOR` times this.
pub open spec fn ray_mag(r: Ray) -> int {
    let mx = iabs(r.origin.x as int);
    let my = iabs(r.origin.y as int);
    let mz = iabs(r.origin.z as int);
    let m = if mx >= my && mx >= mz {
        mx
    } else if my >= mz {
        my
    } else {
        mz
    };
    if m < MAX_COORD as int {
        MAX_COORD as int
    } else {
        m
    }
}

/// A ray the tracer accepts: unit-scaled direction, bounded origin.
pub open spec fn ray_for_trace(r: Ray) -> bool {
    &&& r.direction.unit_range()
    &&& ray_mag(r) <= MAX_TRACE_ORIGIN as int
}

/// Anything a ray can hit.
pub trait Intersectable {
    /// The geometry's own invariant.
    spec fn geom_wf(&self) -> bool;

    /// The smallest non-negative distance at which the ray crosses the
    /// surface, if it does.
    fn intersect(&self, ray: &Ray) -> (r: Option<i64>)
        requires
            self.geom_wf(),
            ray_for_trace(*ray),
        ensures
            r is Some ==> 0 <= r.unwrap() <= (DIST_FACTOR as int) * ray_mag(*ray),
    ;

    /// The outward surface normal at a point of the surface.
    fn surface_normal(&self, hit_point: &Point) -> (r: Vector3)
        requires
            self.geom_wf(),
            hit_point.in_range(0x200_0000_0000),
        ensures
            r.unit_range(),
    ;
}

//
// SPHERE INTERSECTION
//

/// The distance at which a ray hits a sphere: the nearest of the two
/// quadratic roots that is not negative.  `adj` is the projection of the
/// center offset on the ray, `d2` the squared distance of the center from
/// the ray's line and `r2` the squared radius, both in raw squared units.
pub open spec fn sphere_intersect_spec(s: Sphere, r: Ray) -> Option<int> {
    let lx = s.center.x - r.origin.x;
    let ly = s.center.y - r.origin.y;
    let lz = s.center.z - r.origin.z;
    let adj = dot_val(lx, ly, lz, r.direction.x as int, r.direction.y as int, r.direction.z as int);
    let ll = lx * lx + ly * ly + lz * lz;
    let d2 = ll - adj * adj;
    let r2 = (s.radius as int) * (s.radius as int);
    if d2 > r2 {
        None
    } else {
        let thc = sqrt_floor(r2 - d2);
        if adj - thc >= 0 {
            Some(adj - thc)
        } else if adj + thc >= 0 {
            Some(adj + thc)
        } else {
            None
        }
    }
}

/// The ray's closest approach to the center is within the radius, and the
/// far quadratic root is not behind the origin.
pub open spec fn sphere_hits(s: Sphere, r: Ray) -> bool {
    let lx = s.center.x - r.origin.x;
    let ly = s.center.y - r.origin.y;
    let lz = s.center.z - r.origin.z;
    let adj = dot_val(lx, ly, lz, r.direction.x as int, r.direction.y as int, r.direction.z as int);
    let ll = lx * lx + ly * ly + lz * lz;
    let d2 = ll - adj * adj;
    let r2 = (s.radius as int) * (s.radius as int);
    &&& d2 <= r2
    &&& adj + sqrt_floor(r2 - d2) >= 0
}

impl Sphere {
    /// Intersect a ray with the sphere.  A hit is reported exactly when the
    /// ray's closest approach to the center is within the radius and at
    /// least one quadratic root is non-negative; candidates behind the
    /// origin are discarded before the nearer one is chosen.
    pub fn intersect(&self, ray: &Ray) -> (r: Option<i64>)
        requires
            self.wf(),
            ray_for_trace(*ray),
        ensures
            r is Some <==> sphere_hits(*self, *ray),
            match r {
                None => sphere_intersect_spec(*self, *ray) is None,
                Some(d) => {
                    &&& sphere_intersect_spec(*self, *ray) == Some(d as int)
                    &&& 0 <= d <= 16 * ray_mag(*ray)
                },
            },
    {
        let ghost m = ray_mag(*ray);
        proof {
            assert(m >= MAX_COORD);
        }
        let l: Vector3 = self.center.sub(&ray.origin);
        proof {
            lemma_abs_mul_le(l.x as int, ray.direction.x as int, 2 * m, 256);
            lemma_abs_mul_le(l.y as int, ray.direction.y as int, 2 * m, 256);
            lemma_abs_mul_le(l.z as int, ray.direction.z as int, 2 * m, 256);
        }
        let adj: i64 = l.dot(&ray.direction);
        assert(iabs(adj as int) <= 6 * m);
        proof {
            lemma_abs_mul_le(l.x as int, l.x as int, 2 * m, 2 * m);
            lemma_abs_mul_le(l.y as int, l.y as int, 2 * m, 2 * m);
            lemma_abs_mul_le(l.z as int, l.z as int, 2 * m, 2 * m);
            lemma_abs_mul_le(adj as int, adj as int, 6 * m, 6 * m);
            lemma_abs_mul_le(self.radius as int, self.radius as int, m, m);
            assert((2 * m) * (2 * m) == 4 * (m * m) && (6 * m) * (6 * m) == 36 * (m * m) && (7 * m)
                * (7 * m) == 49 * (m * m) && m * m >= 0) by (nonlinear_arith);
            assert(49 * (m * m) <= 49 * (0x100_0000_0000 * 0x100_0000_0000)) by (nonlinear_arith)
                requires
                    0 < m <= 0x100_0000_0000,
            ;
        }
        let ll: u128 = l.norm_sq();
        let adj2: i128 = (adj as i128) * (adj as i128);
        let d2: i128 = (ll as i128) - adj2;
        let r2: i128 = (self.radius as i128) * (self.radius as i128);
        if d2 > r2 {
            None
        } else {
            let diff: i128 = r2 - d2;
            let thc64: u64 = isqrt_u128(diff as u128);
            assert(thc64 as int <= 7 * m) by {
                if thc64 as int > 7 * m {
                    assert((thc64 as int) * (thc64 as int) > (7 * m) * (7 * m))
                        by (nonlinear_arith)
                        requires
                            thc64 as int > 7 * m,
                            m > 0,
                    ;
                    assert((7 * m) * (7 * m) == 49 * (m * m)) by (nonlinear_arith);
                }
            }
            let thc: i64 = thc64 as i64;
            proof {
                lemma_sqrt_floor_eq(diff as int, thc as int);
            }
            let t0: i64 = adj - thc;
            let t1: i64 = adj + thc;
            if t0 >= 0 {
                Some(t0)
            } else if t1 >= 0 {
                Some(t1)
            } else {
                None
            }
        }
    }

    /// The outward normal at a surface point: the offset from the center,
    /// normalized.  A point coinciding with the center (within grid
    /// resolution) yields the fixed fallback direction `(0, 0, 1)`.
    pub fn surface_normal(&self, hit_point: &Point) -> (r: Vector3)
        requires
            self.wf(),
            hit_point.in_range(0x200_0000_0000),
        ensures
            (r.x as int, r.y as int, r.z as int) == sphere_normal_spec(*self, *hit_point),
            r.unit_range(),
    {
        let d: Vector3 = hit_point.sub(&self.center);
        let n2: u128 = d.norm_sq();
        if n2 == 0 {
            Vector3 { x: 0, y: 0, z: 256 }
        } else {
            d.normalize()
        }
    }
}

/// The outward normal of a sphere at a surface point.
pub open spec fn sphere_normal_spec(s: Sphere, p: Point) -> (int, int, int) {
    let dx = p.x - s.center.x;
    let dy = p.y - s.center.y;
    let dz = p.z - s.center.z;
    if dx * dx + dy * dy + dz * dz == 0 {
        (0, 0, 256)
    } else {
        normalize_comps(dx, dy, dz)
    }
}

//
// PLANE INTERSECTION
//

/// The distance at which a ray crosses a one-sided plane.  The plane
/// registers a hit only when the ray approaches against the normal
/// (`denom > 0`, which on the fixed-point grid also plays the role of a
/// small-epsilon guard: the smallest admissible slope is `1 / SCALE`) at a
/// non-negative distance.
pub open spec fn plane_intersect_spec(p: Plane, r: Ray) -> Option<int> {
    let denom = dot_val(
        p.normal.x as int,
        p.normal.y as int,
        p.normal.z as int,
        r.direction.x as int,
        r.direction.y as int,
        r.direction.z as int,
    );
    if denom > 0 {
        let vx = p.origin.x - r.origin.x;
        let vy = p.origin.y - r.origin.y;
        let vz = p.origin.z - r.origin.z;
        let vn = dot_val(vx, vy, vz, p.normal.x as int, p.normal.y as int, p.normal.z as int);
        let dist = fix_div(vn, denom);
        if dist >= 0 {
            Some(dist)
        } else {
            None
        }
    } else {
        None
    }
}

/// The outward normal of a plane, oriented toward incoming rays.
pub open spec fn plane_normal_spec(p: Plane) -> (int, int, int) {
    (-(p.normal.x as int), -(p.normal.y as int), -(p.normal.z as int))
}

impl Plane {
    /// Intersect a ray with the plane.
    pub fn intersect(&self, ray: &Ray) -> (r: Option<i64>)
        requires
            self.wf(),
            ray_for_trace(*ray),
        ensures
            match r {
                None => plane_intersect_spec(*self, *ray) is None,
                Some(d) => {
                    &&& plane_intersect_spec(*self, *ray) == Some(d as int)
                    &&& 0 <= d <= (DIST_FACTOR as int) * ray_mag(*ray)
                },
            },
    {
        let ghost m = ray_mag(*ray);
        proof {
            assert(m >= MAX_COORD);
            lemma_abs_mul_le(self.normal.x as int, ray.direction.x as int, 256, 256);
            lemma_abs_mul_le(self.normal.y as int, ray.direction.y as int, 256, 256);
            lemma_abs_mul_le(self.normal.z as int, ray.direction.z as int, 256, 256);
        }
        let denom: i64 = self.normal.dot(&ray.direction);
        if denom > 0 {
            let v: Vector3 = self.origin.sub(&ray.origin);
            proof {
                lemma_abs_mul_le(v.x as int, self.normal.x as int, 2 * m, 256);
                lemma_abs_mul_le(v.y as int, self.normal.y as int, 2 * m, 256);
                lemma_abs_mul_le(v.z as int, self.normal.z as int, 2 * m, 256);
            }
            let vn: i64 = v.dot(&self.normal);
            assert(iabs(vn as int) <= 6 * m);
            let dist: i64 = fdiv(vn, denom);
            proof {
                lemma_tdiv_mag((vn as int) * 256, denom as int);
                assert(iabs((vn as int) * 256) <= (6 * m) * 256) by (nonlinear_arith)
                    requires
                        iabs(vn as int) <= 6 * m,
                        m > 0,
                ;
            }
            if dist >= 0 {
                Some(dist)
            } else {
                None
            }
        } else {
            None
        }
    }

    /// The plane's normal, negated toward incoming rays.
    pub fn surface_normal(&self, _hit_point: &Point) -> (r: Vector3)
        requires
            self.wf(),
        ensures
            (r.x as int, r.y as int, r.z as int) == plane_normal_spec(*self),
            r.unit_range(),
    {
        self.normal.neg()
    }
}

//
// ELEMENT DISPATCH
//

/// The distance at which a ray hits an element.
pub open spec fn element_intersect_spec(e: Element, r: Ray) -> Option<int> {
    match e {
        Element::Sphere(s) => sphere_intersect_spec(s, r),
        Element::Plane(p) => plane_intersect_spec(p, r),
    }
}

/// The outward normal of an element at a surface point.
pub open spec fn element_normal_spec(e: Element, p: Point) -> (int, int, int) {
    match e {
        Element::Sphere(s) => sphere_normal_spec(s, p),
        Element::Plane(pl) => plane_normal_spec(pl),
    }
}

impl Element {
    /// Intersect a ray with the element.
    pub fn intersect(&self, ray: &Ray) -> (r: Option<i64>)
        requires
            self.wf(),
            ray_for_trace(*ray),
        ensures
            match r {
                None => element_intersect_spec(*self, *ray) is None,
                Some(d) => {
                    &&& element_intersect_spec(*self, *ray) == Some(d as int)
                    &&& 0 <= d <= (DIST_FACTOR as int) * ray_mag(*ray)
                },
            },
    {
        match self {
            Element::Sphere(s) => {
                let r = s.intersect(ray);
                proof {
                    if r is Some {
                        assert(16 * ray_mag(*ray) <= (DIST_FACTOR as int) * ray_mag(*ray))
                            by (nonlinear_arith)
                            requires
                                ray_mag(*ray) > 0,
                        ;
                    }
                }
                r
            },
            Element::Plane(p) => p.intersect(ray),
        }
    }

    /// The outward normal at a surface point.
    pub fn surface_normal(&self, hit_point: &Point) -> (r: Vector3)
        requires
            self.wf(),
            hit_point.in_range(0x200_0000_0000),
        ensures
            (r.x as int, r.y as int, r.z as int) == element_normal_spec(*self, *hit_point),
            r.unit_range(),
    {
        match self {
            Element::Sphere(s) => s.surface_normal(hit_point),
            Element::Plane(p) => p.surface_normal(hit_point),
        }
    }
}

//
// PRIMARY RAYS
//

/// The primary ray through pixel `(x, y)`: it starts at the world origin
/// and passes through the sensor point for that pixel, scaled by the aspect
/// ratio and the half-field-of-view tangent.
pub open spec fn prime_ray_spec(scene: Scene, x: int, y: int) -> Ray {
    let aspect = ((scene.width as int) * 256) / (scene.height as int);
    let nx = (x * 512 + 256) / (scene.width as int) - 256;
    let ny = 256 - (y * 512 + 256) / (scene.height as int);
    let sx = fix_mul(fix_mul(nx, aspect), scene.fov_adjustment as int);
    let sy = fix_mul(ny, scene.fov_adjustment as int);
    let d = normalize_comps(sx, sy, -256);
    Ray {
        origin: Point { x: 0, y: 0, z: 0 },
        direction: Vector3 { x: d.0 as i64, y: d.1 as i64, z: d.2 as i64 },
    }
}

impl Ray {
    /// Build the primary ray for pixel `(x, y)` of the scene's camera.
    pub fn create_prime(x: u32, y: u32, scene: &Scene) -> (r: Ray)
        requires
            scene.wf(),
            x < scene.width,
            y < scene.height,
        ensures
            r == prime_ray_spec(*scene, x as int, y as int),
            r.direction.unit_range(),
            r.origin == (Point { x: 0i64, y: 0i64, z: 0i64 }),
            ray_mag(r) == MAX_COORD as int,
    {
        let w: u64 = scene.width as u64;
        let h: u64 = scene.height as u64;
        let fq: u64 = ((x as u64) * 512 + 256) / w;
        proof {
            lemma_div_lt((x as int) * 512 + 256, w as int, 512);
            lemma_tdiv_mag((x as int) * 512 + 256, w as int);
            lemma_tdiv_mag((w as int) * 256, h as int);
        }
        let nx: i64 = (fq as i64) - 256;
        let aspect: i64 = ((w * 256) / h) as i64;
        proof {
            lemma_abs_mul_le(nx as int, aspect as int, 256, 0x10_0000);
        }
        let sxa: i64 = fmul(nx, aspect);
        proof {
            lemma_abs_mul_le(sxa as int, scene.fov_adjustment as int, 0x10_0000, 0x1_0000);
        }
        let sx: i64 = fmul(sxa, scene.fov_adjustment);
        let gq: u64 = ((y as u64) * 512 + 256) / h;
        proof {
            lemma_div_lt((y as int) * 512 + 256, h as int, 512);
            lemma_tdiv_mag((y as int) * 512 + 256, h as int);
        }
        let ny: i64 = 256 - (gq as i64);
        proof {
            lemma_abs_mul_le(ny as int, scene.fov_adjustment as int, 256, 0x1_0000);
        }
        let sy: i64 = fmul(ny, scene.fov_adjustment);
        let dirv: Vector3 = Vector3 { x: sx, y: sy, z: -256 };
        proof {
            lemma_square_bounds(sx as int);
            lemma_square_bounds(sy as int);
            assert(norm2_raw(dirv) >= (-256int) * (-256int));
        }
        let direction: Vector3 = dirv.normalize();
        Ray { origin: Point::zero(), direction }
    }
}

//
// SHADING
//

/// The point reached along a ray at the given distance.
pub open spec fn hit_point_spec(ray: Ray, dist: int) -> Point {
    Point {
        x: (ray.origin.x + fix_mul(ray.direction.x as int, dist)) as i64,
        y: (ray.origin.y + fix_mul(ray.direction.y as int, dist)) as i64,
        z: (ray.origin.z + fix_mul(ray.direction.z as int, dist)) as i64,
    }
}

/// The base color of an element's surface: its coloration resolved at the
/// texture origin (this shading model does not derive per-point texture
/// coordinates, so textured surfaces contribute their first cell).
pub open spec fn element_color_spec(e: Element) -> Color {
    coloration_color_spec(element_material_spec(e).coloration, TextureCoords { x: 0, y: 0 })
}

/// The contribution of one light to the color at an intersection: the
/// element's color times the light's color, weighted by the Lambertian
/// cosine term, the light's intensity at the hit point gated by a shadow
/// ray, and the material's albedo over pi.
pub open spec fn light_contrib_spec(scene: Scene, ray: Ray, isect: Intersection, l: Light) -> (
    int,
    int,
    int,
) {
    let hp = hit_point_spec(ray, isect.distance as int);
    let e = scene.elements[isect.index as int];
    let n = element_normal_spec(e, hp);
    let dtl = light_dir_from_spec(l, hp);
    let so = Point {
        x: (hp.x + fix_mul(n.0, scene.shadow_bias as int)) as i64,
        y: (hp.y + fix_mul(n.1, scene.shadow_bias as int)) as i64,
        z: (hp.z + fix_mul(n.2, scene.shadow_bias as int)) as i64,
    };
    let sray = Ray {
        origin: so,
        direction: Vector3 { x: dtl.0 as i64, y: dtl.1 as i64, z: dtl.2 as i64 },
    };
    let in_light = match crate::scene::trace_spec(scene, sray) {
        None => true,
        Some(si) => match light_distance_spec(l, hp) {
            None => false,
            Some(ld) => si.distance > ld,
        },
    };
    let inten = if in_light {
        light_intensity_spec(l, hp)
    } else {
        0
    };
    let cos = dot_val(n.0, n.1, n.2, dtl.0, dtl.1, dtl.2);
    let power = fix_mul(
        if cos > 0 {
            cos
        } else {
            0
        },
        inten,
    );
    let refl = fix_div(element_material_spec(e).albedo as int, PI_FIX as int);
    let oc = element_color_spec(e);
    let lc = light_color_spec(l);
    (
        fix_mul(fix_mul(fix_mul(oc.red as int, lc.red as int), power), refl),
        fix_mul(fix_mul(fix_mul(oc.green as int, lc.green as int), power), refl),
        fix_mul(fix_mul(fix_mul(oc.blue as int, lc.blue as int), power), refl),
    )
}

/// The summed contributions of the first `n` lights.
pub open spec fn contrib_sum_spec(scene: Scene, ray: Ray, isect: Intersection, n: int) -> (
    int,
    int,
    int,
)
    decreases n,
{
    if n <= 0 {
        (0, 0, 0)
    } else {
        let p = contrib_sum_spec(scene, ray, isect, n - 1);
        let c = light_contrib_spec(scene, ray, isect, scene.lights[n - 1]);
        (p.0 + c.0, p.1 + c.1, p.2 + c.2)
    }
}

/// The observed color at an intersection: every light's contribution
/// summed, then clamped to the displayable range.
pub open spec fn get_color_spec(scene: Scene, ray: Ray, isect: Intersection) -> Color {
    let s = contrib_sum_spec(scene, ray, isect, scene.lights.len() as int);
    Color {
        red: clamp_val(s.0) as i64,
        green: clamp_val(s.1) as i64,
        blue: clamp_val(s.2) as i64,
    }
}

/// The color seen along a ray: black once the recursion budget is spent or
/// when the ray hits nothing, otherwise the shaded color of the nearest
/// intersection.
pub open spec fn cast_ray_spec(scene: Scene, ray: Ray, depth: int) -> Color {
    if depth >= scene.max_recursion_depth as int {
        black()
    } else {
        match crate::scene::trace_spec(scene, ray) {
            None => black(),
            Some(i) => get_color_spec(scene, ray, i),
        }
    }
}

/// Shade the nearest intersection of a ray.
pub fn get_color(scene: &Scene, ray: &Ray, intersection: &Intersection) -> (r: Color)
    requires
        scene.wf(),
        ray.direction.unit_range(),
        ray.origin.in_range(0x1000_0000),
        0 <= intersection.index < scene.elements.len(),
        0 <= intersection.distance <= (DIST_FACTOR as int) * ray_mag(*ray),
    ensures
        r == get_color_spec(*scene, *ray, *intersection),
        r.displayable(),
{
    proof {
        assert(ray_mag(*ray) <= 0x1000_0000);
    }
    let mut color: Color = Color::black_color();
    let mut li: usize = 0;
    while li < scene.lights.len()
        invariant
            0 <= li <= scene.lights.len(),
            scene.wf(),
            ray.direction.unit_range(),
            ray.origin.in_range(0x1000_0000),
            0 <= intersection.index < scene.elements.len(),
            0 <= intersection.distance <= (DIST_FACTOR as int) * ray_mag(*ray),
            (color.red as int, color.green as int, color.blue as int) == contrib_sum_spec(
                *scene,
                *ray,
                *intersection,
                li as int,
            ),
            color.in_range((li as int) * 0x400_0000_0000),
        decreases scene.lights.len() - li,
    {
        let light: &Light = &scene.lights[li];
        proof {
            assert(scene.lights[li as int].wf());
        }
        let shaded: Color = shade_light(scene, ray, intersection, light);
        color = color.add(&shaded);
        li = li + 1;
    }
    color.clamp()
}

/// One light's contribution to the color at an intersection.
#[verifier::rlimit(60)]
fn shade_light(scene: &Scene, ray: &Ray, intersection: &Intersection, light: &Light) -> (r: Color)
    requires
        scene.wf(),
        light.wf(),
        ray.direction.unit_range(),
        ray.origin.in_range(0x1000_0000),
        0 <= intersection.index < scene.elements.len(),
        0 <= intersection.distance <= (DIST_FACTOR as int) * ray_mag(*ray),
        ray_mag(*ray) <= 0x1000_0000,
    ensures
        (r.red as int, r.green as int, r.blue as int) == light_contrib_spec(
            *scene,
            *ray,
            *intersection,
            *light,
        ),
        r.in_range(0x400_0000_0000),
{
    {
        proof {
            assert(scene.elements[intersection.index as int].wf());
            lemma_abs_mul_le(
                ray.direction.x as int,
                intersection.distance as int,
                256,
                2048int * 0x1000_0000,
            );
            lemma_abs_mul_le(
                ray.direction.y as int,
                intersection.distance as int,
                256,
                2048int * 0x1000_0000,
            );
            lemma_abs_mul_le(
                ray.direction.z as int,
                intersection.distance as int,
                256,
                2048int * 0x1000_0000,
            );
            lemma_tdiv_mag((ray.direction.x as int) * (intersection.distance as int), 256);
            lemma_tdiv_mag((ray.direction.y as int) * (intersection.distance as int), 256);
            lemma_tdiv_mag((ray.direction.z as int) * (intersection.distance as int), 256);
        }
        let hit_point: Point = Point {
            x: ray.origin.x + fmul(ray.direction.x, intersection.distance),
            y: ray.origin.y + fmul(ray.direction.y, intersection.distance),
            z: ray.origin.z + fmul(ray.direction.z, intersection.distance),
        };
        assert(hit_point.in_range(0x8_1000_0000_0000));
        let element: &Element = &scene.elements[intersection.index];
        let surface_normal: Vector3 = element.surface_normal(&hit_point);
        let direction_to_light: Vector3 = light.direction_from(&hit_point);
        proof {
            lemma_abs_mul_le(surface_normal.x as int, scene.shadow_bias as int, 256, 0x100_0000);
            lemma_abs_mul_le(surface_normal.y as int, scene.shadow_bias as int, 256, 0x100_0000);
            lemma_abs_mul_le(surface_normal.z as int, scene.shadow_bias as int, 256, 0x100_0000);
            lemma_tdiv_mag((surface_normal.x as int) * (scene.shadow_bias as int), 256);
            lemma_tdiv_mag((surface_normal.y as int) * (scene.shadow_bias as int), 256);
            lemma_tdiv_mag((surface_normal.z as int) * (scene.shadow_bias as int), 256);
        }
        let shadow_ray: Ray = Ray {
            origin: Point {
                x: hit_point.x + fmul(surface_normal.x, scene.shadow_bias),
                y: hit_point.y + fmul(surface_normal.y, scene.shadow_bias),
                z: hit_point.z + fmul(surface_normal.z, scene.shadow_bias),
            },
            direction: direction_to_light,
        };
        let shadow_intersection: Option<Intersection> = scene.trace(&shadow_ray);
        let in_light: bool = match &shadow_intersection {
            None => true,
            Some(si) => {
                match light.distance(&hit_point) {
                    None => false,
                    Some(ld) => si.distance > ld,
                }
            },
        };
        let light_intensity: i64 = if in_light {
            light.intensity(&hit_point)
        } else {
            0
        };
        proof {
            lemma_abs_mul_le(surface_normal.x as int, direction_to_light.x as int, 256, 256);
            lemma_abs_mul_le(surface_normal.y as int, direction_to_light.y as int, 256, 256);
            lemma_abs_mul_le(surface_normal.z as int, direction_to_light.z as int, 256, 256);
        }
        let cos: i64 = surface_normal.dot(&direction_to_light);
        let cos_pos: i64 = if cos > 0 {
            cos
        } else {
            0
        };
        proof {
            lemma_abs_mul_le(cos_pos as int, light_intensity as int, 768, 0x20_0000_0000);
        }
        let light_power: i64 = fmul(cos_pos, light_intensity);
        let material: &Material = element.material();
        proof {
            lemma_tdiv_mag((material.albedo as int) * 256, PI_FIX as int);
        }
        let light_reflected: i64 = fdiv(material.albedo, PI_FIX);
        assert(iabs(light_reflected as int) * 804 <= 4096 * 256);
        let tc: TextureCoords = TextureCoords { x: 0, y: 0 };
        let object_color: Color = material.coloration.color(&tc);
        let light_color: Color = light.color();
        let cr: i64 = channel_contrib(object_color.red, light_color.red, light_power,
            light_reflected);
        let cg: i64 = channel_contrib(object_color.green, light_color.green, light_power,
            light_reflected);
        let cb: i64 = channel_contrib(object_color.blue, light_color.blue, light_power,
            light_reflected);
        Color { red: cr, green: cg, blue: cb }
    }
}

/// One channel of a light's contribution.
fn channel_contrib(oc: i64, lc: i64, power: i64, refl: i64) -> (r: i64)
    requires
        0 <= oc <= 256,
        0 <= lc <= 256,
        iabs(power as int) <= 0x60_0000_0000,
        iabs(refl as int) <= 1304,
    ensures
        r as int == fix_mul(fix_mul(fix_mul(oc as int, lc as int), power as int), refl as int),
        iabs(r as int) <= 0x400_0000_0000,
{
    proof {
        lemma_abs_mul_le(oc as int, lc as int, 256, 256);
        lemma_tdiv_mag((oc as int) * (lc as int), 256);
    }
    let t1: i64 = fmul(oc, lc);
    proof {
        lemma_abs_mul_le(t1 as int, power as int, 256, 0x60_0000_0000);
        lemma_tdiv_mag((t1 as int) * (power as int), 256);
    }
    let t2: i64 = fmul(t1, power);
    proof {
        lemma_abs_mul_le(t2 as int, refl as int, 0x60_0000_0000, 1304);
        lemma_tdiv_mag((t2 as int) * (refl as int), 256);
    }
    fmul(t2, refl)
}

/// Cast a ray into the scene and report the color seen along it.  With the
/// recursion budget spent (`depth` at or past the scene's bound) the result
/// is black before any hit test; a ray that hits nothing yields the black
/// background.
pub fn cast_ray(scene: &Scene, ray: &Ray, depth: u32) -> (r: Color)
    requires
        scene.wf(),
        ray.direction.unit_range(),
        ray.origin.in_range(0x1000_0000),
    ensures
        r == cast_ray_spec(*scene, *ray, depth as int),
        r.displayable(),
        depth >= scene.max_recursion_depth ==> r == black(),
{
    if depth >= scene.max_recursion_depth {
        return Color::black_color();
    }
    proof {
        assert(ray_mag(*ray) <= MAX_TRACE_ORIGIN as int);
    }
    let intersection: Option<Intersection> = scene.trace(ray);
    match intersection {
        None => Color::black_color(),
        Some(i) => get_color(scene, ray, &i),
    }
}

impl Intersectable for Sphere {
    open spec fn geom_wf(&self) -> bool {
        self.wf()
    }

    fn intersect(&self, ray: &Ray) -> (r: Option<i64>) {
        let r = Sphere::intersect(self, ray);
        proof {
            if r is Some {
                assert(16 * ray_mag(*ray) <= (DIST_FACTOR as int) * ray_mag(*ray))
                    by (nonlinear_arith)
                    requires
                        ray_mag(*ray) > 0,
                ;
            }
        }
        r
    }

    fn surface_normal(&self, hit_point: &Point) -> (r: Vector3) {
        Sphere::surface_normal(self, hit_point)
    }
}

impl Intersectable for Plane {
    open spec fn geom_wf(&self) -> bool {
        self.wf()
    }

    fn intersect(&self, ray: &Ray) -> (r: Option<i64>) {
        Plane::intersect(self, ray)
    }

    fn surface_normal(&self, hit_point: &Point) -> (r: Vector3) {
        Plane::surface_normal(self, hit_point)
    }
}

impl Intersectable for Element {
    open spec fn geom_wf(&self) -> bool {
        self.wf()
    }

    fn intersect(&self, ray: &Ray) -> (r: Option<i64>) {
        Element::intersect(self, ray)
    }

    fn surface_normal(&self, hit_point: &Point) -> (r: Vector3) {
        Element::surface_normal(self, hit_point)
    }
}

} // verus!
