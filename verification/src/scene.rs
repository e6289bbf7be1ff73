//! Scene description: materials, textures, lights, geometric elements, and
//! the scene tracer.

use vstd::prelude::*;
use crate::color::{Color, Rgba8, gamma_dec_val};
use crate::fixed::{iabs, sqrt_floor, isqrt_u128, lemma_div_denominator_le, lemma_abs_mul_le};
use crate::point::Point;
use crate::vector::{Vector3, norm2_raw, dot_val, normalize_comps, is_normalized_of};
use crate::rendering::{Ray, TextureCoords};
use vstd::arithmetic::div_mod::{lemma_fundamental_div_mod, lemma_fundamental_div_mod_converse,
    lemma_div_is_ordered, lemma_mod_add_multiples_vanish};

verus! {

/// Largest magnitude allowed for a scene coordinate or radius.
pub const MAX_COORD: i64 = 0x100_0000;

/// Largest light intensity allowed in a scene.
pub const MAX_INTENSITY: i64 = 0x100_0000;

/// Largest albedo allowed for a material (16, in fixed-point units).
pub const MAX_ALBEDO: i64 = 4096;

/// `4 * pi` as a fixed-point scalar.
pub const FOUR_PI: i64 = 3217;

/// `pi` as a fixed-point scalar.
pub const PI_FIX: i64 = 804;

/// Largest width or height of an image or texture.
pub const MAX_DIM: u32 = 4096;

/// Largest half-field-of-view tangent accepted (256, in fixed-point units).
pub const MAX_FOV_ADJ: i64 = 0x1_0000;

/// Largest number of lights in a scene.
pub const MAX_LIGHTS: usize = 0x1_0000;

/// Origin magnitude accepted by the tracer (covers shadow-ray origins).
pub const MAX_TRACE_ORIGIN: i64 = 0x100_0000_0000;

/// Every distance reported by the tracer is below `DIST_FACTOR` times the
/// ray's origin magnitude (`ray_mag`).
pub const DIST_FACTOR: i64 = 2048;

//
// TEXTURE
//

/// Decoded pixel data, sampled by texture-valued colorations.  The core
/// consumes images only in this already-decoded form.
#[derive(Clone, Debug)]
pub struct Texture {
    pub width: u32,
    pub height: u32,
    pub pixels: Vec<Rgba8>,
}

impl Texture {
    /// A texture holds one pixel per grid cell, row-major.
    pub open spec fn wf(self) -> bool {
        &&& 1 <= self.width <= MAX_DIM
        &&& 1 <= self.height <= MAX_DIM
        &&& self.pixels.len() == self.width * self.height
    }

    /// The pixel in column `x` of row `y`.
    pub fn get_pixel(&self, x: u32, y: u32) -> (r: Rgba8)
        requires
            self.wf(),
            x < self.width,
            y < self.height,
        ensures
            r == self.pixels[y as int * self.width as int + x as int],
    {
        proof {
            assert((y as int) * (self.width as int) + (x as int) < self.pixels.len())
                by (nonlinear_arith)
                requires
                    (x as int) < self.width as int,
                    (y as int) < self.height as int,
                    self.pixels.len() == (self.width as int) * (self.height as int),
            ;
            assert((y as int) * (self.width as int) >= 0) by (nonlinear_arith)
                requires
                    y as int >= 0,
                    self.width as int >= 0,
            ;
        }
        let idx: usize = (y as usize) * (self.width as usize) + (x as usize);
        self.pixels[idx]
    }
}

//
// WRAPAROUND ADDRESSING
//

/// A texture coordinate `v` wrapped onto a grid of `b` cells:
/// `floor(v * b / SCALE) mod b`, the periodic wraparound of the scaled
/// coordinate.
pub open spec fn wrap_val(v: int, b: int) -> int
    recommends
        b > 0,
{
    ((v * b) / 256) % b
}

/// Wrap a fixed-point texture coordinate onto a grid of `bound` cells.
pub fn wrap(val: i64, bound: u32) -> (r: u32)
    requires
        1 <= bound <= MAX_DIM,
        iabs(val as int) <= 0x10_0000_0000,
    ensures
        r as int == wrap_val(val as int, bound as int),
        r < bound,
{
    let b: i128 = bound as i128;
    proof {
        lemma_abs_mul_le(val as int, bound as int, 0x10_0000_0000, 4096);
    }
    let t: i128 = (val as i128) * b;
    if t >= 0 {
        let q: u128 = (t as u128) / 256;
        let r: u128 = q % (bound as u128);
        proof {
            vstd::arithmetic::div_mod::lemma_mod_division_less_than_divisor(q as int, bound as int);
            vstd::arithmetic::div_mod::lemma_mod_bound(q as int, bound as int);
        }
        r as u32
    } else {
        // floor division of the negative product, then the positive residue
        let m: u128 = (-t) as u128;
        let qm: u128 = (m + 255) / 256;
        let s: u128 = qm % (bound as u128);
        proof {
            lemma_ceil_div_neg(m as int, qm as int);
            vstd::arithmetic::div_mod::lemma_mod_bound(qm as int, bound as int);
            lemma_neg_mod(qm as int, bound as int);
        }
        if s == 0 {
            0
        } else {
            bound - (s as u32)
        }
    }
}

/// `(m + 255) / 256` is the negated floor of `-m / 256`.
proof fn lemma_ceil_div_neg(m: int, qm: int)
    requires
        m >= 0,
        qm == (m + 255) / 256,
    ensures
        (-m) / 256 == -qm,
{
    lemma_fundamental_div_mod(m + 255, 256);
    let r = (m + 255) % 256;
    assert(m + 255 == 256 * qm + r);
    lemma_fundamental_div_mod_converse(-m, 256, -qm, 255 - r);
}

/// The Euclidean residue of a negated value.
proof fn lemma_neg_mod(q: int, b: int)
    requires
        q >= 0,
        b > 0,
    ensures
        q % b == 0 ==> (-q) % b == 0,
        q % b != 0 ==> (-q) % b == b - (q % b),
{
    lemma_fundamental_div_mod(q, b);
    let s = q % b;
    let d = q / b;
    assert((-d) * b == -(b * d) && (-d - 1) * b == -(b * d) - b) by (nonlinear_arith);
    if s == 0 {
        lemma_fundamental_div_mod_converse(-q, b, -d, 0);
    } else {
        lemma_fundamental_div_mod_converse(-q, b, -d - 1, b - s);
    }
}

/// Law: wraparound addressing is periodic with period 1 (one full texture
/// width, `SCALE` in fixed-point units): sampling at `v + 1.0` lands on the
/// same cell as sampling at `v`.
pub proof fn lemma_wrap_periodic(v: int, b: int)
    requires
        b > 0,
    ensures
        wrap_val(v + 256, b) == wrap_val(v, b),
{
    let t = v * b;
    assert((v + 256) * b == t + 256 * b) by (nonlinear_arith)
        requires
            t == v * b,
    ;
    lemma_fundamental_div_mod(t, 256);
    let q = t / 256;
    let r = t % 256;
    assert(t + 256 * b == 256 * (q + b) + r);
    lemma_fundamental_div_mod_converse(t + 256 * b, 256, q + b, r);
    lemma_mod_add_multiples_vanish(q, b);
    assert(q + b == b + q);
}

//
// MATERIAL
//

/// How a surface responds to light.
#[derive(Clone, Copy, Debug)]
pub enum SurfaceType {
    Diffuse,
    Reflective { reflectivity: i64 },
    Refractive { index: i64, transparency: i64 },
}

/// Surface appearance: a solid color or a texture sampled with wraparound.
#[derive(Clone, Debug)]
pub enum Coloration {
    Color(Color),
    Texture(Texture),
}

/// The color a coloration resolves to at wrapped texture coordinates.
pub open spec fn coloration_color_spec(c: Coloration, tc: TextureCoords) -> Color {
    match c {
        Coloration::Color(col) => col,
        Coloration::Texture(t) => {
            let tx = wrap_val(tc.x as int, t.width as int);
            let ty = wrap_val(tc.y as int, t.height as int);
            let p = t.pixels[ty * t.width as int + tx];
            Color {
                red: gamma_dec_val(p.r as int) as i64,
                green: gamma_dec_val(p.g as int) as i64,
                blue: gamma_dec_val(p.b as int) as i64,
            }
        },
    }
}

impl Coloration {
    /// Solid colors are displayable; textures are well-formed.
    pub open spec fn wf(self) -> bool {
        match self {
            Coloration::Color(c) => c.displayable(),
            Coloration::Texture(t) => t.wf(),
        }
    }

    /// Resolve the coloration at the given texture coordinates.
    pub fn color(&self, texture_coords: &TextureCoords) -> (r: Color)
        requires
            self.wf(),
            iabs(texture_coords.x as int) <= 0x10_0000_0000,
            iabs(texture_coords.y as int) <= 0x10_0000_0000,
        ensures
            r == coloration_color_spec(*self, *texture_coords),
            r.displayable(),
    {
        match self {
            Coloration::Color(c) => *c,
            Coloration::Texture(texture) => {
                let tex_x: u32 = wrap(texture_coords.x, texture.width);
                let tex_y: u32 = wrap(texture_coords.y, texture.height);
                let c = Color::from_rgba(texture.get_pixel(tex_x, tex_y));
                proof {
                    let p = texture.pixels[tex_y as int * texture.width as int + tex_x as int];
                    crate::color::lemma_gamma_dec_val(p.r as int, c.red as int);
                    crate::color::lemma_gamma_dec_val(p.g as int, c.green as int);
                    crate::color::lemma_gamma_dec_val(p.b as int, c.blue as int);
                }
                c
            },
        }
    }
}

/// What a surface is made of.
#[derive(Clone, Debug)]
pub struct Material {
    pub coloration: Coloration,
    pub albedo: i64,
    pub surface: SurfaceType,
}

impl Material {
    /// Albedo is a bounded non-negative fraction; the coloration is valid.
    pub open spec fn wf(self) -> bool {
        &&& self.coloration.wf()
        &&& 0 <= self.albedo <= MAX_ALBEDO
    }
}

//
// LIGHT
//

/// A light of constant direction and intensity, infinitely far away.
#[derive(Clone, Debug)]
pub struct DirectionalLight {
    pub direction: Vector3,
    pub color: Color,
    pub intensity: i64,
}

/// A point light with inverse-square falloff.
#[derive(Clone, Debug)]
pub struct SphericalLight {
    pub position: Point,
    pub color: Color,
    pub intensity: i64,
}

/// A light source.
#[derive(Clone, Debug)]
pub enum Light {
    Directional(DirectionalLight),
    Spherical(SphericalLight),
}

/// The color of a light.
pub open spec fn light_color_spec(l: Light) -> Color {
    match l {
        Light::Directional(d) => d.color,
        Light::Spherical(s) => s.color,
    }
}

/// The direction from a point toward a light: the negated beam direction of
/// a directional light, or the normalized offset toward a spherical light's
/// position.  A spherical light lying exactly on the point (within grid
/// resolution) yields the fixed fallback direction `(0, 0, 1)`.
pub open spec fn light_dir_from_spec(l: Light, p: Point) -> (int, int, int) {
    match l {
        Light::Directional(d) => (-(d.direction.x as int), -(d.direction.y as int), -(
        d.direction.z as int)),
        Light::Spherical(s) => {
            let dx = s.position.x - p.x;
            let dy = s.position.y - p.y;
            let dz = s.position.z - p.z;
            if dx * dx + dy * dy + dz * dz == 0 {
                (0, 0, 256)
            } else {
                normalize_comps(dx, dy, dz)
            }
        },
    }
}

/// The intensity a light delivers at a point: constant for a directional
/// light; `intensity / (4 * pi * r^2)` for a spherical light at squared
/// distance `r^2` (`intensity` itself within grid resolution of the light).
pub open spec fn light_intensity_spec(l: Light, p: Point) -> int {
    match l {
        Light::Directional(d) => d.intensity as int,
        Light::Spherical(s) => {
            let dx = s.position.x - p.x;
            let dy = s.position.y - p.y;
            let dz = s.position.z - p.z;
            let n2 = dx * dx + dy * dy + dz * dz;
            if n2 == 0 {
                s.intensity as int
            } else {
                ((s.intensity as int) * 0x100_0000) / ((FOUR_PI as int) * n2)
            }
        },
    }
}

/// The distance from a point to a light: unbounded (`None`) for a
/// directional light, the Euclidean distance for a spherical one.
pub open spec fn light_distance_spec(l: Light, p: Point) -> Option<int> {
    match l {
        Light::Directional(_) => None,
        Light::Spherical(s) => {
            let dx = s.position.x - p.x;
            let dy = s.position.y - p.y;
            let dz = s.position.z - p.z;
            Some(sqrt_floor(dx * dx + dy * dy + dz * dz))
        },
    }
}

/// Law: a directional light delivers the same intensity at every point; the
/// hit point plays no part.
pub proof fn lemma_directional_intensity_constant(l: Light, p1: Point, p2: Point)
    requires
        l is Directional,
    ensures
        light_intensity_spec(l, p1) == light_intensity_spec(l, p2),
{
}

/// Law: a spherical light's intensity at squared distance `n2` (raw units)
/// is exactly `intensity * SCALE^3 / (4 pi * n2)` — the inverse-square
/// falloff `intensity / (4 pi r^2)` in fixed-point form — whenever the hit
/// point is off the light within grid resolution.
pub proof fn lemma_spherical_intensity_falloff(s: SphericalLight, p: Point, n2: int)
    requires
        n2 == (s.position.x - p.x) * (s.position.x - p.x) + (s.position.y - p.y) * (s.position.y
            - p.y) + (s.position.z - p.z) * (s.position.z - p.z),
        n2 != 0,
    ensures
        light_intensity_spec(Light::Spherical(s), p) == ((s.intensity as int) * 0x100_0000) / ((
        FOUR_PI as int) * n2),
{
}

impl Light {
    /// Colors are displayable, intensities bounded, directions unit-scaled.
    pub open spec fn wf(self) -> bool {
        match self {
            Light::Directional(d) => {
                &&& d.direction.unit_range()
                &&& d.color.displayable()
                &&& 0 <= d.intensity <= MAX_INTENSITY
            },
            Light::Spherical(s) => {
                &&& s.position.in_range(MAX_COORD as int)
                &&& s.color.displayable()
                &&& 0 <= s.intensity <= MAX_INTENSITY
            },
        }
    }

    /// The light's color.
    pub fn color(&self) -> (r: Color)
        ensures
            r == light_color_spec(*self),
    {
        match self {
            Light::Directional(d) => d.color,
            Light::Spherical(s) => s.color,
        }
    }

    /// The direction from `hit_point` toward the light.
    pub fn direction_from(&self, hit_point: &Point) -> (r: Vector3)
        requires
            self.wf(),
            hit_point.in_range(MAX_TRACE_ORIGIN as int),
        ensures
            (r.x as int, r.y as int, r.z as int) == light_dir_from_spec(*self, *hit_point),
            r.unit_range(),
    {
        match self {
            Light::Directional(d) => d.direction.neg(),
            Light::Spherical(s) => {
                let v: Vector3 = s.position.sub(hit_point);
                let n2: u128 = v.norm_sq();
                if n2 == 0 {
                    Vector3 { x: 0, y: 0, z: 256 }
                } else {
                    v.normalize()
                }
            },
        }
    }

    /// The intensity delivered at `hit_point`.
    pub fn intensity(&self, hit_point: &Point) -> (r: i64)
        requires
            self.wf(),
            hit_point.in_range(MAX_TRACE_ORIGIN as int),
        ensures
            r as int == light_intensity_spec(*self, *hit_point),
            0 <= r <= 0x20_0000_0000,
    {
        match self {
            Light::Directional(d) => d.intensity,
            Light::Spherical(s) => {
                let v: Vector3 = s.position.sub(hit_point);
                let n2: u128 = v.norm_sq();
                if n2 == 0 {
                    s.intensity
                } else {
                    let num: u128 = (s.intensity as u128) * 0x100_0000;
                    proof {
                        assert(norm2_raw(v) <= 3 * (0x101_0000_0000 * 0x101_0000_0000))
                            by (nonlinear_arith)
                            requires
                                iabs(v.x as int) <= 0x101_0000_0000,
                                iabs(v.y as int) <= 0x101_0000_0000,
                                iabs(v.z as int) <= 0x101_0000_0000,
                        ;
                    }
                    let den: u128 = 3217 * n2;
                    let q: u128 = num / den;
                    proof {
                        assert(den as int >= 3217) by (nonlinear_arith)
                            requires
                                den as int == 3217 * (n2 as int),
                                n2 as int >= 1,
                        ;
                        lemma_div_denominator_le(num as int, 3217, den as int);
                        lemma_div_is_ordered(num as int, 0x1_0000_0000_0000, 3217);
                        assert(den as int == (FOUR_PI as int) * (n2 as int));
                    }
                    q as i64
                }
            },
        }
    }

    /// The distance from `hit_point` to the light, if it is finite.
    pub fn distance(&self, hit_point: &Point) -> (r: Option<i64>)
        requires
            self.wf(),
            hit_point.in_range(MAX_TRACE_ORIGIN as int),
        ensures
            match r {
                None => light_distance_spec(*self, *hit_point) is None,
                Some(d) => {
                    &&& light_distance_spec(*self, *hit_point) == Some(d as int)
                    &&& d >= 0
                },
            },
    {
        match self {
            Light::Directional(_) => None,
            Light::Spherical(s) => {
                let v: Vector3 = s.position.sub(hit_point);
                let n2: u128 = v.norm_sq();
                let d: u64 = isqrt_u128(n2);
                assert(d as int <= 0x2_0000_0000_0000) by {
                    if d as int > 0x2_0000_0000_0000 {
                        assert((d as int) * (d as int) > 0x2_0000_0000_0000 * 0x2_0000_0000_0000)
                            by (nonlinear_arith)
                            requires
                                d as int > 0x2_0000_0000_0000,
                        ;
                        assert(norm2_raw(v) <= 3 * (0x101_0000_0000 * 0x101_0000_0000))
                            by (nonlinear_arith)
                            requires
                                iabs(v.x as int) <= 0x101_0000_0000,
                                iabs(v.y as int) <= 0x101_0000_0000,
                                iabs(v.z as int) <= 0x101_0000_0000,
                        ;
                    }
                }
                Some(d as i64)
            },
        }
    }
}

//
// ELEMENTS
//

/// An infinite one-sided plane.
#[derive(Clone, Debug)]
pub struct Plane {
    pub origin: Point,
    pub normal: Vector3,
    pub material: Material,
}

impl Plane {
    /// The anchor point is a scene coordinate and the normal unit-scaled.
    pub open spec fn wf(self) -> bool {
        &&& self.origin.in_range(MAX_COORD as int)
        &&& self.normal.unit_range()
        &&& self.material.wf()
    }
}

/// A sphere.
#[derive(Clone, Debug)]
pub struct Sphere {
    pub center: Point,
    pub radius: i64,
    pub material: Material,
}

impl Sphere {
    /// The center is a scene coordinate and the radius positive.
    pub open spec fn wf(self) -> bool {
        &&& self.center.in_range(MAX_COORD as int)
        &&& 1 <= self.radius <= MAX_COORD
        &&& self.material.wf()
    }
}

/// A geometric element of the scene.
#[derive(Clone, Debug)]
pub enum Element {
    Sphere(Sphere),
    Plane(Plane),
}

/// The material of an element.
pub open spec fn element_material_spec(e: Element) -> Material {
    match e {
        Element::Sphere(s) => s.material,
        Element::Plane(p) => p.material,
    }
}

impl Element {
    /// The element's geometry and material are well-formed.
    pub open spec fn wf(self) -> bool {
        match self {
            Element::Sphere(s) => s.wf(),
            Element::Plane(p) => p.wf(),
        }
    }

    /// The element's material.
    pub fn material(&self) -> (r: &Material)
        ensures
            *r == element_material_spec(*self),
    {
        match self {
            Element::Sphere(s) => &s.material,
            Element::Plane(p) => &p.material,
        }
    }
}

//
// SCENE
//

/// A full scene description.  `fov_adjustment` is the tangent of half the
/// field of view, as a fixed-point scalar; the scene builder computes it
/// from the field-of-view angle.
#[derive(Clone, Debug)]
pub struct Scene {
    pub width: u32,
    pub height: u32,
    pub fov_adjustment: i64,
    pub max_recursion_depth: u32,
    pub shadow_bias: i64,
    pub elements: Vec<Element>,
    pub lights: Vec<Light>,
}

/// The nearest hit among the first `n` elements, scanning in list order and
/// replacing the best candidate only on a strictly smaller distance — so
/// among equal distances the element listed first wins.
pub open spec fn trace_upto(scene: Scene, ray: Ray, n: int) -> Option<Intersection>
    decreases n,
{
    if n <= 0 {
        None
    } else {
        let prev = trace_upto(scene, ray, n - 1);
        match crate::rendering::element_intersect_spec(scene.elements[n - 1], ray) {
            None => prev,
            Some(d) => match prev {
                None => Some(Intersection { distance: d as i64, index: (n - 1) as usize }),
                Some(b) => {
                    if d < b.distance as int {
                        Some(Intersection { distance: d as i64, index: (n - 1) as usize })
                    } else {
                        prev
                    }
                },
            },
        }
    }
}

/// The nearest hit of a ray against the whole scene.
pub open spec fn trace_spec(scene: Scene, ray: Ray) -> Option<Intersection> {
    trace_upto(scene, ray, scene.elements.len() as int)
}


/// The nearest hit among the first `n` elements is no farther than any
/// element's own hit, and when it is `None`, no element hits at all.
proof fn lemma_trace_upto_bound(scene: Scene, ray: Ray, n: int, i: int)
    requires
        0 <= i < n <= scene.elements.len(),
    ensures
        match trace_upto(scene, ray, n) {
            None => crate::rendering::element_intersect_spec(scene.elements[i], ray) is None,
            Some(b) => match crate::rendering::element_intersect_spec(scene.elements[i], ray) {
                None => true,
                Some(d) => d >= b.distance as int,
            },
        },
    decreases n,
{
    if i < n - 1 {
        lemma_trace_upto_bound(scene, ray, n - 1, i);
    }
}

/// Law: the tracer reports the minimum hit distance.  Every element either
/// misses the ray or is hit no closer than the reported intersection; and
/// when the tracer reports no hit, no element intersects the ray.  (That
/// the element listed first wins among equal distances is `trace_upto`'s
/// replace-only-on-strictly-smaller step.)
pub proof fn lemma_trace_minimal(scene: Scene, ray: Ray, i: int)
    requires
        0 <= i < scene.elements.len(),
    ensures
        match trace_spec(scene, ray) {
            None => crate::rendering::element_intersect_spec(scene.elements[i], ray) is None,
            Some(b) => match crate::rendering::element_intersect_spec(scene.elements[i], ray) {
                None => true,
                Some(d) => d >= b.distance as int,
            },
        },
{
    lemma_trace_upto_bound(scene, ray, scene.elements.len() as int, i);
}

impl Scene {
    /// The camera model assumes a landscape image (`width > height`); all
    /// elements and lights are well-formed and bounded.
    pub open spec fn wf(self) -> bool {
        &&& 0 < self.height < self.width <= MAX_DIM
        &&& 0 < self.fov_adjustment <= MAX_FOV_ADJ
        &&& 0 <= self.shadow_bias <= MAX_COORD
        &&& self.lights.len() <= MAX_LIGHTS
        &&& forall|i: int| 0 <= i < self.elements.len() ==> self.elements[i].wf()
        &&& forall|i: int| 0 <= i < self.lights.len() ==> self.lights[i].wf()
    }

    /// Check the scene invariant at run time, so that callers outside the
    /// library can reject a malformed scene before rendering starts.
    pub fn is_valid(&self) -> (b: bool)
        ensures
            b == self.wf(),
    {
        if !(0 < self.height && self.height < self.width && self.width <= MAX_DIM) {
            return false;
        }
        if !(0 < self.fov_adjustment && self.fov_adjustment <= MAX_FOV_ADJ) {
            return false;
        }
        if !(0 <= self.shadow_bias && self.shadow_bias <= MAX_COORD) {
            return false;
        }
        if self.lights.len() > MAX_LIGHTS {
            return false;
        }
        let mut i: usize = 0;
        while i < self.elements.len()
            invariant
                0 <= i <= self.elements.len(),
                forall|j: int| 0 <= j < i ==> self.elements[j].wf(),
            decreases self.elements.len() - i,
        {
            if !element_valid(&self.elements[i]) {
                return false;
            }
            i = i + 1;
        }
        let mut k: usize = 0;
        while k < self.lights.len()
            invariant
                0 <= k <= self.lights.len(),
                forall|j: int| 0 <= j < k ==> self.lights[j].wf(),
            decreases self.lights.len() - k,
        {
            if !light_valid(&self.lights[k]) {
                return false;
            }
            k = k + 1;
        }
        true
    }

    /// Find the nearest intersection of `ray` with any element.  Among
    /// equal distances the element listed first wins.
    pub fn trace(&self, ray: &Ray) -> (r: Option<Intersection>)
        requires
            self.wf(),
            ray.direction.unit_range(),
            crate::rendering::ray_mag(*ray) <= MAX_TRACE_ORIGIN as int,
        ensures
            r == trace_spec(*self, *ray),
            match r {
                None => true,
                Some(isect) => {
                    &&& 0 <= isect.index < self.elements.len()
                    &&& crate::rendering::element_intersect_spec(
                        self.elements[isect.index as int],
                        *ray,
                    ) == Some(isect.distance as int)
                    &&& 0 <= isect.distance <= (DIST_FACTOR as int) * crate::rendering::ray_mag(
                        *ray,
                    )
                },
            },
    {
        let mut best: Option<Intersection> = None;
        let mut i: usize = 0;
        while i < self.elements.len()
            invariant
                0 <= i <= self.elements.len(),
                self.wf(),
                ray.direction.unit_range(),
                crate::rendering::ray_mag(*ray) <= MAX_TRACE_ORIGIN as int,
                best == trace_upto(*self, *ray, i as int),
                match best {
                    None => true,
                    Some(isect) => {
                        &&& 0 <= isect.index < i
                        &&& crate::rendering::element_intersect_spec(
                            self.elements[isect.index as int],
                            *ray,
                        ) == Some(isect.distance as int)
                        &&& 0 <= isect.distance <= (DIST_FACTOR as int) * crate::rendering::ray_mag(
                            *ray,
                        )
                    },
                },
            decreases self.elements.len() - i,
        {
            let hit: Option<i64> = self.elements[i].intersect(ray);
            match hit {
                None => {},
                Some(d) => {
                    let take: bool = match &best {
                        None => true,
                        Some(b) => d < b.distance,
                    };
                    if take {
                        best = Some(Intersection::new(d, i));
                    }
                },
            }
            i = i + 1;
        }
        best
    }
}

/// Run-time check of one element's invariant.
fn element_valid(e: &Element) -> (b: bool)
    ensures
        b == e.wf(),
{
    match e {
        Element::Sphere(s) => {
            s.center.x >= -MAX_COORD && s.center.x <= MAX_COORD && s.center.y >= -MAX_COORD
                && s.center.y <= MAX_COORD && s.center.z >= -MAX_COORD && s.center.z <= MAX_COORD
                && s.radius >= 1 && s.radius <= MAX_COORD && material_valid(&s.material)
        },
        Element::Plane(p) => {
            p.origin.x >= -MAX_COORD && p.origin.x <= MAX_COORD && p.origin.y >= -MAX_COORD
                && p.origin.y <= MAX_COORD && p.origin.z >= -MAX_COORD && p.origin.z <= MAX_COORD
                && p.normal.x >= -256 && p.normal.x <= 256 && p.normal.y >= -256 && p.normal.y
                <= 256 && p.normal.z >= -256 && p.normal.z <= 256 && material_valid(&p.material)
        },
    }
}

/// Run-time check of one material's invariant.
fn material_valid(m: &Material) -> (b: bool)
    ensures
        b == m.wf(),
{
    let col_ok: bool = match &m.coloration {
        Coloration::Color(c) => {
            c.red >= 0 && c.red <= 256 && c.green >= 0 && c.green <= 256 && c.blue >= 0 && c.blue
                <= 256
        },
        Coloration::Texture(t) => {
            if 1 <= t.width && t.width <= MAX_DIM && 1 <= t.height && t.height <= MAX_DIM {
                proof {
                    assert((t.width as int) * (t.height as int) <= 4096 * 4096)
                        by (nonlinear_arith)
                        requires
                            0 <= t.width as int <= 4096,
                            0 <= t.height as int <= 4096,
                    ;
                }
                let expect: usize = (t.width as usize) * (t.height as usize);
                t.pixels.len() == expect
            } else {
                false
            }
        },
    };
    col_ok && m.albedo >= 0 && m.albedo <= MAX_ALBEDO
}

/// Run-time check of one light's invariant.
fn light_valid(l: &Light) -> (b: bool)
    ensures
        b == l.wf(),
{
    match l {
        Light::Directional(d) => {
            d.direction.x >= -256 && d.direction.x <= 256 && d.direction.y >= -256 && d.direction.y
                <= 256 && d.direction.z >= -256 && d.direction.z <= 256 && d.color.red >= 0
                && d.color.red <= 256 && d.color.green >= 0 && d.color.green <= 256 && d.color.blue
                >= 0 && d.color.blue <= 256 && d.intensity >= 0 && d.intensity <= MAX_INTENSITY
        },
        Light::Spherical(s) => {
            s.position.x >= -MAX_COORD && s.position.x <= MAX_COORD && s.position.y >= -MAX_COORD
                && s.position.y <= MAX_COORD && s.position.z >= -MAX_COORD && s.position.z
                <= MAX_COORD && s.color.red >= 0 && s.color.red <= 256 && s.color.green >= 0
                && s.color.green <= 256 && s.color.blue >= 0 && s.color.blue <= 256 && s.intensity
                >= 0 && s.intensity <= MAX_INTENSITY
        },
    }
}

//
// INTERSECTION
//

/// The nearest hit found by the tracer: a distance along the ray and the
/// index of the hit element in the scene's element list.  Referring to the
/// element by index keeps the intersection free of borrows into the scene.
#[derive(Clone, Copy, Debug)]
pub struct Intersection {
    pub distance: i64,
    pub index: usize,
}

impl Intersection {
    /// An intersection records a forward hit: its distance is never
    /// negative.  Rays that would report a backward hit report no hit
    /// instead.
    pub fn new(distance: i64, index: usize) -> (r: Intersection)
        requires
            distance >= 0,
        ensures
            r.distance == distance,
            r.index == index,
    {
        Intersection { distance, index }
    }
}

} // verus!
