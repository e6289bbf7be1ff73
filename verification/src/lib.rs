//! An offline ray-tracing renderer over exact fixed-point arithmetic.
//!
//! Every real-valued quantity (coordinates, colors, distances) is carried as
//! an `i64` holding the value times [`fixed::SCALE`].  All arithmetic is
//! integer arithmetic with stated rounding, so every function in this crate
//! has an exact contract.

use vstd::prelude::*;

pub mod color;
pub mod fixed;
pub mod point;
pub mod rendering;
pub mod scene;
pub mod vector;

use crate::color::{Rgba8, gamma_enc_val};
use crate::rendering::{Ray, cast_ray, cast_ray_spec, prime_ray_spec};
use crate::scene::Scene;
use vstd::arithmetic::div_mod::lemma_fundamental_div_mod_converse;

verus! {

/// The pixel the renderer writes for pixel coordinates `(x, y)`: the color
/// seen along the primary ray through that pixel, gamma-encoded.
pub open spec fn render_pixel_spec(scene: Scene, x: int, y: int) -> Rgba8 {
    let c = cast_ray_spec(scene, prime_ray_spec(scene, x, y), 0);
    Rgba8 {
        r: gamma_enc_val(c.red as int) as u8,
        g: gamma_enc_val(c.green as int) as u8,
        b: gamma_enc_val(c.blue as int) as u8,
        a: 255,
    }
}

/// The gamma encoding of a zero channel is the zero byte.
proof fn lemma_black_encodes_to_zero()
    ensures
        gamma_enc_val(0) == 0,
{
    vstd::arithmetic::power::lemma0_pow(5);
    vstd::arithmetic::power::lemma0_pow(11);
    vstd::arithmetic::power::lemma1_pow(11);
    assert(crate::color::is_gamma_enc(0, 0)) by {
        assert(vstd::arithmetic::power::pow(255, 11) * 0 == 0) by (nonlinear_arith);
    }
    crate::color::lemma_gamma_enc_val(0, 0);
}

/// Law: a pixel whose primary ray hits nothing is background black.
pub proof fn lemma_background_pixel_is_black(scene: Scene, x: int, y: int)
    requires
        crate::scene::trace_spec(scene, prime_ray_spec(scene, x, y)) is None,
    ensures
        render_pixel_spec(scene, x, y) == (Rgba8 { r: 0u8, g: 0u8, b: 0u8, a: 255u8 }),
{
    lemma_black_encodes_to_zero();
}

/// Law: with a recursion budget of zero the recursion floor is reached
/// before any hit test, so every pixel of the image is background black.
pub proof fn lemma_depth_zero_renders_black(scene: Scene, x: int, y: int)
    requires
        scene.max_recursion_depth == 0,
    ensures
        render_pixel_spec(scene, x, y) == (Rgba8 { r: 0u8, g: 0u8, b: 0u8, a: 255u8 }),
{
    lemma_black_encodes_to_zero();
}

/// The whole buffer `buf` is a rendering of the scene: one pixel per
/// coordinate pair, row-major.
pub open spec fn is_render_of(scene: Scene, buf: Seq<Rgba8>) -> bool {
    &&& buf.len() == (scene.width as int) * (scene.height as int)
    &&& forall|i: int|
        0 <= i < buf.len() ==> #[trigger] buf[i] == render_pixel_spec(
            scene,
            i % (scene.width as int),
            i / (scene.width as int),
        )
}

/// Render the scene into a fresh row-major RGBA pixel buffer, one opaque
/// 8-bit pixel per coordinate pair.
pub fn render(scene: &Scene) -> (r: Vec<Rgba8>)
    requires
        scene.wf(),
    ensures
        is_render_of(*scene, r@),
{
    let mut buf: Vec<Rgba8> = Vec::new();
    render_into(scene, &mut buf);
    buf
}

/// Render the scene into a caller-supplied buffer, replacing its contents.
pub fn render_into(scene: &Scene, image: &mut Vec<Rgba8>)
    requires
        scene.wf(),
    ensures
        is_render_of(*scene, final(image)@),
{
    image.clear();
    let w: usize = scene.width as usize;
    let mut y: u32 = 0;
    proof {
        assert((scene.width as int) * (scene.height as int) <= 4096 * 4096) by (nonlinear_arith)
            requires
                0 <= scene.width as int <= 4096,
                0 <= scene.height as int <= 4096,
        ;
    }
    while y < scene.height
        invariant
            scene.wf(),
            0 <= y <= scene.height,
            w == scene.width,
            image.len() == (y as int) * (scene.width as int),
            (scene.width as int) * (scene.height as int) <= 4096 * 4096,
            forall|i: int|
                0 <= i < image.len() ==> #[trigger] image[i] == render_pixel_spec(
                    *scene,
                    i % (scene.width as int),
                    i / (scene.width as int),
                ),
        decreases scene.height - y,
    {
        let mut x: u32 = 0;
        proof {
            assert((y as int) * (scene.width as int) + (scene.width as int) == ((y as int) + 1) * (
            scene.width as int)) by (nonlinear_arith);
            assert(((y as int) + 1) * (scene.width as int) <= (scene.height as int) * (
            scene.width as int)) by (nonlinear_arith)
                requires
                    (y as int) + 1 <= scene.height as int,
                    scene.width as int >= 0,
            ;
            assert((scene.height as int) * (scene.width as int) == (scene.width as int) * (
            scene.height as int)) by (nonlinear_arith);
        }
        while x < scene.width
            invariant
                scene.wf(),
                0 <= y < scene.height,
                0 <= x <= scene.width,
                w == scene.width,
                image.len() == (y as int) * (scene.width as int) + x as int,
                (y as int) * (scene.width as int) + (scene.width as int) <= (scene.width as int) * (
                scene.height as int) <= 4096 * 4096,
                forall|i: int|
                    0 <= i < image.len() ==> #[trigger] image[i] == render_pixel_spec(
                        *scene,
                        i % (scene.width as int),
                        i / (scene.width as int),
                    ),
            decreases scene.width - x,
        {
            let ray: Ray = Ray::create_prime(x, y, scene);
            let c = cast_ray(scene, &ray, 0);
            let px: Rgba8 = c.to_rgba();
            proof {
                lemma_fundamental_div_mod_converse(
                    (y as int) * (scene.width as int) + x as int,
                    scene.width as int,
                    y as int,
                    x as int,
                );
            }
            image.push(px);
            x = x + 1;
        }
        y = y + 1;
    }
    proof {
        assert((scene.height as int) * (scene.width as int) == (scene.width as int) * (
        scene.height as int)) by (nonlinear_arith);
    }
}

} // verus!
