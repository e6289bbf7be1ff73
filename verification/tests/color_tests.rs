//! Colors, clamping, and gamma-encoded pixel conversion.

use raytracer::color::{Color, Rgba8};

#[test]
fn clamp_is_identity_on_displayable() {
    let c = Color { red: 0, green: 128, blue: 256 };
    let r = c.clamp();
    assert_eq!(r, Color { red: 0, green: 128, blue: 256 });
}

#[test]
fn clamp_bounds_any_input() {
    let c = Color { red: -5000, green: 300000, blue: 100 };
    let r = c.clamp();
    assert_eq!(r, Color { red: 0, green: 256, blue: 100 });
    let d = Color { red: i64::MIN + 1, green: i64::MAX, blue: -1 };
    let rd = d.clamp();
    assert!(rd.red >= 0 && rd.red <= 256);
    assert!(rd.green >= 0 && rd.green <= 256);
    assert!(rd.blue >= 0 && rd.blue <= 256);
    assert_eq!(rd, Color { red: 0, green: 256, blue: 0 });
}

#[test]
fn color_arithmetic() {
    let a = Color { red: 128, green: 256, blue: 64 };
    let b = Color { red: 256, green: 128, blue: 256 };
    // component-wise sum
    assert_eq!(a.add(&b), Color { red: 384, green: 384, blue: 320 });
    // component-wise fixed-point product: 128 * 256 / 256 = 128, etc.
    assert_eq!(a.mul(&b), Color { red: 128, green: 128, blue: 64 });
    // scalar product by 0.5 (= 128 fixed)
    assert_eq!(a.mul_s(128), Color { red: 64, green: 128, blue: 32 });
    // scalar product truncates toward zero
    assert_eq!(Color { red: 1, green: 3, blue: 255 }.mul_s(128), Color { red: 0, green: 1, blue: 127 });
}

#[test]
fn scalar_product_commutes() {
    // multiplying by the scalar s equals multiplying by the uniform color s
    let c = Color { red: 77, green: 130, blue: 255 };
    let s: i64 = 190;
    let uniform = Color { red: s, green: s, blue: s };
    assert_eq!(c.mul_s(s), c.mul(&uniform));
    assert_eq!(c.mul_s(s), uniform.mul(&c));
}

#[test]
fn gamma_extremes_are_exact() {
    // full intensity encodes to 255 and decodes back to full intensity
    let white = Color { red: 256, green: 256, blue: 256 };
    let p = white.to_rgba();
    assert_eq!((p.r, p.g, p.b, p.a), (255, 255, 255, 255));
    assert_eq!(Color::from_rgba(p), white);
    // black encodes to 0 and decodes back to black
    let blackc = Color { red: 0, green: 0, blue: 0 };
    let q = blackc.to_rgba();
    assert_eq!((q.r, q.g, q.b, q.a), (0, 0, 0, 255));
    assert_eq!(Color::from_rgba(q), blackc);
}

#[test]
fn gamma_encode_brightens_midtones() {
    // gamma 2.2 maps linear 0.5 well above the midpoint of the byte range
    let c = Color { red: 128, green: 128, blue: 128 };
    let p = c.to_rgba();
    assert!(p.r > 150, "encoded {} should be far above 128", p.r);
    assert_eq!(p.r, p.g);
    assert_eq!(p.g, p.b);
}

#[test]
fn rgba_round_trip_within_quantization() {
    // decoding an encoded color never overshoots, and stays within one
    // quantization cell of the original
    for ch in [0i64, 1, 7, 51, 102, 128, 200, 250, 256] {
        let c = Color { red: ch, green: ch, blue: ch };
        let d = Color::from_rgba(c.clamp().to_rgba());
        assert!(d.red <= ch, "decode({ch}) overshot: {}", d.red);
        assert!(d.red >= 0);
        // re-encoding the next grid value reaches at least the same pixel
        let e = c.to_rgba();
        let up = Color { red: d.red + 1, green: d.green + 1, blue: d.blue + 1 };
        let up_clamped = up.clamp();
        let e2 = up_clamped.to_rgba();
        assert!(e2.r >= e.r || d.red == 256);
    }
}

#[test]
fn from_rgba_ignores_alpha() {
    let a = Color::from_rgba(Rgba8 { r: 200, g: 100, b: 50, a: 0 });
    let b = Color::from_rgba(Rgba8 { r: 200, g: 100, b: 50, a: 255 });
    assert_eq!(a, b);
}
