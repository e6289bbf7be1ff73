//! Linear-light colors and gamma-encoded 8-bit pixels.
//!
//! Channels are fixed-point scalars: `0` is black, `SCALE` is full
//! intensity.  Conversion to a pixel applies the display gamma of 2.2
//! (`channel^(1/2.2)`, that is `channel^(5/11)`), conversion back applies
//! `channel^2.2`; both are computed exactly with integer roots and are
//! characterized by the power inequalities below.

use vstd::prelude::*;
use vstd::arithmetic::power::pow;
use crate::fixed::{iabs, fix_mul, fmul, upow, iroot, lemma_pow_le_base, lemma_pow_lt_base,
    lemma_pow_nonneg, lemma_div_lt, lemma_div_le_mul, lemma_lt_div_mul};
use vstd::arithmetic::div_mod::{lemma_div_is_ordered, lemma_div_multiples_vanish};

verus! {

/// A color in linear light; channels may leave `[0, SCALE]` during
/// accumulation.
#[derive(Clone, Copy, PartialEq, Eq, Structural, Debug)]
pub struct Color {
    pub red: i64,
    pub green: i64,
    pub blue: i64,
}

/// A gamma-encoded pixel, 8 bits per channel.
#[derive(Clone, Copy, PartialEq, Eq, Structural, Debug)]
pub struct Rgba8 {
    pub r: u8,
    pub g: u8,
    pub b: u8,
    pub a: u8,
}

/// One channel clamped to the displayable range `[0, SCALE]`.
pub open spec fn clamp_val(c: int) -> int {
    if c < 0 {
        0
    } else if c > 256 {
        256
    } else {
        c
    }
}

/// The color with all channels zero.
pub open spec fn black() -> Color {
    Color { red: 0, green: 0, blue: 0 }
}

/// `e` is the gamma-encoded 8-bit value of linear channel `c`:
/// `e = floor(255 * (c/SCALE)^(5/11))`, stated without division as a pair of
/// power inequalities (`2^40 = SCALE^5`).
pub open spec fn is_gamma_enc(c: int, e: int) -> bool {
    &&& 0 <= e <= 255
    &&& pow(e, 11) * 0x100_0000_0000 <= pow(255, 11) * pow(c, 5)
    &&& pow(255, 11) * pow(c, 5) < pow(e + 1, 11) * 0x100_0000_0000
}

/// `c` is the linear channel of gamma-encoded value `e`:
/// `c = floor(SCALE * (e/255)^(11/5))`, stated as power inequalities.
pub open spec fn is_gamma_dec(e: int, c: int) -> bool {
    &&& 0 <= c <= 256
    &&& pow(c, 5) * pow(255, 11) <= pow(e, 11) * 0x100_0000_0000
    &&& pow(e, 11) * 0x100_0000_0000 < pow(c + 1, 5) * pow(255, 11)
}

/// The gamma-encoded 8-bit value of linear channel `c`.
pub open spec fn gamma_enc_val(c: int) -> int {
    choose|e: int| is_gamma_enc(c, e)
}

/// The linear channel of gamma-encoded value `e`.
pub open spec fn gamma_dec_val(e: int) -> int {
    choose|c: int| is_gamma_dec(e, c)
}

/// A witness pins down `gamma_enc_val`.
pub proof fn lemma_gamma_enc_val(c: int, e: int)
    requires
        is_gamma_enc(c, e),
    ensures
        gamma_enc_val(c) == e,
{
    assert(exists|x: int| is_gamma_enc(c, x));
    let e2 = choose|x: int| is_gamma_enc(c, x);
    lemma_gamma_enc_unique(c, e, e2);
}

/// A witness pins down `gamma_dec_val`.
pub proof fn lemma_gamma_dec_val(e: int, c: int)
    requires
        is_gamma_dec(e, c),
    ensures
        gamma_dec_val(e) == c,
{
    assert(exists|x: int| is_gamma_dec(e, x));
    let c2 = choose|x: int| is_gamma_dec(e, x);
    lemma_gamma_dec_unique(e, c, c2);
}

/// Two encodings of the same channel coincide.
proof fn lemma_gamma_enc_unique(c: int, e1: int, e2: int)
    requires
        is_gamma_enc(c, e1),
        is_gamma_enc(c, e2),
    ensures
        e1 == e2,
{
    if e1 < e2 {
        lemma_pow_le_base(e1 + 1, e2, 11);
        lemma_gamma_bracket_order(pow(e1 + 1, 11), pow(e2, 11));
    }
    if e2 < e1 {
        lemma_pow_le_base(e2 + 1, e1, 11);
        lemma_gamma_bracket_order(pow(e2 + 1, 11), pow(e1, 11));
    }
}

/// Two decodings of the same pixel value coincide.
proof fn lemma_gamma_dec_unique(e: int, c1: int, c2: int)
    requires
        is_gamma_dec(e, c1),
        is_gamma_dec(e, c2),
    ensures
        c1 == c2,
{
    vstd::arithmetic::power::lemma_pow_positive(255, 11);
    if c1 < c2 {
        lemma_pow_le_base(c1 + 1, c2, 5);
        assert(pow(c1 + 1, 5) * pow(255, 11) <= pow(c2, 5) * pow(255, 11)) by (nonlinear_arith)
            requires
                pow(c1 + 1, 5) <= pow(c2, 5),
                pow(255, 11) > 0,
        ;
    }
    if c2 < c1 {
        lemma_pow_le_base(c2 + 1, c1, 5);
        assert(pow(c2 + 1, 5) * pow(255, 11) <= pow(c1, 5) * pow(255, 11)) by (nonlinear_arith)
            requires
                pow(c2 + 1, 5) <= pow(c1, 5),
                pow(255, 11) > 0,
        ;
    }
}

/// Multiplying both sides of a power inequality by `2^40` keeps the order.
proof fn lemma_gamma_bracket_order(p1: int, p2: int)
    requires
        p1 <= p2,
    ensures
        p1 * 0x100_0000_0000 <= p2 * 0x100_0000_0000,
{
}

/// `pow(256, 5)` and `pow(256, 11)` as powers of two, and the size of
/// `pow(255, 11)`.
proof fn lemma_gamma_constants()
    ensures
        pow(256, 5) == 0x100_0000_0000,
        pow(256, 11) == 0x100_0000_0000_0000_0000_0000,
        pow(255, 11) < 0x100_0000_0000_0000_0000_0000,
        pow(257, 5) > 0x100_0000_0000,
{
    vstd::arithmetic::power2::lemma_pow2(8);
    assert(vstd::arithmetic::power2::pow2(8) == 256) by {
        vstd::arithmetic::power2::lemma2_to64();
    }
    vstd::arithmetic::power::lemma_pow_multiplies(2, 8, 5);
    vstd::arithmetic::power::lemma_pow_multiplies(2, 8, 11);
    vstd::arithmetic::power2::lemma_pow2(40);
    vstd::arithmetic::power2::lemma_pow2(88);
    assert(vstd::arithmetic::power2::pow2(40) == 0x100_0000_0000) by {
        vstd::arithmetic::power2::lemma2_to64();
        vstd::arithmetic::power2::lemma2_to64_rest();
    }
    assert(vstd::arithmetic::power2::pow2(88) == 0x100_0000_0000_0000_0000_0000) by {
        vstd::arithmetic::power2::lemma_pow2_adds(64, 24);
        vstd::arithmetic::power2::lemma2_to64();
        vstd::arithmetic::power2::lemma2_to64_rest();
    }
    lemma_pow_lt_base(255, 256, 11);
    lemma_pow_lt_base(256, 257, 5);
}

/// Gamma-encode one displayable linear channel to 8 bits.
fn gamma_encode(c: i64) -> (e: u8)
    requires
        0 <= c <= 256,
    ensures
        is_gamma_enc(c as int, e as int),
{
    proof {
        lemma_gamma_constants();
        lemma_pow_le_base(c as int, 256, 5);
        lemma_pow_nonneg(c as int, 5);
    }
    let a: u128 = upow(255, 11);
    let b: u128 = upow(c as u64, 5);
    proof {
        assert((a as int) * (b as int) <= 0xFF_FFFF_FFFF_FFFF_FFFF_FFFF * 0x100_0000_0000)
            by (nonlinear_arith)
            requires
                0 <= a as int <= 0xFF_FFFF_FFFF_FFFF_FFFF_FFFF,
                0 <= b as int <= 0x100_0000_0000,
        ;
    }
    let p: u128 = a * b;
    let x: u128 = p / 0x100_0000_0000;
    proof {
        assert((p as int) < 0x100_0000_0000_0000_0000_0000 * 0x100_0000_0000) by (nonlinear_arith)
            requires
                0 <= b as int <= 0x100_0000_0000,
                0 <= a as int,
                (a as int) < 0x100_0000_0000_0000_0000_0000,
        ;
        lemma_div_lt(p as int, 0x100_0000_0000, 0x100_0000_0000_0000_0000_0000);
    }
    let e: u64 = iroot(x, 11, 256);
    proof {
        lemma_div_le_mul(p as int, 0x100_0000_0000, pow(e as int, 11));
        lemma_lt_div_mul(p as int, 0x100_0000_0000, pow(e as int + 1, 11));
    }
    e as u8
}

/// Gamma-decode one 8-bit channel to a displayable linear channel.
fn gamma_decode(e: u8) -> (c: i64)
    requires
        e <= 255,
    ensures
        is_gamma_dec(e as int, c as int),
        0 <= c <= 256,
{
    proof {
        lemma_gamma_constants();
        lemma_pow_le_base(e as int, 255, 11);
        lemma_pow_nonneg(e as int, 11);
    }
    let a: u128 = upow(e as u64, 11);
    proof {
        assert((a as int) * 0x100_0000_0000 <= 0xFF_FFFF_FFFF_FFFF_FFFF_FFFF * 0x100_0000_0000)
            by (nonlinear_arith)
            requires
                0 <= a as int <= 0xFF_FFFF_FFFF_FFFF_FFFF_FFFF,
        ;
    }
    let p: u128 = a * 0x100_0000_0000;
    let d255: u128 = upow(255, 11);
    assert(d255 >= 1) by {
        vstd::arithmetic::power::lemma_pow_positive(255, 11);
    }
    let x: u128 = p / d255;
    proof {
        assert((a as int) * 0x100_0000_0000 <= (d255 as int) * 0x100_0000_0000) by (nonlinear_arith)
            requires
                0 <= a as int <= d255 as int,
        ;
        lemma_div_is_ordered(p as int, (d255 as int) * 0x100_0000_0000, d255 as int);
        lemma_div_multiples_vanish(0x100_0000_0000, d255 as int);
        assert(x as int <= 0x100_0000_0000);
    }
    let c: u64 = iroot(x, 5, 257);
    proof {
        lemma_div_le_mul(p as int, d255 as int, pow(c as int, 5));
        lemma_lt_div_mul(p as int, d255 as int, pow(c as int + 1, 5));
        assert(c as int <= 256) by {
            if c as int > 256 {
                lemma_pow_lt_base(256, c as int, 5);
                lemma_div_le_mul(p as int, d255 as int, pow(c as int, 5));
            }
        }
    }
    c as i64
}

impl Color {
    /// Every channel has magnitude at most `m`.
    pub open spec fn in_range(self, m: int) -> bool {
        &&& iabs(self.red as int) <= m
        &&& iabs(self.green as int) <= m
        &&& iabs(self.blue as int) <= m
    }

    /// Every channel is displayable: within `[0, SCALE]`.
    pub open spec fn displayable(self) -> bool {
        &&& 0 <= self.red <= 256
        &&& 0 <= self.green <= 256
        &&& 0 <= self.blue <= 256
    }

    /// The color with all channels zero.
    pub fn black_color() -> (r: Color)
        ensures
            r == black(),
    {
        Color { red: 0, green: 0, blue: 0 }
    }

    /// Clamp every channel to the displayable range.  The result is always
    /// within `[0, SCALE]`, whatever the input.
    pub fn clamp(&self) -> (r: Color)
        ensures
            r.red as int == clamp_val(self.red as int),
            r.green as int == clamp_val(self.green as int),
            r.blue as int == clamp_val(self.blue as int),
            r.displayable(),
    {
        Color {
            red: clamp_channel(self.red),
            green: clamp_channel(self.green),
            blue: clamp_channel(self.blue),
        }
    }

    /// Component-wise sum.
    pub fn add(&self, other: &Color) -> (r: Color)
        requires
            self.in_range(0x2000_0000_0000_0000),
            other.in_range(0x2000_0000_0000_0000),
        ensures
            r.red as int == self.red + other.red,
            r.green as int == self.green + other.green,
            r.blue as int == self.blue + other.blue,
    {
        Color { red: self.red + other.red, green: self.green + other.green, blue: self.blue
            + other.blue }
    }

    /// Component-wise product, as fixed-point scalars.
    pub fn mul(&self, other: &Color) -> (r: Color)
        requires
            iabs((self.red as int) * (other.red as int)) < 0x40_0000_0000_0000_0000,
            iabs((self.green as int) * (other.green as int)) < 0x40_0000_0000_0000_0000,
            iabs((self.blue as int) * (other.blue as int)) < 0x40_0000_0000_0000_0000,
        ensures
            r.red as int == fix_mul(self.red as int, other.red as int),
            r.green as int == fix_mul(self.green as int, other.green as int),
            r.blue as int == fix_mul(self.blue as int, other.blue as int),
    {
        Color {
            red: fmul(self.red, other.red),
            green: fmul(self.green, other.green),
            blue: fmul(self.blue, other.blue),
        }
    }

    /// Every channel multiplied by the fixed-point scalar `s`.
    pub fn mul_s(&self, s: i64) -> (r: Color)
        requires
            iabs((self.red as int) * (s as int)) < 0x40_0000_0000_0000_0000,
            iabs((self.green as int) * (s as int)) < 0x40_0000_0000_0000_0000,
            iabs((self.blue as int) * (s as int)) < 0x40_0000_0000_0000_0000,
        ensures
            r.red as int == fix_mul(self.red as int, s as int),
            r.green as int == fix_mul(self.green as int, s as int),
            r.blue as int == fix_mul(self.blue as int, s as int),
    {
        Color { red: fmul(self.red, s), green: fmul(self.green, s), blue: fmul(self.blue, s) }
    }

    /// Gamma-encode a displayable color as an opaque 8-bit pixel.
    pub fn to_rgba(&self) -> (r: Rgba8)
        requires
            self.displayable(),
        ensures
            is_gamma_enc(self.red as int, r.r as int),
            is_gamma_enc(self.green as int, r.g as int),
            is_gamma_enc(self.blue as int, r.b as int),
            r.r as int == gamma_enc_val(self.red as int),
            r.g as int == gamma_enc_val(self.green as int),
            r.b as int == gamma_enc_val(self.blue as int),
            r.a == 255,
    {
        let er: u8 = gamma_encode(self.red);
        let eg: u8 = gamma_encode(self.green);
        let eb: u8 = gamma_encode(self.blue);
        proof {
            lemma_gamma_enc_val(self.red as int, er as int);
            lemma_gamma_enc_val(self.green as int, eg as int);
            lemma_gamma_enc_val(self.blue as int, eb as int);
        }
        Rgba8 { r: er, g: eg, b: eb, a: 255 }
    }

    /// Decode an 8-bit pixel to a linear color; the alpha channel is ignored.
    pub fn from_rgba(rgba: Rgba8) -> (r: Color)
        ensures
            is_gamma_dec(rgba.r as int, r.red as int),
            is_gamma_dec(rgba.g as int, r.green as int),
            is_gamma_dec(rgba.b as int, r.blue as int),
            r.red as int == gamma_dec_val(rgba.r as int),
            r.green as int == gamma_dec_val(rgba.g as int),
            r.blue as int == gamma_dec_val(rgba.b as int),
            r.displayable(),
    {
        let cr: i64 = gamma_decode(rgba.r);
        let cg: i64 = gamma_decode(rgba.g);
        let cb: i64 = gamma_decode(rgba.b);
        proof {
            lemma_gamma_dec_val(rgba.r as int, cr as int);
            lemma_gamma_dec_val(rgba.g as int, cg as int);
            lemma_gamma_dec_val(rgba.b as int, cb as int);
        }
        Color { red: cr, green: cg, blue: cb }
    }
}

/// One clamped channel.
fn clamp_channel(c: i64) -> (r: i64)
    ensures
        r as int == clamp_val(c as int),
{
    if c < 0 {
        0
    } else if c > 256 {
        256
    } else {
        c
    }
}

/// Law: the round trip `from_rgba(to_rgba(c))` recovers each channel of a
/// displayable color within its 8-bit quantization cell.  The recovered
/// channel `d` never overshoots (`d <= c`), and `c` does not reach past the
/// decoding of the next pixel value: the error is bounded by one
/// quantization step of the gamma curve.
pub proof fn lemma_gamma_round_trip(c: int, e: int, d: int)
    requires
        0 <= c <= 256,
        is_gamma_enc(c, e),
        is_gamma_dec(e, d),
    ensures
        d <= c,
        forall|d2: int| #[trigger] is_gamma_dec(e + 1, d2) ==> c <= d2,
{
    assert(pow(d, 5) * pow(255, 11) <= pow(255, 11) * pow(c, 5));
    vstd::arithmetic::power::lemma_pow_positive(255, 11);
    assert(pow(d, 5) <= pow(c, 5)) by (nonlinear_arith)
        requires
            pow(d, 5) * pow(255, 11) <= pow(255, 11) * pow(c, 5),
            pow(255, 11) > 0,
    ;
    if d > c {
        lemma_pow_lt_base(c, d, 5);
    }
    assert forall|d2: int| #[trigger] is_gamma_dec(e + 1, d2) implies c <= d2 by {
        assert(pow(255, 11) * pow(c, 5) < pow(e + 1, 11) * 0x100_0000_0000);
        assert(pow(e + 1, 11) * 0x100_0000_0000 < pow(d2 + 1, 5) * pow(255, 11));
        assert(pow(c, 5) < pow(d2 + 1, 5)) by (nonlinear_arith)
            requires
                pow(255, 11) * pow(c, 5) < pow(d2 + 1, 5) * pow(255, 11),
                pow(255, 11) > 0,
        ;
        if c > d2 {
            lemma_pow_le_base(d2 + 1, c, 5);
        }
    }
}

/// Law: the full-color round trip.  Decoding the pixel written by `to_rgba`
/// yields a color bounded above by the original in every channel, within
/// 8-bit quantization.
pub proof fn lemma_rgba_round_trip(c: Color, p: Rgba8, d: Color)
    requires
        c.displayable(),
        is_gamma_enc(c.red as int, p.r as int),
        is_gamma_enc(c.green as int, p.g as int),
        is_gamma_enc(c.blue as int, p.b as int),
        is_gamma_dec(p.r as int, d.red as int),
        is_gamma_dec(p.g as int, d.green as int),
        is_gamma_dec(p.b as int, d.blue as int),
    ensures
        d.red <= c.red,
        d.green <= c.green,
        d.blue <= c.blue,
{
    lemma_gamma_round_trip(c.red as int, p.r as int, d.red as int);
    lemma_gamma_round_trip(c.green as int, p.g as int, d.green as int);
    lemma_gamma_round_trip(c.blue as int, p.b as int, d.blue as int);
}

} // verus!
