//! Vectors in 3-space, with fixed-point components.

use vstd::prelude::*;
use crate::fixed::{iabs, tdiv, sqrt_floor, is_sqrt, isqrt_u128, lemma_tdiv_mag};
use vstd::arithmetic::div_mod::{lemma_div_is_ordered, lemma_div_multiples_vanish};

verus! {

/// A displacement in space.  Components are fixed-point scalars.
#[derive(Clone, Copy, PartialEq, Eq, Structural, Debug)]
pub struct Vector3 {
    pub x: i64,
    pub y: i64,
    pub z: i64,
}

/// The dot product of two component triples, as a fixed-point scalar.
pub open spec fn dot_val(ax: int, ay: int, az: int, bx: int, by: int, bz: int) -> int {
    tdiv(ax * bx + ay * by + az * bz, 256)
}

/// The sum of squared components, in raw (unscaled) units.
pub open spec fn norm2_raw(v: Vector3) -> int {
    (v.x as int) * (v.x as int) + (v.y as int) * (v.y as int) + (v.z as int) * (v.z as int)
}

/// The components of `(sx, sy, sz)` scaled to unit length: each becomes
/// `x * SCALE / |v|`, rounded toward zero, with `|v|` the integer square
/// root of the raw squared length.
pub open spec fn normalize_comps(sx: int, sy: int, sz: int) -> (int, int, int) {
    let len = sqrt_floor(sx * sx + sy * sy + sz * sz);
    (tdiv(sx * 256, len), tdiv(sy * 256, len), tdiv(sz * 256, len))
}

/// `r` is `(sx, sy, sz)` scaled to unit length.
pub open spec fn is_normalized_of(sx: int, sy: int, sz: int, r: Vector3) -> bool {
    (r.x as int, r.y as int, r.z as int) == normalize_comps(sx, sy, sz)
}

impl Vector3 {
    /// Every component has magnitude at most `m`.
    pub open spec fn in_range(self, m: int) -> bool {
        &&& iabs(self.x as int) <= m
        &&& iabs(self.y as int) <= m
        &&& iabs(self.z as int) <= m
    }

    /// Every component has magnitude at most `SCALE`; true of every vector
    /// produced by `normalize`.
    pub open spec fn unit_range(self) -> bool {
        self.in_range(256)
    }

    /// The dot product with `other`.
    pub fn dot(&self, other: &Vector3) -> (r: i64)
        requires
            iabs((self.x as int) * (other.x as int)) + iabs((self.y as int) * (other.y as int))
                + iabs((self.z as int) * (other.z as int)) < 0x40_0000_0000_0000_0000,
        ensures
            r as int == dot_val(
                self.x as int,
                self.y as int,
                self.z as int,
                other.x as int,
                other.y as int,
                other.z as int,
            ),
            iabs(r as int) * 256 <= iabs((self.x as int) * (other.x as int)) + iabs(
                (self.y as int) * (other.y as int),
            ) + iabs((self.z as int) * (other.z as int)),
    {
        let px: i128 = (self.x as i128) * (other.x as i128);
        let py: i128 = (self.y as i128) * (other.y as i128);
        let pz: i128 = (self.z as i128) * (other.z as i128);
        let s: i128 = px + py + pz;
        proof {
            lemma_tdiv_mag(s as int, 256);
        }
        let neg: bool = s < 0;
        let m: u128 = if neg {
            (-s) as u128
        } else {
            s as u128
        };
        let q: u128 = m / 256;
        assert(q as int <= 0x40_0000_0000_0000_0000int / 256) by {
            lemma_div_is_ordered(m as int, 0x40_0000_0000_0000_0000, 256);
        }
        if neg {
            -(q as i64)
        } else {
            q as i64
        }
    }

    /// The negation of `self`.
    pub fn neg(&self) -> (r: Vector3)
        requires
            self.in_range(0x4000_0000_0000_0000),
        ensures
            r.x as int == -(self.x as int),
            r.y as int == -(self.y as int),
            r.z as int == -(self.z as int),
    {
        Vector3 { x: -self.x, y: -self.y, z: -self.z }
    }

    /// The sum of squared components, in raw units.
    pub fn norm_sq(&self) -> (r: u128)
        ensures
            r as int == norm2_raw(*self),
    {
        proof {
            lemma_square_bounds(self.x as int);
            lemma_square_bounds(self.y as int);
            lemma_square_bounds(self.z as int);
        }
        let px: i128 = (self.x as i128) * (self.x as i128);
        let py: i128 = (self.y as i128) * (self.y as i128);
        let pz: i128 = (self.z as i128) * (self.z as i128);
        (px as u128) + (py as u128) + (pz as u128)
    }

    /// `self` scaled to unit length.
    pub fn normalize(&self) -> (r: Vector3)
        requires
            norm2_raw(*self) > 0,
        ensures
            is_normalized_of(self.x as int, self.y as int, self.z as int, r),
            r.unit_range(),
    {
        let n2: u128 = self.norm_sq();
        let len: u64 = isqrt_u128(n2);
        assert(len >= 1) by {
            if len == 0 {
                assert((0int + 1) * (0int + 1) == 1);
            }
        }
        proof {
            lemma_square_bounds(self.x as int);
            lemma_square_bounds(self.y as int);
            lemma_square_bounds(self.z as int);
            lemma_comp_le_len(self.x as int, n2 as int, len as int);
            lemma_comp_le_len(self.y as int, n2 as int, len as int);
            lemma_comp_le_len(self.z as int, n2 as int, len as int);
        }
        let rx: i64 = div_comp(self.x, len);
        let ry: i64 = div_comp(self.y, len);
        let rz: i64 = div_comp(self.z, len);
        Vector3 { x: rx, y: ry, z: rz }
    }
}

/// A square is non-negative and, for an `i64`, below `2^126`.
pub proof fn lemma_square_bounds(x: int)
    by (nonlinear_arith)
    requires
        -0x8000_0000_0000_0000 <= x < 0x8000_0000_0000_0000,
    ensures
        0 <= x * x,
        x * x <= 0x4000_0000_0000_0000_0000_0000_0000_0000,
{
}

/// Each component's magnitude is at most the integer square root of the
/// squared length.
proof fn lemma_comp_le_len(x: int, n2: int, len: int)
    requires
        is_sqrt(n2, len),
        x * x <= n2,
    ensures
        iabs(x) <= len,
{
    if iabs(x) > len {
        assert((len + 1) * (len + 1) <= x * x) by (nonlinear_arith)
            requires
                0 <= len,
                len + 1 <= iabs(x),
        ;
    }
}

/// One normalized component: `x * SCALE / len`, rounded toward zero.
fn div_comp(x: i64, len: u64) -> (r: i64)
    requires
        len >= 1,
        iabs(x as int) <= len as int,
    ensures
        r as int == tdiv((x as int) * 256, len as int),
        iabs(r as int) <= 256,
{
    let neg: bool = x < 0;
    let m: u128 = if neg {
        ((-(x as i128)) as u128) * 256
    } else {
        ((x as i128) as u128) * 256
    };
    let q: u128 = m / (len as u128);
    proof {
        assert(m as int == iabs((x as int) * 256)) by (nonlinear_arith)
            requires
                m as int == iabs(x as int) * 256,
        ;
        lemma_tdiv_mag((x as int) * 256, len as int);
        assert(m as int <= (len as int) * 256) by (nonlinear_arith)
            requires
                m as int == iabs(x as int) * 256,
                iabs(x as int) <= len as int,
        ;
        lemma_div_is_ordered(m as int, (len as int) * 256, len as int);
        lemma_div_multiples_vanish(256, len as int);
    }
    if neg {
        -(q as i64)
    } else {
        q as i64
    }
}

} // verus!
