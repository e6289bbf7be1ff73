//! Fixed-point scalars.
//!
//! A real number `x` is represented by the `i64` value `x * SCALE`, rounded
//! toward zero.  All operations are defined exactly over the representation:
//! `fix_mul`, `fix_div` and `fix_sqrt` below are the mathematical models, and
//! the executable functions return precisely those values.

use vstd::prelude::*;
use vstd::arithmetic::div_mod::lemma_fundamental_div_mod;
use vstd::arithmetic::mul::lemma_mul_inequality;
use vstd::arithmetic::power::pow;

verus! {

/// Number of representation units per real unit.
pub const SCALE: i64 = 256;

/// Magnitude of an integer.
pub open spec fn iabs(a: int) -> int {
    if a >= 0 {
        a
    } else {
        -a
    }
}

/// Division rounded toward zero (the divisor is expected to be positive).
pub open spec fn tdiv(a: int, b: int) -> int
    recommends
        b > 0,
{
    if a >= 0 {
        a / b
    } else {
        -((-a) / b)
    }
}

/// Product of two fixed-point scalars.
pub open spec fn fix_mul(a: int, b: int) -> int {
    tdiv(a * b, SCALE as int)
}

/// Quotient of two fixed-point scalars (positive divisor).
pub open spec fn fix_div(a: int, b: int) -> int
    recommends
        b > 0,
{
    tdiv(a * (SCALE as int), b)
}

/// Law: the fixed-point product is commutative.
pub proof fn lemma_fix_mul_comm(a: int, b: int)
    ensures
        fix_mul(a, b) == fix_mul(b, a),
{
    assert(a * b == b * a) by (nonlinear_arith);
}

/// `r` is the integer square root of `v` rounded down.
pub open spec fn is_sqrt(v: int, r: int) -> bool {
    &&& 0 <= r
    &&& r * r <= v
    &&& v < (r + 1) * (r + 1)
}

/// The integer square root of `v`, rounded down.
pub open spec fn sqrt_floor(v: int) -> int
    recommends
        v >= 0,
{
    choose|r: int| is_sqrt(v, r)
}

/// Square root of a non-negative fixed-point scalar.
pub open spec fn fix_sqrt(x: int) -> int
    recommends
        x >= 0,
{
    sqrt_floor(x * (SCALE as int))
}

/// Two integer square roots of the same value coincide.
pub proof fn lemma_sqrt_unique(v: int, r1: int, r2: int)
    by (nonlinear_arith)
    requires
        is_sqrt(v, r1),
        is_sqrt(v, r2),
    ensures
        r1 == r2,
{
}

/// A witness pins down `sqrt_floor`.
pub proof fn lemma_sqrt_floor_eq(v: int, r: int)
    requires
        is_sqrt(v, r),
    ensures
        sqrt_floor(v) == r,
{
    assert(exists|x: int| is_sqrt(v, x));
    let rc = choose|x: int| is_sqrt(v, x);
    lemma_sqrt_unique(v, rc, r);
}

/// A bound on each factor bounds the magnitude of a product.
pub proof fn lemma_abs_mul_le(a: int, b: int, x: int, y: int)
    by (nonlinear_arith)
    requires
        iabs(a) <= x,
        iabs(b) <= y,
    ensures
        iabs(a * b) <= x * y,
{
}

/// Truncated division shrinks magnitudes: `|a / b| * b <= |a|`.
pub proof fn lemma_tdiv_mag(a: int, b: int)
    requires
        b > 0,
    ensures
        iabs(tdiv(a, b)) * b <= iabs(a),
        iabs(tdiv(a, b)) <= iabs(a),
        a >= 0 ==> tdiv(a, b) >= 0 && tdiv(a, b) == a / b,
        a < 0 ==> tdiv(a, b) <= 0,
{
    let m = iabs(a);
    lemma_fundamental_div_mod(m, b);
    let q = m / b;
    assert(q * b <= m) by (nonlinear_arith)
        requires
            b > 0,
            m >= 0,
            m == b * q + m % b,
            m % b >= 0,
    ;
    assert(q <= q * b) by (nonlinear_arith)
        requires
            b >= 1,
            q >= 0,
    ;
}

/// `a * d <= n` forces `a <= n / d`.
pub proof fn lemma_le_div(n: int, d: int, a: int)
    requires
        d > 0,
        a * d <= n,
    ensures
        a <= n / d,
{
    lemma_fundamental_div_mod(n, d);
    let q = n / d;
    if a > q {
        lemma_mul_inequality(q + 1, a, d);
        assert((q + 1) * d == q * d + d) by (nonlinear_arith);
        assert(q * d == d * q) by (nonlinear_arith);
    }
}

/// `n < m * d` forces `n / d < m`.
pub proof fn lemma_div_lt(n: int, d: int, m: int)
    requires
        d > 0,
        n < m * d,
    ensures
        n / d < m,
{
    lemma_fundamental_div_mod(n, d);
    let q = n / d;
    if q >= m {
        lemma_mul_inequality(m, q, d);
        assert(q * d == d * q) by (nonlinear_arith);
    }
}

/// `a <= n / d` forces `a * d <= n` for non-negative `n`.
pub proof fn lemma_div_le_mul(n: int, d: int, a: int)
    requires
        d > 0,
        n >= 0,
        a <= n / d,
    ensures
        a * d <= n,
{
    lemma_fundamental_div_mod(n, d);
    let q = n / d;
    lemma_mul_inequality(a, q, d);
    assert(q * d == d * q) by (nonlinear_arith);
}

/// `n / d < m` forces `n < m * d` for non-negative `n`.
pub proof fn lemma_lt_div_mul(n: int, d: int, m: int)
    requires
        d > 0,
        n >= 0,
        n / d < m,
    ensures
        n < m * d,
{
    lemma_fundamental_div_mod(n, d);
    let q = n / d;
    lemma_mul_inequality(q + 1, m, d);
    assert((q + 1) * d == d * q + d) by (nonlinear_arith);
}

/// Dividing a non-negative value by a larger positive divisor gives no more.
pub proof fn lemma_div_denominator_le(n: int, d1: int, d2: int)
    requires
        n >= 0,
        0 < d1 <= d2,
    ensures
        n / d2 <= n / d1,
{
    lemma_fundamental_div_mod(n, d2);
    let q = n / d2;
    assert(q >= 0) by {
        if q < 0 {
            assert(d2 * q <= -d2) by (nonlinear_arith)
                requires
                    d2 > 0,
                    q <= -1,
            ;
        }
    }
    assert(q * d1 <= q * d2) by (nonlinear_arith)
        requires
            q >= 0,
            d1 <= d2,
    ;
    assert(q * d2 <= n) by (nonlinear_arith)
        requires
            n == d2 * q + n % d2,
            n % d2 >= 0,
    ;
    lemma_le_div(n, d1, q);
}

/// Integer square root by bisection.
pub fn isqrt_u128(v: u128) -> (r: u64)
    ensures
        is_sqrt(v as int, r as int),
        r as int == sqrt_floor(v as int),
{
    let mut lo: u128 = 0;
    let mut hi: u128 = 0x1_0000_0000_0000_0000;
    if v < hi {
        hi = v + 1;
        assert((v as int) < (hi as int) * (hi as int)) by (nonlinear_arith)
            requires
                hi as int == v as int + 1,
                v as int >= 0,
        ;
    } else {
        assert((hi as int) * (hi as int) == 0x1_0000_0000_0000_0000_0000_0000_0000_0000int)
            by (nonlinear_arith)
            requires
                hi as int == 0x1_0000_0000_0000_0000,
        ;
    }
    while hi - lo > 1
        invariant
            0 <= lo < hi <= 0x1_0000_0000_0000_0000,
            (lo as int) * (lo as int) <= v as int,
            (v as int) < (hi as int) * (hi as int),
        decreases hi - lo,
    {
        let mid: u128 = lo + (hi - lo) / 2;
        assert(lo < mid < hi);
        assert(mid * mid <= 0xffff_ffff_ffff_ffff * 0xffff_ffff_ffff_ffff) by (nonlinear_arith)
            requires
                0 <= mid <= 0xffff_ffff_ffff_ffff,
        ;
        let m2: u128 = mid * mid;
        if m2 <= v {
            lo = mid;
        } else {
            hi = mid;
        }
    }
    assert(hi == lo + 1);
    proof {
        lemma_sqrt_floor_eq(v as int, lo as int);
    }
    lo as u64
}

/// Fixed-point product, rounded toward zero.
pub fn fmul(a: i64, b: i64) -> (r: i64)
    requires
        iabs((a as int) * (b as int)) < 0x40_0000_0000_0000_0000,
    ensures
        r as int == fix_mul(a as int, b as int),
        iabs(r as int) * 256 <= iabs((a as int) * (b as int)),
        (a as int) * (b as int) >= 0 ==> r >= 0,
{
    proof {
        lemma_abs_mul_le(a as int, b as int, iabs(a as int), iabs(b as int));
        lemma_tdiv_mag((a as int) * (b as int), 256);
    }
    let p: i128 = (a as i128) * (b as i128);
    let neg: bool = p < 0;
    let m: u128 = if neg {
        (-p) as u128
    } else {
        p as u128
    };
    let q: u128 = m / 256;
    assert(q as int <= 0x40_0000_0000_0000_0000int / 256) by {
        vstd::arithmetic::div_mod::lemma_div_is_ordered(m as int, 0x40_0000_0000_0000_0000, 256);
    }
    if neg {
        -(q as i64)
    } else {
        q as i64
    }
}

/// Fixed-point quotient by a positive divisor, rounded toward zero.
pub fn fdiv(a: i64, b: i64) -> (r: i64)
    requires
        b > 0,
        iabs(a as int) < 0x20_0000_0000_0000,
    ensures
        r as int == fix_div(a as int, b as int),
        iabs(r as int) <= iabs(a as int) * 256,
        a >= 0 ==> r >= 0,
{
    let neg: bool = a < 0;
    let m: u128 = if neg {
        ((-a) as i128) as u128
    } else {
        (a as i128) as u128
    };
    let n: u128 = m * 256;
    let q: u128 = n / (b as u128);
    proof {
        lemma_tdiv_mag((a as int) * 256, b as int);
        assert((a as int) * 256 == if a >= 0 { (m as int) * 256 } else { -((m as int) * 256) })
            by (nonlinear_arith)
            requires
                m as int == iabs(a as int),
        ;
        assert(iabs((a as int) * 256) == (m as int) * 256);
        lemma_tdiv_mag(n as int, b as int);
        assert(iabs(tdiv(n as int, b as int)) <= n as int);
    }
    if neg {
        -(q as i64)
    } else {
        q as i64
    }
}

/// Square root of a non-negative fixed-point scalar.
pub fn fsqrt(x: i64) -> (r: i64)
    requires
        x >= 0,
    ensures
        r as int == fix_sqrt(x as int),
        is_sqrt((x as int) * 256, r as int),
        r >= 0,
{
    let v: u128 = (x as u128) * 256;
    let r: u64 = isqrt_u128(v);
    assert((r as int) * (r as int) <= v as int);
    assert(r as int <= 0x1_0000_0000_0000) by {
        if r as int > 0x1_0000_0000_0000 {
            assert((r as int) * (r as int) > 0x1_0000_0000_0000 * 0x1_0000_0000_0000)
                by (nonlinear_arith)
                requires
                    r as int > 0x1_0000_0000_0000,
            ;
        }
    }
    r as i64
}

/// `b` raised to the power `e`, for small bases and exponents.
pub fn upow(b: u64, e: u64) -> (r: u128)
    requires
        b <= 1024,
        e <= 12,
    ensures
        r as int == pow(b as int, e as nat),
{
    let mut acc: u128 = 1;
    let mut i: u64 = 0;
    proof {
        vstd::arithmetic::power::lemma_pow0(b as int);
        vstd::arithmetic::power::lemma_pow0(1024);
    }
    while i < e
        invariant
            0 <= i <= e <= 12,
            b <= 1024,
            acc as int == pow(b as int, i as nat),
            acc as int <= pow(1024, i as nat),
        decreases e - i,
    {
        proof {
            lemma_pow_le_base(b as int, 1024, i as nat);
            assert((acc as int) * (b as int) <= pow(1024, i as nat) * 1024) by (nonlinear_arith)
                requires
                    0 <= acc as int <= pow(1024, i as nat),
                    0 <= b as int <= 1024,
            ;
            assert(pow(1024, i as nat) * 1024 == pow(1024, (i + 1) as nat)) by {
                vstd::arithmetic::power::lemma_pow1(1024);
                vstd::arithmetic::power::lemma_pow_adds(1024, i as nat, 1);
            }
            lemma_pow_le_exp_1024((i + 1) as nat, 12);
            lemma_pow_1024_12();
            assert((acc as int) * (b as int) == pow(b as int, (i + 1) as nat)) by {
                vstd::arithmetic::power::lemma_pow1(b as int);
                vstd::arithmetic::power::lemma_pow_adds(b as int, i as nat, 1);
            }
        }
        acc = acc * (b as u128);
        i = i + 1;
    }
    acc
}

/// `pow(1024, 12)` is `2^120`.
proof fn lemma_pow_1024_12()
    ensures
        pow(1024, 12) == 0x100_0000_0000_0000_0000_0000_0000_0000,
{
    vstd::arithmetic::power2::lemma_pow2(10);
    assert(vstd::arithmetic::power2::pow2(10) == 1024) by {
        vstd::arithmetic::power2::lemma2_to64();
    }
    vstd::arithmetic::power::lemma_pow_multiplies(2, 10, 12);
    vstd::arithmetic::power2::lemma_pow2(120);
    assert(vstd::arithmetic::power2::pow2(120) == 0x100_0000_0000_0000_0000_0000_0000_0000) by {
        vstd::arithmetic::power2::lemma_pow2_adds(64, 56);
        vstd::arithmetic::power2::lemma2_to64();
        vstd::arithmetic::power2::lemma2_to64_rest();
    }
}

/// `pow` is monotone in the exponent for base 1024.
proof fn lemma_pow_le_exp_1024(e1: nat, e2: nat)
    ensures
        e1 <= e2 ==> pow(1024, e1) <= pow(1024, e2),
{
    if e1 <= e2 {
        vstd::arithmetic::power::lemma_pow_increases(1024, e1, e2);
    }
}

/// `pow` is monotone in the base.
pub proof fn lemma_pow_le_base(b1: int, b2: int, e: nat)
    requires
        0 <= b1 <= b2,
    ensures
        pow(b1, e) <= pow(b2, e),
    decreases e,
{
    reveal(pow);
    if e > 0 {
        lemma_pow_le_base(b1, b2, (e - 1) as nat);
        lemma_pow_nonneg(b1, (e - 1) as nat);
        lemma_pow_nonneg(b2, (e - 1) as nat);
        assert(b1 * pow(b1, (e - 1) as nat) <= b2 * pow(b2, (e - 1) as nat)) by (nonlinear_arith)
            requires
                0 <= b1 <= b2,
                0 <= pow(b1, (e - 1) as nat) <= pow(b2, (e - 1) as nat),
        ;
    }
}

/// `pow` of a non-negative base is non-negative.
pub proof fn lemma_pow_nonneg(b: int, e: nat)
    requires
        b >= 0,
    ensures
        pow(b, e) >= 0,
{
    if b > 0 {
        vstd::arithmetic::power::lemma_pow_positive(b, e);
    } else if e == 0 {
        vstd::arithmetic::power::lemma_pow0(b);
    } else {
        vstd::arithmetic::power::lemma0_pow(e);
    }
}

/// `pow` is strictly monotone in the base for positive exponents.
pub proof fn lemma_pow_lt_base(b1: int, b2: int, e: nat)
    requires
        0 <= b1 < b2,
        e >= 1,
    ensures
        pow(b1, e) < pow(b2, e),
    decreases e,
{
    reveal(pow);
    if e == 1 {
        vstd::arithmetic::power::lemma_pow1(b1);
        vstd::arithmetic::power::lemma_pow1(b2);
    } else {
        lemma_pow_lt_base(b1, b2, (e - 1) as nat);
        vstd::arithmetic::power::lemma_pow_positive(b2, (e - 1) as nat);
        lemma_pow_nonneg(b1, (e - 1) as nat);
        assert(b1 * pow(b1, (e - 1) as nat) < b2 * pow(b2, (e - 1) as nat)) by (nonlinear_arith)
            requires
                0 <= b1 < b2,
                0 <= pow(b1, (e - 1) as nat) < pow(b2, (e - 1) as nat),
        ;
    }
}

/// `r` is the `k`-th root of `v` rounded down.
pub open spec fn is_root(k: nat, v: int, r: int) -> bool {
    &&& 0 <= r
    &&& pow(r, k) <= v
    &&& v < pow(r + 1, k)
}

/// Integer `k`-th root by bisection, for roots known to lie below `cap`.
pub fn iroot(v: u128, k: u64, cap: u64) -> (r: u64)
    requires
        1 <= k <= 12,
        1 <= cap <= 1024,
        pow(cap as int, k as nat) > v as int,
    ensures
        is_root(k as nat, v as int, r as int),
        r < cap,
{
    let mut lo: u64 = 0;
    let mut hi: u64 = cap;
    proof {
        vstd::arithmetic::power::lemma_pow0(0);
        assert(pow(0, k as nat) == 0) by {
            vstd::arithmetic::power::lemma0_pow(k as nat);
        }
    }
    while hi - lo > 1
        invariant
            0 <= lo < hi <= cap <= 1024,
            1 <= k <= 12,
            pow(lo as int, k as nat) <= v as int,
            (v as int) < pow(hi as int, k as nat),
        decreases hi - lo,
    {
        let mid: u64 = lo + (hi - lo) / 2;
        assert(lo < mid < hi);
        let p: u128 = upow(mid, k);
        if p <= v {
            lo = mid;
        } else {
            hi = mid;
        }
    }
    assert(hi == lo + 1);
    lo
}

} // verus!
