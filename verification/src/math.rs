//! Rounding shifts and clamping.
use crate::bits::{lemma_pow2i_mono, lemma_pow2i_values, lemma_shl_pow2, pow2i};
use vstd::prelude::*;

verus! {

/// `x` moved into the interval from `lo` to `hi`.
pub open spec fn clampi(x: int, lo: int, hi: int) -> int {
    if x < lo {
        lo
    } else if x > hi {
        hi
    } else {
        x
    }
}

/// The magnitude of a number.
pub open spec fn absi(x: int) -> int {
    if x < 0 {
        -x
    } else {
        x
    }
}

/// `x` divided by two to the power `n`, rounded to nearest, halves up.
pub open spec fn round_shift(x: int, n: int) -> int {
    if n <= 0 {
        x
    } else {
        (x + pow2i(n - 1)) / pow2i(n)
    }
}

proof fn lemma_div_twice(x: int, n: int)
    requires
        0 <= n,
    ensures
        (x / pow2i(n)) / 2 == x / pow2i(n + 1),
{
    lemma_pow2i_mono(0, n);
    let d = pow2i(n);
    let q = x / d;
    let h = q / 2;
    let r = x % d + d * (q % 2);
    vstd::arithmetic::div_mod::lemma_fundamental_div_mod(x, d);
    assert(pow2i(n + 1) == 2 * d);
    assert(x == (2 * d) * h + r && 0 <= r < 2 * d) by (nonlinear_arith)
        requires
            x == d * q + x % d,
            0 <= x % d < d,
            q == 2 * h + q % 2,
            0 <= q % 2 < 2,
            r == x % d + d * (q % 2),
            1 <= d,
    ;
    assert(x == h * (2 * d) + r) by (nonlinear_arith)
        requires
            x == (2 * d) * h + r,
    ;
    vstd::arithmetic::div_mod::lemma_fundamental_div_mod_converse(x, 2 * d, h, r);
}

/// An arithmetic right shift divides by a power of two and rounds down.
pub proof fn lemma_shr_i64(x: i64, n: u32)
    requires
        n < 63,
    ensures
        (x >> n) == x as int / pow2i(n as int),
    decreases n,
{
    if n == 0 {
        assert((x >> 0u32) == x) by (bit_vector);
        assert(pow2i(0) == 1);
    } else {
        let m = (n - 1) as u32;
        lemma_shr_i64(x, m);
        let y = x >> m;
        assert((x >> n) == (x >> m) >> 1u32) by (bit_vector)
            requires
                0 < n < 63,
                m == n - 1,
        ;
        assert((y >> 1u32) == y / 2) by (bit_vector);
        lemma_div_twice(x as int, m as int);
    }
}

/// An arithmetic right shift divides by a power of two and rounds down.
pub proof fn lemma_shr_i32(x: i32, n: u32)
    requires
        n < 31,
    ensures
        (x >> n) == x as int / pow2i(n as int),
    decreases n,
{
    if n == 0 {
        assert((x >> 0u32) == x) by (bit_vector);
        assert(pow2i(0) == 1);
    } else {
        let m = (n - 1) as u32;
        lemma_shr_i32(x, m);
        let y = x >> m;
        assert((x >> n) == (x >> m) >> 1u32) by (bit_vector)
            requires
                0 < n < 31,
                m == n - 1,
        ;
        assert((y >> 1u32) == y / 2) by (bit_vector);
        lemma_div_twice(x as int, m as int);
    }
}

/// A quotient by a power of two lies no farther from zero than the number, and is
/// no larger than a bound that the number keeps.
pub proof fn lemma_div_bound(x: int, n: int, m: int)
    requires
        0 <= n,
        0 <= m,
        -m <= x <= m,
    ensures
        -m <= x / pow2i(n) <= m,
{
    lemma_pow2i_mono(0, n);
    let d = pow2i(n);
    let q = x / d;
    vstd::arithmetic::div_mod::lemma_fundamental_div_mod(x, d);
    assert(-m <= q <= m) by (nonlinear_arith)
        requires
            x == d * q + x % d,
            0 <= x % d < d,
            1 <= d,
            -m <= x <= m,
            0 <= m,
    ;
}

/// Divides by two to the power `n` and rounds down.
pub fn shr64(x: i64, n: u32) -> (r: i64)
    requires
        n < 63,
    ensures
        r == x as int / pow2i(n as int),
{
    proof {
        lemma_shr_i64(x, n);
    }
    x >> n
}

/// Divides by two to the power `n` and rounds down.
pub fn shr32(x: i32, n: u32) -> (r: i32)
    requires
        n < 31,
    ensures
        r == x as int / pow2i(n as int),
{
    proof {
        lemma_shr_i32(x, n);
    }
    x >> n
}

/// Divides by two to the power `n` and rounds to nearest.
pub fn round2(x: i64, n: u32) -> (r: i64)
    requires
        n <= 30,
        -0x2000_0000_0000_0000 <= x <= 0x2000_0000_0000_0000,
    ensures
        r == round_shift(x as int, n as int),
{
    if n == 0 {
        return x;
    }
    proof {
        lemma_shl_pow2((n - 1) as u32);
        lemma_pow2i_mono(n - 1, 30);
        lemma_pow2i_mono(0, n - 1);
        lemma_pow2i_values();
    }
    let half: i64 = (1u32 << (n - 1)) as i64;
    shr64(x + half, n)
}

/// Moves a number into an interval.
pub fn clamp64(x: i64, lo: i64, hi: i64) -> (r: i64)
    ensures
        r == clampi(x as int, lo as int, hi as int),
{
    if x < lo {
        lo
    } else if x > hi {
        hi
    } else {
        x
    }
}

/// Moves a number into an interval.
pub fn clamp32(x: i32, lo: i32, hi: i32) -> (r: i32)
    ensures
        r == clampi(x as int, lo as int, hi as int),
{
    if x < lo {
        lo
    } else if x > hi {
        hi
    } else {
        x
    }
}

/// The product of two bounded numbers is bounded.
pub proof fn lemma_product_bound(a: int, b: int, m: int, k: int)
    requires
        -m <= a <= m,
        -k <= b <= k,
    ensures
        -(m * k) <= a * b <= m * k,
{
    assert(-(m * k) <= a * b <= m * k) by (nonlinear_arith)
        requires
            -m <= a <= m,
            -k <= b <= k,
    ;
}

} // verus!
