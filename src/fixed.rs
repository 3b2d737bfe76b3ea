//! Rounding of fixed-point quantities.

use vstd::prelude::*;

verus! {

/// `n / d` rounded to the nearest integer, a value exactly halfway between
/// two integers going away from zero.
pub open spec fn round_div(n: int, d: int) -> int {
    if n >= 0 {
        (2 * n + d) / (2 * d)
    } else {
        -((-2 * n + d) / (2 * d))
    }
}

/// `n` is `sqrt(q / s)` rounded to the nearest integer, a value exactly
/// halfway going up.
pub open spec fn is_rounded_root(n: int, q: int, s: int) -> bool {
    &&& n >= 0
    &&& n == 0 || s * ((2 * n - 1) * (2 * n - 1)) <= 4 * q
    &&& 4 * q < s * ((2 * n + 1) * (2 * n + 1))
}

/// `sqrt(q / s)` rounded to the nearest integer, halves up: the one `n`
/// with `is_rounded_root(n, q, s)` (see `lemma_rounded_root_unique`).
pub open spec fn rounded_root(q: int, s: int) -> int {
    choose|n: int| is_rounded_root(n, q, s)
}

/// Rounding by `round_div` lands on the nearest integer, and a quotient
/// exactly halfway between two integers is taken away from zero.
pub proof fn lemma_round_div_nearest(n: int, d: int)
    requires
        d > 0,
    ensures
        -d <= 2 * (n - d * round_div(n, d)) <= d,
        2 * (n - d * round_div(n, d)) == d ==> n < 0,
        2 * (n - d * round_div(n, d)) == -d ==> n > 0,
{
    let a = if n >= 0 { 2 * n + d } else { -2 * n + d };
    let q = a / (2 * d);
    let rem = a % (2 * d);
    vstd::arithmetic::div_mod::lemma_fundamental_div_mod(a, 2 * d);
    assert(0 <= rem < 2 * d);
    assert(a == 2 * d * q + rem);
    if n >= 0 {
        assert(round_div(n, d) == q);
        assert(2 * (n - d * q) == rem - d) by (nonlinear_arith)
            requires
                a == 2 * n + d,
                a == 2 * d * q + rem,
        ;
        if 2 * (n - d * q) == -d {
            assert(n > 0) by (nonlinear_arith)
                requires
                    2 * (n - d * q) == -d,
                    n >= 0,
                    d > 0,
            ;
        }
    } else {
        assert(round_div(n, d) == -q);
        assert(2 * (n - d * (-q)) == d - rem) by (nonlinear_arith)
            requires
                a == -2 * n + d,
                a == 2 * d * q + rem,
        ;
    }
}

/// At most one integer is the rounded root of `q / s`.
pub proof fn lemma_rounded_root_unique(n: int, m: int, q: int, s: int)
    requires
        s > 0,
        is_rounded_root(n, q, s),
        is_rounded_root(m, q, s),
    ensures
        n == m,
{
    if n < m {
        assert(false) by (nonlinear_arith)
            requires
                s > 0,
                0 <= n < m,
                s * ((2 * m - 1) * (2 * m - 1)) <= 4 * q,
                4 * q < s * ((2 * n + 1) * (2 * n + 1)),
        ;
    } else if m < n {
        assert(false) by (nonlinear_arith)
            requires
                s > 0,
                0 <= m < n,
                s * ((2 * n - 1) * (2 * n - 1)) <= 4 * q,
                4 * q < s * ((2 * m + 1) * (2 * m + 1)),
        ;
    }
}

/// A value that is the rounded root is what `rounded_root` names.
pub proof fn lemma_rounded_root_is(n: int, q: int, s: int)
    requires
        s > 0,
        is_rounded_root(n, q, s),
    ensures
        rounded_root(q, s) == n,
{
    let m = rounded_root(q, s);
    lemma_rounded_root_unique(n, m, q, s);
}

/// `n` units of `10^-18` rounded to whole units, halves away from zero.
pub fn round_scaled(n: i128) -> (r: i128)
    requires
        -0x10_0000_0000_0000_0000_0000_0000 <= n <= 0x10_0000_0000_0000_0000_0000_0000,
    ensures
        r == round_div(n as int, 1000000000000000000),
{
    if n >= 0 {
        (2 * n + 1000000000000000000) / 2000000000000000000
    } else {
        let m: i128 = -n;
        -((2 * m + 1000000000000000000) / 2000000000000000000)
    }
}

/// `sqrt(q / 10^18)` rounded to the nearest integer, halves up, found by
/// bisection below the given bound.
pub fn rounded_root_scaled(q: u128, bound: u64) -> (r: u64)
    requires
        bound <= 0xffff_ffff,
        4 * q < 1000000000000000000 * ((2 * bound + 1) * (2 * bound + 1)),
    ensures
        r <= bound,
        is_rounded_root(r as int, q as int, 1000000000000000000),
{
    assert(4 * q < 0x4000_0000_0000_0000_0000_0000_0000_0000) by (nonlinear_arith)
        requires
            bound <= 0xffff_ffff,
            4 * q < 1000000000000000000 * ((2 * bound + 1) * (2 * bound + 1)),
    ;
    let mut lo: u64 = 0;
    let mut hi: u64 = bound;
    while lo < hi
        invariant
            lo <= hi <= bound <= 0xffff_ffff,
            4 * q < 0x4000_0000_0000_0000_0000_0000_0000_0000,
            lo == 0 || 1000000000000000000 * ((2 * lo - 1) * (2 * lo - 1)) <= 4 * q,
            4 * q < 1000000000000000000 * ((2 * hi + 1) * (2 * hi + 1)),
        decreases hi - lo,
    {
        let mid: u64 = lo + (hi - lo + 1) / 2;
        let w: u128 = 2 * (mid as u128) - 1;
        assert(1000000000000000000 * (w * w) < 0x4000_0000_0000_0000_0000_0000_0000_0000)
            by (nonlinear_arith)
            requires
                0 <= w <= 0x2_0000_0000,
        ;
        if 1000000000000000000 * (w * w) <= 4 * q {
            lo = mid;
        } else {
            hi = mid - 1;
        }
    }
    lo
}

/// The full product `a · b` as a high and a low half of 128 bits each.
fn mul_wide(a: u128, b: u128) -> (r: (u128, u128))
    requires
        a < 0x8000_0000_0000_0000_0000_0000_0000_0000,
        b < 0x8000_0000_0000_0000_0000_0000_0000_0000,
    ensures
        r.0 * 0x1_0000_0000_0000_0000_0000_0000_0000_0000 + r.1 == a * b,
{
    let m: u128 = 0x1_0000_0000_0000_0000;
    let a1 = a / m;
    let a0 = a % m;
    let b1 = b / m;
    let b0 = b % m;
    assert(a1 < 0x8000_0000_0000_0000 && b1 < 0x8000_0000_0000_0000);
    proof {
        assert(a0 * b0 <= 0xffff_ffff_ffff_ffff * 0xffff_ffff_ffff_ffff) by (nonlinear_arith)
            requires
                a0 <= 0xffff_ffff_ffff_ffff,
                b0 <= 0xffff_ffff_ffff_ffff,
        ;
        assert(a0 * b1 <= 0xffff_ffff_ffff_ffff * 0x8000_0000_0000_0000) by (nonlinear_arith)
            requires
                a0 <= 0xffff_ffff_ffff_ffff,
                b1 <= 0x8000_0000_0000_0000,
        ;
        assert(a1 * b0 <= 0x8000_0000_0000_0000 * 0xffff_ffff_ffff_ffff) by (nonlinear_arith)
            requires
                a1 <= 0x8000_0000_0000_0000,
                b0 <= 0xffff_ffff_ffff_ffff,
        ;
        assert(a1 * b1 <= 0x8000_0000_0000_0000 * 0x8000_0000_0000_0000) by (nonlinear_arith)
            requires
                a1 <= 0x8000_0000_0000_0000,
                b1 <= 0x8000_0000_0000_0000,
        ;
    }
    let p00 = a0 * b0;
    let p01 = a0 * b1;
    let p10 = a1 * b0;
    let p11 = a1 * b1;
    let mid: u128 = p01 % m + p10 % m + p00 / m;
    let lo: u128 = (mid % m) * m + p00 % m;
    let hi: u128 = p11 + p01 / m + p10 / m + mid / m;
    proof {
        assert(a * b == p11 * (m * m) + (p01 + p10) * m + p00) by (nonlinear_arith)
            requires
                a == a1 * m + a0,
                b == b1 * m + b0,
                p00 == a0 * b0,
                p01 == a0 * b1,
                p10 == a1 * b0,
                p11 == a1 * b1,
        ;
    }
    (hi, lo)
}

/// Whether `a · b <= c · d`, for factors below `2^127`.
pub fn product_le(a: u128, b: u128, c: u128, d: u128) -> (r: bool)
    requires
        a < 0x8000_0000_0000_0000_0000_0000_0000_0000,
        b < 0x8000_0000_0000_0000_0000_0000_0000_0000,
        c < 0x8000_0000_0000_0000_0000_0000_0000_0000,
        d < 0x8000_0000_0000_0000_0000_0000_0000_0000,
    ensures
        r == (a * b <= c * d),
{
    let (h1, l1) = mul_wide(a, b);
    let (h2, l2) = mul_wide(c, d);
    h1 < h2 || (h1 == h2 && l1 <= l2)
}

} // verus!
