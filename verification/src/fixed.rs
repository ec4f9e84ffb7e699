//! Fixed-point arithmetic on thousandths.

use vstd::prelude::*;

verus! {

/// The fixed-point representation of 1.
pub const SCALE: i64 = 1000;

/// Integer division that rounds toward zero, for a positive divisor.
pub open spec fn trunc_div(a: int, b: int) -> int {
    if a >= 0 {
        a / b
    } else {
        -((-a) / b)
    }
}

/// `v` multiplied by the fixed-point factor `f`, rounded toward zero.
pub open spec fn scale_spec(v: int, f: int) -> int {
    trunc_div(v * f, SCALE as int)
}

/// The point a fraction `t` (in thousandths) of the way from `a` to `b`.
pub open spec fn lerp_spec(a: int, b: int, t: int) -> int {
    a + scale_spec(b - a, t)
}

/// Least integer that is at least `a / b`, for `a >= 0` and `b > 0`.
pub open spec fn ceil_div_spec(a: int, b: int) -> int {
    if a % b == 0 {
        a / b
    } else {
        a / b + 1
    }
}

/// `c` is the least natural number whose square is at least `n`.
pub open spec fn is_ceil_sqrt(n: int, c: int) -> bool {
    &&& c >= 0
    &&& c * c >= n
    &&& (c == 0 || (c - 1) * (c - 1) < n)
}

/// `r` is the greatest natural number whose square is at most `n`.
pub open spec fn is_floor_sqrt(n: int, r: int) -> bool {
    &&& r >= 0
    &&& r * r <= n
    &&& (r + 1) * (r + 1) > n
}

/// `a * b / c`, rounded down, for natural numbers.
pub open spec fn mul_div_spec(a: int, b: int, c: int) -> int {
    (a * b) / c
}

/// The truncated quotient lies between zero and the exact one.
pub proof fn lemma_trunc_div_bounds(a: int, b: int)
    requires
        b > 0,
    ensures
        a >= 0 ==> 0 <= trunc_div(a, b) <= a,
        a <= 0 ==> a <= trunc_div(a, b) <= 0,
        trunc_div(-a, b) == -trunc_div(a, b),
{
    if a >= 0 {
        assert(0 <= a / b <= a) by (nonlinear_arith)
            requires
                a >= 0,
                b > 0,
        ;
    } else {
        assert(0 <= (-a) / b <= -a) by (nonlinear_arith)
            requires
                a < 0,
                b > 0,
        ;
    }
}

/// Scaling by a factor between 0 and 1 moves a value toward zero, and by at
/// most its own size.
pub proof fn lemma_scale_within(v: int, t: int)
    requires
        0 <= t <= SCALE,
    ensures
        v >= 0 ==> 0 <= scale_spec(v, t) <= v,
        v <= 0 ==> v <= scale_spec(v, t) <= 0,
        scale_spec(v, 0) == 0,
        scale_spec(v, SCALE as int) == v,
{
    if v >= 0 {
        assert(0 <= v * t <= v * 1000) by (nonlinear_arith)
            requires
                v >= 0,
                0 <= t <= 1000,
        ;
        assert((v * 1000) / 1000 == v);
        assert((v * t) / 1000 <= (v * 1000) / 1000);
    } else {
        assert(0 <= (-v) * t <= (-v) * 1000 && v * t == -((-v) * t)) by (nonlinear_arith)
            requires
                v < 0,
                0 <= t <= 1000,
        ;
        assert(((-v) * 1000) / 1000 == -v);
    }
    assert(v * 0 == 0);
    assert(v * 1000 / 1000 == v);
}

/// Interpolation stays between its end points and reaches them at 0 and 1.
pub proof fn lemma_lerp_between(a: int, b: int, t: int)
    requires
        0 <= t <= SCALE,
    ensures
        a <= b ==> a <= lerp_spec(a, b, t) <= b,
        b <= a ==> b <= lerp_spec(a, b, t) <= a,
        lerp_spec(a, b, 0) == a,
        lerp_spec(a, b, SCALE as int) == b,
{
    lemma_scale_within(b - a, t);
}

/// Quotient of `a` by `b`, rounded toward zero.
pub fn div_toward_zero(a: i64, b: i64) -> (q: i64)
    requires
        b > 0,
    ensures
        q == trunc_div(a as int, b as int),
{
    a / b
}

/// `v * f / 1000`, rounded toward zero.
pub fn scale(v: i64, f: i64) -> (r: i64)
    requires
        -0x2_0000_0000_0000 <= v <= 0x2_0000_0000_0000,
        0 <= f <= 2 * SCALE,
    ensures
        r == scale_spec(v as int, f as int),
{
    assert(-0x2_0000_0000_0000 * 2000 <= v * f <= 0x2_0000_0000_0000 * 2000) by (nonlinear_arith)
        requires
            -0x2_0000_0000_0000 <= v <= 0x2_0000_0000_0000,
            0 <= f <= 2000,
    ;
    let p: i64 = v * f;
    p / SCALE
}

/// The point a fraction `t` of the way from `a` to `b`.
pub fn lerp(a: i64, b: i64, t: i64) -> (r: i64)
    requires
        -0x1_0000_0000_0000 <= a <= 0x1_0000_0000_0000,
        -0x1_0000_0000_0000 <= b <= 0x1_0000_0000_0000,
        0 <= t <= SCALE,
    ensures
        r == lerp_spec(a as int, b as int, t as int),
{
    proof {
        lemma_scale_within(b - a, t as int);
    }
    let d: i64 = scale(b - a, t);
    a + d
}

/// Least integer that is at least `a / b`.
pub fn ceil_div(a: u128, b: u128) -> (q: u128)
    requires
        b > 0,
    ensures
        q == ceil_div_spec(a as int, b as int),
        q * b >= a,
        q > 0 ==> (q - 1) * b < a,
{
    let d: u128 = a / b;
    let m: u128 = a % b;
    assert(a == d * b + m && d * b <= a) by (nonlinear_arith)
        requires
            d == a / b,
            m == a % b,
            b > 0,
    ;
    if m == 0 {
        assert(d > 0 ==> (d - 1) * b < a) by (nonlinear_arith)
            requires
                a == d * b,
                b > 0,
        ;
        d
    } else {
        assert(d < u128::MAX) by (nonlinear_arith)
            requires
                d * b <= a,
                a <= u128::MAX,
                m > 0,
                a == d * b + m,
                b > 0,
        ;
        assert((d + 1) * b >= a && d * b < a) by (nonlinear_arith)
            requires
                a == d * b + m,
                0 < m < b,
        ;
        d + 1
    }
}

/// Least natural number whose square is at least `n`.
pub fn ceil_sqrt(n: u128) -> (c: u64)
    requires
        n <= 0x1_0000_0000_0000_0000_0000_0000,
    ensures
        c == ceil_sqrt_spec(n as int),
        is_ceil_sqrt(n as int, c as int),
        c <= 0x1_0000_0000_0000,
{
    proof {
        lemma_ceil_sqrt_spec(n as int);
    }
    if n == 0 {
        return 0;
    }
    let mut lo: u64 = 0;
    let mut hi: u64 = 0x1_0000_0000_0000;
    assert(0x1_0000_0000_0000int * 0x1_0000_0000_0000int == 0x1_0000_0000_0000_0000_0000_0000int)
        by (nonlinear_arith);
    while hi - lo > 1
        invariant
            lo < hi <= 0x1_0000_0000_0000,
            lo * lo < n,
            hi * hi >= n,
        decreases hi - lo,
    {
        let mid: u64 = lo + (hi - lo) / 2;
        assert(mid * mid <= 0x1_0000_0000_0000_0000_0000_0000) by (nonlinear_arith)
            requires
                0 <= mid <= 0x1_0000_0000_0000,
        ;
        let sq: u128 = (mid as u128) * (mid as u128);
        if sq >= n {
            hi = mid;
        } else {
            lo = mid;
        }
    }
    proof {
        lemma_ceil_sqrt_is_spec(n as int, hi as int);
    }
    hi
}

/// Greatest natural number whose square is at most `n`.
pub fn floor_sqrt(n: u128) -> (r: u64)
    requires
        n < 0x1_0000_0000_0000_0000_0000_0000,
    ensures
        r == floor_sqrt_spec(n as int),
        is_floor_sqrt(n as int, r as int),
        r < 0x1_0000_0000_0000,
{
    let mut lo: u64 = 0;
    let mut hi: u64 = 0x1_0000_0000_0000;
    assert(0x1_0000_0000_0000int * 0x1_0000_0000_0000int == 0x1_0000_0000_0000_0000_0000_0000int)
        by (nonlinear_arith);
    while hi - lo > 1
        invariant
            lo < hi <= 0x1_0000_0000_0000,
            lo * lo <= n,
            hi * hi > n,
        decreases hi - lo,
    {
        let mid: u64 = lo + (hi - lo) / 2;
        assert(mid * mid <= 0x1_0000_0000_0000_0000_0000_0000) by (nonlinear_arith)
            requires
                0 <= mid <= 0x1_0000_0000_0000,
        ;
        let sq: u128 = (mid as u128) * (mid as u128);
        if sq <= n {
            lo = mid;
        } else {
            hi = mid;
        }
    }
    proof {
        lemma_floor_sqrt_is_spec(n as int, lo as int);
    }
    lo
}

/// `a * b / c`, rounded down, where the quotient is known to fit.
pub fn mul_div(a: u64, b: u64, c: u64) -> (q: u64)
    requires
        c > 0,
        mul_div_spec(a as int, b as int, c as int) <= u64::MAX,
    ensures
        q == mul_div_spec(a as int, b as int, c as int),
{
    assert(0 <= a * b <= u128::MAX) by (nonlinear_arith)
        requires
            0 <= a <= u64::MAX,
            0 <= b <= u64::MAX,
    ;
    let p: u128 = (a as u128) * (b as u128);
    let q: u128 = p / (c as u128);
    q as u64
}

/// The ceiling square root is unique.
pub proof fn lemma_ceil_sqrt_unique(n: int, c: int, d: int)
    requires
        is_ceil_sqrt(n, c),
        is_ceil_sqrt(n, d),
    ensures
        c == d,
{
    if c < d {
        assert(c * c <= (d - 1) * (d - 1)) by (nonlinear_arith)
            requires
                0 <= c <= d - 1,
        ;
    } else if d < c {
        assert(d * d <= (c - 1) * (c - 1)) by (nonlinear_arith)
            requires
                0 <= d <= c - 1,
        ;
    }
}

/// A product with a fraction of its divisor never exceeds the other factor.
pub proof fn lemma_mul_div_le(a: int, b: int, c: int)
    requires
        a >= 0,
        0 <= b <= c,
        c > 0,
    ensures
        0 <= mul_div_spec(a, b, c) <= a,
        b == c ==> mul_div_spec(a, b, c) == a,
        b == 0 ==> mul_div_spec(a, b, c) == 0,
{
    assert(0 <= (a * b) / c <= a) by (nonlinear_arith)
        requires
            a >= 0,
            0 <= b <= c,
            c > 0,
    ;
    if b == c {
        assert((a * c) / c == a) by (nonlinear_arith)
            requires
                c > 0,
        ;
    }
    if b == 0 {
        assert(a * 0 == 0);
    }
}

/// `a * b / c` grows with `b`.
pub proof fn lemma_mul_div_monotone(a: int, b1: int, b2: int, c: int)
    requires
        a >= 0,
        0 <= b1 <= b2,
        c > 0,
    ensures
        mul_div_spec(a, b1, c) <= mul_div_spec(a, b2, c),
{
    assert((a * b1) / c <= (a * b2) / c) by (nonlinear_arith)
        requires
            a >= 0,
            0 <= b1 <= b2,
            c > 0,
    ;
}


/// The least natural number whose square is at least `n`.
pub open spec fn ceil_sqrt_spec(n: int) -> int
    decreases n,
{
    if n <= 0 {
        0
    } else {
        let r = ceil_sqrt_spec(n - 1);
        if r * r >= n {
            r
        } else {
            r + 1
        }
    }
}

/// `ceil_sqrt_spec` is the ceiling of the square root.
pub proof fn lemma_ceil_sqrt_spec(n: int)
    ensures
        is_ceil_sqrt(n, ceil_sqrt_spec(n)),
        n >= 1 ==> ceil_sqrt_spec(n) >= 1,
    decreases n,
{
    if n > 0 {
        lemma_ceil_sqrt_spec(n - 1);
        let r = ceil_sqrt_spec(n - 1);
        if r * r >= n {
            assert(r == 0 || (r - 1) * (r - 1) < n);
            if r == 0 {
                assert(r * r == 0);
            }
        } else {
            assert((r + 1) * (r + 1) == r * r + 2 * r + 1) by (nonlinear_arith);
            assert((r + 1 - 1) * (r + 1 - 1) == r * r);
        }
    } else {
        assert(0int * 0int == 0);
    }
}

/// Whatever meets the definition of the ceiling square root is
/// `ceil_sqrt_spec`.
pub proof fn lemma_ceil_sqrt_is_spec(n: int, c: int)
    requires
        is_ceil_sqrt(n, c),
    ensures
        c == ceil_sqrt_spec(n),
{
    lemma_ceil_sqrt_spec(n);
    lemma_ceil_sqrt_unique(n, c, ceil_sqrt_spec(n));
}

/// Rounding a quotient up gives enough whole parts, and no part too many.
pub proof fn lemma_ceil_div(a: int, b: int)
    requires
        a >= 0,
        b > 0,
    ensures
        ceil_div_spec(a, b) * b >= a,
        ceil_div_spec(a, b) >= 0,
        a > 0 ==> ceil_div_spec(a, b) >= 1,
        a > 0 ==> (ceil_div_spec(a, b) - 1) * b < a,
        a >= 1 ==> (a - 1) / b < ceil_div_spec(a, b),
{
    let d = a / b;
    let m = a % b;
    assert(a == d * b + m && 0 <= m < b && d >= 0) by (nonlinear_arith)
        requires
            d == a / b,
            m == a % b,
            a >= 0,
            b > 0,
    ;
    if m == 0 {
        assert(a > 0 ==> d >= 1 && (d - 1) * b < a) by (nonlinear_arith)
            requires
                a == d * b,
                b > 0,
                d >= 0,
        ;
    } else {
        assert((d + 1) * b >= a) by (nonlinear_arith)
            requires
                a == d * b + m,
                0 < m < b,
        ;
        assert((d + 1 - 1) * b < a) by (nonlinear_arith)
            requires
                a == d * b + m,
                0 < m < b,
        ;
    }
    if a >= 1 {
        assert((a - 1) / b < ceil_div_spec(a, b)) by (nonlinear_arith)
            requires
                a >= 1,
                b > 0,
                ceil_div_spec(a, b) * b >= a,
        ;
    }
}


/// The greatest natural number whose square is at most `n`.
pub open spec fn floor_sqrt_spec(n: int) -> int
    decreases n,
{
    if n <= 0 {
        0
    } else {
        let r = floor_sqrt_spec(n - 1);
        if (r + 1) * (r + 1) <= n {
            r + 1
        } else {
            r
        }
    }
}

/// `floor_sqrt_spec` is the floor of the square root.
pub proof fn lemma_floor_sqrt_spec(n: int)
    requires
        n >= 0,
    ensures
        is_floor_sqrt(n, floor_sqrt_spec(n)),
    decreases n,
{
    if n > 0 {
        lemma_floor_sqrt_spec(n - 1);
        let r = floor_sqrt_spec(n - 1);
        if (r + 1) * (r + 1) <= n {
            assert((r + 2) * (r + 2) > n) by (nonlinear_arith)
                requires
                    (r + 1) * (r + 1) > n - 1,
                    r >= 0,
            ;
        } else {
            assert(r * r <= n);
        }
    } else {
        assert(0int * 0int == 0);
        assert((0int + 1) * (0int + 1) == 1) by (nonlinear_arith);
    }
}

/// Whatever meets the definition of the floor square root is
/// `floor_sqrt_spec`, and the floor square root grows with its argument.
pub proof fn lemma_floor_sqrt_is_spec(n: int, r: int)
    requires
        n >= 0,
        is_floor_sqrt(n, r),
    ensures
        r == floor_sqrt_spec(n),
{
    lemma_floor_sqrt_spec(n);
    let s = floor_sqrt_spec(n);
    if r < s {
        assert((r + 1) * (r + 1) <= s * s) by (nonlinear_arith)
            requires
                0 <= r + 1 <= s,
        ;
    } else if s < r {
        assert((s + 1) * (s + 1) <= r * r) by (nonlinear_arith)
            requires
                0 <= s + 1 <= r,
        ;
    }
}

/// A number that is at least `r * r` has a floor square root of at least
/// `r`.
pub proof fn lemma_floor_sqrt_at_least(n: int, r: int)
    requires
        r >= 0,
        n >= r * r,
    ensures
        floor_sqrt_spec(n) >= r,
{
    assert(r * r >= 0) by (nonlinear_arith);
    lemma_floor_sqrt_spec(n);
    let s = floor_sqrt_spec(n);
    if s < r {
        assert((s + 1) * (s + 1) <= r * r) by (nonlinear_arith)
            requires
                0 <= s + 1 <= r,
        ;
    }
}

/// `v * f / 1000`, rounded toward zero, for a factor of either sign.
pub fn scale_signed(v: i64, f: i64) -> (r: i64)
    requires
        -0x2_0000_0000_0000 <= v <= 0x2_0000_0000_0000,
        -2 * SCALE <= f <= 2 * SCALE,
    ensures
        r == scale_spec(v as int, f as int),
{
    assert(-0x2_0000_0000_0000 * 2000 <= v * f <= 0x2_0000_0000_0000 * 2000) by (nonlinear_arith)
        requires
            -0x2_0000_0000_0000 <= v <= 0x2_0000_0000_0000,
            -2000 <= f <= 2000,
    ;
    let p: i64 = v * f;
    p / SCALE
}

/// Scaling by a factor between -1 and 1 gives no more than the value's own
/// size.
pub proof fn lemma_scale_signed_within(v: int, f: int)
    requires
        v >= 0,
        -SCALE <= f <= SCALE,
    ensures
        -v <= scale_spec(v, f) <= v,
{
    if f >= 0 {
        lemma_scale_within(v, f);
    } else {
        lemma_scale_within(v, -f);
        assert(v * f == -(v * (-f))) by (nonlinear_arith);
        lemma_trunc_div_bounds(v * (-f), 1000);
    }
}

} // verus!
