use vstd::prelude::*;

verus! {

/// Absolute value of an integer.
pub open spec fn abs(a: int) -> int {
    if a < 0 {
        -a
    } else {
        a
    }
}

/// The smaller of two integers.
pub open spec fn min(a: int, b: int) -> int {
    if a < b {
        a
    } else {
        b
    }
}

/// Division rounding toward zero, as machine integer division does.
pub open spec fn tdiv(a: int, b: int) -> int {
    if a >= 0 {
        a / b
    } else {
        -((-a) / b)
    }
}

/// `s` is the least natural number whose square is at least `n`.
pub open spec fn is_ceil_sqrt(n: int, s: int) -> bool {
    &&& 0 <= s
    &&& n <= s * s
    &&& (s == 0 || (s - 1) * (s - 1) < n)
}

/// The least natural number whose square is at least `n` (for `n >= 0`).
pub open spec fn ceil_sqrt(n: int) -> int {
    choose|s: int| is_ceil_sqrt(n, s)
}

pub proof fn lemma_square_monotone(a: int, b: int)
    requires
        0 <= a <= b,
    ensures
        a * a <= b * b,
{
    assert(a * a <= b * b) by (nonlinear_arith)
        requires
            0 <= a <= b,
    ;
}

/// The ceiling square root is unique.
pub proof fn lemma_ceil_sqrt_unique(n: int, s: int, t: int)
    requires
        is_ceil_sqrt(n, s),
        is_ceil_sqrt(n, t),
    ensures
        s == t,
{
    if s < t {
        lemma_square_monotone(s, t - 1);
    } else if t < s {
        lemma_square_monotone(t, s - 1);
    }
}

/// A witness of the ceiling square root fixes `ceil_sqrt`.
pub proof fn lemma_ceil_sqrt_is(n: int, s: int)
    requires
        is_ceil_sqrt(n, s),
    ensures
        ceil_sqrt(n) == s,
{
    assert(exists|t: int| is_ceil_sqrt(n, t));
    let c = ceil_sqrt(n);
    lemma_ceil_sqrt_unique(n, s, c);
}

/// Ceiling square root of a natural number below `2^126`, by bisection.
pub fn ceil_sqrt_u128(n: u128) -> (s: u128)
    requires
        n <= 0x4000_0000_0000_0000_0000_0000_0000_0000,
    ensures
        s == ceil_sqrt(n as int),
        is_ceil_sqrt(n as int, s as int),
        s <= 0x8000_0000_0000_0000,
        n > 0 ==> s > 0,
{
    if n == 0 {
        proof {
            assert(is_ceil_sqrt(0, 0));
            lemma_ceil_sqrt_is(0, 0);
        }
        return 0;
    }
    let mut lo: u128 = 0;
    let mut hi: u128 = 0x8000_0000_0000_0000;
    assert(hi * hi == 0x4000_0000_0000_0000_0000_0000_0000_0000);
    while hi - lo > 1
        invariant
            0 < n <= 0x4000_0000_0000_0000_0000_0000_0000_0000,
            lo < hi <= 0x8000_0000_0000_0000,
            lo * lo < n,
            n <= hi * hi,
        decreases hi - lo,
    {
        let mid: u128 = lo + (hi - lo) / 2;
        assert(mid * mid <= 0x4000_0000_0000_0000_0000_0000_0000_0000) by {
            lemma_square_monotone(mid as int, hi as int);
            lemma_square_monotone(hi as int, 0x8000_0000_0000_0000);
        }
        if mid * mid >= n {
            hi = mid;
        } else {
            lo = mid;
        }
    }
    proof {
        assert(hi - 1 == lo);
        assert(is_ceil_sqrt(n as int, hi as int));
        lemma_ceil_sqrt_is(n as int, hi as int);
    }
    hi
}

/// Division of a wide integer by a positive one, rounding toward zero.
pub fn div_toward_zero(a: i128, b: i128) -> (q: i128)
    requires
        b > 0,
        a > i128::MIN,
    ensures
        q == tdiv(a as int, b as int),
        abs(q as int) <= abs(a as int),
{
    if a >= 0 {
        proof {
            lemma_div_le(a as int, b as int);
        }
        a / b
    } else {
        proof {
            lemma_div_le(-a, b as int);
        }
        -((-a) / b)
    }
}

pub proof fn lemma_div_le(a: int, b: int)
    requires
        a >= 0,
        b > 0,
    ensures
        0 <= a / b <= a,
        (a / b) * b <= a,
        a - (a / b) * b < b,
{
    assert(0 <= a / b <= a && (a / b) * b <= a && a - (a / b) * b < b) by (nonlinear_arith)
        requires
            a >= 0,
            b > 0,
    ;
}

/// The quotient rounded toward zero is within one unit of the exact quotient:
/// `|a - q * b| < b`, and never larger in magnitude than `|a| / b`.
pub proof fn lemma_tdiv_bounds(a: int, b: int)
    requires
        b > 0,
    ensures
        abs(tdiv(a, b)) * b <= abs(a),
        abs(a - tdiv(a, b) * b) < b,
        tdiv(a, b) * a >= 0,
        abs(tdiv(a, b)) <= abs(a),
{
    if a >= 0 {
        lemma_div_le(a, b);
        assert(tdiv(a, b) * a >= 0) by (nonlinear_arith)
            requires
                tdiv(a, b) >= 0,
                a >= 0,
        ;
    } else {
        lemma_div_le(-a, b);
        let q = (-a) / b;
        assert(tdiv(a, b) * b == -(q * b)) by (nonlinear_arith)
            requires
                tdiv(a, b) == -q,
        ;
        assert(tdiv(a, b) * a >= 0) by (nonlinear_arith)
            requires
                tdiv(a, b) <= 0,
                a < 0,
        ;
    }
}

/// Bounding the magnitude of a quotient by a bound on the dividend.
pub proof fn lemma_tdiv_le_bound(a: int, b: int, m: int)
    requires
        b > 0,
        m >= 0,
        abs(a) <= m * b,
    ensures
        abs(tdiv(a, b)) <= m,
{
    lemma_tdiv_bounds(a, b);
    let q = abs(tdiv(a, b));
    assert(q <= m) by (nonlinear_arith)
        requires
            q * b <= m * b,
            b > 0,
            q >= 0,
    ;
}

/// `|a * b| <= ma * mb` when `|a| <= ma` and `|b| <= mb`.
pub proof fn lemma_mul_abs_bound(a: int, b: int, ma: int, mb: int)
    requires
        abs(a) <= ma,
        abs(b) <= mb,
    ensures
        abs(a * b) <= ma * mb,
        -(ma * mb) <= a * b <= ma * mb,
{
    let x = abs(a);
    let y = abs(b);
    assert(x * y <= ma * mb) by (nonlinear_arith)
        requires
            0 <= x <= ma,
            0 <= y <= mb,
    ;
    assert(abs(a * b) == x * y) by (nonlinear_arith)
        requires
            x == (if a < 0 { -a } else { a }),
            y == (if b < 0 { -b } else { b }),
            abs(a * b) == (if a * b < 0 { -(a * b) } else { a * b }),
    ;
}

} // verus!
