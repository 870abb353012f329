//! Integer helpers shared by the geometric code: floor division on signed
//! numbers and the integer square root.

use vstd::prelude::*;

verus! {

/// `r` is the integer square root of `x`: the largest number whose square
/// does not exceed `x`.
pub open spec fn is_sqrt_floor(x: int, r: int) -> bool {
    0 <= r && r * r <= x && x < (r + 1) * (r + 1)
}

/// The integer square root of `x`.
pub closed spec fn sqrt_floor(x: int) -> int {
    choose|r: int| is_sqrt_floor(x, r)
}

/// Squaring is monotone on the non-negative integers.
pub proof fn lemma_square_monotone(a: int, b: int)
    requires
        0 <= a <= b,
    ensures
        a * a <= b * b,
{
    assert(a * a <= b * b) by (nonlinear_arith)
        requires
            0 <= a <= b,
    ;
}

/// A number has at most one integer square root.
pub proof fn lemma_sqrt_floor_unique(x: int, r: int, s: int)
    requires
        is_sqrt_floor(x, r),
        is_sqrt_floor(x, s),
    ensures
        r == s,
{
    if r < s {
        lemma_square_monotone(r + 1, s);
    } else if s < r {
        lemma_square_monotone(s + 1, r);
    }
}

/// Every non-negative number has an integer square root.
pub proof fn lemma_sqrt_floor_exists(x: int) -> (r: int)
    requires
        0 <= x,
    ensures
        is_sqrt_floor(x, r),
    decreases x,
{
    if x == 0 {
        assert(is_sqrt_floor(0, 0));
        0
    } else {
        let p = lemma_sqrt_floor_exists(x - 1);
        if (p + 1) * (p + 1) <= x {
            assert((p + 2) * (p + 2) > (p + 1) * (p + 1)) by (nonlinear_arith)
                requires
                    0 <= p,
            ;
            p + 1
        } else {
            p
        }
    }
}

/// `sqrt_floor(x)` is the integer square root of every non-negative `x`, and
/// any number with that property equals it.
pub proof fn lemma_sqrt_floor(x: int)
    requires
        0 <= x,
    ensures
        is_sqrt_floor(x, sqrt_floor(x)),
        forall|r: int| is_sqrt_floor(x, r) ==> r == sqrt_floor(x),
{
    let w = lemma_sqrt_floor_exists(x);
    assert(is_sqrt_floor(x, sqrt_floor(x)));
    assert forall|r: int| is_sqrt_floor(x, r) implies r == sqrt_floor(x) by {
        lemma_sqrt_floor_unique(x, r, sqrt_floor(x));
    }
}

/// Integer square root by bisection.
pub fn isqrt(x: u128) -> (r: u128)
    ensures
        r == sqrt_floor(x as int),
        is_sqrt_floor(x as int, r as int),
        r <= u64::MAX,
{
    let mut lo: u128 = 0;
    let mut hi: u128 = 0x1_0000_0000_0000_0000;
    assert(0x1_0000_0000_0000_0000int * 0x1_0000_0000_0000_0000int > u128::MAX) by (nonlinear_arith);
    while hi - lo > 1
        invariant
            lo < hi <= 0x1_0000_0000_0000_0000,
            lo * lo <= x,
            x < hi * hi,
        decreases hi - lo,
    {
        let mid: u128 = lo + (hi - lo) / 2;
        assert(mid * mid < 0x1_0000_0000_0000_0000int * 0x1_0000_0000_0000_0000int) by (nonlinear_arith)
            requires
                0 <= mid < 0x1_0000_0000_0000_0000int,
        ;
        assert(0x1_0000_0000_0000_0000int * 0x1_0000_0000_0000_0000int == u128::MAX + 1) by (nonlinear_arith);
        let sq: u128 = mid * mid;
        if sq <= x {
            lo = mid;
        } else {
            hi = mid;
        }
    }
    proof {
        assert(hi == lo + 1);
        assert(is_sqrt_floor(x as int, lo as int));
        lemma_sqrt_floor(x as int);
    }
    lo
}

/// Floor division brackets the quotient: `a / d` is the one integer `q` with
/// `q * d <= a < (q + 1) * d`.
pub proof fn lemma_div_floor(a: int, d: int)
    requires
        0 < d,
    ensures
        (a / d) * d <= a < (a / d) * d + d,
        a == (a / d) * d + a % d,
        0 <= a % d < d,
{
    assert((a / d) * d <= a < (a / d) * d + d && a == (a / d) * d + a % d && 0 <= a % d < d)
        by (nonlinear_arith)
        requires
            0 < d,
    ;
}

/// A quotient lies between two integers when the dividend lies between their
/// multiples of the divisor.
pub proof fn lemma_div_between(a: int, d: int, lo: int, hi: int)
    requires
        0 < d,
        lo * d <= a <= hi * d,
    ensures
        lo <= a / d <= hi,
{
    lemma_div_floor(a, d);
    assert(lo <= a / d) by (nonlinear_arith)
        requires
            0 < d,
            lo * d <= a,
            a < (a / d) * d + d,
    ;
    assert(a / d <= hi) by (nonlinear_arith)
        requires
            0 < d,
            a <= hi * d,
            (a / d) * d <= a,
    ;
}

/// Floor division of a signed number by a positive one.
pub fn div_floor(a: i128, b: i128) -> (q: i128)
    requires
        0 < b,
    ensures
        q == a / b,
{
    if a >= 0 {
        a / b
    } else {
        let m: i128 = -(a + 1);
        let t: i128 = m / b;
        assert(a == -(m + 1));
        assert(a / b == -(m / b) - 1) by (nonlinear_arith)
            requires
                0 < b,
                0 <= m,
                a == -(m + 1),
        ;
        -t - 1
    }
}

} // verus!
