use vstd::prelude::*;

verus! {

/// Number of fixed-point steps in one world unit.
pub const SCALE: i64 = 1_000_000;

/// `r` is the integer square root of `n`.
pub open spec fn is_floor_sqrt(n: int, r: int) -> bool {
    0 <= r && r * r <= n && n < (r + 1) * (r + 1)
}

/// The largest `r` with `r * r <= n`.
pub open spec fn floor_sqrt(n: int) -> int {
    choose|r: int| is_floor_sqrt(n, r)
}

pub proof fn lemma_square_monotone(a: int, b: int)
    requires
        0 <= a <= b,
    ensures
        a * a <= b * b,
{
    assert(a * a <= b * b) by (nonlinear_arith)
        requires
            0 <= a <= b,
    ;
}

/// The integer square root is unique.
pub proof fn lemma_floor_sqrt_unique(n: int, r: int)
    requires
        is_floor_sqrt(n, r),
    ensures
        floor_sqrt(n) == r,
{
    let s = floor_sqrt(n);
    assert(is_floor_sqrt(n, s));
    if s < r {
        lemma_square_monotone(s + 1, r);
    } else if r < s {
        lemma_square_monotone(r + 1, s);
    }
}

/// Every natural number has an integer square root.
pub proof fn lemma_floor_sqrt_exists(n: int)
    requires
        n >= 0,
    ensures
        is_floor_sqrt(n, floor_sqrt(n)),
    decreases n,
{
    if n == 0 {
        assert(is_floor_sqrt(0, 0));
    } else {
        lemma_floor_sqrt_exists(n - 1);
        let r = floor_sqrt(n - 1);
        if (r + 1) * (r + 1) <= n {
            assert((r + 2) * (r + 2) > (r + 1) * (r + 1)) by (nonlinear_arith)
                requires
                    r >= 0,
            ;
            assert(is_floor_sqrt(n, r + 1));
        } else {
            assert(is_floor_sqrt(n, r));
        }
    }
}

/// The integer square root of a sum of squares is at least each side.
pub proof fn lemma_floor_sqrt_covers(a: int, b: int)
    ensures
        abs(a) <= floor_sqrt(a * a + b * b),
        abs(b) <= floor_sqrt(a * a + b * b),
        floor_sqrt(a * a + b * b) == 0 <==> (a == 0 && b == 0),
{
    let n = a * a + b * b;
    assert(a * a >= 0 && b * b >= 0) by (nonlinear_arith);
    lemma_floor_sqrt_exists(n);
    let r = floor_sqrt(n);
    assert(abs(a) * abs(a) == a * a && abs(b) * abs(b) == b * b) by (nonlinear_arith);
    if abs(a) > r {
        lemma_square_monotone(r + 1, abs(a));
    }
    if abs(b) > r {
        lemma_square_monotone(r + 1, abs(b));
    }
    if a == 0 && b == 0 {
        assert(r == 0) by (nonlinear_arith)
            requires
                r >= 0,
                r * r <= n,
                n == a * a + b * b,
                a == 0,
                b == 0,
        ;
    }
}

/// A bound on a quotient rounded toward zero.
pub proof fn lemma_div_trunc_bound(n: int, d: int, b: int)
    requires
        d > 0,
        b >= 0,
        abs(n) <= b * d,
    ensures
        abs(div_trunc(n, d)) <= b,
        abs(div_trunc(n, d)) * d <= abs(n),
{
    let q = abs(n) / d;
    let r = abs(n) % d;
    assert(abs(n) == q * d + r && 0 <= r < d) by (nonlinear_arith)
        requires
            d > 0,
            q == abs(n) / d,
            r == abs(n) % d,
    ;
    assert(q <= b) by (nonlinear_arith)
        requires
            abs(n) == q * d + r,
            0 <= r,
            abs(n) <= b * d,
            d > 0,
    ;
    assert(q >= 0) by (nonlinear_arith)
        requires
            abs(n) == q * d + r,
            r < d,
            abs(n) >= 0,
            d > 0,
    ;
}

/// Integer square root, rounded down.
pub fn isqrt(n: u128) -> (r: u64)
    ensures
        r as int == floor_sqrt(n as int),
        is_floor_sqrt(n as int, r as int),
{
    let mut lo: u128 = 0;
    let mut hi: u128 = 0x1_0000_0000_0000_0000;
    assert(n < hi * hi) by (nonlinear_arith)
        requires
            hi == 0x1_0000_0000_0000_0000u128,
            n <= 0xffff_ffff_ffff_ffff_ffff_ffff_ffff_ffffu128,
    ;
    while hi - lo > 1
        invariant
            lo < hi <= 0x1_0000_0000_0000_0000,
            lo * lo <= n,
            n < hi * hi,
        decreases hi - lo,
    {
        let mid: u128 = lo + (hi - lo) / 2;
        assert(mid * mid < 0x1_0000_0000_0000_0000_0000_0000_0000_0000) by (nonlinear_arith)
            requires
                mid < 0x1_0000_0000_0000_0000,
        ;
        if mid * mid <= n {
            lo = mid;
        } else {
            hi = mid;
        }
    }
    proof {
        lemma_floor_sqrt_unique(n as int, lo as int);
    }
    lo as u64
}

/// `v` clamped to the range of `i64`.
pub open spec fn sat(v: int) -> int {
    if v > i64::MAX {
        i64::MAX as int
    } else if v < i64::MIN {
        i64::MIN as int
    } else {
        v
    }
}

/// Division rounded toward zero (`b != 0`).
pub open spec fn div_trunc(a: int, b: int) -> int {
    let q = abs(a) / abs(b);
    if (a < 0) != (b < 0) {
        -q
    } else {
        q
    }
}

pub open spec fn abs(a: int) -> int {
    if a < 0 {
        -a
    } else {
        a
    }
}

/// Saturates a wide intermediate to `i64`.
pub fn saturate(v: i128) -> (r: i64)
    ensures
        r as int == sat(v as int),
{
    if v > i64::MAX as i128 {
        i64::MAX
    } else if v < i64::MIN as i128 {
        i64::MIN
    } else {
        v as i64
    }
}

/// Division rounded toward zero, on values small enough not to overflow.
pub fn trunc_div(a: i128, b: i128) -> (r: i128)
    requires
        b != 0,
        a > i128::MIN,
        b > i128::MIN,
    ensures
        r as int == div_trunc(a as int, b as int),
{
    let ua: u128 = if a < 0 { (-a) as u128 } else { a as u128 };
    let ub: u128 = if b < 0 { (-b) as u128 } else { b as u128 };
    let q: u128 = ua / ub;
    assert(q <= ua) by (nonlinear_arith)
        requires
            q == ua / ub,
            ub >= 1,
    ;
    if (a < 0) != (b < 0) {
        -(q as i128)
    } else {
        q as i128
    }
}

} // verus!
