//! Fixed-point arithmetic for the simulation.
//!
//! Every quantity is an integer counted in millionths: a length of `ONE` is one
//! pixel, a weight of `ONE` is the weight 1, an angle of `ONE` is one radian.
//! Products are taken in `i128`, so nothing here can overflow on the ranges that
//! the contracts admit.

use vstd::prelude::*;

verus! {

/// The fixed-point representation of 1.
pub const ONE: i64 = 1_000_000;

/// Coordinates are kept within `-WORLD ..= WORLD` (ten billion pixels either way).
pub const WORLD: i64 = 10_000_000_000_000_000;

/// The largest width or height of a basin: `u32::MAX` pixels.
pub const EXTENT: i64 = 4_294_967_295_000_000;

/// The largest component a vector may have when it is measured or rescaled.
pub const FAR: i64 = 40_000_000_000_000_000;

/// The largest magnitude a vector may be rescaled to.
pub const REACH: i64 = 1_000_000_000_000;

/// The largest argument of [`root_up_of`].
pub const ROOT_DOMAIN: i128 = 1_000_000_000_000_000_000_000_000_000_000_000_000;

/// The quotient of `a` by a positive `b`, rounded toward zero.
pub open spec fn quot(a: int, b: int) -> int {
    if a >= 0 {
        a / b
    } else {
        -((-a) / b)
    }
}

/// `v` limited to the interval from `lo` to `hi`.
pub open spec fn clamp(v: int, lo: int, hi: int) -> int {
    if v < lo {
        lo
    } else if v > hi {
        hi
    } else {
        v
    }
}

/// `v` limited to the world's coordinate range.
pub open spec fn in_world(v: int) -> int {
    clamp(v, -WORLD, WORLD as int)
}

/// `r` is the least natural number whose square reaches `n`.
pub open spec fn is_root_up(n: int, r: int) -> bool {
    &&& r >= 0
    &&& r * r >= n
    &&& (r == 0 || (r - 1) * (r - 1) < n)
}

/// The square root of `n`, rounded up.
pub open spec fn root_up(n: int) -> int {
    choose|r: int| is_root_up(n, r)
}

/// The squared Euclidean length of the vector `(x, y)`.
pub open spec fn norm_sq(x: int, y: int) -> int {
    x * x + y * y
}

/// The Euclidean length of `(x, y)`, rounded up.
pub open spec fn length(x: int, y: int) -> int {
    root_up(norm_sq(x, y))
}

/// `(x, y)` rescaled to the magnitude `len`; the zero vector stays as it is.
pub open spec fn resized(x: int, y: int, len: int) -> (int, int) {
    let m = length(x, y);
    if m > 0 {
        (quot(x * len, m), quot(y * len, m))
    } else {
        (x, y)
    }
}

/// `(x, y)`, shortened to the magnitude `limit` where it is longer.
pub open spec fn capped(x: int, y: int, limit: int) -> (int, int) {
    if norm_sq(x, y) > limit * limit {
        resized(x, y, limit)
    } else {
        (x, y)
    }
}

/// Squaring is monotone on the natural numbers.
pub proof fn lemma_square_monotone(a: int, b: int)
    by (nonlinear_arith)
    requires
        0 <= a <= b,
    ensures
        a * a <= b * b,
{
}

/// At most one number is the rounded-up root of `n`.
pub proof fn lemma_root_up_unique(n: int, r: int, s: int)
    requires
        is_root_up(n, r),
        is_root_up(n, s),
    ensures
        r == s,
{
    if r < s {
        lemma_square_monotone(r, s - 1);
    }
    if s < r {
        lemma_square_monotone(s, r - 1);
    }
}

/// Whoever is the rounded-up root of `n` is `root_up(n)`.
pub proof fn lemma_root_up_is(n: int, r: int)
    requires
        is_root_up(n, r),
    ensures
        root_up(n) == r,
{
    lemma_root_up_unique(n, r, root_up(n));
}

/// The rounded-up root is zero exactly for arguments that are not positive.
pub proof fn lemma_root_up_zero(n: int, r: int)
    requires
        is_root_up(n, r),
    ensures
        r == 0 <==> n <= 0,
        n > 0 ==> r >= 1,
{
    if r > 0 && n <= 0 {
        lemma_square_monotone(0, r - 1);
    }
}

/// A square is bounded by the square of the bound.
proof fn lemma_square_bound(a: int, bound: int)
    by (nonlinear_arith)
    requires
        -bound <= a <= bound,
    ensures
        0 <= a * a <= bound * bound,
{
}

/// A product of natural numbers is bounded by the product of the bounds.
proof fn lemma_product_bound(a: int, b: int, x: int, y: int)
    by (nonlinear_arith)
    requires
        0 <= a <= x,
        0 <= b <= y,
    ensures
        0 <= a * b <= x * y,
{
}

/// The square root of `n`, rounded up.
pub fn root_up_of(n: i128) -> (r: i64)
    requires
        n <= ROOT_DOMAIN,
    ensures
        is_root_up(n as int, r as int),
        r == root_up(n as int),
        r <= 1_000_000_000_000_000_000,
{
    let mut lo: i128 = 0;
    let mut hi: i128 = 1_000_000_000_000_000_000;
    assert(hi * hi == ROOT_DOMAIN) by (nonlinear_arith)
        requires
            hi == 1_000_000_000_000_000_000,
    ;
    while lo < hi
        invariant
            0 <= lo <= hi <= 1_000_000_000_000_000_000,
            hi * hi >= n,
            lo == 0 || (lo - 1) * (lo - 1) < n,
        decreases hi - lo,
    {
        let mid: i128 = lo + (hi - lo) / 2;
        proof {
            lemma_product_bound(
                mid as int,
                mid as int,
                1_000_000_000_000_000_000,
                1_000_000_000_000_000_000,
            );
        }
        if mid * mid >= n {
            hi = mid;
        } else {
            lo = mid + 1;
        }
    }
    proof {
        lemma_root_up_is(n as int, lo as int);
    }
    lo as i64
}

/// `v` limited to the interval from `lo` to `hi`.
pub fn clamp_to(v: i128, lo: i64, hi: i64) -> (r: i64)
    requires
        lo <= hi,
    ensures
        r == clamp(v as int, lo as int, hi as int),
{
    if v < lo as i128 {
        lo
    } else if v > hi as i128 {
        hi
    } else {
        v as i64
    }
}

/// The squared length of `(x, y)`.
pub fn norm_sq_of(x: i64, y: i64) -> (n: i128)
    requires
        -FAR <= x <= FAR,
        -FAR <= y <= FAR,
    ensures
        n == norm_sq(x as int, y as int),
        0 <= n <= 2 * FAR * FAR,
{
    proof {
        lemma_square_bound(x as int, FAR as int);
        lemma_square_bound(y as int, FAR as int);
    }
    let wx: i128 = x as i128;
    let wy: i128 = y as i128;
    wx * wx + wy * wy
}

/// A product is bounded by the product of the bounds.
pub proof fn lemma_mul_range(a: int, b: int, x: int, y: int)
    by (nonlinear_arith)
    requires
        -x <= a <= x,
        -y <= b <= y,
    ensures
        -(x * y) <= a * b <= x * y,
{
}

/// A quotient is bounded by `bound` where the dividend is bounded by `bound * c`.
pub proof fn lemma_quot_range(n: int, c: int, bound: int)
    requires
        0 < c,
        0 <= bound,
        -(bound * c) <= n <= bound * c,
    ensures
        -bound <= quot(n, c) <= bound,
        n >= 0 ==> 0 <= quot(n, c),
        n <= 0 ==> quot(n, c) <= 0,
{
    if n >= 0 {
        assert(0 <= n / c <= bound) by (nonlinear_arith)
            requires
                0 < c,
                0 <= n <= bound * c,
        ;
    } else {
        let p = -n;
        assert(0 <= p / c <= bound) by (nonlinear_arith)
            requires
                0 < c,
                0 <= p <= bound * c,
        ;
    }
}

/// The quotient times the divisor does not pass the dividend, in magnitude.
pub proof fn lemma_quot_floor(n: int, c: int)
    requires
        0 < c,
    ensures
        n >= 0 ==> 0 <= quot(n, c) * c <= n,
        n <= 0 ==> n <= quot(n, c) * c <= 0,
{
    if n >= 0 {
        assert(0 <= (n / c) * c <= n) by (nonlinear_arith)
            requires
                0 < c,
                0 <= n,
        ;
    } else {
        let p = -n;
        assert(0 <= (p / c) * c <= p) by (nonlinear_arith)
            requires
                0 < c,
                0 <= p,
        ;
        assert((-(p / c)) * c == -((p / c) * c)) by (nonlinear_arith);
    }
}

/// Each component of a vector is bounded by its rounded-up length.
pub proof fn lemma_component_within_length(x: int, y: int)
    ensures
        -length(x, y) <= x <= length(x, y),
        -length(x, y) <= y <= length(x, y),
        length(x, y) >= 0,
        length(x, y) == 0 <==> (x == 0 && y == 0),
{
    lemma_root_up_exists(norm_sq(x, y));
    let m = length(x, y);
    assert(x * x >= 0 && y * y >= 0) by (nonlinear_arith);
    if x > m {
        lemma_square_monotone(m + 1, x);
        assert((m + 1) * (m + 1) > m * m) by (nonlinear_arith)
            requires
                m >= 0,
        ;
    }
    if -x > m {
        lemma_square_monotone(m + 1, -x);
        assert((m + 1) * (m + 1) > m * m) by (nonlinear_arith)
            requires
                m >= 0,
        ;
        assert((-x) * (-x) == x * x) by (nonlinear_arith);
    }
    if y > m {
        lemma_square_monotone(m + 1, y);
        assert((m + 1) * (m + 1) > m * m) by (nonlinear_arith)
            requires
                m >= 0,
        ;
    }
    if -y > m {
        lemma_square_monotone(m + 1, -y);
        assert((m + 1) * (m + 1) > m * m) by (nonlinear_arith)
            requires
                m >= 0,
        ;
        assert((-y) * (-y) == y * y) by (nonlinear_arith);
    }
    lemma_root_up_zero(norm_sq(x, y), m);
    if x != 0 {
        assert(x * x > 0) by (nonlinear_arith)
            requires
                x != 0,
        ;
    }
    if y != 0 {
        assert(y * y > 0) by (nonlinear_arith)
            requires
                y != 0,
        ;
    }
}

/// Every integer has a rounded-up root.
pub proof fn lemma_root_up_exists(n: int)
    ensures
        is_root_up(n, root_up(n)),
    decreases n,
{
    if n <= 0 {
        assert(is_root_up(n, 0));
    } else {
        lemma_root_up_exists(n - 1);
        let r = root_up(n - 1);
        if r * r >= n {
            if r == 0 {
            } else {
                assert((r - 1) * (r - 1) < n);
            }
            assert(is_root_up(n, r));
        } else {
            assert(r * r == n - 1);
            assert((r + 1) * (r + 1) >= n) by (nonlinear_arith)
                requires
                    r * r == n - 1,
                    r >= 0,
            ;
            assert(is_root_up(n, r + 1));
        }
    }
}

/// A vector rescaled to the magnitude `len` is no longer than `len`.
pub proof fn lemma_resized_within(x: int, y: int, len: int)
    requires
        0 <= len,
        x != 0 || y != 0,
    ensures
        norm_sq(resized(x, y, len).0, resized(x, y, len).1) <= len * len,
        -len <= resized(x, y, len).0 <= len,
        -len <= resized(x, y, len).1 <= len,
        x >= 0 ==> resized(x, y, len).0 >= 0,
        x <= 0 ==> resized(x, y, len).0 <= 0,
        y >= 0 ==> resized(x, y, len).1 >= 0,
        y <= 0 ==> resized(x, y, len).1 <= 0,
{
    lemma_component_within_length(x, y);
    lemma_root_up_exists(norm_sq(x, y));
    let m = length(x, y);
    let rx = quot(x * len, m);
    let ry = quot(y * len, m);
    lemma_mul_range(x, len, m, len);
    lemma_mul_range(y, len, m, len);
    assert(m * len == len * m) by (nonlinear_arith);
    lemma_quot_range(x * len, m, len);
    lemma_quot_range(y * len, m, len);
    lemma_quot_floor(x * len, m);
    lemma_quot_floor(y * len, m);
    assert(x >= 0 ==> x * len >= 0) by (nonlinear_arith)
        requires
            len >= 0,
    ;
    assert(x <= 0 ==> x * len <= 0) by (nonlinear_arith)
        requires
            len >= 0,
    ;
    assert(y >= 0 ==> y * len >= 0) by (nonlinear_arith)
        requires
            len >= 0,
    ;
    assert(y <= 0 ==> y * len <= 0) by (nonlinear_arith)
        requires
            len >= 0,
    ;
    // |rx * m| <= |x * len| and likewise for y
    let px = rx * m;
    let py = ry * m;
    let qx = x * len;
    let qy = y * len;
    assert(px * px <= qx * qx) by (nonlinear_arith)
        requires
            (qx >= 0 && 0 <= px <= qx) || (qx <= 0 && qx <= px <= 0),
    ;
    assert(py * py <= qy * qy) by (nonlinear_arith)
        requires
            (qy >= 0 && 0 <= py <= qy) || (qy <= 0 && qy <= py <= 0),
    ;
    assert(px * px == (rx * rx) * (m * m)) by (nonlinear_arith)
        requires
            px == rx * m,
    ;
    assert(py * py == (ry * ry) * (m * m)) by (nonlinear_arith)
        requires
            py == ry * m,
    ;
    assert(qx * qx == (x * x) * (len * len)) by (nonlinear_arith)
        requires
            qx == x * len,
    ;
    assert(qy * qy == (y * y) * (len * len)) by (nonlinear_arith)
        requires
            qy == y * len,
    ;
    let s = rx * rx + ry * ry;
    let n = x * x + y * y;
    let mm = m * m;
    let ll = len * len;
    assert(s * mm <= n * ll) by (nonlinear_arith)
        requires
            (rx * rx) * mm <= (x * x) * ll,
            (ry * ry) * mm <= (y * y) * ll,
            s == rx * rx + ry * ry,
            n == x * x + y * y,
    ;
    assert(n * ll <= mm * ll) by (nonlinear_arith)
        requires
            n <= mm,
            ll >= 0,
    ;
    assert(s <= ll) by (nonlinear_arith)
        requires
            s * mm <= mm * ll,
            mm > 0,
    ;
}

/// `(x, y)` rescaled to the magnitude `len`.
pub fn resize(x: i64, y: i64, len: i64) -> (r: (i64, i64))
    requires
        -FAR <= x <= FAR,
        -FAR <= y <= FAR,
        0 <= len <= REACH,
    ensures
        (r.0 as int, r.1 as int) == resized(x as int, y as int, len as int),
        norm_sq(r.0 as int, r.1 as int) <= len * len,
        -len <= r.0 <= len,
        -len <= r.1 <= len,
{
    let n: i128 = norm_sq_of(x, y);
    let m: i64 = root_up_of(n);
    proof {
        lemma_component_within_length(x as int, y as int);
    }
    if m > 0 {
        proof {
            lemma_resized_within(x as int, y as int, len as int);
            lemma_mul_range(x as int, len as int, FAR as int, REACH as int);
            lemma_mul_range(y as int, len as int, FAR as int, REACH as int);
        }
        let qx: i128 = (x as i128 * len as i128) / (m as i128);
        let qy: i128 = (y as i128 * len as i128) / (m as i128);
        (qx as i64, qy as i64)
    } else {
        assert(0 <= len * len) by (nonlinear_arith);
        (x, y)
    }
}

/// `(x, y)`, shortened to the magnitude `limit` where it is longer.
pub fn cap(x: i64, y: i64, limit: i64) -> (r: (i64, i64))
    requires
        -FAR <= x <= FAR,
        -FAR <= y <= FAR,
        0 <= limit <= REACH,
    ensures
        (r.0 as int, r.1 as int) == capped(x as int, y as int, limit as int),
        norm_sq(r.0 as int, r.1 as int) <= limit * limit,
        -limit <= r.0 <= limit,
        -limit <= r.1 <= limit,
{
    let n: i128 = norm_sq_of(x, y);
    proof {
        lemma_mul_range(limit as int, limit as int, REACH as int, REACH as int);
    }
    let bound: i128 = limit as i128 * limit as i128;
    if n > bound {
        assert(x != 0 || y != 0) by (nonlinear_arith)
            requires
                x * x + y * y > bound,
                bound >= 0,
        ;
        resize(x, y, limit)
    } else {
        proof {
            lemma_within_square(x as int, y as int, limit as int);
        }
        (x, y)
    }
}

/// A vector no longer than `limit` has components within `limit`.
pub proof fn lemma_within_square(x: int, y: int, limit: int)
    requires
        0 <= limit,
        norm_sq(x, y) <= limit * limit,
    ensures
        -limit <= x <= limit,
        -limit <= y <= limit,
{
    assert(x * x >= 0 && y * y >= 0) by (nonlinear_arith);
    if x > limit {
        lemma_square_monotone(limit + 1, x);
        assert((limit + 1) * (limit + 1) > limit * limit) by (nonlinear_arith)
            requires
                limit >= 0,
        ;
    }
    if -x > limit {
        lemma_square_monotone(limit + 1, -x);
        assert((limit + 1) * (limit + 1) > limit * limit) by (nonlinear_arith)
            requires
                limit >= 0,
        ;
        assert((-x) * (-x) == x * x) by (nonlinear_arith);
    }
    if y > limit {
        lemma_square_monotone(limit + 1, y);
        assert((limit + 1) * (limit + 1) > limit * limit) by (nonlinear_arith)
            requires
                limit >= 0,
        ;
    }
    if -y > limit {
        lemma_square_monotone(limit + 1, -y);
        assert((limit + 1) * (limit + 1) > limit * limit) by (nonlinear_arith)
            requires
                limit >= 0,
        ;
        assert((-y) * (-y) == y * y) by (nonlinear_arith);
    }
}

} // verus!
