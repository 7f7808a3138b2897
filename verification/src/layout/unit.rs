//! How exact unit vectors are, and what is at a given distance along them.

use vstd::prelude::*;
use vstd::arithmetic::div_mod::{lemma_fundamental_div_mod, lemma_mod_bound};
use crate::layout::fixed::{ONE, lemma_isqrt_bounds, sat, trunc_quot};
use crate::layout::vector::{Vector, hypot, norm_scale, unit_component};

verus! {

/// The magnitude of an integer.
pub open spec fn abs(v: int) -> int {
    if v < 0 {
        -v
    } else {
        v
    }
}

/// The square of the length of a vector, in squares of bits.
pub open spec fn norm_squared(v: Vector) -> int {
    v.x.bits * v.x.bits + v.y.bits * v.y.bits
}

/// Whether the vector is as long as one, as nearly as rounding lets a unit
/// vector be: the square of its length strays from one by less than five
/// bits times one.
pub open spec fn is_unit(v: Vector) -> bool {
    &&& ONE * ONE - 4 * ONE - 2 < norm_squared(v) < ONE * ONE + 6
    &&& -ONE <= v.x.bits <= ONE
    &&& -ONE <= v.y.bits <= ONE
}

/// The quotient of a number that is not negative by a positive one lies
/// within one of the true quotient.
pub proof fn lemma_floor_bounds(a: int, d: int)
    requires
        a >= 0,
        d > 0,
    ensures
        0 <= a / d,
        (a / d) * d <= a < (a / d + 1) * d,
{
    lemma_fundamental_div_mod(a, d);
    lemma_mod_bound(a, d);
    let q = a / d;
    let m = a % d;
    assert(a == d * q + m);
    assert(q * d == d * q && (q + 1) * d == d * q + d) by (nonlinear_arith);
    if q < 0 {
        assert(d * q <= -d) by (nonlinear_arith)
            requires
                q <= -1,
                d > 0,
        ;
    }
}

/// The quotient rounded toward zero has the magnitude of the quotient of
/// the magnitudes.
pub proof fn lemma_trunc_quot_abs(a: int, d: int)
    requires
        d > 0,
    ensures
        abs(trunc_quot(a, d)) == abs(a) / d,
        a >= 0 ==> trunc_quot(a, d) >= 0,
        a <= 0 ==> trunc_quot(a, d) <= 0,
{
    lemma_floor_bounds(abs(a), d);
}

/// Squares keep the order of what is not negative.
pub proof fn lemma_square_le(p: int, q: int)
    requires
        0 <= p <= q,
    ensures
        p * p <= q * q,
{
    assert(p * p <= q * q) by (nonlinear_arith)
        requires
            0 <= p <= q,
    ;
}

pub proof fn lemma_square_lt(p: int, q: int)
    requires
        0 <= p < q,
    ensures
        p * p < q * q,
{
    assert(p * p < q * q) by (nonlinear_arith)
        requires
            0 <= p < q,
    ;
}

/// The square of a product is the product of the squares.
pub proof fn lemma_square_of_product(p: int, q: int)
    ensures
        (p * q) * (p * q) == (p * p) * (q * q),
{
    assert((p * q) * (p * q) == (p * p) * (q * q)) by (nonlinear_arith);
}

/// A sum times a factor is the sum of its terms times the factor.
pub proof fn lemma_distribute(p: int, q: int, f: int)
    ensures
        (p + q) * f == p * f + q * f,
{
    assert((p + q) * f == p * f + q * f) by (nonlinear_arith);
}

/// The components `a` and `b` of a vector of the length `h`, at least two
/// to the thirty-first, scaled to the length `k` and rounded down, give a
/// vector as long as `k` to within a few bits.
pub proof fn lemma_scaled_to_unit(x: int, y: int, h: int, a: int, b: int)
    requires
        0 <= x,
        0 <= y,
        0x8000_0000 <= h,
        h * h <= x * x + y * y < (h + 1) * (h + 1),
        a == (x * ONE) / h,
        b == (y * ONE) / h,
    ensures
        0 <= a <= ONE,
        0 <= b <= ONE,
        ONE * ONE - 4 * ONE - 2 < a * a + b * b < ONE * ONE + 6,
{
    let k = ONE as int;
    assert(x * k >= 0 && y * k >= 0) by (nonlinear_arith)
        requires
            x >= 0,
            y >= 0,
            k == 65536,
    ;
    lemma_floor_bounds(x * k, h);
    lemma_floor_bounds(y * k, h);
    // Neither component is longer than the vector.
    assert(x <= h) by {
        if x > h {
            lemma_square_le(h + 1, x);
            assert(y * y >= 0) by (nonlinear_arith);
        }
    }
    assert(y <= h) by {
        if y > h {
            lemma_square_le(h + 1, y);
            assert(x * x >= 0) by (nonlinear_arith);
        }
    }
    assert(a <= k) by (nonlinear_arith)
        requires
            a * h <= x * k,
            x <= h,
            h > 0,
            k == 65536,
            a >= 0,
    ;
    assert(b <= k) by (nonlinear_arith)
        requires
            b * h <= y * k,
            y <= h,
            h > 0,
            k == 65536,
            b >= 0,
    ;
    // From above.
    assert(a * h >= 0 && b * h >= 0) by (nonlinear_arith)
        requires
            a >= 0,
            b >= 0,
            h > 0,
    ;
    lemma_square_le(a * h, x * k);
    lemma_square_le(b * h, y * k);
    let s = x * x + y * y;
    let hh = h * h;
    let kk = k * k;
    lemma_square_of_product(a, h);
    lemma_square_of_product(b, h);
    lemma_square_of_product(x, k);
    lemma_square_of_product(y, k);
    lemma_distribute(a * a, b * b, hh);
    lemma_distribute(x * x, y * y, kk);
    assert((a * a + b * b) * hh <= kk * s) by (nonlinear_arith)
        requires
            (a * a) * hh <= (x * x) * kk,
            (b * b) * hh <= (y * y) * kk,
            (a * a + b * b) * hh == (a * a) * hh + (b * b) * hh,
            (x * x + y * y) * kk == (x * x) * kk + (y * y) * kk,
            s == x * x + y * y,
    ;
    assert((k * k) * s < (k * k + 6) * (h * h)) by (nonlinear_arith)
        requires
            s < (h + 1) * (h + 1),
            k == 65536,
            h >= 0x8000_0000,
    ;
    let n = a * a + b * b;
    assert(n < k * k + 6) by (nonlinear_arith)
        requires
            n * (h * h) < (k * k + 6) * (h * h),
            h > 0,
    ;
    // From below.
    assert((a + 1) * h >= 0 && (b + 1) * h >= 0) by (nonlinear_arith)
        requires
            a >= 0,
            b >= 0,
            h > 0,
    ;
    lemma_square_lt(x * k, (a + 1) * h);
    lemma_square_lt(y * k, (b + 1) * h);
    let m = (a + 1) * (a + 1) + (b + 1) * (b + 1);
    lemma_square_of_product(a + 1, h);
    lemma_square_of_product(b + 1, h);
    lemma_distribute((a + 1) * (a + 1), (b + 1) * (b + 1), hh);
    assert(m * hh > kk * s) by (nonlinear_arith)
        requires
            ((a + 1) * (a + 1)) * hh > (x * x) * kk,
            ((b + 1) * (b + 1)) * hh > (y * y) * kk,
            m * hh == ((a + 1) * (a + 1)) * hh + ((b + 1) * (b + 1)) * hh,
            (x * x + y * y) * kk == (x * x) * kk + (y * y) * kk,
            s == x * x + y * y,
            m == (a + 1) * (a + 1) + (b + 1) * (b + 1),
    ;
    assert((k * k) * s >= (k * k) * (h * h)) by (nonlinear_arith)
        requires
            s >= h * h,
            k == 65536,
    ;
    assert(m > k * k) by (nonlinear_arith)
        requires
            m * (h * h) > (k * k) * (h * h),
            h > 0,
    ;
    assert(m == n + 2 * a + 2 * b + 2) by (nonlinear_arith)
        requires
            m == (a + 1) * (a + 1) + (b + 1) * (b + 1),
            n == a * a + b * b,
    ;
}

/// A unit vector is as long as one, as nearly as rounding lets it be.
pub proof fn lemma_normalize_unit(v: Vector)
    requires
        !v.is_zero(),
    ensures
        is_unit(v.normalize()),
{
    reveal(Vector::spec_normalize);
    let x = v.x.bits as int;
    let y = v.y.bits as int;
    let f = norm_scale(x, y);
    let xs = x * f;
    let ys = y * f;
    let big = abs(xs);
    let wide = abs(ys);
    let s = xs * xs + ys * ys;
    let h = hypot(xs, ys);
    assert(big * big == xs * xs && wide * wide == ys * ys) by (nonlinear_arith)
        requires
            big == abs(xs),
            wide == abs(ys),
    ;
    assert(big >= 0x8000_0000 || wide >= 0x8000_0000) by {
        if f == 1 {
            assert(xs == x && ys == y);
        } else {
            assert(f == 0x8000_0000);
            assert(xs == x * 0x8000_0000 && ys == y * 0x8000_0000);
            assert(abs(x) >= 1 || abs(y) >= 1);
        }
    }
    assert(s >= 0x4000_0000_0000_0000) by (nonlinear_arith)
        requires
            s == big * big + wide * wide,
            big >= 0,
            wide >= 0,
            big >= 0x8000_0000 || wide >= 0x8000_0000,
    ;
    lemma_isqrt_bounds(s as nat);
    assert(h >= 0x8000_0000) by {
        if h < 0x8000_0000 {
            lemma_square_le(h + 1, 0x8000_0000);
        }
    }
    let cx = unit_component(x, x, y);
    let cy = unit_component(y, x, y);
    assert(x * f * ONE == xs * ONE && y * f * ONE == ys * ONE);
    lemma_trunc_quot_abs(xs * ONE, h);
    lemma_trunc_quot_abs(ys * ONE, h);
    assert(abs(xs * ONE) == big * ONE && abs(ys * ONE) == wide * ONE);
    let a = (big * ONE) / h;
    let b = (wide * ONE) / h;
    lemma_scaled_to_unit(big, wide, h, a, b);
    assert(abs(cx) == a && abs(cy) == b);
    assert(cx * cx == a * a && cy * cy == b * b) by (nonlinear_arith)
        requires
            abs(cx) == a,
            abs(cy) == b,
    ;
    assert(sat(cx) == cx && sat(cy) == cy);
}

/// The tolerance within which a point counts as lying at the distance
/// `radius` from another: a part in 8192 of the radius, and five bits.
pub open spec fn tolerance(radius: int) -> int {
    radius / 8192 + 5
}

/// Whether `square` is the square of a length that lies within the
/// tolerance of `radius`.
pub open spec fn near_radius(square: int, radius: int) -> bool {
    let e = tolerance(radius);
    &&& square <= (radius + e) * (radius + e)
    &&& radius >= e ==> (radius - e) * (radius - e) <= square
}

/// The tolerance is wide enough for what rounding takes from a vector of
/// the length `r` in both of its components.
proof fn lemma_tolerance_covers(r: int, q: int)
    requires
        0 <= q,
        8192 * q <= r < 8192 * q + 8192,
        r >= q + 5,
    ensures
        0x1_0000_0000 * (2 * r * (q + 5) - (q + 5) * (q + 5) - 4 * r - 1) >= 262145 * (r * r),
{
    let t = r - 8192 * q;
    assert(r * r <= r * (8192 * q + 8191)) by (nonlinear_arith)
        requires
            0 <= r <= 8192 * q + 8191,
    ;
    assert(r * (8192 * q + 8191) == 8192 * (r * q) + 8191 * r) by (nonlinear_arith);
    assert(r * q >= 8192 * (q * q)) by (nonlinear_arith)
        requires
            r >= 8192 * q,
            q >= 0,
    ;
    assert(2 * r * (q + 5) - (q + 5) * (q + 5) - 4 * r - 1 == 2 * (r * q) + 6 * r - q * q - 10 * q
        - 26) by (nonlinear_arith);
    let rq = r * q;
    let qq = q * q;
    assert(qq >= 0) by (nonlinear_arith)
        requires
            qq == q * q,
    ;
    assert(qq >= q) by (nonlinear_arith)
        requires
            qq == q * q,
            q >= 0,
    ;
}

/// A vector as long as one, scaled by `r`, is as long as the magnitude of
/// `r`, within the tolerance.
pub proof fn lemma_scaled_near_radius(a: int, b: int, r: int, u: int, v: int)
    requires
        0 <= a <= ONE,
        0 <= b <= ONE,
        ONE * ONE - 4 * ONE - 2 < a * a + b * b < ONE * ONE + 6,
        0 <= r,
        u == (a * r) / (ONE as int),
        v == (b * r) / (ONE as int),
    ensures
        0 <= u <= r,
        0 <= v <= r,
        near_radius(u * u + v * v, r),
{
    let k = ONE as int;
    let kk = k * k;
    let rr = r * r;
    let n = a * a + b * b;
    let w = u * u + v * v;
    let q = r / 8192;
    let e = q + 5;
    assert(a * r >= 0 && b * r >= 0) by (nonlinear_arith)
        requires
            a >= 0,
            b >= 0,
            r >= 0,
    ;
    lemma_floor_bounds(a * r, k);
    lemma_floor_bounds(b * r, k);
    lemma_floor_bounds(r, 8192);
    assert(u <= r) by (nonlinear_arith)
        requires
            u * k <= a * r,
            a <= k,
            r >= 0,
            k == 65536,
    ;
    assert(v <= r) by (nonlinear_arith)
        requires
            v * k <= b * r,
            b <= k,
            r >= 0,
            k == 65536,
    ;
    // From above.
    assert(u * k >= 0 && v * k >= 0) by (nonlinear_arith)
        requires
            u >= 0,
            v >= 0,
            k == 65536,
    ;
    lemma_square_le(u * k, a * r);
    lemma_square_le(v * k, b * r);
    lemma_square_of_product(u, k);
    lemma_square_of_product(v, k);
    lemma_square_of_product(a, r);
    lemma_square_of_product(b, r);
    lemma_distribute(u * u, v * v, kk);
    lemma_distribute(a * a, b * b, rr);
    assert(w * kk <= n * rr);
    assert(n * rr <= (kk + 5) * rr) by (nonlinear_arith)
        requires
            n <= kk + 5,
            rr >= 0,
    ;
    assert(rr >= 0) by (nonlinear_arith)
        requires
            rr == r * r,
    ;
    let top = (r + e) * (r + e);
    assert(top == rr + 2 * (r * e) + e * e) by (nonlinear_arith)
        requires
            top == (r + e) * (r + e),
            rr == r * r,
    ;
    assert(8192 * e >= r);
    assert(5 * rr <= kk * (2 * (r * e) + e * e)) by (nonlinear_arith)
        requires
            8192 * e >= r,
            r >= 0,
            e >= 5,
            rr == r * r,
            kk == 0x1_0000_0000,
    ;
    assert((kk + 5) * rr <= kk * top) by (nonlinear_arith)
        requires
            top == rr + 2 * (r * e) + e * e,
            5 * rr <= kk * (2 * (r * e) + e * e),
    ;
    assert(w <= top) by (nonlinear_arith)
        requires
            w * kk <= kk * top,
            kk > 0,
    ;
    // From below.
    if r >= e {
        assert((u + 1) * k >= 0 && (v + 1) * k >= 0) by (nonlinear_arith)
            requires
                u >= 0,
                v >= 0,
                k == 65536,
        ;
        lemma_square_lt(a * r, (u + 1) * k);
        lemma_square_lt(b * r, (v + 1) * k);
        lemma_square_of_product(u + 1, k);
        lemma_square_of_product(v + 1, k);
        let m = (u + 1) * (u + 1) + (v + 1) * (v + 1);
        lemma_distribute((u + 1) * (u + 1), (v + 1) * (v + 1), kk);
        assert(m * kk > n * rr);
        assert(m == w + 2 * u + 2 * v + 2) by (nonlinear_arith)
            requires
                m == (u + 1) * (u + 1) + (v + 1) * (v + 1),
                w == u * u + v * v,
        ;
        assert(n * rr >= (kk - 4 * k - 1) * rr) by (nonlinear_arith)
            requires
                n >= kk - 4 * k - 1,
                rr >= 0,
        ;
        lemma_tolerance_covers(r, q);
        let low = (r - e) * (r - e);
        assert(low == rr - 2 * (r * e) + e * e) by (nonlinear_arith)
            requires
                low == (r - e) * (r - e),
                rr == r * r,
        ;
        if w < low {
            assert((w + 4 * r + 2) * kk <= (low - 1 + 4 * r + 2) * kk) by (nonlinear_arith)
                requires
                    w <= low - 1,
                    kk > 0,
            ;
            assert((m) * kk <= (w + 4 * r + 2) * kk) by (nonlinear_arith)
                requires
                    m <= w + 4 * r + 2,
                    kk > 0,
            ;
            assert((low - 1 + 4 * r + 2) * kk == kk * rr - kk * (2 * (r * e) - e * e - 4 * r - 1))
                by (nonlinear_arith)
                requires
                    low == rr - 2 * (r * e) + e * e,
            ;
            assert((kk - 4 * k - 1) * rr == kk * rr - 262145 * rr) by (nonlinear_arith)
                requires
                    k == 65536,
            ;
            assert(2 * r * (q + 5) - (q + 5) * (q + 5) - 4 * r - 1 == 2 * (r * e) - e * e - 4 * r
                - 1) by (nonlinear_arith)
                requires
                    e == q + 5,
            ;
            assert(false);
        }
    }
}

} // verus!
