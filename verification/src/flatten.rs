//! Adaptive flattening of cubic Bezier segments into quadratics.
//!
//! A cubic with control points `P1 P2 P3 P4` deviates from a single
//! quadratic approximation by an amount proportional to the magnitude of its
//! third-difference vector `e = 3 P2 - 3 P3 - P1 + P4`. The flattening
//! tolerance is scale-relative: `tol = 0.001 * max_dim * 18 / sqrt(3)`, where
//! `max_dim` is the larger extent of the four control points' bounding box.
//! A subdivision into `n` equal parameter segments scales the
//! third-difference of each sub-segment by `1 / n^3`, so the smallest
//! adequate segment count is the least `n` with `|e| <= n^3 * tol`. Squaring
//! and clearing denominators turns that into the exact integer test
//! `250000 * |e|^2 <= 27 * n^6 * max_dim^2` (since `tol^2 =
//! max_dim^2 * 324 / (3 * 10^6) = max_dim^2 * 27 / 250000`).
//!
//! Each emitted segment is evaluated directly from the original cubic in
//! exact rational arithmetic: the segment over `[i/n, (i+1)/n]` has the
//! sub-cubic control points `B(i/n), F(i,i,i+1), F(i,i+1,i+1), B((i+1)/n)`
//! (blossom values, all with denominator `n^3`), and its quadratic
//! approximation uses `control = (3 Q2 + 3 Q3 - Q1 - Q4) / 4`. Recorded
//! coordinates are those exact rationals rounded to the nearest integer.

use vstd::prelude::*;

use crate::geom::{Vec2, COORD_MAX, POINT_MAX};
use crate::num::{
    lemma_mul_le, lemma_round_div_bound, lemma_round_div_close, lemma_round_div_exact, round_div,
    spec_round_div,
};

verus! {

/// Largest segment count the flattening will ever choose.
pub const SEG_CAP: u64 = 1024;

/// Largest possible squared third-difference magnitude for in-range input:
/// each component is at most `8 * COORD_MAX`, so the square sum is at most
/// `2 * (8 * COORD_MAX)^2`.
pub const ERR_SQ_MAX: i64 = 0x80000000000;

pub open spec fn imax(a: int, b: int) -> int {
    if a >= b {
        a
    } else {
        b
    }
}

pub open spec fn imin(a: int, b: int) -> int {
    if a <= b {
        a
    } else {
        b
    }
}

pub open spec fn max4(a: int, b: int, c: int, d: int) -> int {
    imax(imax(a, b), imax(c, d))
}

pub open spec fn min4(a: int, b: int, c: int, d: int) -> int {
    imin(imin(a, b), imin(c, d))
}

pub open spec fn cube(n: int) -> int {
    n * n * n
}

/// X component of the third-difference vector `3 P2 - 3 P3 - P1 + P4`.
pub open spec fn err_x(p1: Vec2, p2: Vec2, p3: Vec2, p4: Vec2) -> int {
    3 * p2.x - 3 * p3.x - p1.x + p4.x
}

/// Y component of the third-difference vector.
pub open spec fn err_y(p1: Vec2, p2: Vec2, p3: Vec2, p4: Vec2) -> int {
    3 * p2.y - 3 * p3.y - p1.y + p4.y
}

/// Squared magnitude of the third-difference vector.
pub open spec fn err_sq(p1: Vec2, p2: Vec2, p3: Vec2, p4: Vec2) -> int {
    err_x(p1, p2, p3, p4) * err_x(p1, p2, p3, p4) + err_y(p1, p2, p3, p4) * err_y(
        p1,
        p2,
        p3,
        p4,
    )
}

/// Larger extent of the bounding box of the four control points.
pub open spec fn max_dim(p1: Vec2, p2: Vec2, p3: Vec2, p4: Vec2) -> int {
    imax(
        max4(p1.x as int, p2.x as int, p3.x as int, p4.x as int) - min4(
            p1.x as int,
            p2.x as int,
            p3.x as int,
            p4.x as int,
        ),
        max4(p1.y as int, p2.y as int, p3.y as int, p4.y as int) - min4(
            p1.y as int,
            p2.y as int,
            p3.y as int,
            p4.y as int,
        ),
    )
}

/// The integer form of `|e| <= n^3 * tol`, squared and cleared of
/// denominators.
pub open spec fn meets_tol(n: int, esq: int, md: int) -> bool {
    250000 * esq <= 27 * (cube(n) * cube(n)) * (md * md)
}

/// The least segment count at or above `k` that meets the tolerance,
/// capped at `SEG_CAP`.
pub open spec fn seg_count_from(k: int, esq: int, md: int) -> int
    decreases SEG_CAP - k,
{
    if k >= SEG_CAP || meets_tol(k, esq, md) {
        k
    } else {
        seg_count_from(k + 1, esq, md)
    }
}

/// The segment count the flattening uses.
pub open spec fn seg_count(esq: int, md: int) -> int {
    seg_count_from(1, esq, md)
}

/// Numerator (over `n^3`) of the cubic evaluated at parameter `i / n`,
/// for one axis with control coordinates `a b c d`.
pub open spec fn bez3(a: int, b: int, c: int, d: int, i: int, n: int) -> int {
    let u = n - i;
    u * u * u * a + 3 * u * u * i * b + 3 * u * i * i * c + i * i * i * d
}

/// Numerator (over `n^3`) of the blossom value `F(i/n, i/n, (i+1)/n)`:
/// the second control point of the sub-cubic over `[i/n, (i+1)/n]`.
pub open spec fn mid2(a: int, b: int, c: int, d: int, i: int, n: int) -> int {
    let u = n - i;
    let j = i + 1;
    let v = n - j;
    u * u * v * a + (2 * i * u * v + u * u * j) * b + (i * i * v + 2 * i * u * j) * c + i * i * j
        * d
}

/// Numerator (over `n^3`) of the blossom value `F(i/n, (i+1)/n, (i+1)/n)`:
/// the third control point of the sub-cubic over `[i/n, (i+1)/n]`.
pub open spec fn mid3(a: int, b: int, c: int, d: int, i: int, n: int) -> int {
    let u = n - i;
    let j = i + 1;
    let v = n - j;
    u * v * v * a + (i * v * v + 2 * u * j * v) * b + (2 * i * j * v + u * j * j) * c + i * j * j
        * d
}

/// Numerator (over `4 * n^3`) of the quadratic control point
/// `(3 Q2 + 3 Q3 - Q1 - Q4) / 4` for segment `i`.
pub open spec fn ctrl_num(a: int, b: int, c: int, d: int, i: int, n: int) -> int {
    3 * mid2(a, b, c, d, i, n) + 3 * mid3(a, b, c, d, i, n) - bez3(a, b, c, d, i, n) - bez3(
        a,
        b,
        c,
        d,
        i + 1,
        n,
    )
}

/// The endpoint recorded for segment `i`: the cubic at `(i+1)/n`, rounded.
pub open spec fn seg_point(p1: Vec2, p2: Vec2, p3: Vec2, p4: Vec2, i: int, n: int) -> Vec2 {
    Vec2 {
        x: spec_round_div(
            bez3(p1.x as int, p2.x as int, p3.x as int, p4.x as int, i + 1, n),
            cube(n),
        ) as i64,
        y: spec_round_div(
            bez3(p1.y as int, p2.y as int, p3.y as int, p4.y as int, i + 1, n),
            cube(n),
        ) as i64,
    }
}

/// The control point recorded for segment `i`, rounded.
pub open spec fn seg_ctrl(p1: Vec2, p2: Vec2, p3: Vec2, p4: Vec2, i: int, n: int) -> Vec2 {
    Vec2 {
        x: spec_round_div(
            ctrl_num(p1.x as int, p2.x as int, p3.x as int, p4.x as int, i, n),
            4 * cube(n),
        ) as i64,
        y: spec_round_div(
            ctrl_num(p1.y as int, p2.y as int, p3.y as int, p4.y as int, i, n),
            4 * cube(n),
        ) as i64,
    }
}

/// The full point sequence the flattening records: for each segment its
/// control point then its endpoint.
pub open spec fn cubic_emit(p1: Vec2, p2: Vec2, p3: Vec2, p4: Vec2) -> Seq<Vec2> {
    let n = seg_count(err_sq(p1, p2, p3, p4), max_dim(p1, p2, p3, p4));
    Seq::new(
        (2 * n) as nat,
        |k: int|
            if k % 2 == 0 {
                seg_ctrl(p1, p2, p3, p4, k / 2, n)
            } else {
                seg_point(p1, p2, p3, p4, k / 2, n)
            },
    )
}

/// A weighted sum with non-negative weights summing to at most `s` of
/// values of magnitude at most `l` has magnitude at most `s * l`.
pub proof fn lemma_weighted4_bound(
    w1: int,
    w2: int,
    w3: int,
    w4: int,
    a: int,
    b: int,
    c: int,
    d: int,
    s: int,
    l: int,
)
    requires
        w1 >= 0,
        w2 >= 0,
        w3 >= 0,
        w4 >= 0,
        w1 + w2 + w3 + w4 <= s,
        -l <= a <= l,
        -l <= b <= l,
        -l <= c <= l,
        -l <= d <= l,
        l >= 0,
    ensures
        -(s * l) <= w1 * a + w2 * b + w3 * c + w4 * d <= s * l,
{
    lemma_weighted_term_bound(w1, a, l);
    lemma_weighted_term_bound(w2, b, l);
    lemma_weighted_term_bound(w3, c, l);
    lemma_weighted_term_bound(w4, d, l);
    assert((w1 + w2 + w3 + w4) * l == w1 * l + w2 * l + w3 * l + w4 * l && (w1 + w2 + w3 + w4) * l
        <= s * l) by (nonlinear_arith)
        requires
            w1 + w2 + w3 + w4 <= s,
            l >= 0;
}

proof fn lemma_weighted_term_bound(w: int, a: int, l: int) by (nonlinear_arith)
    requires
        w >= 0,
        -l <= a <= l,
    ensures
        -(w * l) <= w * a <= w * l,
{
}

/// The Bernstein weights of `bez3` are non-negative and sum to `n^3`.
pub proof fn lemma_bez3_bound(a: int, b: int, c: int, d: int, i: int, n: int, l: int)
    requires
        0 <= i <= n,
        -l <= a <= l,
        -l <= b <= l,
        -l <= c <= l,
        -l <= d <= l,
        l >= 0,
    ensures
        -(cube(n) * l) <= bez3(a, b, c, d, i, n) <= cube(n) * l,
{
    let u = n - i;
    assert(u * u * u >= 0 && 3 * u * u * i >= 0 && 3 * u * i * i >= 0 && i * i * i >= 0 && u * u
        * u + 3 * u * u * i + 3 * u * i * i + i * i * i == cube(n)) by (nonlinear_arith)
        requires
            0 <= i <= n,
            u == n - i;
    lemma_weighted4_bound(u * u * u, 3 * u * u * i, 3 * u * i * i, i * i * i, a, b, c, d, cube(n), l);
}

/// The blossom weights of `mid2` are non-negative and sum to `n^3`.
pub proof fn lemma_mid2_bound(a: int, b: int, c: int, d: int, i: int, n: int, l: int)
    requires
        0 <= i < n,
        -l <= a <= l,
        -l <= b <= l,
        -l <= c <= l,
        -l <= d <= l,
        l >= 0,
    ensures
        -(cube(n) * l) <= mid2(a, b, c, d, i, n) <= cube(n) * l,
{
    let u = n - i;
    let j = i + 1;
    let v = n - j;
    assert(u * u * v >= 0 && 2 * i * u * v + u * u * j >= 0 && i * i * v + 2 * i * u * j >= 0 && i
        * i * j >= 0 && u * u * v + (2 * i * u * v + u * u * j) + (i * i * v + 2 * i * u * j) + i
        * i * j == cube(n)) by (nonlinear_arith)
        requires
            0 <= i < n,
            u == n - i,
            j == i + 1,
            v == n - j;
    lemma_weighted4_bound(
        u * u * v,
        2 * i * u * v + u * u * j,
        i * i * v + 2 * i * u * j,
        i * i * j,
        a,
        b,
        c,
        d,
        cube(n),
        l,
    );
}

/// The blossom weights of `mid3` are non-negative and sum to `n^3`.
pub proof fn lemma_mid3_bound(a: int, b: int, c: int, d: int, i: int, n: int, l: int)
    requires
        0 <= i < n,
        -l <= a <= l,
        -l <= b <= l,
        -l <= c <= l,
        -l <= d <= l,
        l >= 0,
    ensures
        -(cube(n) * l) <= mid3(a, b, c, d, i, n) <= cube(n) * l,
{
    let u = n - i;
    let j = i + 1;
    let v = n - j;
    assert(u * v * v >= 0 && i * v * v + 2 * u * j * v >= 0 && 2 * i * j * v + u * j * j >= 0 && i
        * j * j >= 0 && u * v * v + (i * v * v + 2 * u * j * v) + (2 * i * j * v + u * j * j) + i
        * j * j == cube(n)) by (nonlinear_arith)
        requires
            0 <= i < n,
            u == n - i,
            j == i + 1,
            v == n - j;
    lemma_weighted4_bound(
        u * v * v,
        i * v * v + 2 * u * j * v,
        2 * i * j * v + u * j * j,
        i * j * j,
        a,
        b,
        c,
        d,
        cube(n),
        l,
    );
}

/// The control-point numerator is bounded by `8 * n^3 * l`, so the rounded
/// control point is bounded by `2 * l`.
pub proof fn lemma_ctrl_bound(a: int, b: int, c: int, d: int, i: int, n: int, l: int)
    requires
        0 <= i < n,
        -l <= a <= l,
        -l <= b <= l,
        -l <= c <= l,
        -l <= d <= l,
        l >= 0,
    ensures
        -(8 * cube(n) * l) <= ctrl_num(a, b, c, d, i, n) <= 8 * cube(n) * l,
{
    lemma_mid2_bound(a, b, c, d, i, n, l);
    lemma_mid3_bound(a, b, c, d, i, n, l);
    lemma_bez3_bound(a, b, c, d, i, n, l);
    lemma_bez3_bound(a, b, c, d, i + 1, n, l);
    assert(8 * (cube(n) * l) == (8 * cube(n)) * l) by (nonlinear_arith);
}

/// Evaluating the cubic at parameter 1 gives exactly the final control
/// point.
pub proof fn lemma_bez3_full(a: int, b: int, c: int, d: int, n: int)
    requires
        n >= 1,
    ensures
        bez3(a, b, c, d, n, n) == cube(n) * d,
{
    assert(bez3(a, b, c, d, n, n) == cube(n) * d) by (nonlinear_arith)
        requires
            n >= 1;
}

/// Bounds on the squared third-difference magnitude for in-range input.
pub proof fn lemma_err_sq_bound(p1: Vec2, p2: Vec2, p3: Vec2, p4: Vec2)
    requires
        p1.in_range(COORD_MAX),
        p2.in_range(COORD_MAX),
        p3.in_range(COORD_MAX),
        p4.in_range(COORD_MAX),
    ensures
        0 <= err_sq(p1, p2, p3, p4) <= ERR_SQ_MAX,
{
    let ex = err_x(p1, p2, p3, p4);
    let ey = err_y(p1, p2, p3, p4);
    assert(-2097152 <= ex <= 2097152);
    assert(-2097152 <= ey <= 2097152);
    assert(0 <= ex * ex <= 0x40000000000) by (nonlinear_arith)
        requires
            -2097152 <= ex <= 2097152;
    assert(0 <= ey * ey <= 0x40000000000) by (nonlinear_arith)
        requires
            -2097152 <= ey <= 2097152;
}

/// The bounding-box extent is non-negative, bounded, and zero only when the
/// third-difference vector is zero.
pub proof fn lemma_max_dim_props(p1: Vec2, p2: Vec2, p3: Vec2, p4: Vec2)
    requires
        p1.in_range(COORD_MAX),
        p2.in_range(COORD_MAX),
        p3.in_range(COORD_MAX),
        p4.in_range(COORD_MAX),
    ensures
        0 <= max_dim(p1, p2, p3, p4) <= 2 * COORD_MAX,
        err_sq(p1, p2, p3, p4) > 0 ==> max_dim(p1, p2, p3, p4) >= 1,
{
    if max_dim(p1, p2, p3, p4) == 0 {
        assert(p1.x == p2.x && p2.x == p3.x && p3.x == p4.x);
        assert(p1.y == p2.y && p2.y == p3.y && p3.y == p4.y);
        assert(err_x(p1, p2, p3, p4) == 0);
        assert(err_y(p1, p2, p3, p4) == 0);
        assert(err_sq(p1, p2, p3, p4) == 0) by (nonlinear_arith)
            requires
                err_x(p1, p2, p3, p4) == 0,
                err_y(p1, p2, p3, p4) == 0;
    }
}

/// The capped segment count always meets the tolerance within the input
/// bounds: at the cap, `27 * n^6 * md^2` already exceeds any possible
/// `250000 * esq`.
pub proof fn lemma_meets_tol_cap(esq: int, md: int)
    requires
        0 <= esq <= ERR_SQ_MAX,
        md >= 1,
    ensures
        meets_tol(SEG_CAP as int, esq, md),
{
    let n = SEG_CAP as int;
    assert(27 * (cube(n) * cube(n)) * (md * md) >= 250000 * esq) by (nonlinear_arith)
        requires
            n == 1024,
            md >= 1,
            0 <= esq <= ERR_SQ_MAX;
}

/// The chosen segment count is between 1 and the cap and meets the
/// tolerance.
pub proof fn lemma_seg_count_props(esq: int, md: int)
    requires
        0 <= esq <= ERR_SQ_MAX,
        0 <= md,
        esq > 0 ==> md >= 1,
    ensures
        1 <= seg_count(esq, md) <= SEG_CAP,
        meets_tol(seg_count(esq, md), esq, md),
{
    if esq == 0 {
        assert(27 * (cube(1) * cube(1)) * (md * md) >= 0) by (nonlinear_arith);
        assert(meets_tol(1, esq, md));
        assert(seg_count(esq, md) == 1);
    } else {
        lemma_meets_tol_cap(esq, md);
        lemma_seg_count_from_props(1, esq, md);
    }
}

/// Flattening error bound, in the integer model: the flattening of any
/// in-range cubic emits `n = cubic_emit(..).len() / 2` quadratic segments,
/// and that count satisfies the tolerance test
/// `250000 * |e|^2 <= 27 * n^6 * max_dim^2` — the squared, cleared form of
/// `|e| / n^3 <= 0.001 * max_dim * 18 / sqrt(3)`. Subdividing the cubic into
/// `n` equal parameter segments scales each sub-segment's third-difference
/// vector to `e / n^3`, and the true maximum deviation of a segment's
/// quadratic approximation from its sub-cubic is `sqrt(3) / 36` times that
/// magnitude, so each emitted segment deviates by at most
/// `0.0005 * max_dim` (the real-analysis step relating the third difference
/// to the pointwise deviation is outside this integer model).
pub proof fn lemma_flattening_tolerance(p1: Vec2, p2: Vec2, p3: Vec2, p4: Vec2)
    requires
        p1.in_range(COORD_MAX),
        p2.in_range(COORD_MAX),
        p3.in_range(COORD_MAX),
        p4.in_range(COORD_MAX),
    ensures
        cubic_emit(p1, p2, p3, p4).len() == 2 * seg_count(
            err_sq(p1, p2, p3, p4),
            max_dim(p1, p2, p3, p4),
        ),
        1 <= seg_count(err_sq(p1, p2, p3, p4), max_dim(p1, p2, p3, p4)) <= SEG_CAP,
        meets_tol(
            seg_count(err_sq(p1, p2, p3, p4), max_dim(p1, p2, p3, p4)),
            err_sq(p1, p2, p3, p4),
            max_dim(p1, p2, p3, p4),
        ),
{
    lemma_err_sq_bound(p1, p2, p3, p4);
    lemma_max_dim_props(p1, p2, p3, p4);
    lemma_seg_count_props(err_sq(p1, p2, p3, p4), max_dim(p1, p2, p3, p4));
}

/// Each recorded segment endpoint is within half a coordinate unit of the
/// exact rational point of the original cubic: scaled through by
/// `2 * n^3`, the rounded coordinate differs from the exact numerator by at
/// most `n^3`.
pub proof fn lemma_seg_point_close(p1: Vec2, p2: Vec2, p3: Vec2, p4: Vec2, i: int, n: int)
    requires
        0 <= i < n <= 1024,
        p1.in_range(COORD_MAX),
        p2.in_range(COORD_MAX),
        p3.in_range(COORD_MAX),
        p4.in_range(COORD_MAX),
    ensures
        -cube(n) <= 2 * (bez3(p1.x as int, p2.x as int, p3.x as int, p4.x as int, i + 1, n) - (
        seg_point(p1, p2, p3, p4, i, n).x as int) * cube(n)) <= cube(n),
        -cube(n) <= 2 * (bez3(p1.y as int, p2.y as int, p3.y as int, p4.y as int, i + 1, n) - (
        seg_point(p1, p2, p3, p4, i, n).y as int) * cube(n)) <= cube(n),
{
    assert(1 <= cube(n) <= 1073741824) by (nonlinear_arith)
        requires
            1 <= n <= 1024;
    lemma_bez3_bound(
        p1.x as int,
        p2.x as int,
        p3.x as int,
        p4.x as int,
        i + 1,
        n,
        COORD_MAX as int,
    );
    lemma_bez3_bound(
        p1.y as int,
        p2.y as int,
        p3.y as int,
        p4.y as int,
        i + 1,
        n,
        COORD_MAX as int,
    );
    let bx = bez3(p1.x as int, p2.x as int, p3.x as int, p4.x as int, i + 1, n);
    let by = bez3(p1.y as int, p2.y as int, p3.y as int, p4.y as int, i + 1, n);
    lemma_round_div_close(bx, cube(n));
    lemma_round_div_close(by, cube(n));
    lemma_round_div_bound(bx, cube(n), COORD_MAX as int);
    lemma_round_div_bound(by, cube(n), COORD_MAX as int);
}

/// Decides `meets_tol` in exact integer arithmetic.
pub(crate) fn meets_tol_exec(k: u64, esq: i64, md: i64) -> (r: bool)
    requires
        1 <= k <= SEG_CAP,
        0 <= esq <= ERR_SQ_MAX,
        0 <= md <= 2 * COORD_MAX,
    ensures
        r == meets_tol(k as int, esq as int, md as int),
{
    proof {
        assert(0 <= k * k <= 1048576 && 0 <= k * k * k <= 1073741824) by (nonlinear_arith)
            requires
                1 <= k <= 1024;
    }
    let kc: u64 = k * k * k;
    proof {
        assert((kc as int) * (kc as int) <= 0x1000000000000000) by (nonlinear_arith)
            requires
                0 <= kc <= 1073741824;
        assert(0 <= (md as int) * (md as int) <= 0x10000000000) by (nonlinear_arith)
            requires
                0 <= md <= 1048576;
    }
    let c2: u128 = (kc as u128) * (kc as u128);
    let m2: u128 = (md as u128) * (md as u128);
    proof {
        assert(c2 == cube(k as int) * cube(k as int) && c2 <= 0x1000000000000000) by (
        nonlinear_arith)
            requires
                c2 == (kc as u128) * (kc as u128),
                kc == cube(k as int),
                0 <= kc <= 1073741824;
        assert(m2 == (md as int) * (md as int) && m2 <= 0x10000000000) by (nonlinear_arith)
            requires
                m2 == (md as u128) * (md as u128),
                0 <= md <= 1048576;
        assert(27 * c2 * m2 == 27 * (cube(k as int) * cube(k as int)) * ((md as int) * (
        md as int)) && 27 * c2 * m2 <= 0x6c0000000000000000000000000) by (nonlinear_arith)
            requires
                c2 == cube(k as int) * cube(k as int),
                m2 == (md as int) * (md as int),
                0 <= c2 <= 0x1000000000000000,
                0 <= m2 <= 0x10000000000;
    }
    250000u128 * (esq as u128) <= 27u128 * c2 * m2
}

/// Evaluates the `bez3` numerator; the result is bounded by `n^3` times the
/// coordinate bound.
pub(crate) fn eval_bez3(a: i64, b: i64, c: i64, d: i64, i: i64, n: i64) -> (r: i64)
    requires
        0 <= i <= n <= 1024,
        -COORD_MAX <= a <= COORD_MAX,
        -COORD_MAX <= b <= COORD_MAX,
        -COORD_MAX <= c <= COORD_MAX,
        -COORD_MAX <= d <= COORD_MAX,
    ensures
        r == bez3(a as int, b as int, c as int, d as int, i as int, n as int),
        -(cube(n as int) * COORD_MAX) <= r <= cube(n as int) * COORD_MAX,
{
    let u: i64 = n - i;
    proof {
        assert(0 <= u * u <= 1048576 && 0 <= u * u * u <= 1073741824 && 0 <= 3 * u * u
            <= 3145728 && 0 <= 3 * u * u * i <= 3221225472 && 0 <= 3 * u * i <= 3145728 && 0 <= 3
            * u * i * i <= 3221225472 && 0 <= i * i <= 1048576 && 0 <= i * i * i <= 1073741824) by (
        nonlinear_arith)
            requires
                0 <= i <= n <= 1024,
                u == n - i;
        lemma_mul_le(u * u * u, 1073741824, a as int, COORD_MAX as int);
        lemma_mul_le(3 * u * u * i, 3221225472, b as int, COORD_MAX as int);
        lemma_mul_le(3 * u * i * i, 3221225472, c as int, COORD_MAX as int);
        lemma_mul_le(i * i * i, 1073741824, d as int, COORD_MAX as int);
        lemma_bez3_bound(
            a as int,
            b as int,
            c as int,
            d as int,
            i as int,
            n as int,
            COORD_MAX as int,
        );
    }
    u * u * u * a + 3 * u * u * i * b + 3 * u * i * i * c + i * i * i * d
}

/// Evaluates the `mid2` numerator.
pub(crate) fn eval_mid2(a: i64, b: i64, c: i64, d: i64, i: i64, n: i64) -> (r: i64)
    requires
        0 <= i < n <= 1024,
        -COORD_MAX <= a <= COORD_MAX,
        -COORD_MAX <= b <= COORD_MAX,
        -COORD_MAX <= c <= COORD_MAX,
        -COORD_MAX <= d <= COORD_MAX,
    ensures
        r == mid2(a as int, b as int, c as int, d as int, i as int, n as int),
        -(cube(n as int) * COORD_MAX) <= r <= cube(n as int) * COORD_MAX,
{
    let u: i64 = n - i;
    let j: i64 = i + 1;
    let v: i64 = n - j;
    proof {
        assert(0 <= u * u <= 1048576 && 0 <= u * u * v <= 1073741824 && 0 <= 2 * i <= 2048 && 0
            <= 2 * i * u <= 2097152 && 0 <= 2 * i * u * v <= 2147483648 && 0 <= u * u * j
            <= 1073741824 && 0 <= i * i <= 1048576 && 0 <= i * i * v <= 1073741824 && 0 <= 2 * i
            * u * j <= 2147483648 && 0 <= i * i * j <= 1073741824) by (nonlinear_arith)
            requires
                0 <= i < n <= 1024,
                u == n - i,
                j == i + 1,
                v == n - j;
        lemma_mul_le(u * u * v, 1073741824, a as int, COORD_MAX as int);
        lemma_mul_le(2 * i * u * v + u * u * j, 3221225472, b as int, COORD_MAX as int);
        lemma_mul_le(i * i * v + 2 * i * u * j, 3221225472, c as int, COORD_MAX as int);
        lemma_mul_le(i * i * j, 1073741824, d as int, COORD_MAX as int);
        lemma_mid2_bound(
            a as int,
            b as int,
            c as int,
            d as int,
            i as int,
            n as int,
            COORD_MAX as int,
        );
    }
    u * u * v * a + (2 * i * u * v + u * u * j) * b + (i * i * v + 2 * i * u * j) * c + i * i * j
        * d
}

/// Evaluates the `mid3` numerator.
pub(crate) fn eval_mid3(a: i64, b: i64, c: i64, d: i64, i: i64, n: i64) -> (r: i64)
    requires
        0 <= i < n <= 1024,
        -COORD_MAX <= a <= COORD_MAX,
        -COORD_MAX <= b <= COORD_MAX,
        -COORD_MAX <= c <= COORD_MAX,
        -COORD_MAX <= d <= COORD_MAX,
    ensures
        r == mid3(a as int, b as int, c as int, d as int, i as int, n as int),
        -(cube(n as int) * COORD_MAX) <= r <= cube(n as int) * COORD_MAX,
{
    let u: i64 = n - i;
    let j: i64 = i + 1;
    let v: i64 = n - j;
    proof {
        assert(0 <= u * v <= 1048576 && 0 <= u * v * v <= 1073741824 && 0 <= i * v <= 1048576
            && 0 <= i * v * v <= 1073741824 && 0 <= 2 * u <= 2048 && 0 <= 2 * u * j <= 2097152
            && 0 <= 2 * u * j * v <= 2147483648 && 0 <= 2 * i <= 2048 && 0 <= 2 * i * j
            <= 2097152 && 0 <= 2 * i * j * v <= 2147483648 && 0 <= u * j <= 1048576 && 0 <= u * j
            * j <= 1073741824 && 0 <= i * j <= 1048576 && 0 <= i * j * j <= 1073741824) by (
        nonlinear_arith)
            requires
                0 <= i < n <= 1024,
                u == n - i,
                j == i + 1,
                v == n - j;
        lemma_mul_le(u * v * v, 1073741824, a as int, COORD_MAX as int);
        lemma_mul_le(i * v * v + 2 * u * j * v, 3221225472, b as int, COORD_MAX as int);
        lemma_mul_le(2 * i * j * v + u * j * j, 3221225472, c as int, COORD_MAX as int);
        lemma_mul_le(i * j * j, 1073741824, d as int, COORD_MAX as int);
        lemma_mid3_bound(
            a as int,
            b as int,
            c as int,
            d as int,
            i as int,
            n as int,
            COORD_MAX as int,
        );
    }
    u * v * v * a + (i * v * v + 2 * u * j * v) * b + (2 * i * j * v + u * j * j) * c + i * j * j
        * d
}

/// Computes the rounded control point and endpoint of flattening segment
/// `i` of `n` for the cubic `p1 p2 p3 p4`.
pub(crate) fn eval_segment(p1: Vec2, p2: Vec2, p3: Vec2, p4: Vec2, i: u64, n: u64, ncube: i64) -> (r: (
    Vec2,
    Vec2,
))
    requires
        i < n <= 1024,
        ncube == cube(n as int),
        1 <= ncube <= 1073741824,
        p1.in_range(COORD_MAX),
        p2.in_range(COORD_MAX),
        p3.in_range(COORD_MAX),
        p4.in_range(COORD_MAX),
    ensures
        r.0 == seg_ctrl(p1, p2, p3, p4, i as int, n as int),
        r.1 == seg_point(p1, p2, p3, p4, i as int, n as int),
        r.0.in_range(POINT_MAX),
        r.1.in_range(COORD_MAX),
{
    let ii = i as i64;
    let nn = n as i64;
    let b1x = eval_bez3(p1.x, p2.x, p3.x, p4.x, ii, nn);
    let b1y = eval_bez3(p1.y, p2.y, p3.y, p4.y, ii, nn);
    let b2x = eval_bez3(p1.x, p2.x, p3.x, p4.x, ii + 1, nn);
    let b2y = eval_bez3(p1.y, p2.y, p3.y, p4.y, ii + 1, nn);
    let m2x = eval_mid2(p1.x, p2.x, p3.x, p4.x, ii, nn);
    let m2y = eval_mid2(p1.y, p2.y, p3.y, p4.y, ii, nn);
    let m3x = eval_mid3(p1.x, p2.x, p3.x, p4.x, ii, nn);
    let m3y = eval_mid3(p1.y, p2.y, p3.y, p4.y, ii, nn);
    proof {
        lemma_ctrl_bound(
            p1.x as int,
            p2.x as int,
            p3.x as int,
            p4.x as int,
            ii as int,
            nn as int,
            COORD_MAX as int,
        );
        lemma_ctrl_bound(
            p1.y as int,
            p2.y as int,
            p3.y as int,
            p4.y as int,
            ii as int,
            nn as int,
            COORD_MAX as int,
        );
        assert(8 * (cube(nn as int) * COORD_MAX) == (2 * COORD_MAX) * (4 * cube(nn as int))
            && cube(nn as int) * COORD_MAX == COORD_MAX * cube(nn as int)) by (nonlinear_arith);
        lemma_round_div_bound(
            (3 * m2x + 3 * m3x - b1x - b2x) as int,
            4 * ncube as int,
            2 * COORD_MAX as int,
        );
        lemma_round_div_bound(
            (3 * m2y + 3 * m3y - b1y - b2y) as int,
            4 * ncube as int,
            2 * COORD_MAX as int,
        );
        lemma_round_div_bound(b2x as int, ncube as int, COORD_MAX as int);
        lemma_round_div_bound(b2y as int, ncube as int, COORD_MAX as int);
    }
    let cx = round_div(3 * m2x + 3 * m3x - b1x - b2x, 4 * ncube);
    let cy = round_div(3 * m2y + 3 * m3y - b1y - b2y, 4 * ncube);
    let px = round_div(b2x, ncube);
    let py = round_div(b2y, ncube);
    (Vec2 { x: cx, y: cy }, Vec2 { x: px, y: py })
}

proof fn lemma_seg_count_from_props(k: int, esq: int, md: int)
    requires
        1 <= k <= SEG_CAP,
        meets_tol(SEG_CAP as int, esq, md),
    ensures
        k <= seg_count_from(k, esq, md) <= SEG_CAP,
        meets_tol(seg_count_from(k, esq, md), esq, md),
    decreases SEG_CAP - k,
{
    if k >= SEG_CAP || meets_tol(k, esq, md) {
    } else {
        lemma_seg_count_from_props(k + 1, esq, md);
    }
}

} // verus!
