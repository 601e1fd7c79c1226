//! Exact cubic Bezier evaluation.
//!
//! A curve parameter `t` is a scaled value in `[0, SCALE]`.  The Bernstein
//! form of a cubic coordinate,
//! `B(t) = u^3 a0 + 3 u^2 t a1 + 3 u t^2 a2 + t^3 a3` with `u = SCALE - t`,
//! is computed exactly as an integer numerator and then divided by
//! `SCALE^3`, truncating toward zero.  The result is the sampled coordinate
//! in scaled units.

use vstd::arithmetic::div_mod::{lemma_div_is_ordered, lemma_div_multiples_vanish};
use vstd::prelude::*;

use crate::fixed::{in_work_range, SCALE};

verus! {

/// `SCALE` cubed: the denominator of an unreduced Bernstein sum.
pub const SCALE3: i64 = 1_000_000_000_000_000_000;

/// Integer division truncating toward zero (`d > 0` assumed by callers).
pub open spec fn div_trunc(n: int, d: int) -> int {
    if n >= 0 {
        n / d
    } else {
        -((-n) / d)
    }
}

/// The exact Bernstein numerator of one cubic coordinate at parameter `t`.
pub open spec fn bez_num(t: int, a0: int, a1: int, a2: int, a3: int) -> int {
    let u = SCALE as int - t;
    u * u * u * a0 + 3 * u * u * t * a1 + 3 * u * t * t * a2 + t * t * t * a3
}

/// The sampled coordinate: the numerator reduced to scaled units.
pub open spec fn bez_coord(t: int, a0: int, a1: int, a2: int, a3: int) -> int {
    div_trunc(bez_num(t, a0, a1, a2, a3), SCALE3 as int)
}

/// The Bernstein coefficients at any `t` in range are nonnegative and sum
/// to `SCALE^3`, so the numerator of a coordinate whose control values are
/// in the working range is bounded by `SCALE^3` times that range.
pub proof fn lemma_bez_num_bound(t: int, a0: int, a1: int, a2: int, a3: int)
    requires
        0 <= t <= SCALE as int,
        in_work_range(a0),
        in_work_range(a1),
        in_work_range(a2),
        in_work_range(a3),
    ensures
        -1_200_000_000_000_000_000_000_000_000_000_000_000 <= bez_num(t, a0, a1, a2, a3)
            <= 1_200_000_000_000_000_000_000_000_000_000_000_000,
{
    let u = SCALE as int - t;
    let c0 = u * u * u;
    let c1 = 3 * u * u * t;
    let c2 = 3 * u * t * t;
    let c3 = t * t * t;
    let m: int = 1_200_000_000_000_000_000;
    assert(c0 >= 0 && c1 >= 0 && c2 >= 0 && c3 >= 0) by (nonlinear_arith)
        requires
            u >= 0,
            t >= 0,
            c0 == u * u * u,
            c1 == 3 * u * u * t,
            c2 == 3 * u * t * t,
            c3 == t * t * t,
    ;
    assert(c0 + c1 + c2 + c3 == 1_000_000_000_000_000_000) by (nonlinear_arith)
        requires
            c0 == u * u * u,
            c1 == 3 * u * u * t,
            c2 == 3 * u * t * t,
            c3 == t * t * t,
            u + t == 1_000_000,
    ;
    assert(-(c0 * m) <= c0 * a0 <= c0 * m) by (nonlinear_arith)
        requires
            c0 >= 0,
            -m <= a0 <= m,
    ;
    assert(-(c1 * m) <= c1 * a1 <= c1 * m) by (nonlinear_arith)
        requires
            c1 >= 0,
            -m <= a1 <= m,
    ;
    assert(-(c2 * m) <= c2 * a2 <= c2 * m) by (nonlinear_arith)
        requires
            c2 >= 0,
            -m <= a2 <= m,
    ;
    assert(-(c3 * m) <= c3 * a3 <= c3 * m) by (nonlinear_arith)
        requires
            c3 >= 0,
            -m <= a3 <= m,
    ;
    assert(c0 * m + c1 * m + c2 * m + c3 * m == 1_200_000_000_000_000_000_000_000_000_000_000_000)
        by (nonlinear_arith)
        requires
            c0 + c1 + c2 + c3 == 1_000_000_000_000_000_000,
            m == 1_200_000_000_000_000_000,
    ;
    assert(bez_num(t, a0, a1, a2, a3) == c0 * a0 + c1 * a1 + c2 * a2 + c3 * a3);
}

/// Truncating division of a bounded numerator by `SCALE^3`.
fn div_num_trunc(num: i128) -> (r: i64)
    requires
        -1_200_000_000_000_000_000_000_000_000_000_000_000 <= num as int
            <= 1_200_000_000_000_000_000_000_000_000_000_000_000,
    ensures
        r as int == div_trunc(num as int, SCALE3 as int),
        in_work_range(r as int),
{
    let neg = num < 0;
    let mag: u128 = if neg {
        (-num) as u128
    } else {
        num as u128
    };
    assert(mag as int == if num as int >= 0 {
        num as int
    } else {
        -(num as int)
    });
    let q: u128 = mag / (SCALE3 as u128);
    proof {
        lemma_div_is_ordered(
            mag as int,
            1_200_000_000_000_000_000_000_000_000_000_000_000,
            SCALE3 as int,
        );
        lemma_div_multiples_vanish(1_200_000_000_000_000_000, SCALE3 as int);
        assert(q as int <= 1_200_000_000_000_000_000);
    }
    if neg {
        -(q as i64)
    } else {
        q as i64
    }
}

/// One scalar Bernstein evaluation over `i128`, exact until the final
/// truncating reduction.
pub fn eval_coord(t: i64, a0: i64, a1: i64, a2: i64, a3: i64) -> (r: i64)
    requires
        0 <= t as int <= SCALE as int,
        in_work_range(a0 as int),
        in_work_range(a1 as int),
        in_work_range(a2 as int),
        in_work_range(a3 as int),
    ensures
        r as int == bez_coord(t as int, a0 as int, a1 as int, a2 as int, a3 as int),
        in_work_range(r as int),
{
    let u: i64 = SCALE - t;
    let ti: i128 = t as i128;
    let ui: i128 = u as i128;
    proof {
        assert(0 <= ui * ui <= 1_000_000_000_000 && 0 <= ti * ti <= 1_000_000_000_000)
            by (nonlinear_arith)
            requires
                0 <= ui <= 1_000_000,
                0 <= ti <= 1_000_000,
        ;
    }
    let uu: i128 = ui * ui;
    let tt: i128 = ti * ti;
    proof {
        assert(0 <= uu * ui <= 1_000_000_000_000_000_000 && 0 <= tt * ti
            <= 1_000_000_000_000_000_000 && 0 <= uu * ti <= 1_000_000_000_000_000_000 && 0 <= ui
            * tt <= 1_000_000_000_000_000_000) by (nonlinear_arith)
            requires
                0 <= ui <= 1_000_000,
                0 <= ti <= 1_000_000,
                uu == ui * ui,
                tt == ti * ti,
        ;
    }
    let uuu: i128 = uu * ui;
    let ttt: i128 = tt * ti;
    let uut: i128 = uu * ti;
    let utt: i128 = ui * tt;
    proof {
        assert(-1_200_000_000_000_000_000_000_000_000_000_000_000 <= uuu as int * a0 as int
            <= 1_200_000_000_000_000_000_000_000_000_000_000_000) by (nonlinear_arith)
            requires
                0 <= uuu as int <= 1_000_000_000_000_000_000,
                -1_200_000_000_000_000_000 <= a0 as int <= 1_200_000_000_000_000_000,
        ;
        assert(-1_200_000_000_000_000_000_000_000_000_000_000_000 <= uut as int * a1 as int
            <= 1_200_000_000_000_000_000_000_000_000_000_000_000) by (nonlinear_arith)
            requires
                0 <= uut as int <= 1_000_000_000_000_000_000,
                -1_200_000_000_000_000_000 <= a1 as int <= 1_200_000_000_000_000_000,
        ;
        assert(-1_200_000_000_000_000_000_000_000_000_000_000_000 <= utt as int * a2 as int
            <= 1_200_000_000_000_000_000_000_000_000_000_000_000) by (nonlinear_arith)
            requires
                0 <= utt as int <= 1_000_000_000_000_000_000,
                -1_200_000_000_000_000_000 <= a2 as int <= 1_200_000_000_000_000_000,
        ;
        assert(-1_200_000_000_000_000_000_000_000_000_000_000_000 <= ttt as int * a3 as int
            <= 1_200_000_000_000_000_000_000_000_000_000_000_000) by (nonlinear_arith)
            requires
                0 <= ttt as int <= 1_000_000_000_000_000_000,
                -1_200_000_000_000_000_000 <= a3 as int <= 1_200_000_000_000_000_000,
        ;
    }
    let n0: i128 = uuu * (a0 as i128);
    let n1: i128 = uut * (a1 as i128);
    let n2: i128 = utt * (a2 as i128);
    let n3: i128 = ttt * (a3 as i128);
    let num: i128 = n0 + 3 * n1 + 3 * n2 + n3;
    proof {
        lemma_bez_num_bound(t as int, a0 as int, a1 as int, a2 as int, a3 as int);
        assert(num as int == bez_num(t as int, a0 as int, a1 as int, a2 as int, a3 as int))
            by (nonlinear_arith)
            requires
                num as int == n0 as int + 3 * n1 as int + 3 * n2 as int + n3 as int,
                n0 as int == uuu as int * a0 as int,
                n1 as int == uut as int * a1 as int,
                n2 as int == utt as int * a2 as int,
                n3 as int == ttt as int * a3 as int,
                uuu as int == uu as int * ui as int,
                uut as int == uu as int * ti as int,
                utt as int == ui as int * tt as int,
                ttt as int == tt as int * ti as int,
                uu as int == ui as int * ui as int,
                tt as int == ti as int * ti as int,
                ui as int == SCALE as int - t as int,
                ti as int == t as int,
        ;
    }
    div_num_trunc(num)
}

} // verus!
