//! Fixed-point arithmetic for confidence scores.
//!
//! A scaled value `v` stands for the real number `v / SCALE`.  The negative
//! exponential below is the deterministic approximation the softmax
//! confidence is defined over: the integer part multiplies out powers of
//! `1/e` and the fractional part takes an alternating five-term power series,
//! with every division rounding down.

use vstd::prelude::*;
use vstd::arithmetic::div_mod::{
    lemma_div_is_ordered,
    lemma_div_is_ordered_by_denominator,
    lemma_div_multiples_vanish,
    lemma_div_pos_is_pos,
};
use crate::SCALE;

verus! {

/// `1/e` in fixed point, rounded down.
pub const INV_E: u64 = 367_879;

/// Inputs at or beyond `EXP_CUTOFF` whole units map to zero: `e^-28` is far
/// below the smallest positive fixed-point value.
pub const EXP_CUTOFF: u64 = 28;

/// `(1/e)^q` in fixed point, each multiplication rounding down.
pub open spec fn pow_inv_e(q: nat) -> int
    decreases q,
{
    if q == 0 {
        SCALE as int
    } else {
        pow_inv_e((q - 1) as nat) * (INV_E as int) / (SCALE as int)
    }
}

/// The series part of the exponential on a fractional input `0 <= f < SCALE`.
pub open spec fn poly_exp(f: int) -> int {
    let t1 = f;
    let t2 = t1 * f / (2 * SCALE as int);
    let t3 = t2 * f / (3 * SCALE as int);
    let t4 = t3 * f / (4 * SCALE as int);
    let t5 = t4 * f / (5 * SCALE as int);
    SCALE as int - t1 + t2 - t3 + t4 - t5
}

/// `e^(-t/SCALE)` in fixed point.
pub open spec fn exp_neg_spec(t: int) -> int {
    let q = t / (SCALE as int);
    if q >= EXP_CUTOFF as int {
        0
    } else {
        pow_inv_e(q as nat) * poly_exp(t % (SCALE as int)) / (SCALE as int)
    }
}

pub proof fn lemma_pow_inv_e_bounds(q: nat)
    ensures
        0 <= pow_inv_e(q) <= SCALE as int,
    decreases q,
{
    if q > 0 {
        lemma_pow_inv_e_bounds((q - 1) as nat);
        let prev = pow_inv_e((q - 1) as nat);
        assert(prev * (INV_E as int) <= prev * (SCALE as int)) by (nonlinear_arith)
            requires
                0 <= prev,
                INV_E as int <= SCALE as int,
        ;
        lemma_div_is_ordered(prev * (INV_E as int), prev * (SCALE as int), SCALE as int);
        lemma_div_multiples_vanish(prev, SCALE as int);
        assert(prev * (INV_E as int) >= 0) by (nonlinear_arith)
            requires
                0 <= prev,
        ;
        lemma_div_pos_is_pos(prev * (INV_E as int), SCALE as int);
    }
}

/// Each series term is at most the one before it, so the alternating sum
/// stays within `[0, SCALE]`.
pub proof fn lemma_poly_exp_bounds(f: int)
    requires
        0 <= f < SCALE as int,
    ensures
        0 <= poly_exp(f) <= SCALE as int,
        f == 0 ==> poly_exp(f) == SCALE as int,
{
    let s = SCALE as int;
    let t1 = f;
    let t2 = t1 * f / (2 * s);
    let t3 = t2 * f / (3 * s);
    let t4 = t3 * f / (4 * s);
    let t5 = t4 * f / (5 * s);
    lemma_term_step(t1, f, 2);
    lemma_term_step(t2, f, 3);
    lemma_term_step(t3, f, 4);
    lemma_term_step(t4, f, 5);
}

/// The product feeding one series step stays within fixed-point range.
proof fn lemma_term_product_bound(t: int, f: int)
    requires
        0 <= t <= SCALE as int,
        0 <= f <= SCALE as int,
    ensures
        0 <= t * f <= (SCALE as int) * (SCALE as int),
{
    assert(0 <= t * f <= (SCALE as int) * (SCALE as int)) by (nonlinear_arith)
        requires
            0 <= t <= SCALE as int,
            0 <= f <= SCALE as int,
    ;
}

/// One series step: `0 <= t*f/(k*SCALE) <= t` for `0 <= f < SCALE`.
proof fn lemma_term_step(t: int, f: int, k: int)
    requires
        0 <= t,
        0 <= f < SCALE as int,
        1 <= k,
    ensures
        0 <= t * f / (k * SCALE as int) <= t,
{
    let s = SCALE as int;
    assert(t * f <= t * (k * s)) by (nonlinear_arith)
        requires
            0 <= t,
            0 <= f < s,
            1 <= k,
    ;
    assert(0 <= t * f) by (nonlinear_arith)
        requires
            0 <= t,
            0 <= f,
    ;
    assert(k * s >= s > 0) by (nonlinear_arith)
        requires
            1 <= k,
            s == SCALE as int,
    ;
    lemma_div_is_ordered(t * f, t * (k * s), k * s);
    lemma_div_multiples_vanish(t, k * s);
    lemma_div_pos_is_pos(t * f, k * s);
}

pub proof fn lemma_exp_neg_bounds(t: int)
    requires
        t >= 0,
    ensures
        0 <= exp_neg_spec(t) <= SCALE as int,
        t == 0 ==> exp_neg_spec(t) == SCALE as int,
{
    let s = SCALE as int;
    let q = t / s;
    lemma_div_pos_is_pos(t, s);
    if q < EXP_CUTOFF as int {
        let f = t % s;
        lemma_pow_inv_e_bounds(q as nat);
        lemma_poly_exp_bounds(f);
        let p = pow_inv_e(q as nat);
        let y = poly_exp(f);
        assert(p * y <= s * s) by (nonlinear_arith)
            requires
                0 <= p <= s,
                0 <= y <= s,
        ;
        assert(0 <= p * y) by (nonlinear_arith)
            requires
                0 <= p,
                0 <= y,
        ;
        lemma_div_is_ordered(p * y, s * s, s);
        lemma_div_multiples_vanish(s, s);
        lemma_div_pos_is_pos(p * y, s);
        if t == 0 {
            assert(q == 0 && f == 0);
            assert(p == s && y == s);
            lemma_div_multiples_vanish(s, s);
        }
    }
}

/// `e^(-t/SCALE)` in fixed point.
pub fn exp_neg(t: u64) -> (r: u64)
    ensures
        r == exp_neg_spec(t as int),
        r <= SCALE,
{
    proof {
        lemma_exp_neg_bounds(t as int);
    }
    let q = t / SCALE;
    if q >= EXP_CUTOFF {
        return 0;
    }
    let f = t % SCALE;
    let mut acc: u64 = SCALE;
    let mut j: u64 = 0;
    while j < q
        invariant
            j <= q < EXP_CUTOFF,
            acc == pow_inv_e(j as nat),
            0 <= acc <= SCALE,
        decreases q - j,
    {
        proof {
            lemma_pow_inv_e_bounds((j + 1) as nat);
        }
        acc = acc * INV_E / SCALE;
        j = j + 1;
    }
    let t1 = f;
    proof {
        lemma_term_product_bound(t1 as int, f as int);
        lemma_term_step(t1 as int, f as int, 2);
    }
    let t2 = t1 * f / (2 * SCALE);
    proof {
        lemma_term_product_bound(t2 as int, f as int);
        lemma_term_step(t2 as int, f as int, 3);
    }
    let t3 = t2 * f / (3 * SCALE);
    proof {
        lemma_term_product_bound(t3 as int, f as int);
        lemma_term_step(t3 as int, f as int, 4);
    }
    let t4 = t3 * f / (4 * SCALE);
    proof {
        lemma_term_product_bound(t4 as int, f as int);
        lemma_term_step(t4 as int, f as int, 5);
    }
    let t5 = t4 * f / (5 * SCALE);
    let p = SCALE - t1 + t2 - t3 + t4 - t5;
    acc * p / SCALE
}

} // verus!
