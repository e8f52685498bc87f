//! Quotients rounded to the nearest integer, halves upward.
//!
//! For a real `x >= 0`, the nearest integer with halves upward is
//! `floor((floor(2 * x) + 1) / 2)`. Both functions here have this shape, so
//! that they stay within whole numbers.

use crate::wide::{floor_sqrt, hypot_floor, lemma_floor_sqrt};
use vstd::arithmetic::div_mod::{lemma_fundamental_div_mod, lemma_fundamental_div_mod_converse};
use vstd::prelude::*;

verus! {

/// `numer / denom` rounded to the nearest integer; a quotient that lies
/// halfway between two integers goes to the larger one.
pub open spec fn rounded_quotient(numer: nat, denom: nat) -> nat
    recommends
        denom > 0,
{
    ((2 * numer) / denom + 1) / 2
}

/// The square root of `radicand`, divided by `denom`, rounded to the nearest
/// integer; a value that lies halfway between two integers goes to the
/// larger one.
pub open spec fn rounded_root_quotient(radicand: nat, denom: nat) -> nat
    recommends
        denom > 0,
{
    (floor_sqrt(4 * radicand) / denom + 1) / 2
}

/// The rounded quotient `q` is the one integer with
/// `q - 1/2 <= numer / denom < q + 1/2`.
pub proof fn lemma_rounded_quotient_nearest(numer: nat, denom: nat)
    requires
        denom > 0,
    ensures
        (2 * rounded_quotient(numer, denom) - 1) * denom <= 2 * numer,
        2 * numer < (2 * rounded_quotient(numer, denom) + 1) * denom,
{
    let q = rounded_quotient(numer, denom) as int;
    let d = denom as int;
    let t = (2 * numer) as int / d;
    lemma_quotient_bounds((2 * numer) as int, d);
    assert((2 * q - 1) * d <= t * d) by (nonlinear_arith)
        requires
            2 * q - 1 <= t,
            d > 0,
    ;
    assert(t * d + d <= (2 * q + 1) * d) by (nonlinear_arith)
        requires
            t + 1 <= 2 * q + 1,
            d > 0,
    ;
}

/// The rounded root quotient `q` is the one integer with
/// `q - 1/2 <= sqrt(radicand) / denom < q + 1/2`, stated over squares.
pub proof fn lemma_rounded_root_quotient_nearest(radicand: nat, denom: nat)
    requires
        denom > 0,
    ensures
        ({
            let q = rounded_root_quotient(radicand, denom);
            &&& q >= 1 ==> ((2 * q - 1) * denom) * ((2 * q - 1) * denom) <= 4 * radicand
            &&& 4 * radicand < ((2 * q + 1) * denom) * ((2 * q + 1) * denom)
        }),
{
    let q = rounded_root_quotient(radicand, denom) as int;
    let z = floor_sqrt(4 * radicand) as int;
    let d = denom as int;
    let t = z / d;
    lemma_floor_sqrt(4 * radicand);
    lemma_quotient_bounds(z, d);
    let below = (2 * q - 1) * d;
    let above = (2 * q + 1) * d;
    assert(below <= t * d) by (nonlinear_arith)
        requires
            below == (2 * q - 1) * d,
            2 * q - 1 <= t,
            d > 0,
    ;
    assert(t * d + d <= above) by (nonlinear_arith)
        requires
            above == (2 * q + 1) * d,
            t + 1 <= 2 * q + 1,
            d > 0,
    ;
    if q >= 1 {
        assert(below * below <= z * z) by (nonlinear_arith)
            requires
                0 <= below <= z,
        ;
    }
    assert((z + 1) * (z + 1) <= above * above) by (nonlinear_arith)
        requires
            0 <= z + 1 <= above,
    ;
}

/// Only the rounded quotient lies within a half of `numer / denom`, the
/// lower half included: a `q` with `q - 1/2 <= numer / denom < q + 1/2` is
/// the rounded quotient.
pub proof fn lemma_rounded_quotient_unique(numer: nat, denom: nat, q: nat)
    requires
        denom > 0,
        (2 * q - 1) * denom <= 2 * numer,
        2 * numer < (2 * q + 1) * denom,
    ensures
        q == rounded_quotient(numer, denom),
{
    let d = denom as int;
    let t = (2 * numer) as int / d;
    lemma_quotient_bounds((2 * numer) as int, d);
    lemma_between_doubles(t, d, (2 * numer) as int, q as int);
}

/// Only the rounded root quotient lies within a half of
/// `sqrt(radicand) / denom`, the lower half included.
pub proof fn lemma_rounded_root_quotient_unique(radicand: nat, denom: nat, q: nat)
    requires
        denom > 0,
        q >= 1 ==> ((2 * q - 1) * denom) * ((2 * q - 1) * denom) <= 4 * radicand,
        4 * radicand < ((2 * q + 1) * denom) * ((2 * q + 1) * denom),
    ensures
        q == rounded_root_quotient(radicand, denom),
{
    let z = floor_sqrt(4 * radicand) as int;
    let d = denom as int;
    let t = z / d;
    lemma_floor_sqrt(4 * radicand);
    lemma_quotient_bounds(z, d);
    let below = (2 * q - 1) * d;
    let above = (2 * q + 1) * d;
    assert(above > 0) by (nonlinear_arith)
        requires
            above == (2 * q + 1) * d,
            q >= 0,
            d > 0,
    ;
    if q >= 1 {
        if below > z {
            assert((z + 1) * (z + 1) <= below * below) by (nonlinear_arith)
                requires
                    0 <= z + 1 <= below,
            ;
        }
    } else {
        assert(below <= 0) by (nonlinear_arith)
            requires
                below == (2 * q - 1) * d,
                q == 0,
                d > 0,
        ;
    }
    if above <= z {
        assert(above * above <= z * z) by (nonlinear_arith)
            requires
                0 <= above <= z,
        ;
    }
    lemma_between_doubles(t, d, z, q as int);
}

/// Where `n` lies between the odd multiples `2 * q - 1` and `2 * q + 1` of
/// `d`, the quotient `t` of `n` by `d` is `2 * q - 1` or `2 * q`.
proof fn lemma_between_doubles(t: int, d: int, n: int, q: int)
    requires
        d > 0,
        t * d <= n < t * d + d,
        (2 * q - 1) * d <= n < (2 * q + 1) * d,
    ensures
        (t + 1) / 2 == q,
{
    if t < 2 * q - 1 {
        assert(t * d + d <= (2 * q - 1) * d) by (nonlinear_arith)
            requires
                t + 1 <= 2 * q - 1,
                d > 0,
        ;
    }
    if t > 2 * q {
        assert((2 * q + 1) * d <= t * d) by (nonlinear_arith)
            requires
                2 * q + 1 <= t,
                d > 0,
        ;
    }
}

/// A quotient times its divisor brackets the dividend.
proof fn lemma_quotient_bounds(n: int, d: int)
    requires
        n >= 0,
        d > 0,
    ensures
        (n / d) * d <= n < (n / d) * d + d,
{
    lemma_fundamental_div_mod(n, d);
    vstd::arithmetic::div_mod::lemma_mod_bound(n, d);
    assert(d * (n / d) == (n / d) * d) by (nonlinear_arith);
}

/// The only number between whose multiple of `d` and the next `n` lies is
/// `n / d`.
proof fn lemma_quotient_unique(n: int, d: int, q: int)
    requires
        d > 0,
        q * d <= n < q * d + d,
    ensures
        q == n / d,
{
    lemma_fundamental_div_mod_converse(n, d, q, n - q * d);
}

/// `numer / denom`, rounded to the nearest integer, halves upward.
pub fn round_div(numer: u128, denom: u128) -> (q: u128)
    requires
        denom > 0,
    ensures
        q == rounded_quotient(numer as nat, denom as nat),
{
    let whole: u128 = numer / denom;
    let rest: u128 = numer % denom;
    let up: bool = rest >= denom - rest;
    proof {
        let n = numer as int;
        let d = denom as int;
        let w = whole as int;
        lemma_fundamental_div_mod(n, d);
        assert(d * w == w * d) by (nonlinear_arith);
        let t = if up { 2 * w + 1 } else { 2 * w };
        assert(t * d == 2 * (w * d) + (if up { d } else { 0 })) by (nonlinear_arith)
            requires
                t == (if up { 2 * w + 1 } else { 2 * w }),
        ;
        lemma_quotient_unique(2 * n, d, t);
        if up {
            assert(w < n) by (nonlinear_arith)
                requires
                    w * d + rest == n,
                    rest >= 1,
                    d >= 1,
                    w >= 0,
            ;
        }
    }
    if up {
        whole + 1
    } else {
        whole
    }
}

/// The square root of `a * a + b * b`, divided by `denom`, rounded to the
/// nearest integer, halves upward.
pub fn round_hypot_div(a: u128, b: u128, denom: u128) -> (q: u128)
    requires
        denom > 0,
        2 * a + 2 * b < u128::MAX,
    ensures
        q == rounded_root_quotient((a as nat) * (a as nat) + (b as nat) * (b as nat), denom as nat),
{
    let root: u128 = hypot_floor(2 * a, 2 * b);
    proof {
        let n = (a as nat) * (a as nat) + (b as nat) * (b as nat);
        let m = ((2 * a) as nat) * ((2 * a) as nat) + ((2 * b) as nat) * ((2 * b) as nat);
        assert(m == 4 * n) by (nonlinear_arith)
            requires
                n == a * a + b * b,
                m == (2 * a) * (2 * a) + (2 * b) * (2 * b),
        ;
        lemma_floor_sqrt(m);
        assert(root <= 2 * a + 2 * b) by (nonlinear_arith)
            requires
                root * root <= m,
                m == (2 * a) * (2 * a) + (2 * b) * (2 * b),
                root >= 0,
                a >= 0,
                b >= 0,
        ;
    }
    (root / denom + 1) / 2
}

} // verus!
