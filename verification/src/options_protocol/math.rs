//! Deterministic fixed-point Black-Scholes math.
//!
//! Every value carries seven decimals (`SCALE`). Each operation is stated
//! exactly: the spec functions below describe, step by step over
//! mathematical integers, the value the executable code returns, including
//! which error it reports.
use vstd::prelude::*;
use vstd::arithmetic::power2::{pow2, lemma_pow2_unfold, lemma_pow2_strictly_increases, lemma2_to64};

use crate::fixed::{fits_i128, tdiv, abs, div_trunc};
use super::types::{Error, Greeks, GreeksInput, OptionKind};

verus! {

pub const SCALE: i128 = 10_000_000;
pub const SECONDS_PER_YEAR: i128 = 31_557_600;
pub const LN_2: i128 = 6_931_472;
pub const INV_SQRT_2_PI: i128 = 3_989_423;
pub const MAX_EXP_INPUT: i128 = 200_000_000;

// ── Exact descriptions ──────────────────────────────────────────────────────

/// `x` as an `i128`, or an overflow error when it does not fit.
pub open spec fn checked(x: int) -> Result<i128, Error> {
    if fits_i128(x) { Ok(x as i128) } else { Err(Error::MathOverflow) }
}

/// Fixed-point product: `a * b / SCALE`, rounding toward zero.
pub open spec fn spec_mul(a: int, b: int) -> Result<i128, Error> {
    if fits_i128(a * b) { Ok(tdiv(a * b, SCALE as int) as i128) } else { Err(Error::MathOverflow) }
}

/// Fixed-point quotient: `a * SCALE / b`, rounding toward zero.
pub open spec fn spec_div(a: int, b: int) -> Result<i128, Error> {
    if b == 0 || !fits_i128(a * SCALE) {
        Err(Error::MathOverflow)
    } else {
        checked(tdiv(a * SCALE, b))
    }
}

/// `r` is the integer square root of `v`.
pub open spec fn is_floor_sqrt(v: int, r: int) -> bool {
    0 <= r && r * r <= v && v < (r + 1) * (r + 1)
}

/// The integer square root of a non-negative `v`.
pub open spec fn floor_sqrt(v: int) -> int {
    choose|r: int| is_floor_sqrt(v, r)
}

pub open spec fn spec_integer_sqrt(v: int) -> Result<i128, Error> {
    if v < 0 { Err(Error::MathOverflow) } else { Ok(floor_sqrt(v) as i128) }
}

/// Fixed-point square root: the integer square root of `v * SCALE`.
pub open spec fn spec_sqrt(v: int) -> Result<i128, Error> {
    if fits_i128(v * SCALE) { spec_integer_sqrt(v * SCALE) } else { Err(Error::MathOverflow) }
}

/// Halve `v` while it is at least 2.0, counting the halvings.
pub open spec fn ln_reduce_down(v: int, e: int) -> (int, int)
    decreases v,
{
    if v >= 2 * SCALE { ln_reduce_down(v / 2, e + 1) } else { (v, e) }
}

/// Double a positive `v` while it is below 1.0, counting the doublings.
pub open spec fn ln_reduce_up(v: int, e: int) -> (int, int)
    decreases (if v < SCALE { SCALE - v } else { 0 }),
{
    if 0 < v < SCALE { ln_reduce_up(2 * v, e - 1) } else { (v, e) }
}

/// The atanh series `sum + t_k / (2k + 3) + ...` for the six odd
/// denominators 3 to 13, each term the previous one times `z2`.
pub open spec fn ln_series(term: int, z2: int, sum: int, k: int) -> Result<i128, Error>
    decreases 6 - k,
{
    if k >= 6 || k < 0 {
        checked(sum)
    } else {
        match spec_mul(term, z2) {
            Err(e) => Err(e),
            Ok(t) => match checked(sum + tdiv(t as int, 2 * k + 3)) {
                Err(e) => Err(e),
                Ok(s) => ln_series(t as int, z2, s as int, k + 1),
            },
        }
    }
}

/// Natural logarithm: range reduction to [1, 2), then an atanh series.
pub open spec fn spec_ln(v: int) -> Result<i128, Error> {
    if v <= 0 {
        Err(Error::MathOverflow)
    } else {
        let (m, e) = ln_reduce_up(ln_reduce_down(v, 0).0, ln_reduce_down(v, 0).1);
        match spec_div(m - SCALE, m + SCALE) {
            Err(err) => Err(err),
            Ok(z) => match spec_mul(z as int, z as int) {
                Err(err) => Err(err),
                Ok(z2) => match ln_series(z as int, z2 as int, z as int, 0) {
                    Err(err) => Err(err),
                    Ok(sum) => match checked(2 * sum) {
                        Err(err) => Err(err),
                        Ok(s2) => checked(s2 + e * LN_2),
                    },
                },
            },
        }
    }
}

/// The Taylor series of e^r from the `n`-th term through the twentieth.
pub open spec fn exp_series(term: int, sum: int, r: int, n: int) -> Result<i128, Error>
    decreases 21 - n,
{
    if n > 20 || n < 1 {
        checked(sum)
    } else {
        match spec_mul(term, r) {
            Err(e) => Err(e),
            Ok(p) => {
                let t = tdiv(p as int, n);
                match checked(sum + t) {
                    Err(e) => Err(e),
                    Ok(s) => exp_series(t, s as int, r, n + 1),
                }
            },
        }
    }
}

/// Exponential: reduce by multiples of ln 2, sum the series, then scale by
/// the matching power of two.
pub open spec fn spec_exp(v: int) -> Result<i128, Error> {
    if v < -MAX_EXP_INPUT || v > MAX_EXP_INPUT {
        Err(Error::MathOverflow)
    } else {
        let e = tdiv(v, LN_2 as int);
        let reduced = v - e * LN_2;
        match exp_series(SCALE as int, SCALE as int, reduced, 1) {
            Err(err) => Err(err),
            Ok(sum) => if e >= 0 {
                checked(sum * pow2(e as nat))
            } else {
                Ok(tdiv(sum as int, pow2((-e) as nat) as int) as i128)
            },
        }
    }
}

/// The standard normal density at `v`.
pub open spec fn spec_normal_pdf(v: int) -> Result<i128, Error> {
    match spec_mul(v, v) {
        Err(e) => Err(e),
        Ok(sq) => match spec_exp(tdiv(-sq, 2)) {
            Err(e) => Err(e),
            Ok(ex) => spec_mul(INV_SQRT_2_PI as int, ex as int),
        },
    }
}

/// `SCALE + t * c`, one step of the CDF polynomial.
pub open spec fn poly_step(t: int, c: int, inner: Result<i128, Error>) -> Result<i128, Error> {
    match inner {
        Err(e) => Err(e),
        Ok(i) => match checked(c + i) {
            Err(e) => Err(e),
            Ok(s) => spec_mul(t, s as int),
        },
    }
}

/// The Abramowitz-Stegun polynomial in `t`.
pub open spec fn cdf_polynomial(t: int) -> Result<i128, Error> {
    poly_step(t, 3_193_815,
        poly_step(t, -3_565_638,
            poly_step(t, 17_814_779,
                poly_step(t, -18_212_560, spec_mul(t, 13_302_744)))))
}

/// Standard normal CDF (Abramowitz-Stegun 7.1.26 approximation).
pub open spec fn spec_normal_cdf(v: int) -> Result<i128, Error> {
    let x = abs(v);
    match spec_mul(2_316_419, x) {
        Err(e) => Err(e),
        Ok(m) => match checked(SCALE + m) {
            Err(e) => Err(e),
            Ok(den) => match spec_div(SCALE as int, den as int) {
                Err(e) => Err(e),
                Ok(t) => match cdf_polynomial(t as int) {
                    Err(e) => Err(e),
                    Ok(poly) => match spec_normal_pdf(x) {
                        Err(e) => Err(e),
                        Ok(pdf) => match spec_mul(pdf as int, poly as int) {
                            Err(e) => Err(e),
                            Ok(tail) => match checked(SCALE - tail) {
                                Err(e) => Err(e),
                                Ok(positive) => if v >= 0 {
                                    Ok(positive)
                                } else {
                                    checked(SCALE - positive)
                                },
                            },
                        },
                    },
                },
            },
        },
    }
}

/// The input checks of `black_scholes`, in order.
pub open spec fn greeks_input_error(input: GreeksInput) -> Option<Error> {
    if input.spot_price <= 0 || input.strike_price <= 0 {
        Some(Error::InvalidPrice)
    } else if input.volatility <= 0 || input.volatility > 5 * SCALE {
        Some(Error::InvalidVolatility)
    } else if input.risk_free_rate == i128::MIN || abs(input.risk_free_rate as int) > 2 * SCALE {
        Some(Error::InvalidRate)
    } else if input.time_to_expiry == 0 || input.time_to_expiry > 10 * 31_557_600 {
        Some(Error::InvalidTimeToExpiry)
    } else {
        None
    }
}

/// Price and Greeks from the option-independent quantities: `time`,
/// `sqrt_time`, `d1`, `d2`, the discounted strike and the density at `d1`.
pub open spec fn spec_greeks_from(
    input: GreeksInput,
    time: int,
    sqrt_time: int,
    d1: int,
    d2: int,
    ks: int,
    pdf: int,
) -> Result<Greeks, Error> {
    let s = input.spot_price as int;
    let vol = input.volatility as int;
    let rate = input.risk_free_rate as int;
    let legs: Result<(i128, i128, i128, i128), Error> = match input.kind {
        OptionKind::Call => match (spec_normal_cdf(d1), spec_normal_cdf(d2)) {
            (Err(e), _) => Err(e),
            (Ok(_), Err(e)) => Err(e),
            (Ok(nd1), Ok(nd2)) => match (spec_mul(s, nd1 as int), spec_mul(ks, nd2 as int)) {
                (Err(e), _) => Err(e),
                (Ok(_), Err(e)) => Err(e),
                (Ok(a), Ok(b)) => match checked(a - b) {
                    Err(e) => Err(e),
                    Ok(price) => match spec_mul(rate, ks) {
                        Err(e) => Err(e),
                        Ok(rk) => match spec_mul(rk as int, nd2 as int) {
                            Err(e) => Err(e),
                            Ok(theta_leg) => match spec_mul(ks, time) {
                                Err(e) => Err(e),
                                Ok(kt) => match spec_mul(kt as int, nd2 as int) {
                                    Err(e) => Err(e),
                                    Ok(rho) => Ok((price, nd1, (-theta_leg) as i128, rho)),
                                },
                            },
                        },
                    },
                },
            },
        },
        OptionKind::Put => match (spec_normal_cdf(-d1), spec_normal_cdf(-d2)) {
            (Err(e), _) => Err(e),
            (Ok(_), Err(e)) => Err(e),
            (Ok(nmd1), Ok(nmd2)) => match (spec_mul(ks, nmd2 as int), spec_mul(s, nmd1 as int)) {
                (Err(e), _) => Err(e),
                (Ok(_), Err(e)) => Err(e),
                (Ok(a), Ok(b)) => match checked(a - b) {
                    Err(e) => Err(e),
                    Ok(price) => match spec_normal_cdf(d1) {
                        Err(e) => Err(e),
                        Ok(nd1) => match checked(nd1 - SCALE) {
                            Err(e) => Err(e),
                            Ok(delta) => match spec_mul(rate, ks) {
                                Err(e) => Err(e),
                                Ok(rk) => match spec_mul(rk as int, nmd2 as int) {
                                    Err(e) => Err(e),
                                    Ok(theta_leg) => match spec_mul(ks, time) {
                                        Err(e) => Err(e),
                                        Ok(kt) => match spec_mul(kt as int, nmd2 as int) {
                                            Err(e) => Err(e),
                                            Ok(rho) => Ok((price, delta, theta_leg, (-rho) as i128)),
                                        },
                                    },
                                },
                            },
                        },
                    },
                },
            },
        },
    };
    match legs {
        Err(e) => Err(e),
        Ok((price, delta, theta_leg, rho)) => match spec_mul(s, pdf) {
            Err(e) => Err(e),
            Ok(sp) => match spec_mul(sp as int, vol) {
                Err(e) => Err(e),
                Ok(spv) => match spec_div(spv as int, 2 * sqrt_time) {
                    Err(e) => Err(e),
                    Ok(dt) => match spec_mul(s, vol) {
                        Err(e) => Err(e),
                        Ok(sv) => match spec_mul(sv as int, sqrt_time) {
                            Err(e) => Err(e),
                            Ok(gden) => match spec_div(pdf, gden as int) {
                                Err(e) => Err(e),
                                Ok(gamma) => match spec_mul(sp as int, sqrt_time) {
                                    Err(e) => Err(e),
                                    Ok(vega) => match checked(-dt + theta_leg) {
                                        Err(e) => Err(e),
                                        Ok(theta) => Ok(Greeks {
                                            price: if price < 0 { 0 } else { price },
                                            delta,
                                            gamma,
                                            vega,
                                            theta,
                                            rho,
                                        }),
                                    },
                                },
                            },
                        },
                    },
                },
            },
        },
    }
}

/// Fractional years until expiry.
pub open spec fn spec_time(input: GreeksInput) -> int {
    tdiv(input.time_to_expiry * SCALE, SECONDS_PER_YEAR as int)
}

/// Black-Scholes price and Greeks for valid inputs, computed step by step as
/// the executable code does; the first failing step decides the error.
pub open spec fn spec_black_scholes(input: GreeksInput) -> Result<Greeks, Error> {
    match greeks_input_error(input) {
        Some(e) => Err(e),
        None => {
            let time = spec_time(input);
            let vol = input.volatility as int;
            let rate = input.risk_free_rate as int;
            match spec_sqrt(time) {
                Err(e) => Err(e),
                Ok(sqrt_time) => match spec_mul(vol, sqrt_time as int) {
                    Err(e) => Err(e),
                    Ok(sst) => match spec_mul(vol, vol) {
                        Err(e) => Err(e),
                        Ok(sig2) => match checked(rate + tdiv(sig2 as int, 2)) {
                            Err(e) => Err(e),
                            Ok(drift) => match spec_div(input.spot_price as int, input.strike_price as int) {
                                Err(e) => Err(e),
                                Ok(ratio) => match spec_ln(ratio as int) {
                                    Err(e) => Err(e),
                                    Ok(log) => match spec_mul(drift as int, time) {
                                        Err(e) => Err(e),
                                        Ok(dt) => match checked(log + dt) {
                                            Err(e) => Err(e),
                                            Ok(num) => match spec_div(num as int, sst as int) {
                                                Err(e) => Err(e),
                                                Ok(d1) => match checked(d1 - sst) {
                                                    Err(e) => Err(e),
                                                    Ok(d2) => match spec_mul(rate, time) {
                                                        Err(e) => Err(e),
                                                        Ok(rt) => match spec_exp(-rt) {
                                                            Err(e) => Err(e),
                                                            Ok(disc) => match spec_mul(input.strike_price as int, disc as int) {
                                                                Err(e) => Err(e),
                                                                Ok(ks) => match spec_normal_pdf(d1 as int) {
                                                                    Err(e) => Err(e),
                                                                    Ok(pdf) => spec_greeks_from(
                                                                        input, time, sqrt_time as int,
                                                                        d1 as int, d2 as int, ks as int, pdf as int),
                                                                },
                                                            },
                                                        },
                                                    },
                                                },
                                            },
                                        },
                                    },
                                },
                            },
                        },
                    },
                },
            }
        },
    }
}

// ── Lemmas ──────────────────────────────────────────────────────────────────

proof fn lemma_tdiv_scale_bound(p: int)
    requires
        fits_i128(p),
    ensures
        abs(tdiv(p, SCALE as int)) <= abs(p) / (SCALE as int),
        abs(tdiv(p, SCALE as int)) <= i128::MAX / SCALE,
        fits_i128(tdiv(p, SCALE as int)),
{
    if p >= 0 {
        assert(p / (SCALE as int) <= (i128::MAX as int) / (SCALE as int)) by (nonlinear_arith)
            requires 0 <= p <= i128::MAX;
    } else {
        assert((-p) / (SCALE as int) <= (i128::MAX as int + 1) / (SCALE as int)) by (nonlinear_arith)
            requires 0 < -p <= i128::MAX as int + 1;
    }
}

/// The absolute value of a quotient by a divisor of magnitude at least one.
proof fn lemma_tdiv_le(x: int, d: int)
    requires
        d != 0,
    ensures
        abs(tdiv(x, d)) <= abs(x),
{
    if x >= 0 {
        if d > 0 {
            assert(x / d <= x) by (nonlinear_arith) requires x >= 0, d > 0;
        } else {
            assert(x / (-d) <= x) by (nonlinear_arith) requires x >= 0, -d > 0;
        }
    } else {
        if d > 0 {
            assert((-x) / d <= -x) by (nonlinear_arith) requires -x > 0, d > 0;
        } else {
            assert((-x) / (-d) <= -x) by (nonlinear_arith) requires -x > 0, -d > 0;
        }
    }
}

/// A multiple of `SCALE` is never `i128::MIN`.
proof fn lemma_scaled_not_min(a: int)
    ensures
        a * SCALE != i128::MIN,
{
    if a * SCALE == i128::MIN {
        assert((a * 78125) * 128 == -170141183460469231731687303715884105728int) by (nonlinear_arith)
            requires a * 10000000 == -170141183460469231731687303715884105728int;
        assert(a * 78125 == -1329227995784915872903807060280344576int);
        assert(false) by (nonlinear_arith)
            requires a * 78125 == -1329227995784915872903807060280344576int;
    }
}

proof fn lemma_floor_sqrt_unique(v: int, r1: int, r2: int)
    requires
        is_floor_sqrt(v, r1),
        is_floor_sqrt(v, r2),
    ensures
        r1 == r2,
{
    if r1 < r2 {
        assert((r1 + 1) * (r1 + 1) <= r2 * r2) by (nonlinear_arith) requires 0 <= r1 + 1 <= r2;
    } else if r2 < r1 {
        assert((r2 + 1) * (r2 + 1) <= r1 * r1) by (nonlinear_arith) requires 0 <= r2 + 1 <= r1;
    }
}

pub proof fn lemma_floor_sqrt_is(v: int, r: int)
    requires
        is_floor_sqrt(v, r),
    ensures
        floor_sqrt(v) == r,
{
    assert(is_floor_sqrt(v, floor_sqrt(v)));
    lemma_floor_sqrt_unique(v, r, floor_sqrt(v));
}

/// One Babylonian step never falls below a root candidate `t`: if
/// `t * t <= v` then `x + v / x >= 2 * t`.
pub proof fn lemma_babylonian_step(v: int, x: int, t: int)
    requires
        v >= 0,
        x >= 1,
        t >= 0,
        t * t <= v,
    ensures
        x + v / x >= 2 * t,
{
    let q = v / x;
    assert(v < (q + 1) * x) by (nonlinear_arith) requires x >= 1, v >= 0, q == v / x;
    if x + q < 2 * t {
        assert((q + 1) * x <= (2 * t - x) * x) by (nonlinear_arith)
            requires x >= 1, q + 1 <= 2 * t - x;
        assert((2 * t - x) * x <= t * t) by (nonlinear_arith);
    }
}

/// `x + v / x` stays within `v + 1` for `1 <= x <= v`.
pub proof fn lemma_babylonian_no_overflow(v: int, x: int)
    requires
        1 <= x <= v,
    ensures
        x + v / x <= v + 1,
{
    let q = v / x;
    assert(q * x <= v) by (nonlinear_arith) requires x >= 1, v >= 0, q == v / x;
    assert(q >= 1) by (nonlinear_arith) requires 1 <= x <= v, q == v / x;
    assert((q - 1) * (x - 1) >= 0) by (nonlinear_arith) requires q >= 1, x >= 1;
    assert((q - 1) * (x - 1) == q * x - q - x + 1) by (nonlinear_arith);
}

// ── Executable functions ────────────────────────────────────────────────────

pub fn checked_add(a: i128, b: i128) -> (r: Result<i128, Error>)
    ensures
        r == checked(a + b),
{
    match a.checked_add(b) {
        Some(v) => Ok(v),
        None => Err(Error::MathOverflow),
    }
}

pub fn checked_sub(a: i128, b: i128) -> (r: Result<i128, Error>)
    ensures
        r == checked(a - b),
{
    match a.checked_sub(b) {
        Some(v) => Ok(v),
        None => Err(Error::MathOverflow),
    }
}

/// Fixed-point product `a * b / SCALE`.
pub fn mul(a: i128, b: i128) -> (r: Result<i128, Error>)
    ensures
        r == spec_mul(a as int, b as int),
        r matches Ok(v) ==> abs(v as int) <= abs(a * b) / (SCALE as int),
        r matches Ok(v) ==> abs(v as int) <= i128::MAX / SCALE,
{
    match a.checked_mul(b) {
        Some(p) => {
            proof {
                lemma_tdiv_scale_bound(p as int);
            }
            Ok(div_trunc(p, SCALE))
        },
        None => Err(Error::MathOverflow),
    }
}

/// Fixed-point quotient `a * SCALE / b`.
pub fn div(a: i128, b: i128) -> (r: Result<i128, Error>)
    ensures
        r == spec_div(a as int, b as int),
        r matches Ok(v) ==> v > i128::MIN && abs(v as int) <= abs(a * SCALE),
{
    if b == 0 {
        return Err(Error::MathOverflow);
    }
    match a.checked_mul(SCALE) {
        Some(p) => {
            proof {
                lemma_scaled_not_min(a as int);
                lemma_tdiv_le(p as int, b as int);
            }
            match p.checked_div(b) {
                Some(q) => Ok(q),
                None => Err(Error::MathOverflow),
            }
        },
        None => Err(Error::MathOverflow),
    }
}

/// Integer square root by the Babylonian method.
pub fn integer_sqrt(value: i128) -> (r: Result<i128, Error>)
    requires
        value < i128::MAX,
    ensures
        r == spec_integer_sqrt(value as int),
        r matches Ok(s) ==> is_floor_sqrt(value as int, s as int),
{
    if value < 0 {
        return Err(Error::MathOverflow);
    }
    if value < 2 {
        proof {
            assert(is_floor_sqrt(value as int, value as int)) by (nonlinear_arith)
                requires 0 <= value < 2;
            lemma_floor_sqrt_is(value as int, value as int);
        }
        return Ok(value);
    }
    let mut x: i128 = value;
    let mut y: i128 = (x + 1) / 2;
    proof {
        assert(value as int / value as int == 1) by (nonlinear_arith) requires value >= 2;
        assert((value as int) < (value as int + 1) * (value as int + 1)) by (nonlinear_arith)
            requires value >= 2;
    }
    while y < x
        invariant
            2 <= value < i128::MAX,
            1 <= x <= value,
            y == (x + value / x) / 2,
            (value as int) < (x + 1) * (x + 1),
        decreases x,
    {
        proof {
            lemma_babylonian_step(value as int, x as int, 1);
            if (y + 1) * (y + 1) <= value {
                lemma_babylonian_step(value as int, x as int, (y + 1) as int);
            }
        }
        x = y;
        proof {
            lemma_babylonian_no_overflow(value as int, x as int);
        }
        y = (x + value / x) / 2;
    }
    proof {
        let q = value / x;
        assert(q >= x);
        assert(q * x <= value) by (nonlinear_arith) requires x >= 1, value >= 0, q == value / x;
        assert(x * x <= q * x) by (nonlinear_arith) requires x >= 1, q >= x;
        lemma_floor_sqrt_is(value as int, x as int);
    }
    Ok(x)
}

/// Fixed-point square root.
pub fn sqrt(value: i128) -> (r: Result<i128, Error>)
    ensures
        r == spec_sqrt(value as int),
        r matches Ok(s) ==> is_floor_sqrt(value * SCALE, s as int),
{
    let scaled = match value.checked_mul(SCALE) {
        Some(s) => s,
        None => return Err(Error::MathOverflow),
    };
    proof {
        if scaled == i128::MAX {
            assert(false) by (nonlinear_arith)
                requires scaled == value * 10000000, scaled == 170141183460469231731687303715884105727int;
        }
    }
    integer_sqrt(scaled)
}

/// `2^k` as an `i128`.
fn pow2_i128(k: u32) -> (r: i128)
    requires
        k <= 30,
    ensures
        r == pow2(k as nat),
{
    let mut r: i128 = 1;
    let mut i: u32 = 0;
    proof {
        lemma2_to64();
    }
    while i < k
        invariant
            i <= k <= 30,
            r == pow2(i as nat),
        decreases k - i,
    {
        proof {
            lemma_pow2_unfold((i + 1) as nat);
            lemma2_to64();
            if i + 1 < 31 {
                lemma_pow2_strictly_increases((i + 1) as nat, 31);
            }
        }
        r = r * 2;
        i = i + 1;
    }
    r
}

/// Natural logarithm using range reduction and an atanh series.
pub fn ln(value: i128) -> (r: Result<i128, Error>)
    ensures
        r == spec_ln(value as int),
        r matches Ok(v) ==> -200_000_000 <= v <= 1_100_000_000,
{
    if value <= 0 {
        return Err(Error::MathOverflow);
    }
    let ghost v0 = value as int;
    let mut value = value;
    let mut exponent: i128 = 0;
    proof {
        lemma2_to64();
        assert(pow2(0) == 1);
        assert(value * pow2(0) == value) by (nonlinear_arith) requires pow2(0) == 1;
    }
    while value >= 2 * SCALE
        invariant
            1 <= value,
            0 <= exponent <= 126,
            exponent > 0 ==> value >= SCALE,
            exponent == 0 ==> value == v0,
            value * pow2(exponent as nat) <= v0,
            v0 <= i128::MAX,
            ln_reduce_down(v0, 0) == ln_reduce_down(value as int, exponent as int),
        decreases value,
    {
        proof {
            lemma_pow2_unfold((exponent + 1) as nat);
            assert((value / 2) * pow2((exponent + 1) as nat) <= value * pow2(exponent as nat))
                by (nonlinear_arith)
                requires
                    pow2((exponent + 1) as nat) == 2 * pow2(exponent as nat),
                    value >= 0;
            if exponent == 126 {
                vstd::arithmetic::power2::lemma_pow2_adds(64, 63);
                lemma2_to64();
                vstd::arithmetic::power2::lemma2_to64_rest();
                assert(pow2(127) > i128::MAX) by (nonlinear_arith)
                    requires
                        pow2(127) == pow2(64) * pow2(63),
                        pow2(64) == 0x10000000000000000,
                        pow2(63) == 0x8000000000000000;
                assert(value / 2 >= 1);
                assert((value / 2) * pow2(127) >= pow2(127)) by (nonlinear_arith)
                    requires value / 2 >= 1, pow2(127) > 0;
            }
        }
        value = value / 2;
        exponent = exponent + 1;
    }
    proof {
        assert(ln_reduce_down(value as int, exponent as int) == (value as int, exponent as int));
    }
    let ghost vd = value as int;
    let ghost ed = exponent as int;
    if value < SCALE {
        assert(exponent == 0);
        assert(pow2(0) == 1) by { lemma2_to64(); }
        assert(v0 * pow2(0) == v0) by (nonlinear_arith) requires pow2(0) == 1;
        while value < SCALE
            invariant
                1 <= v0,
                1 <= value < 2 * SCALE,
                -24 <= exponent <= 0,
                value == v0 * pow2((-exponent) as nat),
                ln_reduce_up(v0, 0) == ln_reduce_up(value as int, exponent as int),
            decreases 2 * SCALE - value,
        {
            proof {
                lemma_pow2_unfold((-exponent + 1) as nat);
                lemma2_to64();
                if exponent == -24 {
                    assert(pow2(24) == 16777216);
                    assert(v0 * pow2(24) >= pow2(24)) by (nonlinear_arith)
                        requires v0 >= 1, pow2(24) > 0;
                }
                assert(v0 * pow2((-exponent + 1) as nat) == 2 * (v0 * pow2((-exponent) as nat)))
                    by (nonlinear_arith)
                    requires pow2((-exponent + 1) as nat) == 2 * pow2((-exponent) as nat);
            }
            value = match value.checked_mul(2) {
                Some(v) => v,
                None => return Err(Error::MathOverflow),
            };
            exponent = exponent - 1;
        }
    }
    proof {
        assert(ln_reduce_up(value as int, exponent as int) == (value as int, exponent as int));
        assert(ln_reduce_down(v0, 0) == (vd, ed));
        if vd < SCALE {
            assert(vd == v0 && ed == 0);
        } else {
            assert(ln_reduce_up(vd, ed) == (vd, ed));
        }
        assert(ln_reduce_up(vd, ed) == (value as int, exponent as int));
    }
    let z = div(value - SCALE, value + SCALE)?;
    let z2 = self::mul(z, z)?;
    let mut term = z;
    let mut sum = term;
    let mut k: i128 = 0;
    proof {
        assert(0 <= z < SCALE) by {
            assert(((value - SCALE) * SCALE) / ((value + SCALE) as int) < SCALE) by (nonlinear_arith)
                requires SCALE <= value < 2 * SCALE;
        }
        assert(z2 <= z) by {
            assert((z * z) / (SCALE as int) <= z) by (nonlinear_arith) requires 0 <= z < SCALE;
        }
    }
    proof {
        assert(ln_series(z as int, z2 as int, z as int, 0) is Err
            ==> spec_ln(v0) == ln_series(z as int, z2 as int, z as int, 0));
    }
    while k < 6
        invariant
            0 <= k <= 6,
            ln_series(z as int, z2 as int, z as int, 0) is Err
                ==> spec_ln(v0) == ln_series(z as int, z2 as int, z as int, 0),
            0 <= z < SCALE,
            0 <= z2 <= z,
            0 <= term <= z,
            0 <= sum <= (k + 1) * z,
            ln_series(z as int, z2 as int, z as int, 0) == ln_series(term as int, z2 as int, sum as int, k as int),
        decreases 6 - k,
    {
        proof {
            assert((term * z2) / (SCALE as int) <= term) by (nonlinear_arith)
                requires 0 <= term, 0 <= z2 < SCALE;
            assert(0 <= term * z2) by (nonlinear_arith) requires 0 <= term, 0 <= z2;
        }
        let ghost t_old = term as int;
        let ghost s_old = sum as int;
        term = self::mul(term, z2)?;
        let q = div_trunc(term, 2 * k + 3);
        proof {
            assert(0 <= q <= term) by (nonlinear_arith)
                requires q == (term as int) / (2 * k + 3), term >= 0, k >= 0;
            assert((k + 1) * z + z == (k + 2) * z) by (nonlinear_arith);
            assert((k + 2) * z <= 8 * SCALE) by (nonlinear_arith)
                requires 0 <= k <= 5, 0 <= z < SCALE;
            assert(sum + q <= 8 * SCALE);
        }
        sum = checked_add(sum, q)?;
        proof {
            assert(ln_series(t_old, z2 as int, s_old, k as int)
                == ln_series(term as int, z2 as int, sum as int, k + 1));
        }
        k = k + 1;
    }
    proof {
        assert(ln_series(term as int, z2 as int, sum as int, 6) == checked(sum as int));
        assert(0 <= sum <= 7 * z);
        assert(-24 <= exponent <= 126);
    }
    let doubled = match sum.checked_mul(2) {
        Some(d) => d,
        None => return Err(Error::MathOverflow),
    };
    let r = checked_add(doubled, exponent * LN_2);
    proof {
        assert(spec_div(value - SCALE, value + SCALE) == Ok::<i128, Error>(z));
        assert(spec_mul(z as int, z as int) == Ok::<i128, Error>(z2));
        assert(ln_series(z as int, z2 as int, z as int, 0) == Ok::<i128, Error>(sum));
        assert(checked(2 * sum) == Ok::<i128, Error>(doubled));
        assert(r == checked(doubled + exponent * LN_2));
        assert(r == spec_ln(v0));
    }
    r
}


/// Exponential with ln(2) range reduction and a Taylor series.
pub fn exp(value: i128) -> (r: Result<i128, Error>)
    ensures
        r == spec_exp(value as int),
{
    if value < -MAX_EXP_INPUT || value > MAX_EXP_INPUT {
        return Err(Error::MathOverflow);
    }
    let exponent = div_trunc(value, LN_2);
    proof {
        if value >= 0 {
            assert((value as int) / (LN_2 as int) <= 28) by (nonlinear_arith)
                requires 0 <= value <= 200_000_000;
        } else {
            assert((-(value as int)) / (LN_2 as int) <= 28) by (nonlinear_arith)
                requires 0 < -value <= 200_000_000;
        }
    }
    let reduced = value - exponent * LN_2;
    let ghost v0 = value as int;
    let mut sum: i128 = SCALE;
    let mut term: i128 = SCALE;
    let mut n: i128 = 1;
    proof {
        assert(exp_series(SCALE as int, SCALE as int, reduced as int, 1) is Err
            ==> spec_exp(v0) == exp_series(SCALE as int, SCALE as int, reduced as int, 1));
    }
    while n <= 20
        invariant
            1 <= n <= 21,
            v0 == value as int,
            exp_series(SCALE as int, SCALE as int, reduced as int, 1)
                == exp_series(term as int, sum as int, reduced as int, n as int),
            exp_series(SCALE as int, SCALE as int, reduced as int, 1) is Err
                ==> spec_exp(v0) == exp_series(SCALE as int, SCALE as int, reduced as int, 1),
        decreases 21 - n,
    {
        let ghost t_old = term as int;
        let ghost s_old = sum as int;
        proof {
            if spec_mul(term as int, reduced as int) is Err {
                assert(exp_series(term as int, sum as int, reduced as int, n as int) is Err);
                assert(spec_exp(v0) == exp_series(term as int, sum as int, reduced as int, n as int));
            }
        }
        let p = self::mul(term, reduced)?;
        term = div_trunc(p, n);
        sum = checked_add(sum, term)?;
        proof {
            assert(exp_series(t_old, s_old, reduced as int, n as int)
                == exp_series(term as int, sum as int, reduced as int, n + 1));
        }
        n = n + 1;
    }
    proof {
        assert(exp_series(term as int, sum as int, reduced as int, 21) == Ok::<i128, Error>(sum));
        assert(-28 <= exponent <= 28);
    }
    if exponent >= 0 {
        let factor = pow2_i128(exponent as u32);
        match sum.checked_mul(factor) {
            Some(v) => Ok(v),
            None => Err(Error::MathOverflow),
        }
    } else {
        let factor = pow2_i128((-exponent) as u32);
        proof {
            vstd::arithmetic::power2::lemma_pow2_pos((-exponent) as nat);
        }
        Ok(div_trunc(sum, factor))
    }
}

/// Standard normal density.
pub fn normal_pdf(value: i128) -> (r: Result<i128, Error>)
    ensures
        r == spec_normal_pdf(value as int),
{
    let squared = self::mul(value, value)?;
    proof {
        assert(value * value >= 0) by (nonlinear_arith);
    }
    let e = exp(div_trunc(-squared, 2))?;
    self::mul(INV_SQRT_2_PI, e)
}

/// Standard normal CDF (Abramowitz-Stegun 7.1.26 approximation).
pub fn normal_cdf(value: i128) -> (r: Result<i128, Error>)
    requires
        value > i128::MIN,
    ensures
        r == spec_normal_cdf(value as int),
{
    let x = if value < 0 { -value } else { value };
    let t = div(SCALE, checked_add(SCALE, self::mul(2_316_419, x)?)?)?;
    let polynomial = self::mul(
        t,
        checked_add(
            3_193_815,
            self::mul(
                t,
                checked_add(
                    -3_565_638,
                    self::mul(
                        t,
                        checked_add(
                            17_814_779,
                            self::mul(t, checked_add(-18_212_560, self::mul(t, 13_302_744)?)?)?,
                        )?,
                    )?,
                )?,
            )?,
        )?,
    )?;
    let positive = checked_sub(SCALE, self::mul(normal_pdf(x)?, polynomial)?)?;
    if value >= 0 {
        Ok(positive)
    } else {
        checked_sub(SCALE, positive)
    }
}

/// Black-Scholes price and Greeks.
pub fn black_scholes(input: &GreeksInput) -> (r: Result<Greeks, Error>)
    ensures
        r == spec_black_scholes(*input),
{
    if input.spot_price <= 0 || input.strike_price <= 0 {
        return Err(Error::InvalidPrice);
    }
    if input.volatility <= 0 || input.volatility > 5 * SCALE {
        return Err(Error::InvalidVolatility);
    }
    if input.risk_free_rate == i128::MIN {
        return Err(Error::InvalidRate);
    }
    let abs_rate = if input.risk_free_rate < 0 { -input.risk_free_rate } else { input.risk_free_rate };
    if abs_rate > 2 * SCALE {
        return Err(Error::InvalidRate);
    }
    if input.time_to_expiry == 0 || input.time_to_expiry > 10 * 31_557_600 {
        return Err(Error::InvalidTimeToExpiry);
    }
    let vol = input.volatility;
    let rate = input.risk_free_rate;
    let spot = input.spot_price;
    let time = div_trunc((input.time_to_expiry as i128) * SCALE, SECONDS_PER_YEAR);
    proof {
        assert((input.time_to_expiry as int) * SCALE / (SECONDS_PER_YEAR as int) <= 10 * SCALE)
            by (nonlinear_arith)
            requires 0 < input.time_to_expiry <= 10 * 31_557_600;
        assert((input.time_to_expiry as int) * SCALE >= 0) by (nonlinear_arith)
            requires 0 < input.time_to_expiry;
        assert(0 <= time <= 10 * SCALE);
    }
    let sqrt_time = sqrt(time)?;
    proof {
        assert(sqrt_time * sqrt_time <= time * SCALE);
        assert(0 <= sqrt_time <= 100_000_000) by (nonlinear_arith)
            requires sqrt_time * sqrt_time <= time * SCALE, 0 <= time <= 10 * SCALE, sqrt_time >= 0;
    }
    let sigma_sqrt_time = self::mul(vol, sqrt_time)?;
    let sigma_squared = self::mul(vol, vol)?;
    proof {
        assert(0 <= vol * vol <= 25 * SCALE * SCALE) by (nonlinear_arith)
            requires 0 < vol <= 5 * SCALE;
        assert(0 <= vol * sqrt_time) by (nonlinear_arith) requires 0 < vol, 0 <= sqrt_time;
        assert(0 <= sigma_squared <= 25 * SCALE);
        assert(0 <= sigma_sqrt_time);
    }
    let drift = checked_add(rate, div_trunc(sigma_squared, 2))?;
    let ratio = div(spot, input.strike_price)?;
    let log = ln(ratio)?;
    let drift_time = self::mul(drift, time)?;
    proof {
        assert(-15 * SCALE <= drift <= 15 * SCALE);
        assert(abs(drift * time) <= 150 * SCALE * SCALE) by (nonlinear_arith)
            requires -15 * SCALE <= drift <= 15 * SCALE, 0 <= time <= 10 * SCALE;
        assert(abs(drift_time as int) <= 150 * SCALE);
    }
    let numerator = checked_add(log, drift_time)?;
    let d1 = div(numerator, sigma_sqrt_time)?;
    proof {
        assert(abs(numerator * SCALE) <= 4_000_000_000 * SCALE) by (nonlinear_arith)
            requires abs(numerator as int) <= 4_000_000_000;
        assert(abs(d1 as int) <= 40_000_000_000_000_000);
    }
    let d2 = checked_sub(d1, sigma_sqrt_time)?;
    let rt = self::mul(rate, time)?;
    let discount = exp(-rt)?;
    let discounted_strike = self::mul(input.strike_price, discount)?;
    let pdf = normal_pdf(d1)?;

    let (price, delta, theta_rate_leg, rho) = match input.kind {
        OptionKind::Call => {
            let nd1 = normal_cdf(d1)?;
            let nd2 = normal_cdf(d2)?;
            let a = self::mul(spot, nd1)?;
            let b = self::mul(discounted_strike, nd2)?;
            let price = checked_sub(a, b)?;
            let rk = self::mul(rate, discounted_strike)?;
            let theta_leg = self::mul(rk, nd2)?;
            let kt = self::mul(discounted_strike, time)?;
            let rho = self::mul(kt, nd2)?;
            (price, nd1, -theta_leg, rho)
        },
        OptionKind::Put => {
            let nmd1 = normal_cdf(-d1)?;
            let nmd2 = normal_cdf(-d2)?;
            let a = self::mul(discounted_strike, nmd2)?;
            let b = self::mul(spot, nmd1)?;
            let price = checked_sub(a, b)?;
            let nd1 = normal_cdf(d1)?;
            let delta = checked_sub(nd1, SCALE)?;
            let rk = self::mul(rate, discounted_strike)?;
            let theta_leg = self::mul(rk, nmd2)?;
            let kt = self::mul(discounted_strike, time)?;
            let rho = self::mul(kt, nmd2)?;
            (price, delta, theta_leg, -rho)
        },
    };

    let sp = self::mul(spot, pdf)?;
    let spv = self::mul(sp, vol)?;
    let diffusion_theta = -div(spv, 2 * sqrt_time)?;
    let sv = self::mul(spot, vol)?;
    let gamma_denominator = self::mul(sv, sqrt_time)?;
    let gamma = div(pdf, gamma_denominator)?;
    let vega = self::mul(self::mul(spot, pdf)?, sqrt_time)?;
    let theta = checked_add(diffusion_theta, theta_rate_leg)?;
    Ok(Greeks {
        price: if price < 0 { 0 } else { price },
        delta,
        gamma,
        vega,
        theta,
        rho,
    })
}

} // verus!
