//! Automated market maker: a constant-product pool (x * y = k) with LP
//! shares, a configurable swap fee, an opt-in volatility/utilization-adjusted
//! fee, slippage protection, a TWAP accumulator updated on every swap and a
//! minimum liquidity of 1000 units locked forever.
//!
//! Accounts and tokens are numbers; the host verifies signatures, moves the
//! tokens a successful call implies and passes the ledger time as `now`.
pub mod types;

use std::collections::HashMap;
use vstd::prelude::*;

pub use self::types::{CollectionStats, DynamicFeeConfig, Error, SwapQuote, VolatilityState};
use crate::fixed::{cadd, csub, cmul, cdiv, tdiv, fits_i128, div_checked, div_trunc, sat_mul, sat_add, clamp_i128, min_i128};
use crate::options_protocol::math::{is_floor_sqrt, lemma_babylonian_step, lemma_babylonian_no_overflow};

verus! {

broadcast use vstd::std_specs::hash::group_hash_axioms;

/// Minimum liquidity permanently locked on first deposit.
pub const MIN_LIQUIDITY: i128 = 1_000;
/// Precision multiplier for TWAP accumulators.
pub const TWAP_PRECISION: i128 = 1_000_000;
/// Precision used for direction-independent spot-price observations.
pub const PRICE_PRECISION: i128 = 10_000_000;
pub const BPS: i128 = 10_000;

/// The abstract contents of the pool's storage.
pub struct AmmView {
    pub admin: Option<u64>,
    pub token_a: u64,
    pub token_b: u64,
    pub reserve_a: i128,
    pub reserve_b: i128,
    pub total_lp: i128,
    pub price_a_cum: i128,
    pub price_b_cum: i128,
    pub last_ts: u64,
    pub fee_bps: i128,
    pub nft_collection: Option<u64>,
    pub total_volume: i128,
    pub total_fees: i128,
    pub dynamic_fee_config: Option<DynamicFeeConfig>,
    pub volatility_state: VolatilityState,
    pub lp: Map<u64, i128>,
    pub floor_price: i128,
    pub collection_stats: Option<CollectionStats>,
}

/// The pool's storage. `token_a` and `token_b` are meaningful once `admin`
/// is set.
pub struct AmmPool {
    pub admin: Option<u64>,
    pub token_a: u64,
    pub token_b: u64,
    pub reserve_a: i128,
    pub reserve_b: i128,
    pub total_lp: i128,
    pub price_a_cum: i128,
    pub price_b_cum: i128,
    pub last_ts: u64,
    pub fee_bps: i128,
    pub nft_collection: Option<u64>,
    pub total_volume: i128,
    pub total_fees: i128,
    pub dynamic_fee_config: Option<DynamicFeeConfig>,
    pub volatility_state: VolatilityState,
    pub lp: HashMap<u64, i128>,
    pub floor_price: i128,
    pub collection_stats: Option<CollectionStats>,
}

impl View for AmmPool {
    type V = AmmView;

    open spec fn view(&self) -> AmmView {
        AmmView {
            admin: self.admin,
            token_a: self.token_a,
            token_b: self.token_b,
            reserve_a: self.reserve_a,
            reserve_b: self.reserve_b,
            total_lp: self.total_lp,
            price_a_cum: self.price_a_cum,
            price_b_cum: self.price_b_cum,
            last_ts: self.last_ts,
            fee_bps: self.fee_bps,
            nft_collection: self.nft_collection,
            total_volume: self.total_volume,
            total_fees: self.total_fees,
            dynamic_fee_config: self.dynamic_fee_config,
            volatility_state: self.volatility_state,
            lp: self.lp@,
            floor_price: self.floor_price,
            collection_stats: self.collection_stats,
        }
    }
}

// ── Exact descriptions ──────────────────────────────────────────────────────

pub open spec fn valid_fee(fee_bps: i128) -> bool {
    0 <= fee_bps < BPS
}

pub open spec fn valid_dynamic_config(c: DynamicFeeConfig) -> bool {
    &&& c.min_fee_bps >= 0
    &&& c.max_fee_bps < BPS
    &&& c.min_fee_bps <= c.max_fee_bps
    &&& 0 <= c.volatility_multiplier_bps <= BPS
    &&& 0 <= c.utilization_multiplier_bps <= BPS
    &&& 1 <= c.ema_alpha_bps <= BPS
    &&& c.volatility_window != 0
    &&& 1 <= c.max_price_impact_bps <= BPS
}

/// `Ok` of a checked result, or an overflow error.
pub open spec fn or_overflow(x: Option<i128>) -> Result<i128, Error> {
    match x {
        Some(v) => Ok(v),
        None => Err(Error::Overflow),
    }
}

/// Share of the post-trade input reserve taken by the trade, in bps.
pub open spec fn spec_utilization_bps(amount_in: int, reserve_in: int) -> Result<i128, Error> {
    match cadd(reserve_in, amount_in) {
        None => Err(Error::Overflow),
        Some(den) => match cmul(amount_in, BPS as int) {
            None => Err(Error::Overflow),
            Some(n) => or_overflow(cdiv(n as int, den as int)),
        },
    }
}

/// Recent volatility, decaying linearly to zero over the window.
pub open spec fn spec_decayed_volatility(state: VolatilityState, config: DynamicFeeConfig, now: u64) -> Result<i128, Error> {
    let elapsed = if now >= state.last_timestamp { now - state.last_timestamp } else { 0 };
    if elapsed >= config.volatility_window {
        Ok(0)
    } else {
        match cmul(state.ema_volatility_bps as int, config.volatility_window - elapsed) {
            None => Err(Error::Overflow),
            Some(p) => or_overflow(cdiv(p as int, config.volatility_window as int)),
        }
    }
}

/// `x` clamped to `[lo, hi]`.
pub open spec fn clamp(x: int, lo: int, hi: int) -> int {
    if x < lo { lo } else if x > hi { hi } else { x }
}

/// The fee charged on a trade, with the volatility and utilization inputs.
pub open spec fn spec_effective_fee(v: AmmView, amount_in: int, reserve_in: int, now: u64) -> Result<(i128, i128, i128), Error> {
    match spec_utilization_bps(amount_in, reserve_in) {
        Err(e) => Err(e),
        Ok(utilization) => match v.dynamic_fee_config {
            None => Ok((v.fee_bps, 0, utilization)),
            Some(config) => match spec_decayed_volatility(v.volatility_state, config, now) {
                Err(e) => Err(e),
                Ok(volatility) => {
                    let vf = match cmul(volatility as int, config.volatility_multiplier_bps as int) {
                        None => None,
                        Some(p) => cdiv(p as int, BPS as int),
                    };
                    let uf = match cmul(utilization as int, config.utilization_multiplier_bps as int) {
                        None => None,
                        Some(p) => cdiv(p as int, BPS as int),
                    };
                    match vf {
                        None => Err(Error::Overflow),
                        Some(vf) => match uf {
                            None => Err(Error::Overflow),
                            Some(uf) => match cadd(v.fee_bps as int, vf as int) {
                                None => Err(Error::Overflow),
                                Some(f1) => match cadd(f1 as int, uf as int) {
                                    None => Err(Error::Overflow),
                                    Some(f) => Ok((
                                        clamp(f as int, config.min_fee_bps as int, config.max_fee_bps as int) as i128,
                                        volatility,
                                        utilization,
                                    )),
                                },
                            },
                        },
                    }
                },
            },
        },
    }
}

/// Constant-product output:
/// `amount_in * (10000 - fee) * rb / (ra * 10000 + amount_in * (10000 - fee))`.
pub open spec fn spec_amount_out(amount_in: int, ra: int, rb: int, fee_bps: int) -> Result<i128, Error> {
    if ra == 0 || rb == 0 {
        Err(Error::InsufficientLiquidity)
    } else {
        let ff = 10_000 - fee_bps;
        match cmul(amount_in, ff) {
            None => Err(Error::Overflow),
            Some(g) => match cmul(g as int, rb) {
                None => Err(Error::Overflow),
                Some(numerator) => match cmul(ra, 10_000) {
                    None => Err(Error::Overflow),
                    Some(ra_scaled) => match cadd(ra_scaled as int, g as int) {
                        None => Err(Error::Overflow),
                        Some(denominator) => Ok(tdiv(numerator as int, denominator as int) as i128),
                    },
                },
            },
        }
    }
}

/// A swap preview from given reserves.
pub open spec fn spec_swap_quote(v: AmmView, amount_in: int, reserve_in: int, reserve_out: int, now: u64) -> Result<SwapQuote, Error> {
    if amount_in <= 0 {
        Err(Error::ZeroAmount)
    } else if reserve_in <= 0 || reserve_out <= 0 {
        Err(Error::InsufficientLiquidity)
    } else {
        match spec_effective_fee(v, amount_in, reserve_in, now) {
            Err(e) => Err(e),
            Ok((fee_bps, volatility_bps, utilization_bps)) => match spec_amount_out(amount_in, reserve_in, reserve_out, fee_bps as int) {
                Err(e) => Err(e),
                Ok(amount_out) => if amount_out == 0 {
                    Err(Error::ZeroOutput)
                } else {
                    let ideal = match cmul(amount_in, reserve_out) {
                        None => None,
                        Some(p) => cdiv(p as int, reserve_in),
                    };
                    match ideal {
                        None => Err(Error::Overflow),
                        Some(ideal_out) => {
                            let impact = if ideal_out == 0 || amount_out >= ideal_out {
                                Some(0i128)
                            } else {
                                match cmul(ideal_out - amount_out, BPS as int) {
                                    None => None,
                                    Some(p) => cdiv(p as int, ideal_out as int),
                                }
                            };
                            match impact {
                                None => Err(Error::Overflow),
                                Some(price_impact_bps) => Ok(SwapQuote {
                                    amount_out,
                                    fee_bps,
                                    price_impact_bps,
                                    volatility_bps,
                                    utilization_bps,
                                }),
                            }
                        },
                    }
                },
            },
        }
    }
}

impl AmmView {
    /// The LP balance of `owner`.
    pub open spec fn lp_of(self, owner: u64) -> i128 {
        if self.lp.contains_key(owner) { self.lp[owner] } else { 0 }
    }

    /// Reserves ordered by trade direction: (input, output, whether input is token A).
    pub open spec fn reserves_for(self, token_in: u64) -> Result<(i128, i128, bool), Error> {
        if token_in == self.token_a {
            Ok((self.reserve_a, self.reserve_b, true))
        } else if token_in == self.token_b {
            Ok((self.reserve_b, self.reserve_a, false))
        } else {
            Err(Error::InvalidToken)
        }
    }

    /// The quote for trading `amount_in` of `token_in`.
    pub open spec fn quote(self, amount_in: int, token_in: u64, now: u64) -> Result<SwapQuote, Error> {
        if self.admin is None {
            Err(Error::NotInitialized)
        } else {
            match self.reserves_for(token_in) {
                Err(e) => Err(e),
                Ok((rin, rout, _)) => spec_swap_quote(self, amount_in, rin as int, rout as int, now),
            }
        }
    }

    /// The pool's invariant: a valid base fee, a valid dynamic configuration,
    /// and a non-negative last observed price.
    pub open spec fn wf(self) -> bool {
        &&& valid_fee(self.fee_bps)
        &&& (self.dynamic_fee_config matches Some(c) ==> valid_dynamic_config(c))
        &&& self.volatility_state.last_price >= 0
    }
}

/// The spot price `reserve_b / reserve_a`, scaled.
pub open spec fn spec_spot_price(reserve_a: int, reserve_b: int) -> Result<i128, Error> {
    if reserve_a <= 0 || reserve_b <= 0 {
        Err(Error::InsufficientLiquidity)
    } else {
        match cmul(reserve_b, PRICE_PRECISION as int) {
            None => Err(Error::Overflow),
            Some(p) => or_overflow(cdiv(p as int, reserve_a)),
        }
    }
}

/// `|price - last| * BPS / last`, capped at `BPS`; zero without a last price.
pub open spec fn spec_absolute_return(price: int, last: int) -> Result<i128, Error> {
    if last == 0 {
        Ok(0)
    } else {
        let d = if price >= last { price - last } else { last - price };
        if d * 10_000 > u128::MAX {
            Err(Error::Overflow)
        } else if (d * 10_000) / last > i128::MAX {
            Err(Error::Overflow)
        } else {
            Ok(if (d * 10_000) / last <= BPS { ((d * 10_000) / last) as i128 } else { BPS })
        }
    }
}

/// The volatility state after a trade leaves reserves `(reserve_a, reserve_b)`.
pub open spec fn spec_next_volatility(
    state: VolatilityState,
    config: DynamicFeeConfig,
    reserve_a: int,
    reserve_b: int,
    now: u64,
) -> Result<VolatilityState, Error> {
    match spec_spot_price(reserve_a, reserve_b) {
        Err(e) => Err(e),
        Ok(price) => match spec_decayed_volatility(state, config, now) {
            Err(e) => Err(e),
            Ok(recent) => match spec_absolute_return(price as int, state.last_price as int) {
                Err(e) => Err(e),
                Ok(absolute_return) => match cmul(recent as int, BPS - config.ema_alpha_bps) {
                    None => Err(Error::Overflow),
                    Some(retained) => match cmul(absolute_return as int, config.ema_alpha_bps as int) {
                        None => Err(Error::Overflow),
                        Some(latest) => match cadd(retained as int, latest as int) {
                            None => Err(Error::Overflow),
                            Some(sum) => match cdiv(sum as int, BPS as int) {
                                None => Err(Error::Overflow),
                                Some(ema) => Ok(VolatilityState {
                                    ema_volatility_bps: ema,
                                    last_price: price,
                                    last_timestamp: now,
                                }),
                            },
                        },
                    },
                },
            },
        },
    }
}

/// TWAP accumulators after `now`: each grows by its price times the elapsed
/// time since the last update (saturating).
pub open spec fn spec_twap(v: AmmView, ra: int, rb: int, now: u64) -> (i128, i128, u64) {
    if now <= v.last_ts || ra == 0 || rb == 0 {
        (v.price_a_cum, v.price_b_cum, now)
    } else {
        let elapsed = now - v.last_ts;
        let price_a = tdiv(clamp_i128(rb * TWAP_PRECISION), ra);
        let price_b = tdiv(clamp_i128(ra * TWAP_PRECISION), rb);
        (
            clamp_i128(v.price_a_cum + clamp_i128(price_a * elapsed)) as i128,
            clamp_i128(v.price_b_cum + clamp_i128(price_b * elapsed)) as i128,
            now,
        )
    }
}

// ── Lemmas ──────────────────────────────────────────────────────────────────

/// A constant-product trade never lowers the product of the reserves.
pub proof fn lemma_constant_product(amount_in: int, rin: int, rout: int, fee_bps: int, out: int)
    requires
        amount_in > 0,
        rin > 0,
        rout > 0,
        0 <= fee_bps < 10_000,
        out == (amount_in * (10_000 - fee_bps) * rout) / (rin * 10_000 + amount_in * (10_000 - fee_bps)),
    ensures
        0 <= out < rout,
        (rin + amount_in) * (rout - out) >= rin * rout,
{
    let g = amount_in * (10_000 - fee_bps);
    let d = rin * 10_000 + g;
    assert(0 < g <= amount_in * 10_000) by (nonlinear_arith)
        requires amount_in > 0, 0 <= fee_bps < 10_000, g == amount_in * (10_000 - fee_bps);
    assert(d > g) by (nonlinear_arith) requires rin > 0, d == rin * 10_000 + g;
    assert(g * rout >= 0) by (nonlinear_arith) requires g > 0, rout > 0;
    assert(out * d <= g * rout) by (nonlinear_arith) requires d > 0, g * rout >= 0, out == (g * rout) / d;
    assert(out >= 0) by (nonlinear_arith) requires d > 0, g * rout >= 0, out == (g * rout) / d;
    assert(out < rout) by (nonlinear_arith) requires out * d <= g * rout, d > g, g > 0, out >= 0, rout > 0;
    assert(out * rin * 10_000 <= g * (rout - out)) by (nonlinear_arith)
        requires out * d <= g * rout, d == rin * 10_000 + g;
    assert(g * (rout - out) <= amount_in * 10_000 * (rout - out)) by (nonlinear_arith)
        requires g <= amount_in * 10_000, rout - out >= 0;
    assert(out * (rin + amount_in) * 10_000 <= amount_in * rout * 10_000) by (nonlinear_arith)
        requires out * rin * 10_000 <= g * (rout - out), g * (rout - out) <= amount_in * 10_000 * (rout - out);
    assert(out * (rin + amount_in) <= amount_in * rout) by (nonlinear_arith)
        requires out * (rin + amount_in) * 10_000 <= amount_in * rout * 10_000;
    assert((rin + amount_in) * (rout - out) == rin * rout + amount_in * rout - out * (rin + amount_in))
        by (nonlinear_arith);
}

// ── Executable helpers ──────────────────────────────────────────────────────

fn validate_fee(fee_bps: i128) -> (r: Result<(), Error>)
    ensures
        r == (if valid_fee(fee_bps) { Ok(()) } else { Err(Error::InvalidFee) }),
{
    if !(0 <= fee_bps && fee_bps < BPS) {
        return Err(Error::InvalidFee);
    }
    Ok(())
}

fn validate_dynamic_config(config: &DynamicFeeConfig) -> (r: Result<(), Error>)
    ensures
        r == (if valid_dynamic_config(*config) { Ok(()) } else { Err(Error::InvalidDynamicFeeConfig) }),
{
    if config.min_fee_bps < 0
        || config.max_fee_bps >= BPS
        || config.min_fee_bps > config.max_fee_bps
        || !(0 <= config.volatility_multiplier_bps && config.volatility_multiplier_bps <= BPS)
        || !(0 <= config.utilization_multiplier_bps && config.utilization_multiplier_bps <= BPS)
        || !(1 <= config.ema_alpha_bps && config.ema_alpha_bps <= BPS)
        || config.volatility_window == 0
        || !(1 <= config.max_price_impact_bps && config.max_price_impact_bps <= BPS)
    {
        return Err(Error::InvalidDynamicFeeConfig);
    }
    Ok(())
}

fn overflow(x: Option<i128>) -> (r: Result<i128, Error>)
    ensures
        r == or_overflow(x),
{
    match x {
        Some(v) => Ok(v),
        None => Err(Error::Overflow),
    }
}

/// Share of the post-trade input reserve taken by the trade, in bps.
pub fn utilization_bps(amount_in: i128, reserve_in: i128) -> (r: Result<i128, Error>)
    ensures
        r == spec_utilization_bps(amount_in as int, reserve_in as int),
{
    let denominator = match reserve_in.checked_add(amount_in) {
        Some(d) => d,
        None => return Err(Error::Overflow),
    };
    match amount_in.checked_mul(BPS) {
        Some(n) => overflow(div_checked(n, denominator)),
        None => Err(Error::Overflow),
    }
}

fn decayed_volatility(state: &VolatilityState, config: &DynamicFeeConfig, now: u64) -> (r: Result<i128, Error>)
    ensures
        r == spec_decayed_volatility(*state, *config, now),
{
    let elapsed = if now >= state.last_timestamp { now - state.last_timestamp } else { 0 };
    if elapsed >= config.volatility_window {
        return Ok(0);
    }
    match state.ema_volatility_bps.checked_mul((config.volatility_window - elapsed) as i128) {
        Some(p) => overflow(div_checked(p, config.volatility_window as i128)),
        None => Err(Error::Overflow),
    }
}

fn mul_div_bps(x: i128, multiplier: i128) -> (r: Option<i128>)
    ensures
        r == (match cmul(x as int, multiplier as int) {
            None => None,
            Some(p) => cdiv(p as int, BPS as int),
        }),
{
    match x.checked_mul(multiplier) {
        Some(p) => div_checked(p, BPS),
        None => None,
    }
}

/// Constant-product output for a trade of `amount_in` at `fee_bps`.
pub fn constant_product_amount_out(amount_in: i128, ra: i128, rb: i128, fee_bps: i128) -> (r: Result<i128, Error>)
    requires
        ra >= 0,
        amount_in > 0,
        0 <= fee_bps < 10_000,
    ensures
        r == spec_amount_out(amount_in as int, ra as int, rb as int, fee_bps as int),
{
    if ra == 0 || rb == 0 {
        return Err(Error::InsufficientLiquidity);
    }
    let fee_factor = 10_000 - fee_bps;
    let g = match amount_in.checked_mul(fee_factor) {
        Some(g) => g,
        None => return Err(Error::Overflow),
    };
    let numerator = match g.checked_mul(rb) {
        Some(n) => n,
        None => return Err(Error::Overflow),
    };
    let ra_scaled = match ra.checked_mul(10_000) {
        Some(x) => x,
        None => return Err(Error::Overflow),
    };
    let denominator = match ra_scaled.checked_add(g) {
        Some(d) => d,
        None => return Err(Error::Overflow),
    };
    proof {
        assert(g > 0) by (nonlinear_arith) requires g == amount_in * fee_factor, amount_in > 0, fee_factor > 0;
    }
    Ok(div_trunc(numerator, denominator))
}

/// Integer square root of `a * b` (Babylonian method).
pub fn isqrt(a: i128, b: i128) -> (r: Result<i128, Error>)
    requires
        a * b != i128::MAX,
    ensures
        r is Err <==> !fits_i128(a * b),
        r is Err ==> r == Err::<i128, Error>(Error::Overflow),
        r matches Ok(x) ==> (a * b == 0 ==> x == 0) && (a * b > 0 ==> is_floor_sqrt(a * b, x as int))
            && (a * b < 0 ==> x == a * b),
{
    let product = match a.checked_mul(b) {
        Some(p) => p,
        None => return Err(Error::Overflow),
    };
    if product == 0 {
        return Ok(0);
    }
    if product < 0 {
        return Ok(product);
    }
    let mut x: i128 = product;
    let mut y: i128 = (x + 1) / 2;
    proof {
        assert(product as int / product as int == 1) by (nonlinear_arith) requires product >= 1;
        assert((product as int) < (product as int + 1) * (product as int + 1)) by (nonlinear_arith)
            requires product >= 1;
    }
    while y < x
        invariant
            1 <= product < i128::MAX,
            1 <= x <= product,
            y == (x + product / x) / 2,
            (product as int) < (x + 1) * (x + 1),
        decreases x,
    {
        proof {
            lemma_babylonian_step(product as int, x as int, 1);
            if (y + 1) * (y + 1) <= product {
                lemma_babylonian_step(product as int, x as int, (y + 1) as int);
            }
        }
        x = y;
        proof {
            lemma_babylonian_no_overflow(product as int, x as int);
        }
        y = (x + product / x) / 2;
    }
    proof {
        let q = product / x;
        assert(q * x <= product) by (nonlinear_arith) requires x >= 1, product >= 0, q == product / x;
        assert(x * x <= q * x) by (nonlinear_arith) requires x >= 1, q >= x;
    }
    Ok(x)
}

/// The spot price `reserve_b / reserve_a`, scaled by `PRICE_PRECISION`.
pub fn spot_price(reserve_a: i128, reserve_b: i128) -> (r: Result<i128, Error>)
    ensures
        r == spec_spot_price(reserve_a as int, reserve_b as int),
        r matches Ok(p) ==> p >= 0,
{
    if reserve_a <= 0 || reserve_b <= 0 {
        return Err(Error::InsufficientLiquidity);
    }
    match reserve_b.checked_mul(PRICE_PRECISION) {
        Some(p) => overflow(div_checked(p, reserve_a)),
        None => Err(Error::Overflow),
    }
}

fn absolute_return(price: i128, last: i128) -> (r: Result<i128, Error>)
    requires
        price >= 0,
        last >= 0,
    ensures
        r == spec_absolute_return(price as int, last as int),
{
    if last == 0 {
        return Ok(0);
    }
    let d: u128 = if price >= last { (price - last) as u128 } else { (last - price) as u128 };
    let m = match d.checked_mul(10_000) {
        Some(m) => m,
        None => return Err(Error::Overflow),
    };
    let q = match m.checked_div(last as u128) {
        Some(q) => q,
        None => return Err(Error::Overflow),
    };
    if q > 170141183460469231731687303715884105727u128 {
        return Err(Error::Overflow);
    }
    let q = q as i128;
    Ok(min_i128(q, BPS))
}

fn next_volatility(
    state: &VolatilityState,
    config: &DynamicFeeConfig,
    reserve_a: i128,
    reserve_b: i128,
    now: u64,
) -> (r: Result<VolatilityState, Error>)
    requires
        state.last_price >= 0,
        valid_dynamic_config(*config),
    ensures
        r == spec_next_volatility(*state, *config, reserve_a as int, reserve_b as int, now),
{
    let price = spot_price(reserve_a, reserve_b)?;
    let recent = decayed_volatility(state, config, now)?;
    let abs_return = absolute_return(price, state.last_price)?;
    let retained = match recent.checked_mul(BPS - config.ema_alpha_bps) {
        Some(x) => x,
        None => return Err(Error::Overflow),
    };
    let latest = match abs_return.checked_mul(config.ema_alpha_bps) {
        Some(x) => x,
        None => return Err(Error::Overflow),
    };
    let sum = match retained.checked_add(latest) {
        Some(x) => x,
        None => return Err(Error::Overflow),
    };
    let ema = overflow(div_checked(sum, BPS))?;
    Ok(VolatilityState { ema_volatility_bps: ema, last_price: price, last_timestamp: now })
}


impl AmmView {
    /// The outcome of a swap: the output amount and the storage afterwards.
    pub open spec fn swap_outcome(
        self,
        token_in: u64,
        amount_in: i128,
        min_out: i128,
        max_fee_bps: Option<i128>,
        deadline: Option<u64>,
        now: u64,
    ) -> Result<(i128, AmmView), Error> {
        if self.admin is None {
            Err(Error::NotInitialized)
        } else if deadline matches Some(d) && now > d {
            Err(Error::DeadlineExpired)
        } else {
            match self.reserves_for(token_in) {
                Err(e) => Err(e),
                Ok((rin, rout, a_to_b)) => match spec_swap_quote(self, amount_in as int, rin as int, rout as int, now) {
                    Err(e) => Err(e),
                    Ok(q) => if max_fee_bps matches Some(limit) && q.fee_bps > limit {
                        Err(Error::FeeLimitExceeded)
                    } else if q.amount_out < min_out {
                        Err(Error::SlippageExceeded)
                    } else if self.dynamic_fee_config matches Some(c) && q.price_impact_bps > c.max_price_impact_bps {
                        Err(Error::PriceImpactExceeded)
                    } else {
                        match (cadd(rin as int, amount_in as int), csub(rout as int, q.amount_out as int)) {
                            (None, _) => Err(Error::Overflow),
                            (_, None) => Err(Error::Overflow),
                            (Some(new_in), Some(new_out)) => {
                                let (ra, rb) = if a_to_b { (new_in, new_out) } else { (new_out, new_in) };
                                let (cum_a, cum_b, ts) = spec_twap(self, self.reserve_a as int, self.reserve_b as int, now);
                                let vol = match self.dynamic_fee_config {
                                    None => Ok(self.volatility_state),
                                    Some(c) => spec_next_volatility(self.volatility_state, c, ra as int, rb as int, now),
                                };
                                match vol {
                                    Err(e) => Err(e),
                                    Ok(vs) => match cmul(amount_in as int, q.fee_bps as int) {
                                        None => Err(Error::Overflow),
                                        Some(fee_scaled) => match cadd(self.total_volume as int, amount_in as int) {
                                            None => Err(Error::Overflow),
                                            Some(volume) => match cadd(self.total_fees as int, tdiv(fee_scaled as int, 10_000)) {
                                                None => Err(Error::Overflow),
                                                Some(fees) => Ok((q.amount_out, AmmView {
                                                    reserve_a: ra,
                                                    reserve_b: rb,
                                                    price_a_cum: cum_a,
                                                    price_b_cum: cum_b,
                                                    last_ts: ts,
                                                    volatility_state: vs,
                                                    total_volume: volume,
                                                    total_fees: fees,
                                                    ..self
                                                })),
                                            },
                                        },
                                    },
                                }
                            },
                        }
                    },
                },
            }
        }
    }

    /// LP shares minted for a deposit: the geometric mean less the locked
    /// minimum on the first deposit, otherwise the smaller proportional share.
    pub open spec fn lp_minted(self, amount_a: i128, amount_b: i128) -> Result<i128, Error> {
        if self.total_lp == 0 {
            if !fits_i128(amount_a * amount_b) {
                Err(Error::Overflow)
            } else {
                let root = crate::options_protocol::math::floor_sqrt(amount_a * amount_b);
                if root <= MIN_LIQUIDITY {
                    Err(Error::InsufficientLiquidity)
                } else {
                    Ok((root - MIN_LIQUIDITY) as i128)
                }
            }
        } else {
            match (cmul(amount_a as int, self.total_lp as int), cmul(amount_b as int, self.total_lp as int)) {
                (None, _) => Err(Error::Overflow),
                (_, None) => Err(Error::Overflow),
                (Some(pa), Some(pb)) => {
                    let lp_a = tdiv(pa as int, self.reserve_a as int);
                    let lp_b = tdiv(pb as int, self.reserve_b as int);
                    Ok((if lp_a <= lp_b { lp_a } else { lp_b }) as i128)
                },
            }
        }
    }

    /// Total LP supply after minting `minted` shares.
    pub open spec fn total_after_mint(self, minted: int) -> int {
        if self.total_lp == 0 { MIN_LIQUIDITY + minted } else { self.total_lp + minted }
    }

    /// Amounts returned for burning `lp_amount` shares.
    pub open spec fn withdrawal(self, lp_amount: i128) -> Result<(i128, i128), Error> {
        match (cmul(lp_amount as int, self.reserve_a as int), cmul(lp_amount as int, self.reserve_b as int)) {
            (None, _) => Err(Error::Overflow),
            (_, None) => Err(Error::Overflow),
            (Some(pa), Some(pb)) => Ok((
                tdiv(pa as int, self.total_lp as int) as i128,
                tdiv(pb as int, self.total_lp as int) as i128,
            )),
        }
    }
}

impl AmmPool {
    /// A pool with empty storage.
    pub fn new() -> (r: Self)
        ensures
            r@.admin is None,
            r@.reserve_a == 0 && r@.reserve_b == 0 && r@.total_lp == 0,
            r@.price_a_cum == 0 && r@.price_b_cum == 0 && r@.last_ts == 0,
            r@.total_volume == 0 && r@.total_fees == 0 && r@.floor_price == 0,
            r@.nft_collection is None && r@.dynamic_fee_config is None && r@.collection_stats is None,
            r@.volatility_state == (VolatilityState { ema_volatility_bps: 0, last_price: 0, last_timestamp: 0 }),
            r@.lp == Map::<u64, i128>::empty(),
            r@.fee_bps == 30,
            r@.wf(),
    {
        AmmPool {
            admin: None,
            token_a: 0,
            token_b: 0,
            reserve_a: 0,
            reserve_b: 0,
            total_lp: 0,
            price_a_cum: 0,
            price_b_cum: 0,
            last_ts: 0,
            fee_bps: 30,
            nft_collection: None,
            total_volume: 0,
            total_fees: 0,
            dynamic_fee_config: None,
            volatility_state: VolatilityState { ema_volatility_bps: 0, last_price: 0, last_timestamp: 0 },
            lp: HashMap::new(),
            floor_price: 0,
            collection_stats: None,
        }
    }

    /// Create the pool for `token_a` / `token_b` with an optional custom fee
    /// (30 bps by default).
    pub fn initialize(&mut self, admin: u64, token_a: u64, token_b: u64, fee_bps: Option<i128>, now: u64)
        -> (r: Result<(), Error>)
        ensures
            ({
                let fee = match fee_bps { Some(f) => f, None => 30 };
                r == (if old(self)@.admin is Some {
                    Err(Error::AlreadyInitialized)
                } else if token_a == token_b {
                    Err(Error::InvalidToken)
                } else if !valid_fee(fee) {
                    Err(Error::InvalidFee)
                } else {
                    Ok(())
                })
            }),
            r is Err ==> final(self)@ == old(self)@,
            r is Ok ==> final(self)@ == (AmmView {
                admin: Some(admin),
                token_a,
                token_b,
                fee_bps: match fee_bps { Some(f) => f, None => 30 },
                last_ts: now,
                ..old(self)@
            }),
            old(self)@.wf() ==> final(self)@.wf(),
    {
        if self.admin.is_some() {
            return Err(Error::AlreadyInitialized);
        }
        if token_a == token_b {
            return Err(Error::InvalidToken);
        }
        let configured_fee = match fee_bps {
            Some(f) => f,
            None => 30,
        };
        validate_fee(configured_fee)?;
        self.admin = Some(admin);
        self.token_a = token_a;
        self.token_b = token_b;
        self.fee_bps = configured_fee;
        self.last_ts = now;
        Ok(())
    }

    fn ensure_admin(&self, admin: u64) -> (r: Result<(), Error>)
        ensures
            r == (match self@.admin {
                None => Err(Error::NotInitialized),
                Some(a) => if a != admin { Err(Error::Unauthorized) } else { Ok(()) },
            }),
    {
        match self.admin {
            None => Err(Error::NotInitialized),
            Some(a) => if a != admin { Err(Error::Unauthorized) } else { Ok(()) },
        }
    }

    /// Enable or update the volatility/utilization-adjusted fee model.
    pub fn configure_dynamic_fees(&mut self, admin: u64, config: DynamicFeeConfig, now: u64) -> (r: Result<(), Error>)
        ensures
            ({
                let s = old(self)@;
                let seeds = s.volatility_state.last_price == 0 && s.reserve_a > 0 && s.reserve_b > 0;
                r == (match s.admin {
                    None => Err(Error::NotInitialized),
                    Some(a) => if a != admin {
                        Err(Error::Unauthorized)
                    } else if !valid_dynamic_config(config) {
                        Err(Error::InvalidDynamicFeeConfig)
                    } else if seeds && spec_spot_price(s.reserve_a as int, s.reserve_b as int) is Err {
                        Err(spec_spot_price(s.reserve_a as int, s.reserve_b as int)->Err_0)
                    } else {
                        Ok(())
                    },
                })
            }),
            r is Err ==> final(self)@ == old(self)@,
            r is Ok ==> {
                let s = old(self)@;
                let seeds = s.volatility_state.last_price == 0 && s.reserve_a > 0 && s.reserve_b > 0;
                final(self)@ == (AmmView {
                    dynamic_fee_config: Some(config),
                    volatility_state: if seeds {
                        VolatilityState {
                            last_price: spec_spot_price(s.reserve_a as int, s.reserve_b as int)->Ok_0,
                            last_timestamp: now,
                            ..s.volatility_state
                        }
                    } else {
                        s.volatility_state
                    },
                    ..s
                })
            },
            old(self)@.wf() ==> final(self)@.wf(),
    {
        self.ensure_admin(admin)?;
        validate_dynamic_config(&config)?;
        if self.volatility_state.last_price == 0 && self.reserve_a > 0 && self.reserve_b > 0 {
            let price = spot_price(self.reserve_a, self.reserve_b)?;
            self.volatility_state = VolatilityState { last_price: price, last_timestamp: now, ..self.volatility_state };
        }
        self.dynamic_fee_config = Some(config);
        Ok(())
    }

    /// Return to the pool's fixed fee without deleting observations.
    pub fn disable_dynamic_fees(&mut self, admin: u64) -> (r: Result<(), Error>)
        ensures
            r == (match old(self)@.admin {
                None => Err(Error::NotInitialized),
                Some(a) => if a != admin { Err(Error::Unauthorized) } else { Ok(()) },
            }),
            r is Err ==> final(self)@ == old(self)@,
            r is Ok ==> final(self)@ == (AmmView { dynamic_fee_config: None, ..old(self)@ }),
            old(self)@.wf() ==> final(self)@.wf(),
    {
        self.ensure_admin(admin)?;
        self.dynamic_fee_config = None;
        Ok(())
    }

    /// Initialize an NFT AMM pool with collection tracking; an already
    /// initialized pool only records the collection.
    pub fn initialize_nft(
        &mut self,
        admin: u64,
        token_a: u64,
        token_b: u64,
        nft_collection: u64,
        fee_bps: Option<i128>,
        now: u64,
    ) -> (r: Result<(), Error>)
        ensures
            ({
                let fee = match fee_bps { Some(f) => f, None => 30 };
                r == (if old(self)@.admin is Some {
                    Ok(())
                } else if token_a == token_b {
                    Err(Error::InvalidToken)
                } else if !valid_fee(fee) {
                    Err(Error::InvalidFee)
                } else {
                    Ok(())
                })
            }),
            r is Err ==> final(self)@ == old(self)@,
            r is Ok ==> {
                let base = if old(self)@.admin is Some {
                    old(self)@
                } else {
                    AmmView {
                        admin: Some(admin),
                        token_a,
                        token_b,
                        fee_bps: match fee_bps { Some(f) => f, None => 30 },
                        last_ts: now,
                        ..old(self)@
                    }
                };
                final(self)@ == (AmmView {
                    nft_collection: Some(nft_collection),
                    collection_stats: Some(CollectionStats {
                        floor_price: 0,
                        ceiling_price: 0,
                        total_volume: 0,
                        trade_count: 0,
                        unique_holders: 0,
                        last_update: now,
                    }),
                    ..base
                })
            },
            old(self)@.wf() ==> final(self)@.wf(),
    {
        if self.admin.is_none() {
            self.initialize(admin, token_a, token_b, fee_bps, now)?;
        }
        self.nft_collection = Some(nft_collection);
        self.collection_stats = Some(CollectionStats {
            floor_price: 0,
            ceiling_price: 0,
            total_volume: 0,
            trade_count: 0,
            unique_holders: 0,
            last_update: now,
        });
        Ok(())
    }

    fn lp_of(&self, owner: u64) -> (r: i128)
        ensures
            r == self@.lp_of(owner),
    {
        match self.lp.get(&owner) {
            Some(v) => *v,
            None => 0,
        }
    }

    /// Deposit `amount_a` of token A and `amount_b` of token B; returns the
    /// LP shares minted.
    pub fn add_liquidity(&mut self, provider: u64, amount_a: i128, amount_b: i128, min_lp: i128)
        -> (r: Result<i128, Error>)
        requires
            ({
                let s = old(self)@;
                s.admin is Some && amount_a > 0 && amount_b > 0 ==> {
                    &&& (s.total_lp == 0 ==> amount_a * amount_b != i128::MAX)
                    &&& (s.total_lp != 0 ==> s.reserve_a != 0 && s.reserve_b != 0
                        && !(s.reserve_a == -1 && amount_a * s.total_lp == i128::MIN)
                        && !(s.reserve_b == -1 && amount_b * s.total_lp == i128::MIN))
                    &&& ({
                        let m = s.lp_minted(amount_a, amount_b)->Ok_0;
                        s.lp_minted(amount_a, amount_b) is Ok && m >= min_lp
                    } ==> {
                        let m = s.lp_minted(amount_a, amount_b)->Ok_0;
                        &&& fits_i128(s.reserve_a + amount_a)
                        &&& fits_i128(s.reserve_b + amount_b)
                        &&& fits_i128(s.total_after_mint(m as int))
                        &&& fits_i128(s.lp_of(provider) + m)
                    })
                }
            }),
        ensures
            ({
                let s = old(self)@;
                r == (if s.admin is None {
                    Err(Error::NotInitialized)
                } else if amount_a <= 0 || amount_b <= 0 {
                    Err(Error::ZeroAmount)
                } else {
                    match s.lp_minted(amount_a, amount_b) {
                        Err(e) => Err(e),
                        Ok(m) => if m < min_lp { Err(Error::SlippageExceeded) } else { Ok(m) },
                    }
                })
            }),
            r is Err ==> final(self)@ == old(self)@,
            r matches Ok(m) ==> final(self)@ == (AmmView {
                reserve_a: (old(self)@.reserve_a + amount_a) as i128,
                reserve_b: (old(self)@.reserve_b + amount_b) as i128,
                total_lp: old(self)@.total_after_mint(m as int) as i128,
                lp: old(self)@.lp.insert(provider, (old(self)@.lp_of(provider) + m) as i128),
                ..old(self)@
            }),
            r matches Ok(m) ==> (old(self)@.total_lp > 0 && old(self)@.reserve_a > 0 && old(self)@.reserve_b > 0 ==> {
                &&& m * old(self)@.reserve_a <= amount_a * old(self)@.total_lp
                &&& m * old(self)@.reserve_b <= amount_b * old(self)@.total_lp
            }),
            old(self)@.wf() ==> final(self)@.wf(),
    {
        if self.admin.is_none() {
            return Err(Error::NotInitialized);
        }
        if amount_a <= 0 || amount_b <= 0 {
            return Err(Error::ZeroAmount);
        }
        let ra = self.reserve_a;
        let rb = self.reserve_b;
        let total_lp = self.total_lp;
        let (lp_minted, new_total) = if total_lp == 0 {
            let lp = isqrt(amount_a, amount_b)?;
            proof {
                assert(amount_a * amount_b > 0) by (nonlinear_arith) requires amount_a > 0, amount_b > 0;
                assert(is_floor_sqrt(amount_a * amount_b, lp as int));
                crate::options_protocol::math::lemma_floor_sqrt_is(amount_a * amount_b, lp as int);
            }
            if lp <= MIN_LIQUIDITY {
                return Err(Error::InsufficientLiquidity);
            }
            let minted = lp - MIN_LIQUIDITY;
            if minted < min_lp {
                return Err(Error::SlippageExceeded);
            }
            (minted, MIN_LIQUIDITY + minted)
        } else {
            let pa = match amount_a.checked_mul(total_lp) {
                Some(p) => p,
                None => return Err(Error::Overflow),
            };
            let pb = match amount_b.checked_mul(total_lp) {
                Some(p) => p,
                None => return Err(Error::Overflow),
            };
            let lp_a = div_trunc(pa, ra);
            let lp_b = div_trunc(pb, rb);
            let minted = min_i128(lp_a, lp_b);
            if minted < min_lp {
                return Err(Error::SlippageExceeded);
            }
            (minted, total_lp + minted)
        };
        proof {
            let s0 = old(self)@;
            if s0.total_lp > 0 && s0.reserve_a > 0 && s0.reserve_b > 0 {
                lemma_lp_minted_proportional(s0, amount_a, amount_b);
            }
        }
        let previous = self.lp_of(provider);
        self.reserve_a = ra + amount_a;
        self.reserve_b = rb + amount_b;
        self.total_lp = new_total;
        self.lp.insert(provider, previous + lp_minted);
        Ok(lp_minted)
    }
}


impl AmmPool {
    /// Burn `lp_amount` shares; returns the amounts of token A and B paid out.
    pub fn remove_liquidity(&mut self, provider: u64, lp_amount: i128, min_a: i128, min_b: i128)
        -> (r: Result<(i128, i128), Error>)
        requires
            ({
                let s = old(self)@;
                s.admin is Some && lp_amount > 0 && s.lp_of(provider) >= lp_amount ==> {
                    &&& s.total_lp != 0
                    &&& !(s.total_lp == -1 && (lp_amount * s.reserve_a == i128::MIN || lp_amount * s.reserve_b == i128::MIN))
                    &&& (s.withdrawal(lp_amount) matches Ok((a, b)) ==> {
                        &&& fits_i128(s.reserve_a - a)
                        &&& fits_i128(s.reserve_b - b)
                        &&& fits_i128(s.total_lp - lp_amount)
                    })
                }
            }),
        ensures
            ({
                let s = old(self)@;
                r == (if s.admin is None {
                    Err(Error::NotInitialized)
                } else if lp_amount <= 0 {
                    Err(Error::ZeroAmount)
                } else if s.lp_of(provider) < lp_amount {
                    Err(Error::InsufficientLpBalance)
                } else {
                    match s.withdrawal(lp_amount) {
                        Err(e) => Err(e),
                        Ok((a, b)) => if a < min_a || b < min_b {
                            Err(Error::SlippageExceeded)
                        } else {
                            Ok((a, b))
                        },
                    }
                })
            }),
            r is Err ==> final(self)@ == old(self)@,
            r matches Ok((a, b)) ==> final(self)@ == (AmmView {
                reserve_a: (old(self)@.reserve_a - a) as i128,
                reserve_b: (old(self)@.reserve_b - b) as i128,
                total_lp: (old(self)@.total_lp - lp_amount) as i128,
                lp: old(self)@.lp.insert(provider, (old(self)@.lp_of(provider) - lp_amount) as i128),
                ..old(self)@
            }),
            old(self)@.wf() ==> final(self)@.wf(),
    {
        if self.admin.is_none() {
            return Err(Error::NotInitialized);
        }
        if lp_amount <= 0 {
            return Err(Error::ZeroAmount);
        }
        let lp_bal = self.lp_of(provider);
        if lp_bal < lp_amount {
            return Err(Error::InsufficientLpBalance);
        }
        let total_lp = self.total_lp;
        let ra = self.reserve_a;
        let rb = self.reserve_b;
        let pa = match lp_amount.checked_mul(ra) {
            Some(p) => p,
            None => return Err(Error::Overflow),
        };
        let pb = match lp_amount.checked_mul(rb) {
            Some(p) => p,
            None => return Err(Error::Overflow),
        };
        let out_a = div_trunc(pa, total_lp);
        let out_b = div_trunc(pb, total_lp);
        if out_a < min_a || out_b < min_b {
            return Err(Error::SlippageExceeded);
        }
        self.lp.insert(provider, lp_bal - lp_amount);
        self.total_lp = total_lp - lp_amount;
        self.reserve_a = ra - out_a;
        self.reserve_b = rb - out_b;
        Ok((out_a, out_b))
    }

    fn effective_fee(&self, amount_in: i128, reserve_in: i128, now: u64) -> (r: Result<(i128, i128, i128), Error>)
        ensures
            r == spec_effective_fee(self@, amount_in as int, reserve_in as int, now),
            self@.wf() ==> (r matches Ok((f, _, _)) ==> 0 <= f < 10_000),
    {
        let utilization = utilization_bps(amount_in, reserve_in)?;
        let config = match self.dynamic_fee_config {
            None => return Ok((self.fee_bps, 0, utilization)),
            Some(c) => c,
        };
        let volatility = decayed_volatility(&self.volatility_state, &config, now)?;
        let volatility_fee = mul_div_bps(volatility, config.volatility_multiplier_bps);
        let utilization_fee = mul_div_bps(utilization, config.utilization_multiplier_bps);
        let vf = overflow(volatility_fee)?;
        let uf = overflow(utilization_fee)?;
        let f1 = overflow(self.fee_bps.checked_add(vf))?;
        let f = overflow(f1.checked_add(uf))?;
        let fee = if f < config.min_fee_bps {
            config.min_fee_bps
        } else if f > config.max_fee_bps {
            config.max_fee_bps
        } else {
            f
        };
        Ok((fee, volatility, utilization))
    }

    fn build_swap_quote(&self, amount_in: i128, reserve_in: i128, reserve_out: i128, now: u64) -> (r: Result<SwapQuote, Error>)
        requires
            self@.wf(),
        ensures
            r == spec_swap_quote(self@, amount_in as int, reserve_in as int, reserve_out as int, now),
            r matches Ok(q) ==> 0 <= q.fee_bps < 10_000 && q.amount_out == (amount_in * (10_000 - q.fee_bps) * reserve_out)
                / (reserve_in * 10_000 + amount_in * (10_000 - q.fee_bps)),
    {
        if amount_in <= 0 {
            return Err(Error::ZeroAmount);
        }
        if reserve_in <= 0 || reserve_out <= 0 {
            return Err(Error::InsufficientLiquidity);
        }
        let (fee_bps, volatility_bps, utilization_bps) = self.effective_fee(amount_in, reserve_in, now)?;
        let amount_out = constant_product_amount_out(amount_in, reserve_in, reserve_out, fee_bps)?;
        proof {
            let g = amount_in * (10_000 - fee_bps);
            assert(g > 0) by (nonlinear_arith) requires g == amount_in * (10_000 - fee_bps), amount_in > 0, fee_bps < 10_000;
            assert(g * reserve_out >= 0) by (nonlinear_arith) requires g > 0, reserve_out > 0;
            assert(reserve_in * 10_000 > 0) by (nonlinear_arith) requires reserve_in > 0;
        }
        if amount_out == 0 {
            return Err(Error::ZeroOutput);
        }
        let ideal = match amount_in.checked_mul(reserve_out) {
            Some(p) => div_checked(p, reserve_in),
            None => None,
        };
        let ideal_out = overflow(ideal)?;
        let impact = if ideal_out == 0 || amount_out >= ideal_out {
            Some(0i128)
        } else {
            match (ideal_out - amount_out).checked_mul(BPS) {
                Some(p) => div_checked(p, ideal_out),
                None => None,
            }
        };
        let price_impact_bps = overflow(impact)?;
        Ok(SwapQuote { amount_out, fee_bps, price_impact_bps, volatility_bps, utilization_bps })
    }

    fn reserves_for_token_in(&self, token_in: u64) -> (r: Result<(i128, i128, bool), Error>)
        ensures
            r == self@.reserves_for(token_in),
    {
        if token_in == self.token_a {
            Ok((self.reserve_a, self.reserve_b, true))
        } else if token_in == self.token_b {
            Ok((self.reserve_b, self.reserve_a, false))
        } else {
            Err(Error::InvalidToken)
        }
    }

    fn twap_after(&self, ra: i128, rb: i128, now: u64) -> (r: (i128, i128, u64))
        requires
            ra >= 0,
            rb >= 0,
        ensures
            r == spec_twap(self@, ra as int, rb as int, now),
    {
        if now <= self.last_ts || ra == 0 || rb == 0 {
            return (self.price_a_cum, self.price_b_cum, now);
        }
        let elapsed = (now - self.last_ts) as i128;
        let price_a = div_trunc(sat_mul(rb, TWAP_PRECISION), ra);
        let price_b = div_trunc(sat_mul(ra, TWAP_PRECISION), rb);
        (
            sat_add(self.price_a_cum, sat_mul(price_a, elapsed)),
            sat_add(self.price_b_cum, sat_mul(price_b, elapsed)),
            now,
        )
    }

    /// Execute a swap: checks, reserve update, TWAP, volatility and metrics.
    fn execute_swap(
        &mut self,
        token_in: u64,
        amount_in: i128,
        min_out: i128,
        max_fee_bps: Option<i128>,
        deadline: Option<u64>,
        now: u64,
    ) -> (r: Result<i128, Error>)
        requires
            old(self)@.wf(),
            old(self)@.admin is Some,
        ensures
            match old(self)@.swap_outcome(token_in, amount_in, min_out, max_fee_bps, deadline, now) {
                Err(e) => r == Err::<i128, Error>(e) && final(self)@ == old(self)@,
                Ok((out, next)) => r == Ok::<i128, Error>(out) && final(self)@ == next,
            },
            r is Ok ==> final(self)@.reserve_a * final(self)@.reserve_b
                >= old(self)@.reserve_a * old(self)@.reserve_b,
            final(self)@.wf(),
    {
        if let Some(limit) = deadline {
            if now > limit {
                return Err(Error::DeadlineExpired);
            }
        }
        let (reserve_in, reserve_out, a_to_b) = self.reserves_for_token_in(token_in)?;
        let quote = self.build_swap_quote(amount_in, reserve_in, reserve_out, now)?;
        if let Some(limit) = max_fee_bps {
            if quote.fee_bps > limit {
                return Err(Error::FeeLimitExceeded);
            }
        }
        if quote.amount_out < min_out {
            return Err(Error::SlippageExceeded);
        }
        if let Some(config) = self.dynamic_fee_config {
            if quote.price_impact_bps > config.max_price_impact_bps {
                return Err(Error::PriceImpactExceeded);
            }
        }
        let new_in = overflow(reserve_in.checked_add(amount_in))?;
        let new_out = overflow(reserve_out.checked_sub(quote.amount_out))?;
        let (new_reserve_a, new_reserve_b) = if a_to_b { (new_in, new_out) } else { (new_out, new_in) };
        proof {
            lemma_constant_product(amount_in as int, reserve_in as int, reserve_out as int,
                quote.fee_bps as int, quote.amount_out as int);
            assert(reserve_in > 0 && reserve_out > 0);
        }
        let twap = self.twap_after(self.reserve_a, self.reserve_b, now);
        let volatility = match self.dynamic_fee_config {
            None => self.volatility_state,
            Some(config) => next_volatility(&self.volatility_state, &config, new_reserve_a, new_reserve_b, now)?,
        };
        let fee_scaled = overflow(amount_in.checked_mul(quote.fee_bps))?;
        let volume = overflow(self.total_volume.checked_add(amount_in))?;
        let fees = overflow(self.total_fees.checked_add(div_trunc(fee_scaled, 10_000)))?;
        proof {
            if self.dynamic_fee_config is Some {
                assert(volatility.last_price >= 0);
            }
        }
        self.reserve_a = new_reserve_a;
        self.reserve_b = new_reserve_b;
        self.price_a_cum = twap.0;
        self.price_b_cum = twap.1;
        self.last_ts = twap.2;
        self.volatility_state = volatility;
        self.total_volume = volume;
        self.total_fees = fees;
        proof {
            if a_to_b {
                assert(new_reserve_a * new_reserve_b == (reserve_in + amount_in) * (reserve_out - quote.amount_out));
            } else {
                assert(new_reserve_a * new_reserve_b == (reserve_out - quote.amount_out) * (reserve_in + amount_in));
                assert((reserve_out - quote.amount_out) * (reserve_in + amount_in)
                    == (reserve_in + amount_in) * (reserve_out - quote.amount_out)) by (nonlinear_arith);
                assert(reserve_out * reserve_in == reserve_in * reserve_out) by (nonlinear_arith);
            }
        }
        Ok(quote.amount_out)
    }

    /// Swap `amount_in` of `token_in` for the other token, receiving at least
    /// `min_out`. The product of the reserves never decreases.
    pub fn swap(&mut self, trader: u64, token_in: u64, amount_in: i128, min_out: i128, now: u64)
        -> (r: Result<i128, Error>)
        requires
            old(self)@.wf(),
        ensures
            match old(self)@.swap_outcome(token_in, amount_in, min_out, None, None, now) {
                Err(e) => r == Err::<i128, Error>(e) && final(self)@ == old(self)@,
                Ok((out, next)) => r == Ok::<i128, Error>(out) && final(self)@ == next,
            },
            r is Ok ==> final(self)@.reserve_a * final(self)@.reserve_b
                >= old(self)@.reserve_a * old(self)@.reserve_b,
            final(self)@.wf(),
    {
        if self.admin.is_none() {
            return Err(Error::NotInitialized);
        }
        self.execute_swap(token_in, amount_in, min_out, None, None, now)
    }

    /// Swap with protection against both output slippage and a fee increase
    /// between quote and execution. `deadline` is a ledger timestamp.
    pub fn swap_with_limits(
        &mut self,
        trader: u64,
        token_in: u64,
        amount_in: i128,
        min_out: i128,
        max_fee_bps: i128,
        deadline: u64,
        now: u64,
    ) -> (r: Result<i128, Error>)
        requires
            old(self)@.wf(),
        ensures
            match old(self)@.swap_outcome(token_in, amount_in, min_out, Some(max_fee_bps), Some(deadline), now) {
                Err(e) => r == Err::<i128, Error>(e) && final(self)@ == old(self)@,
                Ok((out, next)) => r == Ok::<i128, Error>(out) && final(self)@ == next,
            },
            r is Ok ==> final(self)@.reserve_a * final(self)@.reserve_b
                >= old(self)@.reserve_a * old(self)@.reserve_b,
            final(self)@.wf(),
    {
        if self.admin.is_none() {
            return Err(Error::NotInitialized);
        }
        self.execute_swap(token_in, amount_in, min_out, Some(max_fee_bps), Some(deadline), now)
    }

    /// Preview the output of a swap without changing state.
    pub fn get_amount_out(&self, amount_in: i128, token_in: u64, now: u64) -> (r: Result<i128, Error>)
        requires
            self@.wf(),
        ensures
            r == (match self@.quote(amount_in as int, token_in, now) {
                Err(e) => Err(e),
                Ok(q) => Ok(q.amount_out),
            }),
    {
        let quote = self.quote_dynamic_swap(amount_in, token_in, now)?;
        Ok(quote.amount_out)
    }

    /// Preview output, effective fee, impact, volatility, and utilization.
    pub fn quote_dynamic_swap(&self, amount_in: i128, token_in: u64, now: u64) -> (r: Result<SwapQuote, Error>)
        requires
            self@.wf(),
        ensures
            r == self@.quote(amount_in as int, token_in, now),
            r matches Ok(q) ==> (self@.dynamic_fee_config is Some && self@.volatility_state.ema_volatility_bps >= 0 ==> {
                let w = self@.dynamic_fee_config->Some_0.volatility_window as int;
                let s = self@.volatility_state;
                let elapsed = if now >= s.last_timestamp { now - s.last_timestamp } else { 0int };
                &&& elapsed >= w ==> q.volatility_bps == 0
                &&& elapsed < w ==> {
                    &&& q.volatility_bps * w <= s.ema_volatility_bps * (w - elapsed)
                    &&& s.ema_volatility_bps * (w - elapsed) < (q.volatility_bps + 1) * w
                }
            }),
    {
        if self.admin.is_none() {
            return Err(Error::NotInitialized);
        }
        let (ra, rb, _) = self.reserves_for_token_in(token_in)?;
        let q = self.build_swap_quote(amount_in, ra, rb, now);
        proof {
            if q is Ok && self@.dynamic_fee_config is Some && self@.volatility_state.ema_volatility_bps >= 0 {
                lemma_quote_volatility_decays(self@, amount_in as int, token_in, now);
            }
        }
        q
    }
}


/// A swap pays exactly the amount its preview quoted: whenever a swap
/// succeeds, `get_amount_out`/`quote_dynamic_swap` on the same storage and
/// time report the same output.
pub proof fn lemma_preview_matches_swap(v: AmmView, token_in: u64, amount_in: i128, min_out: i128, now: u64)
    ensures
        v.swap_outcome(token_in, amount_in, min_out, None, None, now) is Ok ==> {
            &&& v.quote(amount_in as int, token_in, now) is Ok
            &&& v.quote(amount_in as int, token_in, now)->Ok_0.amount_out
                == v.swap_outcome(token_in, amount_in, min_out, None, None, now)->Ok_0.0
        },
{
}

/// A swap never lowers the product of the reserves, in either direction.
pub proof fn lemma_swap_keeps_constant_product(
    v: AmmView,
    token_in: u64,
    amount_in: i128,
    min_out: i128,
    max_fee_bps: Option<i128>,
    deadline: Option<u64>,
    now: u64,
)
    requires
        v.wf(),
    ensures
        v.swap_outcome(token_in, amount_in, min_out, max_fee_bps, deadline, now) matches Ok((_, next))
            ==> next.reserve_a * next.reserve_b >= v.reserve_a * v.reserve_b,
{
    if let Ok((out, next)) = v.swap_outcome(token_in, amount_in, min_out, max_fee_bps, deadline, now) {
        let (rin, rout, a_to_b) = v.reserves_for(token_in)->Ok_0;
        let q = spec_swap_quote(v, amount_in as int, rin as int, rout as int, now)->Ok_0;
        let (fee, vol, util) = spec_effective_fee(v, amount_in as int, rin as int, now)->Ok_0;
        let g = amount_in * (10_000 - fee);
        assert(0 <= fee < 10_000);
        assert(g > 0) by (nonlinear_arith) requires g == amount_in * (10_000 - fee), amount_in > 0, fee < 10_000;
        assert(g * rout >= 0) by (nonlinear_arith) requires g > 0, rout > 0;
        assert(rin * 10_000 > 0) by (nonlinear_arith) requires rin > 0;
        lemma_constant_product(amount_in as int, rin as int, rout as int, fee as int, out as int);
        if !a_to_b {
            assert((rout - out) * (rin + amount_in) == (rin + amount_in) * (rout - out)) by (nonlinear_arith);
            assert(rout * rin == rin * rout) by (nonlinear_arith);
        }
    }
}

/// A deposit into a pool that already has LP shares mints the smaller
/// proportional share: at most `amount_a * total_lp / reserve_a` and at
/// most `amount_b * total_lp / reserve_b` (so no LP unit gains a claim on
/// either reserve beyond what was put in), and the largest whole number of
/// shares with that property.
pub proof fn lemma_lp_minted_proportional(v: AmmView, amount_a: i128, amount_b: i128)
    requires
        v.total_lp > 0,
        v.reserve_a > 0,
        v.reserve_b > 0,
        amount_a > 0,
        amount_b > 0,
        v.lp_minted(amount_a, amount_b) is Ok,
    ensures
        ({
            let m = v.lp_minted(amount_a, amount_b)->Ok_0 as int;
            let t = v.total_lp as int;
            &&& m >= 0
            &&& m * v.reserve_a <= amount_a * t
            &&& m * v.reserve_b <= amount_b * t
            &&& (m + 1) * v.reserve_a > amount_a * t || (m + 1) * v.reserve_b > amount_b * t
        }),
{
    let t = v.total_lp as int;
    let pa = amount_a * t;
    let pb = amount_b * t;
    assert(pa > 0) by (nonlinear_arith) requires amount_a > 0, t > 0, pa == amount_a * t;
    assert(pb > 0) by (nonlinear_arith) requires amount_b > 0, t > 0, pb == amount_b * t;
    let ra = v.reserve_a as int;
    let rb = v.reserve_b as int;
    let la = pa / ra;
    let lb = pb / rb;
    assert(la * ra <= pa && pa < (la + 1) * ra && la >= 0) by (nonlinear_arith)
        requires la == pa / ra, ra > 0, pa > 0;
    assert(lb * rb <= pb && pb < (lb + 1) * rb && lb >= 0) by (nonlinear_arith)
        requires lb == pb / rb, rb > 0, pb > 0;
    let m = v.lp_minted(amount_a, amount_b)->Ok_0 as int;
    assert(m == if la <= lb { la } else { lb });
    if la <= lb {
        assert(m * rb <= pb) by (nonlinear_arith) requires m == la, la <= lb, lb * rb <= pb, rb > 0, la >= 0;
    } else {
        assert(m * ra <= pa) by (nonlinear_arith) requires m == lb, lb < la, la * ra <= pa, ra > 0, lb >= 0;
    }
}

/// Recent volatility decays linearly over the window: `elapsed` seconds
/// after the last observation of a non-negative EMA, the decayed value is
/// `ema * (window - elapsed) / window` rounded down (so about half the EMA
/// at half the window), and zero once the window has passed.
pub proof fn lemma_volatility_decays_linearly(state: VolatilityState, config: DynamicFeeConfig, now: u64)
    requires
        config.volatility_window > 0,
        state.ema_volatility_bps >= 0,
        spec_decayed_volatility(state, config, now) is Ok,
    ensures
        ({
            let d = spec_decayed_volatility(state, config, now)->Ok_0 as int;
            let w = config.volatility_window as int;
            let elapsed = if now >= state.last_timestamp { now - state.last_timestamp } else { 0int };
            &&& elapsed >= w ==> d == 0
            &&& elapsed < w ==> {
                &&& d * w <= state.ema_volatility_bps * (w - elapsed)
                &&& state.ema_volatility_bps * (w - elapsed) < (d + 1) * w
                &&& 0 <= d <= state.ema_volatility_bps
            }
        }),
{
    let w = config.volatility_window as int;
    let elapsed = if now >= state.last_timestamp { now - state.last_timestamp } else { 0int };
    if elapsed < w {
        let e = state.ema_volatility_bps as int;
        let p = e * (w - elapsed);
        assert(0 <= p <= e * w) by (nonlinear_arith) requires p == e * (w - elapsed), e >= 0, 0 <= elapsed < w;
        let d = p / w;
        assert(d * w <= p && p < (d + 1) * w && 0 <= d <= e) by (nonlinear_arith)
            requires d == p / w, w > 0, 0 <= p <= e * w;
    }
}

/// The volatility a dynamic-fee quote uses is the stored EMA decayed
/// linearly over the window since the last observation.
pub proof fn lemma_quote_volatility_decays(v: AmmView, amount_in: int, token_in: u64, now: u64)
    requires
        v.wf(),
        v.dynamic_fee_config is Some,
        v.volatility_state.ema_volatility_bps >= 0,
        v.quote(amount_in, token_in, now) is Ok,
    ensures
        ({
            let q = v.quote(amount_in, token_in, now)->Ok_0;
            let w = v.dynamic_fee_config->Some_0.volatility_window as int;
            let s = v.volatility_state;
            let elapsed = if now >= s.last_timestamp { now - s.last_timestamp } else { 0int };
            &&& elapsed >= w ==> q.volatility_bps == 0
            &&& elapsed < w ==> {
                &&& q.volatility_bps * w <= s.ema_volatility_bps * (w - elapsed)
                &&& s.ema_volatility_bps * (w - elapsed) < (q.volatility_bps + 1) * w
            }
        }),
{
    let c = v.dynamic_fee_config->Some_0;
    let (rin, rout, _) = v.reserves_for(token_in)->Ok_0;
    assert(spec_effective_fee(v, amount_in, rin as int, now) is Ok);
    assert(spec_decayed_volatility(v.volatility_state, c, now) is Ok);
    lemma_volatility_decays_linearly(v.volatility_state, c, now);
}

/// A successful swap pays the quoted output, at least `min_out` and less
/// than the output reserve; the input reserve grows by `amount_in` and the
/// output reserve shrinks by the output; the product of the reserves never
/// falls; the traded volume grows by `amount_in` and the fees by the fee
/// share of it, rounded down.
pub proof fn lemma_swap_settles(
    v: AmmView,
    token_in: u64,
    amount_in: i128,
    min_out: i128,
    max_fee_bps: Option<i128>,
    deadline: Option<u64>,
    now: u64,
)
    requires
        v.wf(),
        v.swap_outcome(token_in, amount_in, min_out, max_fee_bps, deadline, now) is Ok,
    ensures
        ({
            let (out, next) = v.swap_outcome(token_in, amount_in, min_out, max_fee_bps, deadline, now)->Ok_0;
            let q = v.quote(amount_in as int, token_in, now)->Ok_0;
            &&& v.quote(amount_in as int, token_in, now) is Ok
            &&& out == q.amount_out
            &&& 0 < out && out >= min_out
            &&& 0 <= q.fee_bps < 10_000
            &&& token_in == v.token_a ==> {
                &&& next.reserve_a == v.reserve_a + amount_in
                &&& next.reserve_b == v.reserve_b - out
                &&& out < v.reserve_b
            }
            &&& token_in != v.token_a ==> {
                &&& token_in == v.token_b
                &&& next.reserve_b == v.reserve_b + amount_in
                &&& next.reserve_a == v.reserve_a - out
                &&& out < v.reserve_a
            }
            &&& next.reserve_a * next.reserve_b >= v.reserve_a * v.reserve_b
            &&& next.total_volume == v.total_volume + amount_in
            &&& next.total_fees == v.total_fees + (amount_in * q.fee_bps) / 10_000
        }),
{
    let (out, next) = v.swap_outcome(token_in, amount_in, min_out, max_fee_bps, deadline, now)->Ok_0;
    let (rin, rout, a_to_b) = v.reserves_for(token_in)->Ok_0;
    let q = spec_swap_quote(v, amount_in as int, rin as int, rout as int, now)->Ok_0;
    let (fee, vol, util) = spec_effective_fee(v, amount_in as int, rin as int, now)->Ok_0;
    let g = amount_in * (10_000 - fee);
    assert(0 <= fee < 10_000);
    assert(g > 0) by (nonlinear_arith) requires g == amount_in * (10_000 - fee), amount_in > 0, fee < 10_000;
    assert(g * rout >= 0) by (nonlinear_arith) requires g > 0, rout > 0;
    assert(rin * 10_000 > 0) by (nonlinear_arith) requires rin > 0;
    lemma_constant_product(amount_in as int, rin as int, rout as int, fee as int, out as int);
    assert(amount_in * fee >= 0) by (nonlinear_arith) requires amount_in > 0, fee >= 0;
    lemma_swap_keeps_constant_product(v, token_in, amount_in, min_out, max_fee_bps, deadline, now);
}

impl AmmPool {
    fn ensure_initialized(&self) -> (r: Result<(), Error>)
        ensures
            r == (if self@.admin is None { Err(Error::NotInitialized) } else { Ok(()) }),
    {
        if self.admin.is_none() {
            return Err(Error::NotInitialized);
        }
        Ok(())
    }

    pub fn get_reserves(&self) -> (r: Result<(i128, i128), Error>)
        ensures
            r == (if self@.admin is None { Err(Error::NotInitialized) } else { Ok((self@.reserve_a, self@.reserve_b)) }),
    {
        self.ensure_initialized()?;
        Ok((self.reserve_a, self.reserve_b))
    }

    pub fn get_lp_balance(&self, addr: u64) -> (r: Result<i128, Error>)
        ensures
            r == (if self@.admin is None { Err(Error::NotInitialized) } else { Ok(self@.lp_of(addr)) }),
    {
        self.ensure_initialized()?;
        Ok(self.lp_of(addr))
    }

    pub fn get_total_lp(&self) -> (r: Result<i128, Error>)
        ensures
            r == (if self@.admin is None { Err(Error::NotInitialized) } else { Ok(self@.total_lp) }),
    {
        self.ensure_initialized()?;
        Ok(self.total_lp)
    }

    /// Returns (price_a_cumulative, price_b_cumulative, last_timestamp).
    pub fn get_twap(&self) -> (r: Result<(i128, i128, u64), Error>)
        ensures
            r == (if self@.admin is None {
                Err(Error::NotInitialized)
            } else {
                Ok((self@.price_a_cum, self@.price_b_cum, self@.last_ts))
            }),
    {
        self.ensure_initialized()?;
        Ok((self.price_a_cum, self.price_b_cum, self.last_ts))
    }

    pub fn get_fee_bps(&self) -> (r: Result<i128, Error>)
        ensures
            r == (if self@.admin is None { Err(Error::NotInitialized) } else { Ok(self@.fee_bps) }),
    {
        self.ensure_initialized()?;
        Ok(self.fee_bps)
    }

    pub fn get_dynamic_fee_config(&self) -> (r: Result<Option<DynamicFeeConfig>, Error>)
        ensures
            r == (if self@.admin is None { Err(Error::NotInitialized) } else { Ok(self@.dynamic_fee_config) }),
    {
        self.ensure_initialized()?;
        Ok(self.dynamic_fee_config)
    }

    pub fn get_volatility_state(&self) -> (r: Result<VolatilityState, Error>)
        ensures
            r == (if self@.admin is None { Err(Error::NotInitialized) } else { Ok(self@.volatility_state) }),
    {
        self.ensure_initialized()?;
        Ok(self.volatility_state)
    }

    /// Current collection statistics.
    pub fn get_collection_stats(&self) -> (r: Result<CollectionStats, Error>)
        ensures
            r == (match (self@.admin, self@.collection_stats) {
                (None, _) => Err(Error::NotInitialized),
                (_, None) => Err(Error::NotInitialized),
                (_, Some(stats)) => Ok(stats),
            }),
    {
        self.ensure_initialized()?;
        match self.collection_stats {
            Some(stats) => Ok(stats),
            None => Err(Error::NotInitialized),
        }
    }

    /// Record a new floor price and refresh the collection statistics.
    pub fn update_floor_price(&mut self, admin: u64, new_floor: i128, now: u64) -> (r: Result<(), Error>)
        ensures
            r == (if old(self)@.admin is None {
                Err(Error::NotInitialized)
            } else if new_floor < 0 {
                Err(Error::ZeroAmount)
            } else {
                Ok(())
            }),
            r is Err ==> final(self)@ == old(self)@,
            r is Ok ==> final(self)@ == (AmmView {
                floor_price: new_floor,
                collection_stats: match old(self)@.collection_stats {
                    None => None,
                    Some(stats) => Some(CollectionStats { floor_price: new_floor, last_update: now, ..stats }),
                },
                ..old(self)@
            }),
            old(self)@.wf() ==> final(self)@.wf(),
    {
        self.ensure_initialized()?;
        if new_floor < 0 {
            return Err(Error::ZeroAmount);
        }
        self.floor_price = new_floor;
        if let Some(stats) = self.collection_stats {
            self.collection_stats = Some(CollectionStats { floor_price: new_floor, last_update: now, ..stats });
        }
        Ok(())
    }

    /// Total trading volume and fees.
    pub fn get_pool_metrics(&self) -> (r: Result<(i128, i128), Error>)
        ensures
            r == (if self@.admin is None { Err(Error::NotInitialized) } else { Ok((self@.total_volume, self@.total_fees)) }),
    {
        self.ensure_initialized()?;
        Ok((self.total_volume, self.total_fees))
    }

    pub fn get_floor_price(&self) -> (r: Result<i128, Error>)
        ensures
            r == (if self@.admin is None { Err(Error::NotInitialized) } else { Ok(self@.floor_price) }),
    {
        self.ensure_initialized()?;
        Ok(self.floor_price)
    }

    /// The NFT collection recorded by `initialize_nft`, if any.
    pub fn get_nft_collection(&self) -> (r: Result<Option<u64>, Error>)
        ensures
            r == (if self@.admin is None { Err(Error::NotInitialized) } else { Ok(self@.nft_collection) }),
    {
        self.ensure_initialized()?;
        Ok(self.nft_collection)
    }
}

} // verus!
