//! A perpetual-futures market: a virtual AMM whose reserve ratio gives the
//! mark price, an oracle-fed index price, and an eight-hour funding rate
//! settled from their premium, capped at one percent per interval.
//!
//! Accounts are numbers; the host authenticates callers and passes the
//! ledger time as `now`.
use vstd::prelude::*;

use crate::fixed::{fits_i128, mul_div_wide};

verus! {

pub const PRICE_SCALE: i128 = 10_000_000;
pub const BPS_SCALE: i128 = 10_000;
pub const FUNDING_INTERVAL: u64 = 28_800;
pub const MAX_FUNDING_RATE_BPS: i128 = 100;
/// The most intervals one settlement catches up on.
pub const MAX_INTERVALS_PER_CALL: u64 = 21;

#[derive(Copy, Clone, Debug, PartialEq, Eq, Structural)]
pub enum Error {
    AlreadyInitialized,
    NotInitialized,
    Unauthorized,
    InvalidPrice,
    InvalidReserve,
    FundingTooEarly,
    ArithmeticOverflow,
}

#[derive(Copy, Clone, Debug, PartialEq, Eq, Structural)]
pub struct MarketState {
    pub base_reserve: i128,
    pub index_price: i128,
    pub mark_price: i128,
    pub quote_reserve: i128,
}

#[derive(Copy, Clone, Debug, PartialEq, Eq, Structural)]
pub struct FundingState {
    /// Sum of every settled funding rate, in basis points.
    pub cumulative_funding_bps: i128,
    /// Most recently settled eight-hour rate; positive means longs pay shorts.
    pub current_rate_bps: i128,
    pub last_funding_timestamp: u64,
    pub next_funding_timestamp: u64,
}

#[derive(Copy, Clone, Debug, PartialEq, Eq, Structural)]
pub struct FundingSettlement {
    pub cumulative_funding_bps: i128,
    pub intervals_settled: u64,
    pub rate_bps: i128,
}

/// `floor(a * b / d)`, refused for a negative factor, a non-positive
/// denominator or a quotient beyond `i128::MAX`.
pub open spec fn mul_div_spec(a: int, b: int, d: int) -> Result<i128, Error> {
    if a < 0 || b < 0 || d <= 0 || !fits_i128((a * b) / d) {
        Err(Error::ArithmeticOverflow)
    } else {
        Ok(((a * b) / d) as i128)
    }
}

/// `floor(a * b / denominator)` with a 256-bit intermediate product.
pub fn mul_div(a: i128, b: i128, denominator: i128) -> (r: Result<i128, Error>)
    ensures
        r == mul_div_spec(a as int, b as int, denominator as int),
{
    if a < 0 || b < 0 || denominator <= 0 {
        return Err(Error::ArithmeticOverflow);
    }
    match mul_div_wide(a, b, denominator) {
        Some(q) => Ok(q),
        None => Err(Error::ArithmeticOverflow),
    }
}

/// The mark price that reserves `base` and `quote` give: `quote / base`
/// scaled by `PRICE_SCALE`, rounded down.
pub open spec fn reserve_price_spec(base: i128, quote: i128) -> Result<i128, Error> {
    mul_div_spec(quote as int, PRICE_SCALE as int, base as int)
}

pub fn reserve_price(base: i128, quote: i128) -> (r: Result<i128, Error>)
    ensures
        r == reserve_price_spec(base, quote),
{
    mul_div(quote, PRICE_SCALE, base)
}

/// `x` clamped to `[-MAX_FUNDING_RATE_BPS, MAX_FUNDING_RATE_BPS]`.
pub open spec fn cap_rate(x: int) -> int {
    if x > MAX_FUNDING_RATE_BPS { MAX_FUNDING_RATE_BPS as int }
    else if x < -MAX_FUNDING_RATE_BPS { -MAX_FUNDING_RATE_BPS }
    else { x }
}

/// The funding rate for one interval: the premium of mark over index in
/// basis points of the index (rounded toward zero), capped.
pub open spec fn premium_spec(mark: i128, index: i128) -> Result<i128, Error> {
    if mark <= 0 || index <= 0 {
        Err(Error::InvalidPrice)
    } else {
        let difference = if mark >= index { mark - index } else { index - mark };
        match mul_div_spec(difference, BPS_SCALE as int, index as int) {
            Err(e) => Err(e),
            Ok(magnitude) => Ok(
                cap_rate(if mark >= index { magnitude as int } else { -magnitude }) as i128,
            ),
        }
    }
}

pub fn premium_bps(mark: i128, index: i128) -> (r: Result<i128, Error>)
    ensures
        r == premium_spec(mark, index),
        r matches Ok(rate) ==> -MAX_FUNDING_RATE_BPS <= rate <= MAX_FUNDING_RATE_BPS,
{
    if mark <= 0 || index <= 0 {
        return Err(Error::InvalidPrice);
    }
    let (negative, difference) = if mark >= index {
        (false, mark - index)
    } else {
        (true, index - mark)
    };
    let magnitude = mul_div(difference, BPS_SCALE, index)?;
    let signed = if negative { -magnitude } else { magnitude };
    if signed > MAX_FUNDING_RATE_BPS {
        Ok(MAX_FUNDING_RATE_BPS)
    } else if signed < -MAX_FUNDING_RATE_BPS {
        Ok(-MAX_FUNDING_RATE_BPS)
    } else {
        Ok(signed)
    }
}

/// The abstract contents of the market's storage.
pub struct PerpetualsView {
    pub admin: Option<u64>,
    pub oracle: u64,
    pub market: MarketState,
    pub funding: FundingState,
}

/// The market. It is initialized once `admin` is set.
pub struct Perpetuals {
    pub admin: Option<u64>,
    pub oracle: u64,
    pub market: MarketState,
    pub funding: FundingState,
}

impl View for Perpetuals {
    type V = PerpetualsView;

    open spec fn view(&self) -> PerpetualsView {
        PerpetualsView { admin: self.admin, oracle: self.oracle, market: self.market, funding: self.funding }
    }
}

impl PerpetualsView {
    /// The market's standing facts: positive reserves and index, the mark
    /// price that the reserves give, a capped current rate and the next
    /// settlement one interval after the last.
    pub open spec fn wf(self) -> bool {
        self.admin is Some ==> {
            &&& self.market.base_reserve > 0 && self.market.quote_reserve > 0
            &&& self.market.index_price > 0
            &&& reserve_price_spec(self.market.base_reserve, self.market.quote_reserve)
                == Ok::<i128, Error>(self.market.mark_price)
            &&& -MAX_FUNDING_RATE_BPS <= self.funding.current_rate_bps <= MAX_FUNDING_RATE_BPS
            &&& self.funding.next_funding_timestamp == self.funding.last_funding_timestamp + FUNDING_INTERVAL
        }
    }

    /// The intervals that a settlement at `now` covers.
    pub open spec fn intervals_due(self, now: u64) -> int {
        let due = (now - self.funding.last_funding_timestamp) / FUNDING_INTERVAL as int;
        if due < MAX_INTERVALS_PER_CALL { due } else { MAX_INTERVALS_PER_CALL as int }
    }

    /// What a settlement at `now` returns: the checks in order, then the
    /// settlement.
    pub open spec fn settle_outcome(self, now: u64) -> Result<FundingSettlement, Error> {
        if self.admin is None {
            Err(Error::NotInitialized)
        } else if now < self.funding.next_funding_timestamp {
            Err(Error::FundingTooEarly)
        } else if now < self.funding.last_funding_timestamp {
            Err(Error::ArithmeticOverflow)
        } else {
            match premium_spec(self.market.mark_price, self.market.index_price) {
                Err(e) => Err(e),
                Ok(rate) => {
                    let n = self.intervals_due(now);
                    let cumulative = self.funding.cumulative_funding_bps + rate * n;
                    let last = self.funding.last_funding_timestamp + FUNDING_INTERVAL * n;
                    if !fits_i128(cumulative) || last > u64::MAX || last + FUNDING_INTERVAL > u64::MAX {
                        Err(Error::ArithmeticOverflow)
                    } else {
                        Ok(FundingSettlement {
                            cumulative_funding_bps: cumulative as i128,
                            intervals_settled: n as u64,
                            rate_bps: rate,
                        })
                    }
                },
            }
        }
    }
}

impl Perpetuals {
    /// A market with empty storage.
    pub fn new() -> (r: Self)
        ensures
            r@ == (PerpetualsView {
                admin: None,
                oracle: 0,
                market: MarketState { base_reserve: 0, index_price: 0, mark_price: 0, quote_reserve: 0 },
                funding: FundingState {
                    cumulative_funding_bps: 0,
                    current_rate_bps: 0,
                    last_funding_timestamp: 0,
                    next_funding_timestamp: 0,
                },
            }),
            r@.wf(),
    {
        Perpetuals {
            admin: None,
            oracle: 0,
            market: MarketState { base_reserve: 0, index_price: 0, mark_price: 0, quote_reserve: 0 },
            funding: FundingState {
                cumulative_funding_bps: 0,
                current_rate_bps: 0,
                last_funding_timestamp: 0,
                next_funding_timestamp: 0,
            },
        }
    }

    /// Opens the market at `now`; the mark price comes from the reserves.
    pub fn initialize(
        &mut self,
        admin: u64,
        oracle: u64,
        base_reserve: i128,
        quote_reserve: i128,
        index_price: i128,
        now: u64,
    ) -> (r: Result<(), Error>)
        ensures
            r == (if old(self)@.admin is Some {
                Err(Error::AlreadyInitialized)
            } else if base_reserve <= 0 || quote_reserve <= 0 {
                Err(Error::InvalidReserve)
            } else if index_price <= 0 {
                Err(Error::InvalidPrice)
            } else if reserve_price_spec(base_reserve, quote_reserve) is Err {
                Err(Error::ArithmeticOverflow)
            } else if now as int + FUNDING_INTERVAL > u64::MAX {
                Err(Error::ArithmeticOverflow)
            } else {
                Ok(())
            }),
            r is Err ==> final(self)@ == old(self)@,
            r is Ok ==> final(self)@ == (PerpetualsView {
                admin: Some(admin),
                oracle,
                market: MarketState {
                    base_reserve,
                    index_price,
                    mark_price: reserve_price_spec(base_reserve, quote_reserve)->Ok_0,
                    quote_reserve,
                },
                funding: FundingState {
                    cumulative_funding_bps: 0,
                    current_rate_bps: 0,
                    last_funding_timestamp: now,
                    next_funding_timestamp: (now + FUNDING_INTERVAL) as u64,
                },
            }),
            old(self)@.wf() ==> final(self)@.wf(),
    {
        if self.admin.is_some() {
            return Err(Error::AlreadyInitialized);
        }
        if base_reserve <= 0 || quote_reserve <= 0 {
            return Err(Error::InvalidReserve);
        }
        if index_price <= 0 {
            return Err(Error::InvalidPrice);
        }
        let mark_price = reserve_price(base_reserve, quote_reserve)?;
        let next = match now.checked_add(FUNDING_INTERVAL) {
            Some(v) => v,
            None => return Err(Error::ArithmeticOverflow),
        };
        self.admin = Some(admin);
        self.oracle = oracle;
        self.market = MarketState { base_reserve, index_price, mark_price, quote_reserve };
        self.funding = FundingState {
            cumulative_funding_bps: 0,
            current_rate_bps: 0,
            last_funding_timestamp: now,
            next_funding_timestamp: next,
        };
        Ok(())
    }

    fn ensure_initialized(&self) -> (r: Result<(), Error>)
        ensures
            r == (if self@.admin is None { Err(Error::NotInitialized) } else { Ok(()) }),
    {
        if self.admin.is_none() {
            return Err(Error::NotInitialized);
        }
        Ok(())
    }

    /// Replaces the virtual reserves; returns the new mark price.
    pub fn update_vamm_reserves(&mut self, admin: u64, base_reserve: i128, quote_reserve: i128) -> (r: Result<i128, Error>)
        ensures
            r == (match old(self)@.admin {
                None => Err(Error::NotInitialized),
                Some(a) => if a != admin {
                    Err(Error::Unauthorized)
                } else if base_reserve <= 0 || quote_reserve <= 0 {
                    Err(Error::InvalidReserve)
                } else {
                    reserve_price_spec(base_reserve, quote_reserve)
                },
            }),
            r is Err ==> final(self)@ == old(self)@,
            r matches Ok(mark) ==> final(self)@ == (PerpetualsView {
                market: MarketState {
                    base_reserve,
                    quote_reserve,
                    mark_price: mark,
                    ..old(self)@.market
                },
                ..old(self)@
            }),
            old(self)@.wf() ==> final(self)@.wf(),
    {
        match self.admin {
            None => return Err(Error::NotInitialized),
            Some(a) => if a != admin {
                return Err(Error::Unauthorized);
            },
        }
        if base_reserve <= 0 || quote_reserve <= 0 {
            return Err(Error::InvalidReserve);
        }
        let mark_price = reserve_price(base_reserve, quote_reserve)?;
        self.market = MarketState { base_reserve, quote_reserve, mark_price, ..self.market };
        Ok(mark_price)
    }

    /// Sets the index price; only the oracle may.
    pub fn update_index_price(&mut self, oracle: u64, index_price: i128) -> (r: Result<(), Error>)
        ensures
            r == (if old(self)@.admin is None {
                Err(Error::NotInitialized)
            } else if old(self)@.oracle != oracle {
                Err(Error::Unauthorized)
            } else if index_price <= 0 {
                Err(Error::InvalidPrice)
            } else {
                Ok(())
            }),
            r is Err ==> final(self)@ == old(self)@,
            r is Ok ==> final(self)@ == (PerpetualsView {
                market: MarketState { index_price, ..old(self)@.market },
                ..old(self)@
            }),
            old(self)@.wf() ==> final(self)@.wf(),
    {
        self.ensure_initialized()?;
        if self.oracle != oracle {
            return Err(Error::Unauthorized);
        }
        if index_price <= 0 {
            return Err(Error::InvalidPrice);
        }
        self.market = MarketState { index_price, ..self.market };
        Ok(())
    }

    /// The rate that a settlement would apply now.
    pub fn preview_funding_rate(&self) -> (r: Result<i128, Error>)
        ensures
            r == (if self@.admin is None {
                Err(Error::NotInitialized)
            } else {
                premium_spec(self@.market.mark_price, self@.market.index_price)
            }),
            r matches Ok(rate) ==> -MAX_FUNDING_RATE_BPS <= rate <= MAX_FUNDING_RATE_BPS,
    {
        self.ensure_initialized()?;
        premium_bps(self.market.mark_price, self.market.index_price)
    }

    /// Settles the intervals elapsed by `now`, at most
    /// `MAX_INTERVALS_PER_CALL` of them; anyone may call it.
    pub fn settle_funding(&mut self, now: u64) -> (r: Result<FundingSettlement, Error>)
        ensures
            r == old(self)@.settle_outcome(now),
            r is Err ==> final(self)@ == old(self)@,
            r matches Ok(s) ==> final(self)@ == (PerpetualsView {
                funding: FundingState {
                    cumulative_funding_bps: s.cumulative_funding_bps,
                    current_rate_bps: s.rate_bps,
                    last_funding_timestamp: (old(self)@.funding.last_funding_timestamp
                        + FUNDING_INTERVAL * s.intervals_settled) as u64,
                    next_funding_timestamp: (old(self)@.funding.last_funding_timestamp
                        + FUNDING_INTERVAL * s.intervals_settled + FUNDING_INTERVAL) as u64,
                },
                ..old(self)@
            }),
            old(self)@.wf() ==> final(self)@.wf(),
            old(self)@.wf() ==> (r matches Ok(s) ==> {
                &&& 1 <= s.intervals_settled <= MAX_INTERVALS_PER_CALL
                &&& -MAX_FUNDING_RATE_BPS <= s.rate_bps <= MAX_FUNDING_RATE_BPS
                &&& (now - old(self)@.funding.last_funding_timestamp) / FUNDING_INTERVAL as int
                    <= MAX_INTERVALS_PER_CALL ==> now < final(self)@.funding.next_funding_timestamp
            }),
    {
        self.ensure_initialized()?;
        let mut funding = self.funding;
        if now < funding.next_funding_timestamp {
            return Err(Error::FundingTooEarly);
        }
        let elapsed = match now.checked_sub(funding.last_funding_timestamp) {
            Some(v) => v,
            None => return Err(Error::ArithmeticOverflow),
        };
        let due = elapsed / FUNDING_INTERVAL;
        let intervals = if due < MAX_INTERVALS_PER_CALL { due } else { MAX_INTERVALS_PER_CALL };
        let rate = premium_bps(self.market.mark_price, self.market.index_price)?;
        assert(-2100 <= rate * intervals <= 2100) by (nonlinear_arith)
            requires -100 <= rate <= 100, 0 <= intervals <= 21;
        let accrued = rate * (intervals as i128);
        funding.cumulative_funding_bps = match funding.cumulative_funding_bps.checked_add(accrued) {
            Some(v) => v,
            None => return Err(Error::ArithmeticOverflow),
        };
        funding.current_rate_bps = rate;
        let advance = FUNDING_INTERVAL * intervals;
        funding.last_funding_timestamp = match funding.last_funding_timestamp.checked_add(advance) {
            Some(v) => v,
            None => return Err(Error::ArithmeticOverflow),
        };
        funding.next_funding_timestamp = match funding.last_funding_timestamp.checked_add(FUNDING_INTERVAL) {
            Some(v) => v,
            None => return Err(Error::ArithmeticOverflow),
        };
        self.funding = funding;
        proof {
            if old(self)@.wf() {
                assert(elapsed >= FUNDING_INTERVAL);
                assert(due >= 1);
                if due <= MAX_INTERVALS_PER_CALL {
                    assert(elapsed < FUNDING_INTERVAL * (due + 1)) by (nonlinear_arith)
                        requires due == elapsed / 28_800, elapsed >= 0;
                }
            }
        }
        Ok(FundingSettlement {
            cumulative_funding_bps: funding.cumulative_funding_bps,
            intervals_settled: intervals,
            rate_bps: rate,
        })
    }

    pub fn get_market(&self) -> (r: Result<MarketState, Error>)
        ensures
            r == (if self@.admin is None { Err(Error::NotInitialized) } else { Ok(self@.market) }),
    {
        self.ensure_initialized()?;
        Ok(self.market)
    }

    pub fn get_funding(&self) -> (r: Result<FundingState, Error>)
        ensures
            r == (if self@.admin is None { Err(Error::NotInitialized) } else { Ok(self@.funding) }),
    {
        self.ensure_initialized()?;
        Ok(self.funding)
    }

    pub fn get_admin(&self) -> (r: Result<u64, Error>)
        ensures
            r == (match self@.admin { None => Err(Error::NotInitialized), Some(a) => Ok(a) }),
    {
        match self.admin {
            None => Err(Error::NotInitialized),
            Some(a) => Ok(a),
        }
    }

    pub fn get_oracle(&self) -> (r: Result<u64, Error>)
        ensures
            r == (if self@.admin is None { Err(Error::NotInitialized) } else { Ok(self@.oracle) }),
    {
        self.ensure_initialized()?;
        Ok(self.oracle)
    }
}

} // verus!
