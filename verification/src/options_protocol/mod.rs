//! On-chain call/put options: a writer locks collateral, a holder pays a
//! premium, and can exercise before expiry; collateralized European options
//! settle in cash against an authenticated oracle price.
//!
//! Accounts, tokens and underlying symbols are identified by numbers. The
//! caller's signature, token transfers and the ledger clock are supplied by
//! the host: each method takes the current time `now` where the contract reads
//! it, and a successful call tells the host which transfer to make (a deposit
//! moves `amount` from the writer to the pool, a settlement pays the returned
//! amount to the holder, a collateralized write moves the premium from holder
//! to writer).
pub mod math;
pub mod types;

use std::collections::HashMap;
use vstd::prelude::*;

pub use self::types::{
    Error, Greeks, GreeksInput, MarginAccount, MarginConfig, MarginPosition, OptionContract,
    OptionKind, OptionStatus, PriceData,
};
use crate::fixed::{fits_i128, tdiv, div_trunc, min_i128, max_i128, sat_sub};

verus! {

broadcast use vstd::std_specs::hash::group_hash_axioms;

/// The abstract contents of the contract's storage.
pub struct OptionsView {
    pub admin: Option<u64>,
    pub option_count: u32,
    pub paused: bool,
    pub margin_config: Option<MarginConfig>,
    pub options: Map<u32, OptionContract>,
    pub accounts: Map<u64, MarginAccount>,
    pub positions: Map<u32, MarginPosition>,
    pub prices: Map<u64, PriceData>,
}

/// The options protocol's storage.
pub struct OptionsProtocol {
    pub admin: Option<u64>,
    pub option_count: u32,
    pub paused: bool,
    pub margin_config: Option<MarginConfig>,
    pub options: HashMap<u32, OptionContract>,
    pub margin_accounts: HashMap<u64, MarginAccount>,
    pub margin_positions: HashMap<u32, MarginPosition>,
    pub prices: HashMap<u64, PriceData>,
}

impl View for OptionsProtocol {
    type V = OptionsView;

    open spec fn view(&self) -> OptionsView {
        OptionsView {
            admin: self.admin,
            option_count: self.option_count,
            paused: self.paused,
            margin_config: self.margin_config,
            options: self.options@,
            accounts: self.margin_accounts@,
            positions: self.margin_positions@,
            prices: self.prices@,
        }
    }
}

impl OptionsView {
    /// A writer's margin account; an unknown writer holds nothing.
    pub open spec fn account(self, writer: u64) -> MarginAccount {
        if self.accounts.contains_key(writer) {
            self.accounts[writer]
        } else {
            MarginAccount { balance: 0, locked: 0 }
        }
    }

    /// Every writer's locked margin is covered by its balance, and every
    /// position reserves a non-negative amount.
    pub open spec fn solvent(self) -> bool {
        &&& forall|w: u64| #[trigger] self.accounts.contains_key(w)
            ==> self.accounts[w].locked <= self.accounts[w].balance
        &&& forall|id: u32| #[trigger] self.positions.contains_key(id)
            ==> self.positions[id].locked >= 0
        &&& forall|u: u64| #[trigger] self.prices.contains_key(u) ==> self.prices[u].price > 0
        &&& forall|id: u32| #[trigger] self.options.contains_key(id) ==> self.options[id].amount > 0
        &&& forall|id: u32| #[trigger] self.positions.contains_key(id) ==> self.positions[id].max_payout > 0
    }

    /// The price of `underlying` if it is at most `max_price_age` old at `now`.
    pub open spec fn fresh_price(self, underlying: u64, now: u64) -> Result<i128, Error> {
        if !self.prices.contains_key(underlying) {
            Err(Error::InvalidPrice)
        } else if now < self.prices[underlying].updated_at {
            Err(Error::InvalidPrice)
        } else if now - self.prices[underlying].updated_at > self.margin_config.unwrap().max_price_age {
            Err(Error::StalePrice)
        } else {
            Ok(self.prices[underlying].price)
        }
    }
}

/// The payoff of `amount` units at `spot`: `max(spot - strike, 0)` for a call,
/// `max(strike - spot, 0)` for a put (the difference saturating), scaled.
pub open spec fn spec_intrinsic_value(spot: int, strike: int, amount: int, kind: OptionKind) -> Result<i128, Error> {
    let difference = match kind {
        OptionKind::Call => crate::fixed::clamp_i128(spot - strike),
        OptionKind::Put => crate::fixed::clamp_i128(strike - spot),
    };
    math::spec_mul(if difference < 0 { 0 } else { difference }, amount)
}

/// The intrinsic value of an option is its gain per unit times the units,
/// scaled down and rounded toward zero: a call gains `spot - strike`, a put
/// `strike - spot`, and an option that gains nothing is worth nothing.
pub proof fn lemma_intrinsic_value_is_payoff(spot: i128, strike: i128, amount: i128, kind: OptionKind)
    requires
        amount >= 0,
        spec_intrinsic_value(spot as int, strike as int, amount as int, kind) is Ok,
    ensures
        ({
            let v = spec_intrinsic_value(spot as int, strike as int, amount as int, kind)->Ok_0 as int;
            let gain: int = match kind {
                OptionKind::Call => spot - strike,
                OptionKind::Put => strike - spot,
            };
            &&& gain <= 0 ==> v == 0
            &&& 0 < gain <= i128::MAX ==> v * math::SCALE <= gain * amount < (v + 1) * math::SCALE
            &&& 0 < gain <= i128::MAX && gain * amount >= math::SCALE ==> v > 0
        }),
{
    let gain: int = match kind {
        OptionKind::Call => spot - strike,
        OptionKind::Put => strike - spot,
    };
    let difference = crate::fixed::clamp_i128(gain);
    let d = if difference < 0 { 0 } else { difference };
    lemma_payoff_scaled(d, amount as int);
    let v = spec_intrinsic_value(spot as int, strike as int, amount as int, kind)->Ok_0 as int;
    if 0 < gain <= i128::MAX && gain * amount >= math::SCALE {
        assert(v > 0) by (nonlinear_arith)
            requires gain * amount < (v + 1) * math::SCALE, gain * amount >= math::SCALE;
    }
}

proof fn lemma_payoff_scaled(d: int, amount: int)
    requires
        d >= 0,
        amount >= 0,
    ensures
        d * amount >= 0,
        crate::fixed::tdiv(d * amount, math::SCALE as int) * math::SCALE <= d * amount,
        d * amount < (crate::fixed::tdiv(d * amount, math::SCALE as int) + 1) * math::SCALE,
        d == 0 ==> crate::fixed::tdiv(d * amount, math::SCALE as int) == 0,
{
    assert(d * amount >= 0) by (nonlinear_arith) requires d >= 0, amount >= 0;
    let p = d * amount;
    let q = p / (math::SCALE as int);
    assert(q * math::SCALE <= p && p < (q + 1) * math::SCALE) by (nonlinear_arith)
        requires q == p / 10_000_000int, p >= 0;
    if d == 0 {
        assert(p == 0) by (nonlinear_arith) requires p == d * amount, d == 0;
    }
}

/// Collateral for a position: intrinsic value plus the maintenance share of
/// the notional, capped at `max_payout`.
pub open spec fn spec_required_margin(
    spot: int,
    strike: int,
    amount: int,
    kind: OptionKind,
    max_payout: int,
    maintenance_margin_bps: int,
) -> Result<i128, Error> {
    match spec_intrinsic_value(spot, strike, amount, kind) {
        Err(e) => Err(e),
        Ok(intrinsic) => match math::spec_mul(spot, amount) {
            Err(e) => Err(e),
            Ok(notional) => if !fits_i128(notional * maintenance_margin_bps) {
                Err(Error::MathOverflow)
            } else {
                let maintenance = tdiv(notional * maintenance_margin_bps, 10_000);
                if !fits_i128(intrinsic + maintenance) {
                    Err(Error::MathOverflow)
                } else if intrinsic + maintenance <= max_payout {
                    Ok((intrinsic + maintenance) as i128)
                } else {
                    Ok(max_payout as i128)
                }
            },
        },
    }
}

impl OptionsProtocol {
    /// A contract with empty storage.
    pub fn new() -> (r: Self)
        ensures
            r@.admin is None,
            r@.option_count == 0,
            !r@.paused,
            r@.margin_config is None,
            r@.options == Map::<u32, OptionContract>::empty(),
            r@.accounts == Map::<u64, MarginAccount>::empty(),
            r@.positions == Map::<u32, MarginPosition>::empty(),
            r@.prices == Map::<u64, PriceData>::empty(),
            r@.solvent(),
    {
        OptionsProtocol {
            admin: None,
            option_count: 0,
            paused: false,
            margin_config: None,
            options: HashMap::new(),
            margin_accounts: HashMap::new(),
            margin_positions: HashMap::new(),
            prices: HashMap::new(),
        }
    }

    // ── Initialisation ──────────────────────────────────────────────────────

    pub fn initialize(&mut self, admin: u64) -> (r: Result<(), Error>)
        ensures
            r == (if old(self)@.admin is Some {
                Err::<(), Error>(Error::AlreadyInitialized)
            } else {
                Ok::<(), Error>(())
            }),
            r is Err ==> final(self)@ == old(self)@,
            r is Ok ==> final(self)@ == (OptionsView {
                admin: Some(admin),
                option_count: 0,
                paused: false,
                ..old(self)@
            }),
    {
        if self.admin.is_some() {
            return Err(Error::AlreadyInitialized);
        }
        self.admin = Some(admin);
        self.option_count = 0;
        self.paused = false;
        Ok(())
    }

    // ── Admin ───────────────────────────────────────────────────────────────

    fn assert_admin(&self, caller: u64) -> (r: Result<(), Error>)
        ensures
            r == (if self.admin is None {
                Err(Error::NotInitialized)
            } else if self.admin.unwrap() != caller {
                Err(Error::Unauthorized)
            } else {
                Ok(())
            }),
    {
        match self.admin {
            None => Err(Error::NotInitialized),
            Some(a) => if a != caller { Err(Error::Unauthorized) } else { Ok(()) },
        }
    }

    pub fn set_paused(&mut self, admin: u64, paused: bool) -> (r: Result<(), Error>)
        ensures
            old(self)@.admin is None ==> r == Err::<(), Error>(Error::NotInitialized),
            old(self)@.admin is Some && old(self)@.admin.unwrap() != admin
                ==> r == Err::<(), Error>(Error::Unauthorized),
            old(self)@.admin == Some(admin) ==> r is Ok,
            r is Err ==> final(self)@ == old(self)@,
            r is Ok ==> final(self)@ == (OptionsView { paused, ..old(self)@ }),
    {
        self.assert_admin(admin)?;
        self.paused = paused;
        Ok(())
    }

    /// Configure the token-backed margin pool once.
    pub fn configure_margin_pool(
        &mut self,
        admin: u64,
        settlement_token: u64,
        oracle: u64,
        maintenance_margin_bps: u32,
        max_price_age: u64,
    ) -> (r: Result<(), Error>)
        ensures
            r == (if old(self)@.admin is None {
                Err(Error::NotInitialized)
            } else if old(self)@.admin.unwrap() != admin {
                Err(Error::Unauthorized)
            } else if old(self)@.margin_config is Some {
                Err(Error::PoolAlreadyConfigured)
            } else if maintenance_margin_bps == 0 || maintenance_margin_bps > 10_000 || max_price_age == 0 {
                Err(Error::InvalidMarginConfig)
            } else {
                Ok(())
            }),
            r is Err ==> final(self)@ == old(self)@,
            r is Ok ==> final(self)@ == (OptionsView {
                margin_config: Some(MarginConfig { settlement_token, oracle, maintenance_margin_bps, max_price_age }),
                ..old(self)@
            }),
    {
        self.assert_admin(admin)?;
        if self.margin_config.is_some() {
            return Err(Error::PoolAlreadyConfigured);
        }
        if maintenance_margin_bps == 0 || maintenance_margin_bps > 10_000 || max_price_age == 0 {
            return Err(Error::InvalidMarginConfig);
        }
        self.margin_config = Some(MarginConfig { settlement_token, oracle, maintenance_margin_bps, max_price_age });
        Ok(())
    }

    /// Store an authenticated oracle observation taken at `now`.
    pub fn update_price(&mut self, oracle: u64, underlying: u64, price: i128, now: u64) -> (r: Result<(), Error>)
        ensures
            r == (if old(self)@.paused {
                Err(Error::ContractPaused)
            } else if old(self)@.margin_config is None {
                Err(Error::PoolNotConfigured)
            } else if oracle != old(self)@.margin_config.unwrap().oracle {
                Err(Error::Unauthorized)
            } else if price <= 0 {
                Err(Error::InvalidPrice)
            } else {
                Ok(())
            }),
            r is Err ==> final(self)@ == old(self)@,
            r is Ok ==> final(self)@ == (OptionsView {
                prices: old(self)@.prices.insert(underlying, PriceData { price, updated_at: now }),
                ..old(self)@
            }),
            old(self)@.solvent() ==> final(self)@.solvent(),
    {
        if self.paused {
            return Err(Error::ContractPaused);
        }
        let config = match self.margin_config {
            Some(c) => c,
            None => return Err(Error::PoolNotConfigured),
        };
        if oracle != config.oracle {
            return Err(Error::Unauthorized);
        }
        if price <= 0 {
            return Err(Error::InvalidPrice);
        }
        self.prices.insert(underlying, PriceData { price, updated_at: now });
        proof {
            let a = final(self)@;
            if old(self)@.solvent() {
                assert forall|u: u64| #[trigger] a.prices.contains_key(u) implies a.prices[u].price > 0 by {
                    if u != underlying {
                        assert(old(self)@.prices.contains_key(u));
                    }
                }
            }
        }
        Ok(())
    }

    fn margin_account(&self, writer: u64) -> (r: MarginAccount)
        ensures
            r == self@.account(writer),
    {
        match self.margin_accounts.get(&writer) {
            Some(a) => *a,
            None => MarginAccount { balance: 0, locked: 0 },
        }
    }

    /// Deposit settlement tokens into a writer's pooled margin account.
    pub fn deposit_margin(&mut self, writer: u64, amount: i128) -> (r: Result<(), Error>)
        ensures
            r == (if old(self)@.paused {
                Err(Error::ContractPaused)
            } else if old(self)@.admin is None {
                Err(Error::NotInitialized)
            } else if amount <= 0 {
                Err(Error::InvalidAmount)
            } else if old(self)@.margin_config is None {
                Err(Error::PoolNotConfigured)
            } else if !fits_i128(old(self)@.account(writer).balance + amount) {
                Err(Error::MathOverflow)
            } else {
                Ok(())
            }),
            r is Err ==> final(self)@ == old(self)@,
            r is Ok ==> final(self)@ == (OptionsView {
                accounts: old(self)@.accounts.insert(writer, MarginAccount {
                    balance: (old(self)@.account(writer).balance + amount) as i128,
                    locked: old(self)@.account(writer).locked,
                }),
                ..old(self)@
            }),
            old(self)@.solvent() ==> final(self)@.solvent(),
    {
        if self.paused {
            return Err(Error::ContractPaused);
        }
        if self.admin.is_none() {
            return Err(Error::NotInitialized);
        }
        if amount <= 0 {
            return Err(Error::InvalidAmount);
        }
        if self.margin_config.is_none() {
            return Err(Error::PoolNotConfigured);
        }
        let account = self.margin_account(writer);
        let balance = match account.balance.checked_add(amount) {
            Some(b) => b,
            None => return Err(Error::MathOverflow),
        };
        self.margin_accounts.insert(writer, MarginAccount { balance, locked: account.locked });
        proof {
            let a = final(self)@;
            assert forall|w: u64| #[trigger] a.accounts.contains_key(w) && old(self)@.solvent()
                implies a.accounts[w].locked <= a.accounts[w].balance by {
                if w != writer {
                    assert(old(self)@.accounts.contains_key(w));
                }
            }
        }
        Ok(())
    }

    /// Withdraw tokens that are not reserved by an open position.
    pub fn withdraw_margin(&mut self, writer: u64, amount: i128) -> (r: Result<(), Error>)
        ensures
            r == (if old(self)@.paused {
                Err(Error::ContractPaused)
            } else if amount <= 0 {
                Err(Error::InvalidAmount)
            } else if old(self)@.margin_config is None {
                Err(Error::PoolNotConfigured)
            } else if !fits_i128(old(self)@.account(writer).balance - old(self)@.account(writer).locked) {
                Err(Error::MathOverflow)
            } else if amount > old(self)@.account(writer).balance - old(self)@.account(writer).locked {
                Err(Error::InsufficientMargin)
            } else {
                Ok(())
            }),
            r is Err ==> final(self)@ == old(self)@,
            r is Ok ==> final(self)@ == (OptionsView {
                accounts: old(self)@.accounts.insert(writer, MarginAccount {
                    balance: (old(self)@.account(writer).balance - amount) as i128,
                    locked: old(self)@.account(writer).locked,
                }),
                ..old(self)@
            }),
            old(self)@.solvent() ==> final(self)@.solvent(),
    {
        if self.paused {
            return Err(Error::ContractPaused);
        }
        if amount <= 0 {
            return Err(Error::InvalidAmount);
        }
        if self.margin_config.is_none() {
            return Err(Error::PoolNotConfigured);
        }
        let account = self.margin_account(writer);
        let available = match account.balance.checked_sub(account.locked) {
            Some(a) => a,
            None => return Err(Error::MathOverflow),
        };
        if amount > available {
            return Err(Error::InsufficientMargin);
        }
        self.margin_accounts.insert(writer, MarginAccount { balance: account.balance - amount, locked: account.locked });
        proof {
            let a = final(self)@;
            assert forall|w: u64| #[trigger] a.accounts.contains_key(w) && old(self)@.solvent()
                implies a.accounts[w].locked <= a.accounts[w].balance by {
                if w != writer {
                    assert(old(self)@.accounts.contains_key(w));
                }
            }
        }
        Ok(())
    }

    // ── Writer actions ──────────────────────────────────────────────────────

    /// The validation shared by both ways of writing an option.
    pub open spec fn option_terms_error(
        writer: u64,
        holder: u64,
        strike_price: i128,
        premium: i128,
        amount: i128,
        expiry: u64,
        now: u64,
    ) -> Option<Error> {
        if writer == holder {
            Some(Error::WriterCannotBeHolder)
        } else if strike_price <= 0 {
            Some(Error::InvalidStrike)
        } else if premium < 0 {
            Some(Error::InvalidPremium)
        } else if amount <= 0 {
            Some(Error::InvalidAmount)
        } else if expiry <= now {
            Some(Error::InvalidExpiry)
        } else {
            None
        }
    }

    fn validate_option(
        writer: u64,
        holder: u64,
        strike_price: i128,
        premium: i128,
        amount: i128,
        expiry: u64,
        now: u64,
    ) -> (r: Result<(), Error>)
        ensures
            r == (match Self::option_terms_error(writer, holder, strike_price, premium, amount, expiry, now) {
                Some(e) => Err(e),
                None => Ok(()),
            }),
    {
        if writer == holder {
            return Err(Error::WriterCannotBeHolder);
        }
        if strike_price <= 0 {
            return Err(Error::InvalidStrike);
        }
        if premium < 0 {
            return Err(Error::InvalidPremium);
        }
        if amount <= 0 {
            return Err(Error::InvalidAmount);
        }
        if expiry <= now {
            return Err(Error::InvalidExpiry);
        }
        Ok(())
    }

    /// Write a new option and assign it to `holder`. Returns the option ID.
    pub fn write_option(
        &mut self,
        writer: u64,
        holder: u64,
        underlying: u64,
        strike_price: i128,
        premium: i128,
        amount: i128,
        expiry: u64,
        kind: OptionKind,
        now: u64,
    ) -> (r: Result<u32, Error>)
        requires
            old(self).option_count < u32::MAX,
        ensures
            r == (if old(self)@.paused {
                Err(Error::ContractPaused)
            } else if old(self)@.admin is None {
                Err(Error::NotInitialized)
            } else {
                match Self::option_terms_error(writer, holder, strike_price, premium, amount, expiry, now) {
                    Some(e) => Err(e),
                    None => Ok((old(self)@.option_count + 1) as u32),
                }
            }),
            r is Err ==> final(self)@ == old(self)@,
            r matches Ok(id) ==> final(self)@ == (OptionsView {
                option_count: id,
                options: old(self)@.options.insert(id, OptionContract {
                    id,
                    writer,
                    holder,
                    underlying,
                    strike_price,
                    premium,
                    amount,
                    expiry,
                    kind,
                    status: OptionStatus::Active,
                }),
                ..old(self)@
            }),
    {
        if self.paused {
            return Err(Error::ContractPaused);
        }
        if self.admin.is_none() {
            return Err(Error::NotInitialized);
        }
        Self::validate_option(writer, holder, strike_price, premium, amount, expiry, now)?;
        let id = self.option_count + 1;
        self.options.insert(id, OptionContract {
            id,
            writer,
            holder,
            underlying,
            strike_price,
            premium,
            amount,
            expiry,
            kind,
            status: OptionStatus::Active,
        });
        self.option_count = id;
        Ok(id)
    }

    fn fresh_price(&self, underlying: u64, now: u64) -> (r: Result<i128, Error>)
        requires
            self.margin_config is Some,
        ensures
            r == self@.fresh_price(underlying, now),
    {
        let observation = match self.prices.get(&underlying) {
            Some(p) => *p,
            None => return Err(Error::InvalidPrice),
        };
        if now < observation.updated_at {
            return Err(Error::InvalidPrice);
        }
        let age = now - observation.updated_at;
        let config = self.margin_config.unwrap();
        if age > config.max_price_age {
            return Err(Error::StalePrice);
        }
        Ok(observation.price)
    }

    /// The payoff of `amount` units at `spot`.
    pub fn intrinsic_value(spot: i128, strike: i128, amount: i128, kind: OptionKind) -> (r: Result<i128, Error>)
        ensures
            r == spec_intrinsic_value(spot as int, strike as int, amount as int, kind),
            amount >= 0 ==> (r matches Ok(v) ==> v >= 0),
            r matches Ok(v) ==> (amount >= 0 ==> {
                let gain: int = match kind {
                    OptionKind::Call => spot - strike,
                    OptionKind::Put => strike - spot,
                };
                &&& gain <= 0 ==> v == 0
                &&& 0 < gain <= i128::MAX ==> v * math::SCALE <= gain * amount < (v + 1) * math::SCALE
            }),
    {
        let price_difference = match kind {
            OptionKind::Call => sat_sub(spot, strike),
            OptionKind::Put => sat_sub(strike, spot),
        };
        let difference = max_i128(price_difference, 0);
        proof {
            if amount >= 0 {
                assert(difference * amount >= 0) by (nonlinear_arith) requires difference >= 0, amount >= 0;
                lemma_payoff_scaled(difference as int, amount as int);
            }
        }
        math::mul(difference, amount)
    }

    /// Collateral for a position of `amount` units at `spot`.
    pub fn required_margin(
        spot: i128,
        strike: i128,
        amount: i128,
        kind: OptionKind,
        max_payout: i128,
        maintenance_margin_bps: u32,
    ) -> (r: Result<i128, Error>)
        ensures
            r == spec_required_margin(spot as int, strike as int, amount as int, kind,
                max_payout as int, maintenance_margin_bps as int),
            spot >= 0 && amount >= 0 && max_payout >= 0 ==> (r matches Ok(v) ==> 0 <= v <= max_payout),
    {
        let intrinsic = Self::intrinsic_value(spot, strike, amount, kind)?;
        let notional = math::mul(spot, amount)?;
        proof {
            assert(spot * amount >= 0 ==> notional >= 0);
            assert(spot >= 0 && amount >= 0 ==> spot * amount >= 0) by (nonlinear_arith);
        }
        let scaled = match notional.checked_mul(maintenance_margin_bps as i128) {
            Some(v) => v,
            None => return Err(Error::MathOverflow),
        };
        proof {
            assert(notional >= 0 ==> scaled >= 0) by (nonlinear_arith)
                requires scaled == notional * maintenance_margin_bps, maintenance_margin_bps >= 0;
        }
        let maintenance = div_trunc(scaled, 10_000);
        let total = match intrinsic.checked_add(maintenance) {
            Some(v) => v,
            None => return Err(Error::MathOverflow),
        };
        Ok(min_i128(total, max_payout))
    }

    /// Write an expiry-only option backed by the shared margin pool.
    /// `max_payout` caps the writer's liability and is enforced at settlement.
    pub fn write_collateralized_option(
        &mut self,
        writer: u64,
        holder: u64,
        underlying: u64,
        strike_price: i128,
        premium: i128,
        amount: i128,
        expiry: u64,
        kind: OptionKind,
        max_payout: i128,
        now: u64,
    ) -> (r: Result<u32, Error>)
        ensures
            ({
                let s = old(self)@;
                let account = s.account(writer);
                r == (if s.paused {
                    Err(Error::ContractPaused)
                } else if s.admin is None {
                    Err(Error::NotInitialized)
                } else if Self::option_terms_error(writer, holder, strike_price, premium, amount, expiry, now) is Some {
                    Err(Self::option_terms_error(writer, holder, strike_price, premium, amount, expiry, now).unwrap())
                } else if max_payout <= 0 {
                    Err(Error::InvalidMaxPayout)
                } else if s.margin_config is None {
                    Err(Error::PoolNotConfigured)
                } else if s.fresh_price(underlying, now) is Err {
                    Err(s.fresh_price(underlying, now)->Err_0)
                } else {
                    let spot = s.fresh_price(underlying, now)->Ok_0;
                    let required = spec_required_margin(spot as int, strike_price as int, amount as int,
                        kind, max_payout as int, s.margin_config.unwrap().maintenance_margin_bps as int);
                    if required is Err {
                        Err(required->Err_0)
                    } else if !fits_i128(account.balance - account.locked) {
                        Err(Error::MathOverflow)
                    } else if account.balance - account.locked < required->Ok_0 {
                        Err(Error::InsufficientMargin)
                    } else if s.option_count == u32::MAX || !fits_i128(account.locked + required->Ok_0) {
                        Err(Error::MathOverflow)
                    } else {
                        Ok((s.option_count + 1) as u32)
                    }
                })
            }),
            r is Err ==> final(self)@ == old(self)@,
            r matches Ok(id) ==> {
                let s = old(self)@;
                let spot = s.fresh_price(underlying, now)->Ok_0;
                let required = spec_required_margin(spot as int, strike_price as int, amount as int,
                    kind, max_payout as int, s.margin_config.unwrap().maintenance_margin_bps as int)->Ok_0;
                final(self)@ == (OptionsView {
                    option_count: id,
                    options: s.options.insert(id, OptionContract {
                        id, writer, holder, underlying, strike_price, premium, amount, expiry, kind,
                        status: OptionStatus::Active,
                    }),
                    accounts: s.accounts.insert(writer, MarginAccount {
                        balance: s.account(writer).balance,
                        locked: (s.account(writer).locked + required) as i128,
                    }),
                    positions: s.positions.insert(id, MarginPosition { locked: required, max_payout }),
                    ..s
                })
            },
            old(self)@.solvent() ==> final(self)@.solvent(),
    {
        if self.paused {
            return Err(Error::ContractPaused);
        }
        if self.admin.is_none() {
            return Err(Error::NotInitialized);
        }
        Self::validate_option(writer, holder, strike_price, premium, amount, expiry, now)?;
        if max_payout <= 0 {
            return Err(Error::InvalidMaxPayout);
        }
        let config = match self.margin_config {
            Some(c) => c,
            None => return Err(Error::PoolNotConfigured),
        };
        let spot = self.fresh_price(underlying, now)?;
        let required = Self::required_margin(
            spot,
            strike_price,
            amount,
            kind,
            max_payout,
            config.maintenance_margin_bps,
        )?;
        let account = self.margin_account(writer);
        let available = match account.balance.checked_sub(account.locked) {
            Some(a) => a,
            None => return Err(Error::MathOverflow),
        };
        if available < required {
            return Err(Error::InsufficientMargin);
        }
        let id = match self.option_count.checked_add(1) {
            Some(i) => i,
            None => return Err(Error::MathOverflow),
        };
        let locked = match account.locked.checked_add(required) {
            Some(l) => l,
            None => return Err(Error::MathOverflow),
        };
        self.margin_accounts.insert(writer, MarginAccount { balance: account.balance, locked });
        self.margin_positions.insert(id, MarginPosition { locked: required, max_payout });
        self.options.insert(id, OptionContract {
            id,
            writer,
            holder,
            underlying,
            strike_price,
            premium,
            amount,
            expiry,
            kind,
            status: OptionStatus::Active,
        });
        self.option_count = id;
        proof {
            let a = final(self)@;
            if old(self)@.solvent() {
                assert forall|w: u64| #[trigger] a.accounts.contains_key(w)
                    implies a.accounts[w].locked <= a.accounts[w].balance by {
                    if w != writer {
                        assert(old(self)@.accounts.contains_key(w));
                    }
                }
                assert forall|i: u32| #[trigger] a.positions.contains_key(i)
                    implies a.positions[i].locked >= 0 by {
                    if i != id {
                        assert(old(self)@.positions.contains_key(i));
                    }
                }
            }
        }
        Ok(id)
    }
}


impl OptionsProtocol {
    fn get_option_rec(&self, id: u32) -> (r: Result<OptionContract, Error>)
        ensures
            r == (if self@.options.contains_key(id) {
                Ok(self@.options[id])
            } else {
                Err(Error::OptionNotFound)
            }),
    {
        match self.options.get(&id) {
            Some(o) => Ok(*o),
            None => Err(Error::OptionNotFound),
        }
    }

    /// Cancel an active, uncollateralized option (writer only).
    pub fn cancel_option(&mut self, writer: u64, option_id: u32) -> (r: Result<(), Error>)
        ensures
            ({
                let s = old(self)@;
                r == (if s.admin is None {
                    Err(Error::NotInitialized)
                } else if !s.options.contains_key(option_id) {
                    Err(Error::OptionNotFound)
                } else if s.options[option_id].writer != writer {
                    Err(Error::Unauthorized)
                } else if s.positions.contains_key(option_id) {
                    Err(Error::EuropeanOnly)
                } else if s.options[option_id].status != OptionStatus::Active {
                    Err(Error::OptionNotActive)
                } else {
                    Ok(())
                })
            }),
            r is Err ==> final(self)@ == old(self)@,
            r is Ok ==> final(self)@ == (OptionsView {
                options: old(self)@.options.insert(option_id,
                    OptionContract { status: OptionStatus::Cancelled, ..old(self)@.options[option_id] }),
                ..old(self)@
            }),
            old(self)@.solvent() ==> final(self)@.solvent(),
    {
        if self.admin.is_none() {
            return Err(Error::NotInitialized);
        }
        let option = self.get_option_rec(option_id)?;
        if option.writer != writer {
            return Err(Error::Unauthorized);
        }
        if self.margin_positions.contains_key(&option_id) {
            return Err(Error::EuropeanOnly);
        }
        if option.status != OptionStatus::Active {
            return Err(Error::OptionNotActive);
        }
        self.options.insert(option_id, OptionContract { status: OptionStatus::Cancelled, ..option });
        Ok(())
    }

    /// Release the margin reserved for a collateralized option.
    fn release_position(&mut self, option: &OptionContract) -> (r: Result<(), Error>)
        ensures
            ({
                let s = old(self)@;
                let acct = s.account(option.writer);
                r == (if !s.positions.contains_key(option.id) {
                    Ok(())
                } else if !fits_i128(acct.locked - s.positions[option.id].locked) {
                    Err(Error::MathOverflow)
                } else {
                    Ok(())
                })
            }),
            r is Err ==> final(self)@ == old(self)@,
            r is Ok && !old(self)@.positions.contains_key(option.id) ==> final(self)@ == old(self)@,
            r is Ok && old(self)@.positions.contains_key(option.id) ==> final(self)@ == (OptionsView {
                accounts: old(self)@.accounts.insert(option.writer, MarginAccount {
                    balance: old(self)@.account(option.writer).balance,
                    locked: (old(self)@.account(option.writer).locked
                        - old(self)@.positions[option.id].locked) as i128,
                }),
                positions: old(self)@.positions.remove(option.id),
                ..old(self)@
            }),
            old(self)@.solvent() ==> final(self)@.solvent(),
    {
        let position = match self.margin_positions.get(&option.id) {
            Some(p) => *p,
            None => return Ok(()),
        };
        let account = self.margin_account(option.writer);
        let locked = match account.locked.checked_sub(position.locked) {
            Some(l) => l,
            None => return Err(Error::MathOverflow),
        };
        self.margin_accounts.insert(option.writer, MarginAccount { balance: account.balance, locked });
        self.margin_positions.remove(&option.id);
        proof {
            let a = final(self)@;
            if old(self)@.solvent() {
                assert(old(self)@.positions[option.id].locked >= 0);
                assert forall|w: u64| #[trigger] a.accounts.contains_key(w)
                    implies a.accounts[w].locked <= a.accounts[w].balance by {
                    if w != option.writer {
                        assert(old(self)@.accounts.contains_key(w));
                    }
                }
                assert forall|i: u32| #[trigger] a.positions.contains_key(i)
                    implies a.positions[i].locked >= 0 by {
                    assert(old(self)@.positions.contains_key(i));
                }
            }
        }
        Ok(())
    }

    /// Cancel a collateralized option before expiry with consent from both
    /// counterparties, releasing all reserved margin to the writer.
    pub fn cancel_collateralized_option(&mut self, writer: u64, holder: u64, option_id: u32, now: u64)
        -> (r: Result<(), Error>)
        ensures
            ({
                let s = old(self)@;
                let o = s.options[option_id];
                r == (if s.paused {
                    Err(Error::ContractPaused)
                } else if !s.options.contains_key(option_id) {
                    Err(Error::OptionNotFound)
                } else if o.writer != writer || o.holder != holder {
                    Err(Error::Unauthorized)
                } else if o.status != OptionStatus::Active {
                    Err(Error::OptionNotActive)
                } else if now >= o.expiry {
                    Err(Error::OptionExpired)
                } else if !s.positions.contains_key(option_id) {
                    Err(Error::PositionNotCollateralized)
                } else if !fits_i128(s.account(writer).locked - s.positions[option_id].locked) {
                    Err(Error::MathOverflow)
                } else {
                    Ok(())
                })
            }),
            r is Err ==> final(self)@ == old(self)@,
            r is Ok ==> final(self)@ == (OptionsView {
                options: old(self)@.options.insert(option_id,
                    OptionContract { status: OptionStatus::Cancelled, ..old(self)@.options[option_id] }),
                accounts: old(self)@.accounts.insert(writer, MarginAccount {
                    balance: old(self)@.account(writer).balance,
                    locked: (old(self)@.account(writer).locked - old(self)@.positions[option_id].locked) as i128,
                }),
                positions: old(self)@.positions.remove(option_id),
                ..old(self)@
            }),
            old(self)@.solvent() ==> final(self)@.solvent(),
    {
        if self.paused {
            return Err(Error::ContractPaused);
        }
        let option = self.get_option_rec(option_id)?;
        if option.writer != writer || option.holder != holder {
            return Err(Error::Unauthorized);
        }
        if option.status != OptionStatus::Active {
            return Err(Error::OptionNotActive);
        }
        if now >= option.expiry {
            return Err(Error::OptionExpired);
        }
        if !self.margin_positions.contains_key(&option_id) {
            return Err(Error::PositionNotCollateralized);
        }
        proof {
            assert(option.id == option_id || true);
        }
        self.release_position(&OptionContract { id: option_id, ..option })?;
        self.options.insert(option_id, OptionContract { status: OptionStatus::Cancelled, ..option });
        proof {
            let a = final(self)@;
            if old(self)@.solvent() {
                assert forall|w: u64| #[trigger] a.accounts.contains_key(w)
                    implies a.accounts[w].locked <= a.accounts[w].balance by {}
            }
        }
        Ok(())
    }

    // ── Holder actions ──────────────────────────────────────────────────────

    /// Exercise an active, uncollateralized option before expiry (holder
    /// only). Returns the recorded settlement value, the strike price.
    pub fn exercise(&mut self, holder: u64, option_id: u32, now: u64) -> (r: Result<i128, Error>)
        ensures
            ({
                let s = old(self)@;
                let o = s.options[option_id];
                r == (if s.paused {
                    Err(Error::ContractPaused)
                } else if s.admin is None {
                    Err(Error::NotInitialized)
                } else if !s.options.contains_key(option_id) {
                    Err(Error::OptionNotFound)
                } else if o.holder != holder {
                    Err(Error::Unauthorized)
                } else if o.status != OptionStatus::Active {
                    Err(Error::OptionNotActive)
                } else if s.positions.contains_key(option_id) {
                    Err(Error::EuropeanOnly)
                } else if now > o.expiry {
                    Err(Error::OptionExpired)
                } else {
                    Ok(o.strike_price)
                })
            }),
            r is Err ==> final(self)@ == old(self)@,
            r is Ok ==> final(self)@ == (OptionsView {
                options: old(self)@.options.insert(option_id,
                    OptionContract { status: OptionStatus::Exercised, ..old(self)@.options[option_id] }),
                ..old(self)@
            }),
            old(self)@.solvent() ==> final(self)@.solvent(),
    {
        if self.paused {
            return Err(Error::ContractPaused);
        }
        if self.admin.is_none() {
            return Err(Error::NotInitialized);
        }
        let option = self.get_option_rec(option_id)?;
        if option.holder != holder {
            return Err(Error::Unauthorized);
        }
        if option.status != OptionStatus::Active {
            return Err(Error::OptionNotActive);
        }
        if self.margin_positions.contains_key(&option_id) {
            return Err(Error::EuropeanOnly);
        }
        if now > option.expiry {
            return Err(Error::OptionExpired);
        }
        self.options.insert(option_id, OptionContract { status: OptionStatus::Exercised, ..option });
        Ok(option.strike_price)
    }

    /// Expire an uncollateralized option past its expiry (anyone can call).
    pub fn expire_option(&mut self, option_id: u32, now: u64) -> (r: Result<(), Error>)
        ensures
            ({
                let s = old(self)@;
                let o = s.options[option_id];
                r == (if s.admin is None {
                    Err(Error::NotInitialized)
                } else if !s.options.contains_key(option_id) {
                    Err(Error::OptionNotFound)
                } else if o.status != OptionStatus::Active {
                    Err(Error::OptionNotActive)
                } else if s.positions.contains_key(option_id) {
                    Err(Error::EuropeanOnly)
                } else if now <= o.expiry {
                    Err(Error::OptionNotExpired)
                } else {
                    Ok(())
                })
            }),
            r is Err ==> final(self)@ == old(self)@,
            r is Ok ==> final(self)@ == (OptionsView {
                options: old(self)@.options.insert(option_id,
                    OptionContract { status: OptionStatus::Expired, ..old(self)@.options[option_id] }),
                ..old(self)@
            }),
            old(self)@.solvent() ==> final(self)@.solvent(),
    {
        if self.admin.is_none() {
            return Err(Error::NotInitialized);
        }
        let option = self.get_option_rec(option_id)?;
        if option.status != OptionStatus::Active {
            return Err(Error::OptionNotActive);
        }
        if self.margin_positions.contains_key(&option_id) {
            return Err(Error::EuropeanOnly);
        }
        if now <= option.expiry {
            return Err(Error::OptionNotExpired);
        }
        self.options.insert(option_id, OptionContract { status: OptionStatus::Expired, ..option });
        Ok(())
    }
}


impl OptionsView {
    /// The collateral `option_id` needs at the current fresh price.
    pub open spec fn required_for(self, option_id: u32, now: u64) -> Result<i128, Error> {
        let o = self.options[option_id];
        match self.fresh_price(o.underlying, now) {
            Err(e) => Err(e),
            Ok(spot) => if !self.positions.contains_key(option_id) {
                Err(Error::PositionNotCollateralized)
            } else {
                spec_required_margin(spot as int, o.strike_price as int, o.amount as int, o.kind,
                    self.positions[option_id].max_payout as int,
                    self.margin_config.unwrap().maintenance_margin_bps as int)
            },
        }
    }

    /// The error `check_margin` reports before comparing collateral, if any.
    pub open spec fn check_margin_error(self, option_id: u32, now: u64) -> Option<Error> {
        let o = self.options[option_id];
        if self.paused {
            Some(Error::ContractPaused)
        } else if !self.options.contains_key(option_id) {
            Some(Error::OptionNotFound)
        } else if o.status != OptionStatus::Active && o.status != OptionStatus::MarginCalled {
            Some(Error::OptionNotActive)
        } else if self.margin_config is None {
            Some(Error::PoolNotConfigured)
        } else if self.required_for(option_id, now) is Err {
            Some(self.required_for(option_id, now)->Err_0)
        } else {
            None
        }
    }
}

impl OptionsProtocol {
    /// Rebalance a position against the latest authenticated price. `false`
    /// means a margin call was triggered: the shortfall exceeds the writer's
    /// unlocked margin and the option is marked `MarginCalled`.
    pub fn check_margin(&mut self, option_id: u32, now: u64) -> (r: Result<bool, Error>)
        requires
            old(self)@.solvent(),
            old(self)@.options.contains_key(option_id) ==> fits_i128(
                old(self)@.account(old(self)@.options[option_id].writer).balance
                    - old(self)@.account(old(self)@.options[option_id].writer).locked),
        ensures
            ({
                let s = old(self)@;
                let o = s.options[option_id];
                let acct = s.account(o.writer);
                let required = s.required_for(option_id, now)->Ok_0;
                let additional = required - s.positions[option_id].locked;
                r == (match s.check_margin_error(option_id, now) {
                    Some(e) => Err(e),
                    None => if additional > acct.balance - acct.locked {
                        Ok(false)
                    } else if !fits_i128(acct.locked + additional) {
                        Err(Error::MathOverflow)
                    } else {
                        Ok(true)
                    },
                })
            }),
            r is Err ==> final(self)@ == old(self)@,
            r == Ok::<bool, Error>(false) ==> final(self)@ == (OptionsView {
                options: old(self)@.options.insert(option_id,
                    OptionContract { status: OptionStatus::MarginCalled, ..old(self)@.options[option_id] }),
                ..old(self)@
            }),
            r == Ok::<bool, Error>(true) ==> {
                let s = old(self)@;
                let o = s.options[option_id];
                let required = s.required_for(option_id, now)->Ok_0;
                final(self)@ == (OptionsView {
                    options: s.options.insert(option_id, OptionContract { status: OptionStatus::Active, ..o }),
                    accounts: s.accounts.insert(o.writer, MarginAccount {
                        balance: s.account(o.writer).balance,
                        locked: (s.account(o.writer).locked + required - s.positions[option_id].locked) as i128,
                    }),
                    positions: s.positions.insert(option_id,
                        MarginPosition { locked: required, ..s.positions[option_id] }),
                    ..s
                })
            },
            final(self)@.solvent(),
    {
        if self.paused {
            return Err(Error::ContractPaused);
        }
        let option = self.get_option_rec(option_id)?;
        if option.status != OptionStatus::Active && option.status != OptionStatus::MarginCalled {
            return Err(Error::OptionNotActive);
        }
        let config = match self.margin_config {
            Some(c) => c,
            None => return Err(Error::PoolNotConfigured),
        };
        let spot = self.fresh_price(option.underlying, now)?;
        let position = match self.margin_positions.get(&option_id) {
            Some(p) => *p,
            None => return Err(Error::PositionNotCollateralized),
        };
        let required = Self::required_margin(
            spot,
            option.strike_price,
            option.amount,
            option.kind,
            position.max_payout,
            config.maintenance_margin_bps,
        )?;
        proof {
            assert(old(self)@.prices.contains_key(option.underlying));
            assert(old(self)@.positions.contains_key(option_id));
        }
        let account = self.margin_account(option.writer);
        let unlocked = account.balance - account.locked;
        let additional = required - position.locked;
        if additional > unlocked {
            self.options.insert(option_id, OptionContract { status: OptionStatus::MarginCalled, ..option });
            return Ok(false);
        }
        let locked = match account.locked.checked_add(additional) {
            Some(l) => l,
            None => return Err(Error::MathOverflow),
        };
        self.margin_accounts.insert(option.writer, MarginAccount { balance: account.balance, locked });
        self.margin_positions.insert(option_id, MarginPosition { locked: required, ..position });
        self.options.insert(option_id, OptionContract { status: OptionStatus::Active, ..option });
        proof {
            let a = final(self)@;
            assert forall|w: u64| #[trigger] a.accounts.contains_key(w)
                implies a.accounts[w].locked <= a.accounts[w].balance by {
                if w != option.writer {
                    assert(old(self)@.accounts.contains_key(w));
                }
            }
            assert forall|i: u32| #[trigger] a.positions.contains_key(i)
                implies a.positions[i].locked >= 0 && a.positions[i].max_payout > 0 by {
                if i != option_id {
                    assert(old(self)@.positions.contains_key(i));
                }
            }
        }
        Ok(true)
    }

    /// Restore a called position after the writer has deposited more margin.
    pub fn cure_margin_call(&mut self, writer: u64, option_id: u32, now: u64) -> (r: Result<(), Error>)
        requires
            old(self)@.solvent(),
            old(self)@.options.contains_key(option_id) ==> fits_i128(
                old(self)@.account(old(self)@.options[option_id].writer).balance
                    - old(self)@.account(old(self)@.options[option_id].writer).locked),
        ensures
            ({
                let s = old(self)@;
                let o = s.options[option_id];
                let acct = s.account(o.writer);
                let additional = s.required_for(option_id, now)->Ok_0 - s.positions[option_id].locked;
                r == (if !s.options.contains_key(option_id) {
                    Err(Error::OptionNotFound)
                } else if o.writer != writer {
                    Err(Error::Unauthorized)
                } else if o.status != OptionStatus::MarginCalled {
                    Err(Error::MarginCallNotActive)
                } else {
                    match s.check_margin_error(option_id, now) {
                        Some(e) => Err(e),
                        None => if additional > acct.balance - acct.locked {
                            Err(Error::InsufficientMargin)
                        } else if !fits_i128(acct.locked + additional) {
                            Err(Error::MathOverflow)
                        } else {
                            Ok(())
                        },
                    }
                })
            }),
            r is Err ==> final(self)@ == old(self)@,
            r is Ok ==> {
                let s = old(self)@;
                let o = s.options[option_id];
                let required = s.required_for(option_id, now)->Ok_0;
                final(self)@ == (OptionsView {
                    options: s.options.insert(option_id, OptionContract { status: OptionStatus::Active, ..o }),
                    accounts: s.accounts.insert(o.writer, MarginAccount {
                        balance: s.account(o.writer).balance,
                        locked: (s.account(o.writer).locked + required - s.positions[option_id].locked) as i128,
                    }),
                    positions: s.positions.insert(option_id,
                        MarginPosition { locked: required, ..s.positions[option_id] }),
                    ..s
                })
            },
            final(self)@.solvent(),
    {
        let option = self.get_option_rec(option_id)?;
        if option.writer != writer {
            return Err(Error::Unauthorized);
        }
        if option.status != OptionStatus::MarginCalled {
            return Err(Error::MarginCallNotActive);
        }
        let ghost before = self@;
        let healthy = self.check_margin(option_id, now)?;
        if !healthy {
            proof {
                assert(self@.options =~= before.options);
                assert(self@ == before);
            }
            return Err(Error::InsufficientMargin);
        }
        Ok(())
    }

    /// Cash-settle a collateralized European option at or after expiry using
    /// the latest authenticated price. Anyone may invoke settlement; the
    /// returned payout goes to the holder.
    pub fn settle_option(&mut self, option_id: u32, now: u64) -> (r: Result<i128, Error>)
        requires
            old(self)@.solvent(),
            old(self)@.options.contains_key(option_id) && old(self)@.positions.contains_key(option_id) ==> {
                let acct = old(self)@.account(old(self)@.options[option_id].writer);
                let locked = old(self)@.positions[option_id].locked;
                fits_i128(acct.locked - locked) && fits_i128(acct.balance - locked)
            },
        ensures
            ({
                let s = old(self)@;
                let o = s.options[option_id];
                let spot = s.fresh_price(o.underlying, now)->Ok_0;
                let value = spec_intrinsic_value(spot as int, o.strike_price as int, o.amount as int, o.kind);
                let pos = s.positions[option_id];
                let payout = if value->Ok_0 <= pos.max_payout { value->Ok_0 } else { pos.max_payout };
                r == (if s.paused {
                    Err(Error::ContractPaused)
                } else if !s.options.contains_key(option_id) {
                    Err(Error::OptionNotFound)
                } else if o.status != OptionStatus::Active && o.status != OptionStatus::MarginCalled {
                    Err(Error::OptionNotActive)
                } else if now < o.expiry {
                    Err(Error::OptionNotExpired)
                } else if s.margin_config is None {
                    Err(Error::PoolNotConfigured)
                } else if s.fresh_price(o.underlying, now) is Err {
                    Err(s.fresh_price(o.underlying, now)->Err_0)
                } else if !s.positions.contains_key(option_id) {
                    Err(Error::PositionNotCollateralized)
                } else if value is Err {
                    Err(value->Err_0)
                } else if payout > pos.locked {
                    Err(Error::InsufficientMargin)
                } else {
                    Ok(payout)
                })
            }),
            r is Err ==> final(self)@ == old(self)@,
            r matches Ok(payout) ==> {
                let s = old(self)@;
                let o = s.options[option_id];
                final(self)@ == (OptionsView {
                    options: s.options.insert(option_id, OptionContract {
                        status: if payout > 0 { OptionStatus::Exercised } else { OptionStatus::Expired },
                        ..o
                    }),
                    accounts: s.accounts.insert(o.writer, MarginAccount {
                        balance: (s.account(o.writer).balance - payout) as i128,
                        locked: (s.account(o.writer).locked - s.positions[option_id].locked) as i128,
                    }),
                    positions: s.positions.remove(option_id),
                    ..s
                })
            },
            r matches Ok(payout) ==> 0 <= payout <= old(self)@.positions[option_id].locked,
            final(self)@.solvent(),
    {
        if self.paused {
            return Err(Error::ContractPaused);
        }
        let option = self.get_option_rec(option_id)?;
        if option.status != OptionStatus::Active && option.status != OptionStatus::MarginCalled {
            return Err(Error::OptionNotActive);
        }
        if now < option.expiry {
            return Err(Error::OptionNotExpired);
        }
        if self.margin_config.is_none() {
            return Err(Error::PoolNotConfigured);
        }
        let spot = self.fresh_price(option.underlying, now)?;
        let position = match self.margin_positions.get(&option_id) {
            Some(p) => *p,
            None => return Err(Error::PositionNotCollateralized),
        };
        let value = Self::intrinsic_value(spot, option.strike_price, option.amount, option.kind)?;
        let payout = min_i128(value, position.max_payout);
        if payout > position.locked {
            return Err(Error::InsufficientMargin);
        }
        proof {
            assert(old(self)@.options.contains_key(option_id));
            assert(option.amount > 0);
            assert(old(self)@.positions.contains_key(option_id));
        }
        let account = self.margin_account(option.writer);
        self.margin_accounts.insert(option.writer, MarginAccount {
            balance: account.balance - payout,
            locked: account.locked - position.locked,
        });
        self.margin_positions.remove(&option_id);
        let status = if payout > 0 { OptionStatus::Exercised } else { OptionStatus::Expired };
        self.options.insert(option_id, OptionContract { status, ..option });
        proof {
            let a = final(self)@;
            assert forall|w: u64| #[trigger] a.accounts.contains_key(w)
                implies a.accounts[w].locked <= a.accounts[w].balance by {
                if w != option.writer {
                    assert(old(self)@.accounts.contains_key(w));
                }
            }
            assert forall|i: u32| #[trigger] a.positions.contains_key(i)
                implies a.positions[i].locked >= 0 && a.positions[i].max_payout > 0 by {
                assert(old(self)@.positions.contains_key(i));
            }
        }
        Ok(payout)
    }

    // ── Read-only ───────────────────────────────────────────────────────────

    pub fn get_option(&self, option_id: u32) -> (r: Result<OptionContract, Error>)
        ensures
            r == (if self@.options.contains_key(option_id) {
                Ok(self@.options[option_id])
            } else {
                Err(Error::OptionNotFound)
            }),
    {
        self.get_option_rec(option_id)
    }

    pub fn option_count(&self) -> (r: u32)
        ensures
            r == self@.option_count,
    {
        self.option_count
    }

    pub fn is_paused(&self) -> (r: bool)
        ensures
            r == self@.paused,
    {
        self.paused
    }

    pub fn get_admin(&self) -> (r: Result<u64, Error>)
        ensures
            r == (match self@.admin {
                Some(a) => Ok(a),
                None => Err(Error::NotInitialized),
            }),
    {
        match self.admin {
            Some(a) => Ok(a),
            None => Err(Error::NotInitialized),
        }
    }

    pub fn get_margin_config(&self) -> (r: Result<MarginConfig, Error>)
        ensures
            r == (match self@.margin_config {
                Some(c) => Ok(c),
                None => Err(Error::PoolNotConfigured),
            }),
    {
        match self.margin_config {
            Some(c) => Ok(c),
            None => Err(Error::PoolNotConfigured),
        }
    }

    pub fn get_margin_account(&self, writer: u64) -> (r: MarginAccount)
        ensures
            r == self@.account(writer),
    {
        self.margin_account(writer)
    }

    pub fn get_margin_position(&self, option_id: u32) -> (r: Result<MarginPosition, Error>)
        ensures
            r == (if self@.positions.contains_key(option_id) {
                Ok(self@.positions[option_id])
            } else {
                Err(Error::PositionNotCollateralized)
            }),
    {
        match self.margin_positions.get(&option_id) {
            Some(p) => Ok(*p),
            None => Err(Error::PositionNotCollateralized),
        }
    }

    pub fn get_price(&self, underlying: u64) -> (r: Result<PriceData, Error>)
        ensures
            r == (if self@.prices.contains_key(underlying) {
                Ok(self@.prices[underlying])
            } else {
                Err(Error::InvalidPrice)
            }),
    {
        match self.prices.get(&underlying) {
            Some(p) => Ok(*p),
            None => Err(Error::InvalidPrice),
        }
    }

    /// A Black-Scholes theoretical price and Greeks, without storage.
    pub fn calculate_greeks(&self, input: GreeksInput) -> (r: Result<Greeks, Error>)
        ensures
            r == math::spec_black_scholes(input),
    {
        math::black_scholes(&input)
    }
}

} // verus!
