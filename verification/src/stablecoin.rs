//! An algorithmic stablecoin that rebases its supply toward a target price,
//! with a peg stability module (PSM) that swaps two supported collaterals
//! into stablecoins one-to-one less a fee, fully backed by reserves.
//!
//! Accounts and collateral tokens are numbers; the host verifies signatures,
//! moves collateral (a PSM mint takes `amount_in` from the user, a PSM burn
//! pays `amount_out` to the user) and passes the ledger time as `now`.
use std::collections::HashMap;
use vstd::prelude::*;

use crate::fixed::{fits_i128, tdiv};

verus! {

broadcast use vstd::std_specs::hash::group_hash_axioms;

pub const BPS_DENOMINATOR: i128 = 10_000;
pub const MAX_PSM_FEE_BPS: u32 = 500;

#[derive(Copy, Clone, Debug, PartialEq, Eq, Structural)]
pub enum Error {
    Unauthorized,
    ContractPaused,
    AlreadyInState,
    NotInitialized,
    InvalidAmount,
    InsufficientBalance,
    PriceStale,
    RebaseTooFrequent,
    PsmNotConfigured,
    PsmAlreadyConfigured,
    UnsupportedCollateral,
    InvalidFee,
    SlippageExceeded,
    ArithmeticOverflow,
    InsufficientReserve,
    InsufficientPsmSupply,
}

#[derive(Copy, Clone, Debug, PartialEq, Eq, Structural)]
pub struct PsmConfig {
    pub burn_fee_bps: u32,
    pub mint_fee_bps: u32,
    pub usdc: u64,
    pub usdt: u64,
}

#[derive(Copy, Clone, Debug, PartialEq, Eq, Structural)]
pub struct SwapResult {
    pub amount_in: i128,
    pub amount_out: i128,
    pub collateral: u64,
    pub fee: i128,
}

#[derive(Copy, Clone, Debug, PartialEq, Eq, Structural)]
pub struct RebaseInfo {
    pub old_supply: i128,
    pub new_supply: i128,
    pub price: i128,
    pub timestamp: u64,
}

/// The abstract contents of the contract's storage.
pub struct StablecoinView {
    pub admin: Option<u64>,
    pub oracle: u64,
    pub target_price: i128,
    pub current_price: i128,
    pub total_supply: i128,
    pub share_supply: i128,
    pub paused: bool,
    pub last_rebase_time: u64,
    pub reserve_balance: i128,
    pub rebase_cooldown: u64,
    pub psm_config: Option<PsmConfig>,
    pub psm_supply: i128,
    pub balances: Map<u64, i128>,
    pub collateral_reserves: Map<u64, i128>,
}

/// The contract's storage. `oracle` is meaningful once `admin` is set.
pub struct AlgorithmicStablecoin {
    pub admin: Option<u64>,
    pub oracle: u64,
    pub target_price: i128,
    pub current_price: i128,
    pub total_supply: i128,
    pub share_supply: i128,
    pub paused: bool,
    pub last_rebase_time: u64,
    pub reserve_balance: i128,
    pub rebase_cooldown: u64,
    pub psm_config: Option<PsmConfig>,
    pub psm_supply: i128,
    pub user_tokens: HashMap<u64, i128>,
    pub collateral_reserves: HashMap<u64, i128>,
}

impl View for AlgorithmicStablecoin {
    type V = StablecoinView;

    open spec fn view(&self) -> StablecoinView {
        StablecoinView {
            admin: self.admin,
            oracle: self.oracle,
            target_price: self.target_price,
            current_price: self.current_price,
            total_supply: self.total_supply,
            share_supply: self.share_supply,
            paused: self.paused,
            last_rebase_time: self.last_rebase_time,
            reserve_balance: self.reserve_balance,
            rebase_cooldown: self.rebase_cooldown,
            psm_config: self.psm_config,
            psm_supply: self.psm_supply,
            balances: self.user_tokens@,
            collateral_reserves: self.collateral_reserves@,
        }
    }
}

/// `ceil(amount * fee_bps / 10_000)`.
pub open spec fn spec_fee_ceil(amount: int, fee_bps: int) -> int {
    (amount * fee_bps + 9_999) / 10_000
}

impl StablecoinView {
    pub open spec fn balance(self, user: u64) -> i128 {
        if self.balances.contains_key(user) { self.balances[user] } else { 0 }
    }

    pub open spec fn reserve_of(self, collateral: u64) -> i128 {
        if self.collateral_reserves.contains_key(collateral) { self.collateral_reserves[collateral] } else { 0 }
    }

    /// The stablecoins minted through the PSM are covered by the two
    /// collaterals' reserves.
    pub open spec fn psm_covered(self) -> bool {
        match self.psm_config {
            None => true,
            Some(c) => self.reserve_of(c.usdc) + self.reserve_of(c.usdt) >= self.psm_supply,
        }
    }

    /// Fees stay within the cap, and the stablecoins minted through the PSM
    /// are backed one-to-one by non-negative collateral reserves.
    pub open spec fn fully_backed(self) -> bool {
        match self.psm_config {
            None => self.collateral_reserves == Map::<u64, i128>::empty(),
            Some(c) => {
                &&& c.usdc != c.usdt
                &&& c.mint_fee_bps <= MAX_PSM_FEE_BPS && c.burn_fee_bps <= MAX_PSM_FEE_BPS
                &&& self.reserve_of(c.usdc) >= 0 && self.reserve_of(c.usdt) >= 0
                &&& self.reserve_of(c.usdc) + self.reserve_of(c.usdt) >= self.psm_supply
                &&& forall|k: u64| #[trigger] self.collateral_reserves.contains_key(k) ==> k == c.usdc || k == c.usdt
            },
        }
    }

    /// What a PSM mint returns: the checks in order, then the fee and the
    /// amount minted.
    pub open spec fn psm_mint_outcome(self, user: u64, collateral: u64, amount: i128, min_out: i128) -> Result<SwapResult, Error> {
        if self.paused {
            Err(Error::ContractPaused)
        } else if amount <= 0 || min_out < 0 {
            Err(Error::InvalidAmount)
        } else if self.psm_config is None {
            Err(Error::PsmNotConfigured)
        } else {
            let c = self.psm_config->Some_0;
            let fee = spec_fee_ceil(amount as int, c.mint_fee_bps as int);
            let out = amount - fee;
            if collateral != c.usdc && collateral != c.usdt {
                Err(Error::UnsupportedCollateral)
            } else if !fits_i128(fee) {
                Err(Error::ArithmeticOverflow)
            } else if out <= 0 || out < min_out {
                Err(Error::SlippageExceeded)
            } else if !fits_i128(self.reserve_of(collateral) + amount)
                || !fits_i128(self.psm_supply + out)
                || !fits_i128(self.total_supply + out)
                || !fits_i128(self.balance(user) + out) {
                Err(Error::ArithmeticOverflow)
            } else {
                Ok(SwapResult { amount_in: amount, amount_out: out as i128, collateral, fee: fee as i128 })
            }
        }
    }

    /// What a PSM burn returns: the checks in order, then the fee and the
    /// collateral paid out.
    pub open spec fn psm_burn_outcome(self, user: u64, collateral: u64, amount: i128, min_out: i128) -> Result<SwapResult, Error> {
        if self.paused {
            Err(Error::ContractPaused)
        } else if amount <= 0 || min_out < 0 {
            Err(Error::InvalidAmount)
        } else if self.psm_config is None {
            Err(Error::PsmNotConfigured)
        } else {
            let c = self.psm_config->Some_0;
            let fee = spec_fee_ceil(amount as int, c.burn_fee_bps as int);
            let out = amount - fee;
            if collateral != c.usdc && collateral != c.usdt {
                Err(Error::UnsupportedCollateral)
            } else if !fits_i128(fee) {
                Err(Error::ArithmeticOverflow)
            } else if out <= 0 || out < min_out {
                Err(Error::SlippageExceeded)
            } else if self.balance(user) < amount {
                Err(Error::InsufficientBalance)
            } else if self.psm_supply < amount {
                Err(Error::InsufficientPsmSupply)
            } else if self.reserve_of(collateral) < out {
                Err(Error::InsufficientReserve)
            } else {
                Ok(SwapResult { amount_in: amount, amount_out: out as i128, collateral, fee: fee as i128 })
            }
        }
    }

    /// The supply after a rebase at the current price: expanded in
    /// proportion to the premium, or contracted in proportion to the
    /// discount but by no more than the reserve and never below the PSM
    /// supply.
    pub open spec fn rebased_supply(self) -> int {
        let p = self.current_price as int;
        let t = self.target_price as int;
        let s = self.total_supply as int;
        if p > t {
            s + tdiv(s * tdiv((p - t) * 1_000_000, t), 1_000_000)
        } else if p < t {
            let max_contraction = tdiv(s * tdiv((t - p) * 1_000_000, t), 1_000_000);
            let actual = if max_contraction > self.reserve_balance { self.reserve_balance as int } else { max_contraction };
            let contracted = s - actual;
            if contracted >= self.psm_supply { contracted } else { self.psm_supply as int }
        } else {
            s
        }
    }

    /// Every intermediate value of the rebase fits in an `i128`.
    pub open spec fn rebase_fits(self) -> bool {
        let p = self.current_price as int;
        let t = self.target_price as int;
        let s = self.total_supply as int;
        &&& t != 0
        &&& (p > t ==> {
            &&& fits_i128((p - t) * 1_000_000)
            &&& fits_i128(s * tdiv((p - t) * 1_000_000, t))
            &&& fits_i128(self.rebased_supply())
        })
        &&& (p < t ==> {
            let max_contraction = tdiv(s * tdiv((t - p) * 1_000_000, t), 1_000_000);
            let actual = if max_contraction > self.reserve_balance { self.reserve_balance as int } else { max_contraction };
            &&& fits_i128((t - p) * 1_000_000)
            &&& fits_i128(s * tdiv((t - p) * 1_000_000, t))
            &&& fits_i128(s - actual)
        })
    }
}

impl AlgorithmicStablecoin {
    /// A contract with empty storage.
    pub fn new() -> (r: Self)
        ensures
            r@.admin is None,
            r@.target_price == 10_000_000 && r@.current_price == 10_000_000,
            r@.total_supply == 0 && r@.psm_supply == 0 && r@.reserve_balance == 0,
            !r@.paused,
            r@.last_rebase_time == 0 && r@.rebase_cooldown == 3600,
            r@.psm_config is None,
            r@.balances == Map::<u64, i128>::empty(),
            r@.collateral_reserves == Map::<u64, i128>::empty(),
            r@.fully_backed(),
    {
        AlgorithmicStablecoin {
            admin: None,
            oracle: 0,
            target_price: 10_000_000,
            current_price: 10_000_000,
            total_supply: 0,
            share_supply: 0,
            paused: false,
            last_rebase_time: 0,
            reserve_balance: 0,
            rebase_cooldown: 3600,
            psm_config: None,
            psm_supply: 0,
            user_tokens: HashMap::new(),
            collateral_reserves: HashMap::new(),
        }
    }

    pub fn init(&mut self, admin: u64, oracle: u64) -> (r: Result<(), Error>)
        ensures
            r == (if old(self)@.admin is Some { Err(Error::AlreadyInState) } else { Ok(()) }),
            r is Err ==> final(self)@ == old(self)@,
            r is Ok ==> final(self)@ == (StablecoinView {
                admin: Some(admin),
                oracle,
                target_price: 10_000_000,
                current_price: 10_000_000,
                total_supply: 0,
                share_supply: 1_000_000_000,
                paused: false,
                last_rebase_time: 0,
                reserve_balance: 0,
                rebase_cooldown: 3600,
                ..old(self)@
            }),
            old(self)@.fully_backed() ==> final(self)@.fully_backed(),
    {
        if self.admin.is_some() {
            return Err(Error::AlreadyInState);
        }
        self.admin = Some(admin);
        self.oracle = oracle;
        self.target_price = 10_000_000;
        self.current_price = 10_000_000;
        self.total_supply = 0;
        self.share_supply = 1_000_000_000;
        self.paused = false;
        self.last_rebase_time = 0;
        self.reserve_balance = 0;
        self.rebase_cooldown = 3600;
        Ok(())
    }

    fn assert_admin(&self, caller: u64) -> (r: Result<(), Error>)
        ensures
            r == (match self@.admin {
                None => Err(Error::NotInitialized),
                Some(a) => if a != caller { Err(Error::Unauthorized) } else { Ok(()) },
            }),
    {
        match self.admin {
            None => Err(Error::NotInitialized),
            Some(a) => if a != caller { Err(Error::Unauthorized) } else { Ok(()) },
        }
    }

    fn balance_of(&self, user: u64) -> (r: i128)
        ensures
            r == self@.balance(user),
    {
        match self.user_tokens.get(&user) {
            Some(b) => *b,
            None => 0,
        }
    }

    fn reserve_of(&self, collateral: u64) -> (r: i128)
        ensures
            r == self@.reserve_of(collateral),
    {
        match self.collateral_reserves.get(&collateral) {
            Some(b) => *b,
            None => 0,
        }
    }

    pub fn mint(&mut self, admin: u64, to: u64, amount: i128) -> (r: Result<(), Error>)
        requires
            old(self)@.admin == Some(admin) && !old(self)@.paused && amount > 0 ==> {
                &&& fits_i128(old(self)@.balance(to) + amount)
                &&& fits_i128(old(self)@.total_supply + amount)
            },
        ensures
            r == (match old(self)@.admin {
                None => Err(Error::NotInitialized),
                Some(a) => if a != admin {
                    Err(Error::Unauthorized)
                } else if old(self)@.paused {
                    Err(Error::ContractPaused)
                } else if amount <= 0 {
                    Err(Error::InvalidAmount)
                } else {
                    Ok(())
                },
            }),
            r is Err ==> final(self)@ == old(self)@,
            r is Ok ==> final(self)@ == (StablecoinView {
                balances: old(self)@.balances.insert(to, (old(self)@.balance(to) + amount) as i128),
                total_supply: (old(self)@.total_supply + amount) as i128,
                ..old(self)@
            }),
            old(self)@.fully_backed() ==> final(self)@.fully_backed(),
    {
        self.assert_admin(admin)?;
        if self.paused {
            return Err(Error::ContractPaused);
        }
        if amount <= 0 {
            return Err(Error::InvalidAmount);
        }
        let current_balance = self.balance_of(to);
        self.user_tokens.insert(to, current_balance + amount);
        self.total_supply = self.total_supply + amount;
        Ok(())
    }

    pub fn burn(&mut self, from: u64, amount: i128) -> (r: Result<(), Error>)
        ensures
            r == (if old(self)@.paused {
                Err(Error::ContractPaused)
            } else if amount <= 0 {
                Err(Error::InvalidAmount)
            } else if old(self)@.balance(from) < amount {
                Err(Error::InsufficientBalance)
            } else if !fits_i128(old(self)@.total_supply - amount) {
                Err(Error::ArithmeticOverflow)
            } else {
                Ok(())
            }),
            r is Err ==> final(self)@ == old(self)@,
            r is Ok ==> final(self)@ == (StablecoinView {
                balances: old(self)@.balances.insert(from, (old(self)@.balance(from) - amount) as i128),
                total_supply: (old(self)@.total_supply - amount) as i128,
                psm_supply: if old(self)@.psm_config is Some {
                    crate::fixed::clamp_i128(old(self)@.psm_supply - amount) as i128
                } else {
                    old(self)@.psm_supply
                },
                ..old(self)@
            }),
            old(self)@.fully_backed() ==> final(self)@.fully_backed(),
            old(self)@.psm_covered() ==> final(self)@.psm_covered(),
    {
        if self.paused {
            return Err(Error::ContractPaused);
        }
        if amount <= 0 {
            return Err(Error::InvalidAmount);
        }
        let current_balance = self.balance_of(from);
        if current_balance < amount {
            return Err(Error::InsufficientBalance);
        }
        let new_supply = match self.total_supply.checked_sub(amount) {
            Some(s) => s,
            None => return Err(Error::ArithmeticOverflow),
        };
        self.user_tokens.insert(from, current_balance - amount);
        self.total_supply = new_supply;
        if self.psm_config.is_some() {
            self.psm_supply = crate::fixed::sat_sub(self.psm_supply, amount);
        }
        Ok(())
    }

    /// Move `amount` from `from` to `to`.
    pub fn transfer(&mut self, from: u64, to: u64, amount: i128) -> (r: Result<(), Error>)
        requires
            !old(self)@.paused && amount > 0 && old(self)@.balance(from) >= amount
                ==> fits_i128(old(self)@.balance(to) + amount),
        ensures
            r == (if old(self)@.paused {
                Err(Error::ContractPaused)
            } else if amount <= 0 {
                Err(Error::InvalidAmount)
            } else if old(self)@.balance(from) < amount {
                Err(Error::InsufficientBalance)
            } else {
                Ok(())
            }),
            r is Err ==> final(self)@ == old(self)@,
            r is Ok ==> final(self)@ == (StablecoinView {
                balances: old(self)@.balances
                    .insert(from, (old(self)@.balance(from) - amount) as i128)
                    .insert(to, (old(self)@.balance(to) + amount) as i128),
                ..old(self)@
            }),
            r is Ok && from != to ==> final(self)@.balance(from) + final(self)@.balance(to)
                == old(self)@.balance(from) + old(self)@.balance(to),
            old(self)@.fully_backed() ==> final(self)@.fully_backed(),
    {
        if self.paused {
            return Err(Error::ContractPaused);
        }
        if amount <= 0 {
            return Err(Error::InvalidAmount);
        }
        let from_balance = self.balance_of(from);
        if from_balance < amount {
            return Err(Error::InsufficientBalance);
        }
        let to_balance = self.balance_of(to);
        self.user_tokens.insert(from, from_balance - amount);
        self.user_tokens.insert(to, to_balance + amount);
        Ok(())
    }

    /// The oracle records a new market price.
    pub fn set_price(&mut self, oracle: u64, new_price: i128) -> (r: Result<(), Error>)
        ensures
            r == (if old(self)@.admin is None {
                Err(Error::NotInitialized)
            } else if old(self)@.oracle != oracle {
                Err(Error::Unauthorized)
            } else if new_price <= 0 {
                Err(Error::InvalidAmount)
            } else {
                Ok(())
            }),
            r is Err ==> final(self)@ == old(self)@,
            r is Ok ==> final(self)@ == (StablecoinView { current_price: new_price, ..old(self)@ }),
            old(self)@.fully_backed() ==> final(self)@.fully_backed(),
    {
        if self.admin.is_none() {
            return Err(Error::NotInitialized);
        }
        if self.oracle != oracle {
            return Err(Error::Unauthorized);
        }
        if new_price <= 0 {
            return Err(Error::InvalidAmount);
        }
        self.current_price = new_price;
        Ok(())
    }

    /// Expand or contract the supply toward the target price, at most once
    /// per cooldown.
    pub fn rebase(&mut self, caller: u64, now: u64) -> (r: Result<RebaseInfo, Error>)
        requires
            !old(self)@.paused ==> old(self)@.last_rebase_time + old(self)@.rebase_cooldown <= u64::MAX,
            !old(self)@.paused && now >= old(self)@.last_rebase_time + old(self)@.rebase_cooldown ==> {
                &&& old(self)@.admin is Some
                &&& old(self)@.rebase_fits()
            },
        ensures
            r == (if old(self)@.paused {
                Err(Error::ContractPaused)
            } else if now < old(self)@.last_rebase_time + old(self)@.rebase_cooldown {
                Err(Error::RebaseTooFrequent)
            } else {
                Ok(RebaseInfo {
                    old_supply: old(self)@.total_supply,
                    new_supply: old(self)@.rebased_supply() as i128,
                    price: old(self)@.current_price,
                    timestamp: now,
                })
            }),
            r is Err ==> final(self)@ == old(self)@,
            r is Ok ==> final(self)@ == (StablecoinView {
                total_supply: r->Ok_0.new_supply,
                last_rebase_time: now,
                ..old(self)@
            }),
            r is Ok && old(self)@.current_price < old(self)@.target_price
                ==> r->Ok_0.new_supply >= old(self)@.psm_supply,
            old(self)@.fully_backed() ==> final(self)@.fully_backed(),
    {
        if self.paused {
            return Err(Error::ContractPaused);
        }
        if now < self.last_rebase_time + self.rebase_cooldown {
            return Err(Error::RebaseTooFrequent);
        }
        let current_price = self.current_price;
        let target_price = self.target_price;
        let old_supply = self.total_supply;
        proof {
            crate::fixed::lemma_million_multiple_not_min(current_price - target_price);
            crate::fixed::lemma_million_multiple_not_min(target_price - current_price);
        }
        let new_supply = if current_price > target_price {
            let expansion_ratio = crate::fixed::div_trunc((current_price - target_price) * 1_000_000, target_price);
            let expansion_amount = crate::fixed::div_trunc(old_supply * expansion_ratio, 1_000_000);
            old_supply + expansion_amount
        } else if current_price < target_price {
            let contraction_ratio = crate::fixed::div_trunc((target_price - current_price) * 1_000_000, target_price);
            let max_contraction = crate::fixed::div_trunc(old_supply * contraction_ratio, 1_000_000);
            let reserve = self.reserve_balance;
            let actual_contraction = if max_contraction > reserve { reserve } else { max_contraction };
            crate::fixed::max_i128(old_supply - actual_contraction, self.psm_supply)
        } else {
            old_supply
        };
        self.total_supply = new_supply;
        self.last_rebase_time = now;
        Ok(RebaseInfo { old_supply, new_supply, price: current_price, timestamp: now })
    }

    pub fn pause(&mut self, admin: u64) -> (r: Result<(), Error>)
        ensures
            r == (match old(self)@.admin {
                None => Err(Error::NotInitialized),
                Some(a) => if a != admin {
                    Err(Error::Unauthorized)
                } else if old(self)@.paused {
                    Err(Error::AlreadyInState)
                } else {
                    Ok(())
                },
            }),
            r is Err ==> final(self)@ == old(self)@,
            r is Ok ==> final(self)@ == (StablecoinView { paused: true, ..old(self)@ }),
            old(self)@.fully_backed() ==> final(self)@.fully_backed(),
    {
        self.assert_admin(admin)?;
        if self.paused {
            return Err(Error::AlreadyInState);
        }
        self.paused = true;
        Ok(())
    }

    pub fn unpause(&mut self, admin: u64) -> (r: Result<(), Error>)
        ensures
            r == (match old(self)@.admin {
                None => Err(Error::NotInitialized),
                Some(a) => if a != admin {
                    Err(Error::Unauthorized)
                } else if !old(self)@.paused {
                    Err(Error::AlreadyInState)
                } else {
                    Ok(())
                },
            }),
            r is Err ==> final(self)@ == old(self)@,
            r is Ok ==> final(self)@ == (StablecoinView { paused: false, ..old(self)@ }),
            old(self)@.fully_backed() ==> final(self)@.fully_backed(),
    {
        self.assert_admin(admin)?;
        if !self.paused {
            return Err(Error::AlreadyInState);
        }
        self.paused = false;
        Ok(())
    }

    /// Add to the rebase reserve that absorbs supply contractions.
    pub fn add_reserve(&mut self, admin: u64, amount: i128) -> (r: Result<(), Error>)
        requires
            old(self)@.admin == Some(admin) && amount > 0
                ==> fits_i128(old(self)@.reserve_balance + amount),
        ensures
            r == (match old(self)@.admin {
                None => Err(Error::NotInitialized),
                Some(a) => if a != admin {
                    Err(Error::Unauthorized)
                } else if amount <= 0 {
                    Err(Error::InvalidAmount)
                } else {
                    Ok(())
                },
            }),
            r is Err ==> final(self)@ == old(self)@,
            r is Ok ==> final(self)@ == (StablecoinView {
                reserve_balance: (old(self)@.reserve_balance + amount) as i128,
                ..old(self)@
            }),
            old(self)@.fully_backed() ==> final(self)@.fully_backed(),
    {
        self.assert_admin(admin)?;
        if amount <= 0 {
            return Err(Error::InvalidAmount);
        }
        self.reserve_balance = self.reserve_balance + amount;
        Ok(())
    }

    pub fn withdraw_reserve(&mut self, admin: u64, amount: i128) -> (r: Result<(), Error>)
        ensures
            r == (match old(self)@.admin {
                None => Err(Error::NotInitialized),
                Some(a) => if a != admin {
                    Err(Error::Unauthorized)
                } else if amount <= 0 {
                    Err(Error::InvalidAmount)
                } else if old(self)@.reserve_balance < amount {
                    Err(Error::InsufficientBalance)
                } else {
                    Ok(())
                },
            }),
            r is Err ==> final(self)@ == old(self)@,
            r is Ok ==> final(self)@ == (StablecoinView {
                reserve_balance: (old(self)@.reserve_balance - amount) as i128,
                ..old(self)@
            }),
            old(self)@.fully_backed() ==> final(self)@.fully_backed(),
    {
        self.assert_admin(admin)?;
        if amount <= 0 {
            return Err(Error::InvalidAmount);
        }
        if self.reserve_balance < amount {
            return Err(Error::InsufficientBalance);
        }
        self.reserve_balance = self.reserve_balance - amount;
        Ok(())
    }

    /// Enable the PSM with its two collaterals and fees; it can be
    /// configured only once.
    pub fn configure_psm(
        &mut self,
        admin: u64,
        usdc: u64,
        usdt: u64,
        mint_fee_bps: u32,
        burn_fee_bps: u32,
    ) -> (r: Result<(), Error>)
        ensures
            r == (match old(self)@.admin {
                None => Err(Error::NotInitialized),
                Some(a) => if a != admin {
                    Err(Error::Unauthorized)
                } else if old(self)@.psm_config is Some {
                    Err(Error::PsmAlreadyConfigured)
                } else if usdc == usdt {
                    Err(Error::UnsupportedCollateral)
                } else if mint_fee_bps > MAX_PSM_FEE_BPS || burn_fee_bps > MAX_PSM_FEE_BPS {
                    Err(Error::InvalidFee)
                } else {
                    Ok(())
                },
            }),
            r is Err ==> final(self)@ == old(self)@,
            r is Ok ==> final(self)@ == (StablecoinView {
                psm_config: Some(PsmConfig { burn_fee_bps, mint_fee_bps, usdc, usdt }),
                psm_supply: 0,
                ..old(self)@
            }),
            old(self)@.fully_backed() ==> final(self)@.fully_backed(),
    {
        self.assert_admin(admin)?;
        if self.psm_config.is_some() {
            return Err(Error::PsmAlreadyConfigured);
        }
        if usdc == usdt {
            return Err(Error::UnsupportedCollateral);
        }
        validate_fees(mint_fee_bps, burn_fee_bps)?;
        self.psm_config = Some(PsmConfig { burn_fee_bps, mint_fee_bps, usdc, usdt });
        self.psm_supply = 0;
        Ok(())
    }

    /// Update the PSM fees, each capped at `MAX_PSM_FEE_BPS`.
    pub fn set_psm_fees(&mut self, admin: u64, mint_fee_bps: u32, burn_fee_bps: u32) -> (r: Result<(), Error>)
        ensures
            r == (match old(self)@.admin {
                None => Err(Error::NotInitialized),
                Some(a) => if a != admin {
                    Err(Error::Unauthorized)
                } else if mint_fee_bps > MAX_PSM_FEE_BPS || burn_fee_bps > MAX_PSM_FEE_BPS {
                    Err(Error::InvalidFee)
                } else if old(self)@.psm_config is None {
                    Err(Error::PsmNotConfigured)
                } else {
                    Ok(())
                },
            }),
            r is Err ==> final(self)@ == old(self)@,
            r is Ok ==> final(self)@ == (StablecoinView {
                psm_config: Some(PsmConfig {
                    mint_fee_bps,
                    burn_fee_bps,
                    ..old(self)@.psm_config->Some_0
                }),
                ..old(self)@
            }),
            old(self)@.fully_backed() ==> final(self)@.fully_backed(),
    {
        self.assert_admin(admin)?;
        validate_fees(mint_fee_bps, burn_fee_bps)?;
        let mut config = match self.psm_config {
            Some(c) => c,
            None => return Err(Error::PsmNotConfigured),
        };
        config.mint_fee_bps = mint_fee_bps;
        config.burn_fee_bps = burn_fee_bps;
        self.psm_config = Some(config);
        Ok(())
    }

    /// Swap `amount` of a supported collateral into stablecoins, one to one
    /// less the mint fee (rounded up). The host takes `amount` of the
    /// collateral from `user`.
    pub fn psm_mint(&mut self, user: u64, collateral: u64, amount: i128, min_stable_out: i128) -> (r: Result<SwapResult, Error>)
        ensures
            r == old(self)@.psm_mint_outcome(user, collateral, amount, min_stable_out),
            r is Err ==> final(self)@ == old(self)@,
            r is Ok ==> final(self)@ == (StablecoinView {
                collateral_reserves: old(self)@.collateral_reserves.insert(
                    collateral, (old(self)@.reserve_of(collateral) + amount) as i128),
                psm_supply: (old(self)@.psm_supply + r->Ok_0.amount_out) as i128,
                total_supply: (old(self)@.total_supply + r->Ok_0.amount_out) as i128,
                balances: old(self)@.balances.insert(user, (old(self)@.balance(user) + r->Ok_0.amount_out) as i128),
                ..old(self)@
            }),
            old(self)@.fully_backed() ==> final(self)@.fully_backed(),
            old(self)@.psm_covered() ==> final(self)@.psm_covered(),
    {
        if self.paused {
            return Err(Error::ContractPaused);
        }
        if amount <= 0 || min_stable_out < 0 {
            return Err(Error::InvalidAmount);
        }
        let config = match self.psm_config {
            Some(c) => c,
            None => return Err(Error::PsmNotConfigured),
        };
        assert_collateral(&config, collateral)?;
        let fee = fee_ceil(amount, config.mint_fee_bps)?;
        let amount_out = amount - fee;
        if amount_out <= 0 || amount_out < min_stable_out {
            return Err(Error::SlippageExceeded);
        }
        let reserve = self.reserve_of(collateral);
        let balance = self.balance_of(user);
        let new_reserve = match reserve.checked_add(amount) {
            Some(v) => v,
            None => return Err(Error::ArithmeticOverflow),
        };
        let new_psm_supply = match self.psm_supply.checked_add(amount_out) {
            Some(v) => v,
            None => return Err(Error::ArithmeticOverflow),
        };
        let new_total = match self.total_supply.checked_add(amount_out) {
            Some(v) => v,
            None => return Err(Error::ArithmeticOverflow),
        };
        let new_balance = match balance.checked_add(amount_out) {
            Some(v) => v,
            None => return Err(Error::ArithmeticOverflow),
        };
        self.collateral_reserves.insert(collateral, new_reserve);
        self.psm_supply = new_psm_supply;
        self.total_supply = new_total;
        self.user_tokens.insert(user, new_balance);
        Ok(SwapResult { amount_in: amount, amount_out, collateral, fee })
    }

    /// Burn `stable_amount` stablecoins for collateral, one to one less the
    /// burn fee (rounded up); the fee stays in the reserve. The host pays
    /// `amount_out` of the collateral to `user`.
    pub fn psm_burn(&mut self, user: u64, collateral: u64, stable_amount: i128, min_collateral_out: i128) -> (r: Result<SwapResult, Error>)
        requires
            stable_amount > 0 ==> fits_i128(old(self)@.total_supply - stable_amount),
        ensures
            r == old(self)@.psm_burn_outcome(user, collateral, stable_amount, min_collateral_out),
            r is Err ==> final(self)@ == old(self)@,
            r is Ok ==> final(self)@ == (StablecoinView {
                balances: old(self)@.balances.insert(user, (old(self)@.balance(user) - stable_amount) as i128),
                psm_supply: (old(self)@.psm_supply - stable_amount) as i128,
                total_supply: (old(self)@.total_supply - stable_amount) as i128,
                collateral_reserves: old(self)@.collateral_reserves.insert(
                    collateral, (old(self)@.reserve_of(collateral) - r->Ok_0.amount_out) as i128),
                ..old(self)@
            }),
            old(self)@.fully_backed() ==> final(self)@.fully_backed(),
            old(self)@.psm_config matches Some(c) && c.usdc != c.usdt && old(self)@.psm_covered()
                ==> final(self)@.psm_covered(),
    {
        if self.paused {
            return Err(Error::ContractPaused);
        }
        if stable_amount <= 0 || min_collateral_out < 0 {
            return Err(Error::InvalidAmount);
        }
        let config = match self.psm_config {
            Some(c) => c,
            None => return Err(Error::PsmNotConfigured),
        };
        assert_collateral(&config, collateral)?;
        let fee = fee_ceil(stable_amount, config.burn_fee_bps)?;
        let amount_out = stable_amount - fee;
        if amount_out <= 0 || amount_out < min_collateral_out {
            return Err(Error::SlippageExceeded);
        }
        let balance = self.balance_of(user);
        if balance < stable_amount {
            return Err(Error::InsufficientBalance);
        }
        if self.psm_supply < stable_amount {
            return Err(Error::InsufficientPsmSupply);
        }
        let reserve = self.reserve_of(collateral);
        if reserve < amount_out {
            return Err(Error::InsufficientReserve);
        }
        self.user_tokens.insert(user, balance - stable_amount);
        self.psm_supply = self.psm_supply - stable_amount;
        self.total_supply = self.total_supply - stable_amount;
        self.collateral_reserves.insert(collateral, reserve - amount_out);
        Ok(SwapResult { amount_in: stable_amount, amount_out, collateral, fee })
    }

    pub fn get_psm_config(&self) -> (r: Result<PsmConfig, Error>)
        ensures
            r == (match self@.psm_config {
                Some(c) => Ok(c),
                None => Err(Error::PsmNotConfigured),
            }),
    {
        match self.psm_config {
            Some(c) => Ok(c),
            None => Err(Error::PsmNotConfigured),
        }
    }

    pub fn get_collateral_reserve(&self, collateral: u64) -> (r: Result<i128, Error>)
        ensures
            r == (match self@.psm_config {
                None => Err(Error::PsmNotConfigured),
                Some(c) => if collateral != c.usdc && collateral != c.usdt {
                    Err(Error::UnsupportedCollateral)
                } else {
                    Ok(self@.reserve_of(collateral))
                },
            }),
    {
        let config = self.get_psm_config()?;
        assert_collateral(&config, collateral)?;
        Ok(self.reserve_of(collateral))
    }

    pub fn get_psm_supply(&self) -> (r: Result<i128, Error>)
        ensures
            r == (if self@.psm_config is None { Err(Error::PsmNotConfigured) } else { Ok(self@.psm_supply) }),
    {
        if self.psm_config.is_none() {
            return Err(Error::PsmNotConfigured);
        }
        Ok(self.psm_supply)
    }

    pub fn balance(&self, user: u64) -> (r: i128)
        ensures
            r == self@.balance(user),
    {
        self.balance_of(user)
    }

    pub fn total_supply(&self) -> (r: i128)
        ensures
            r == self@.total_supply,
    {
        self.total_supply
    }

    pub fn get_price(&self) -> (r: i128)
        ensures
            r == self@.current_price,
    {
        self.current_price
    }

    pub fn get_target_price(&self) -> (r: i128)
        ensures
            r == self@.target_price,
    {
        self.target_price
    }

    pub fn get_reserve(&self) -> (r: i128)
        ensures
            r == self@.reserve_balance,
    {
        self.reserve_balance
    }

    pub fn is_paused(&self) -> (r: bool)
        ensures
            r == self@.paused,
    {
        self.paused
    }

    pub fn get_admin(&self) -> (r: Result<u64, Error>)
        ensures
            r == (match self@.admin {
                Some(a) => Ok(a),
                None => Err(Error::NotInitialized),
            }),
    {
        match self.admin {
            Some(a) => Ok(a),
            None => Err(Error::NotInitialized),
        }
    }
}

/// `ceil(amount * fee_bps / 10_000)`, or `ArithmeticOverflow` where that
/// does not fit in an `i128`.
pub fn fee_ceil(amount: i128, fee_bps: u32) -> (r: Result<i128, Error>)
    requires
        amount > 0,
    ensures
        r == (if fits_i128(spec_fee_ceil(amount as int, fee_bps as int)) {
            Ok(spec_fee_ceil(amount as int, fee_bps as int) as i128)
        } else {
            Err(Error::ArithmeticOverflow)
        }),
        r is Ok ==> r->Ok_0 >= 0,
{
    let a = amount as u128;
    let b = fee_bps as u128;
    let q = a / 10_000;
    let rem = a % 10_000;
    assert(rem * b < 10_000 * 0x1_0000_0000) by (nonlinear_arith)
        requires rem < 10_000, b < 0x1_0000_0000;
    let low = (rem * b + 9_999) / 10_000;
    proof {
        lemma_fee_split(a as int, b as int, q as int, rem as int);
    }
    let high = match q.checked_mul(b) {
        Some(h) => h,
        None => return Err(Error::ArithmeticOverflow),
    };
    let fee = match high.checked_add(low) {
        Some(f) => f,
        None => return Err(Error::ArithmeticOverflow),
    };
    if fee > 0x7fff_ffff_ffff_ffff_ffff_ffff_ffff_ffff {
        return Err(Error::ArithmeticOverflow);
    }
    Ok(fee as i128)
}

/// Splitting `a` into `q * 10_000 + rem` splits the rounded-up fee the same way.
proof fn lemma_fee_split(a: int, b: int, q: int, rem: int)
    requires
        a >= 0, b >= 0,
        q == a / 10_000,
        rem == a % 10_000,
    ensures
        spec_fee_ceil(a, b) == q * b + (rem * b + 9_999) / 10_000,
        (rem * b + 9_999) / 10_000 >= 0,
{
    let x = rem * b + 9_999;
    let q2 = x / 10_000;
    let r2 = x % 10_000;
    assert(rem * b >= 0) by (nonlinear_arith) requires rem >= 0, b >= 0;
    assert(a == 10_000 * q + rem);
    assert(a * b == (q * b) * 10_000 + rem * b) by (nonlinear_arith)
        requires a == 10_000 * q + rem;
    assert(x == q2 * 10_000 + r2);
    vstd::arithmetic::div_mod::lemma_fundamental_div_mod_converse(
        a * b + 9_999, 10_000, q * b + q2, r2);
}

/// Fees may not exceed `MAX_PSM_FEE_BPS`.
pub fn validate_fees(mint_fee_bps: u32, burn_fee_bps: u32) -> (r: Result<(), Error>)
    ensures
        r == (if mint_fee_bps > MAX_PSM_FEE_BPS || burn_fee_bps > MAX_PSM_FEE_BPS {
            Err(Error::InvalidFee)
        } else {
            Ok(())
        }),
{
    if mint_fee_bps > MAX_PSM_FEE_BPS || burn_fee_bps > MAX_PSM_FEE_BPS {
        return Err(Error::InvalidFee);
    }
    Ok(())
}

/// Only the two configured collaterals are accepted.
pub fn assert_collateral(config: &PsmConfig, collateral: u64) -> (r: Result<(), Error>)
    ensures
        r == (if collateral != config.usdc && collateral != config.usdt {
            Err(Error::UnsupportedCollateral)
        } else {
            Ok(())
        }),
{
    if collateral != config.usdc && collateral != config.usdt {
        return Err(Error::UnsupportedCollateral);
    }
    Ok(())
}

} // verus!
