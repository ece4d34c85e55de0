//! Liquid staking derivative accounting. Deposits mint shares at the current
//! exchange rate; funded validator rewards accrue to the active shares and
//! raise the rate; unstaking burns shares at once and reserves a fixed amount
//! of underlying in a per-user, time-locked request.
//!
//! Accounts are numbers. The host authenticates callers, moves the underlying
//! token (a deposit takes `amount` from the user, `accrue_rewards` takes it
//! from the admin, a claim pays the request's amount to its owner) and passes
//! the ledger time as `now`.
use std::collections::HashMap;
use vstd::prelude::*;

use crate::fixed::{fits_i128, mul_div_wide};
use crate::ledger::{all_nonneg, amount_of, lemma_amount_le_total, lemma_total_insert, total};

verus! {

broadcast use vstd::std_specs::hash::group_hash_axioms;

/// Exchange-rate precision: `RATE_SCALE` is one underlying per share.
pub const RATE_SCALE: i128 = 10_000_000;

#[derive(Copy, Clone, Debug, PartialEq, Eq, Structural)]
pub enum Error {
    AlreadyInitialized,
    NotInitialized,
    InvalidAmount,
    InvalidUnbondingPeriod,
    InsufficientShares,
    RequestNotFound,
    RequestNotReady,
    AlreadyClaimed,
    ArithmeticOverflow,
    ZeroShares,
    NoActiveStake,
    Unauthorized,
}

/// A queued withdrawal: `amount` of underlying reserved for `owner`, payable
/// from `unlock_timestamp` on.
#[derive(Copy, Clone, Debug, PartialEq, Eq, Structural)]
pub struct UnbondingRequest {
    pub amount: i128,
    pub claimed: bool,
    pub owner: u64,
    pub shares_burned: i128,
    pub unlock_timestamp: u64,
}

/// `floor(a * b / d)`, refused for a negative factor, a non-positive
/// denominator or a quotient beyond `i128::MAX`.
pub open spec fn mul_div_spec(a: int, b: int, d: int) -> Result<i128, Error> {
    if a < 0 || b < 0 || d <= 0 {
        Err(Error::ArithmeticOverflow)
    } else if !fits_i128((a * b) / d) {
        Err(Error::ArithmeticOverflow)
    } else {
        Ok(((a * b) / d) as i128)
    }
}

/// `floor(a * b / denominator)` with a 256-bit intermediate product.
pub fn mul_div(a: i128, b: i128, denominator: i128) -> (r: Result<i128, Error>)
    ensures
        r == mul_div_spec(a as int, b as int, denominator as int),
{
    if a < 0 || b < 0 || denominator <= 0 {
        return Err(Error::ArithmeticOverflow);
    }
    match mul_div_wide(a, b, denominator) {
        Some(q) => Ok(q),
        None => Err(Error::ArithmeticOverflow),
    }
}

/// The amount of underlying that request `id` still holds in reserve.
pub open spec fn open_amount(requests: Map<u64, UnbondingRequest>, id: u64) -> int {
    if requests.contains_key(id) && !requests[id].claimed { requests[id].amount as int } else { 0 }
}

/// The underlying reserved by the unclaimed requests with ids below `n`.
pub open spec fn pending_sum(requests: Map<u64, UnbondingRequest>, n: nat) -> int
    decreases n,
{
    if n == 0 {
        0
    } else {
        pending_sum(requests, (n - 1) as nat) + open_amount(requests, (n - 1) as u64)
    }
}

/// The abstract contents of the vault's storage.
pub struct StakingView {
    pub admin: Option<u64>,
    pub underlying: u64,
    pub unbonding_period: u64,
    pub total_active: i128,
    pub total_shares: i128,
    pub total_pending: i128,
    pub total_rewards: i128,
    pub next_request_id: u64,
    pub balances: Map<u64, i128>,
    pub requests: Map<u64, UnbondingRequest>,
}

/// The vault. It is initialized once `admin` is set.
pub struct StakingDerivatives {
    pub admin: Option<u64>,
    pub underlying: u64,
    pub unbonding_period: u64,
    pub total_active: i128,
    pub total_shares: i128,
    pub total_pending: i128,
    pub total_rewards: i128,
    pub next_request_id: u64,
    pub share_balances: HashMap<u64, i128>,
    pub requests: HashMap<u64, UnbondingRequest>,
}

impl View for StakingDerivatives {
    type V = StakingView;

    open spec fn view(&self) -> StakingView {
        StakingView {
            admin: self.admin,
            underlying: self.underlying,
            unbonding_period: self.unbonding_period,
            total_active: self.total_active,
            total_shares: self.total_shares,
            total_pending: self.total_pending,
            total_rewards: self.total_rewards,
            next_request_id: self.next_request_id,
            balances: self.share_balances@,
            requests: self.requests@,
        }
    }
}

impl StakingView {
    pub open spec fn balance(self, user: u64) -> i128 {
        if self.balances.contains_key(user) { self.balances[user] } else { 0 }
    }

    pub open spec fn initialized(self) -> Result<(), Error> {
        if self.admin is None { Err(Error::NotInitialized) } else { Ok(()) }
    }

    /// The vault's accounting: the share supply is the sum of the share
    /// balances; the pending total is the sum of what the unclaimed requests
    /// reserve; there are active assets exactly when there are shares; every
    /// request has an id below the next one and reserves a positive amount;
    /// nothing is held before initialization.
    pub open spec fn wf(self) -> bool {
        &&& self.admin is None ==> self.balances == Map::<u64, i128>::empty()
            && self.requests == Map::<u64, UnbondingRequest>::empty()
        &&& self.balances.dom().finite()
        &&& all_nonneg(self.balances)
        &&& self.total_shares == total(self.balances)
        &&& self.total_active >= 0
        &&& self.total_rewards >= 0
        &&& (self.total_shares == 0 <==> self.total_active == 0)
        &&& self.total_pending == pending_sum(self.requests, self.next_request_id as nat)
        &&& forall|id: u64| #[trigger] self.requests.contains_key(id) ==> {
            &&& id < self.next_request_id
            &&& self.requests[id].amount > 0
            &&& self.requests[id].shares_burned > 0
        }
    }

    /// The exchange rate, `total_active / total_shares`, is no lower in
    /// `next` than here wherever both have shares.
    pub open spec fn rate_not_above(self, next: StakingView) -> bool {
        self.total_shares > 0 && next.total_shares > 0 ==>
            self.total_active as int * next.total_shares as int
                <= next.total_active as int * self.total_shares as int
    }

    /// The shares that a deposit of `amount` mints.
    pub open spec fn deposit_shares(self, amount: i128) -> Result<i128, Error> {
        if self.total_shares == 0 {
            Ok(amount)
        } else {
            mul_div_spec(amount as int, self.total_shares as int, self.total_active as int)
        }
    }

    /// What a deposit returns: the checks in order, then the shares minted.
    pub open spec fn deposit_outcome(self, user: u64, amount: i128) -> Result<i128, Error> {
        if self.admin is None {
            Err(Error::NotInitialized)
        } else if amount <= 0 {
            Err(Error::InvalidAmount)
        } else {
            match self.deposit_shares(amount) {
                Err(e) => Err(e),
                Ok(shares) => if shares == 0 {
                    Err(Error::ZeroShares)
                } else if !fits_i128(self.total_active + amount)
                    || !fits_i128(self.total_shares + shares)
                    || !fits_i128(self.balance(user) + shares) {
                    Err(Error::ArithmeticOverflow)
                } else {
                    Ok(shares)
                },
            }
        }
    }

    /// What accruing `amount` of rewards returns: the checks in order, then
    /// the new exchange rate.
    pub open spec fn accrue_outcome(self, admin: u64, amount: i128) -> Result<i128, Error> {
        match self.admin {
            None => Err(Error::NotInitialized),
            Some(a) => if a != admin {
                Err(Error::Unauthorized)
            } else if amount <= 0 {
                Err(Error::InvalidAmount)
            } else if self.total_shares == 0 {
                Err(Error::NoActiveStake)
            } else if !fits_i128(self.total_active + amount) || !fits_i128(self.total_rewards + amount) {
                Err(Error::ArithmeticOverflow)
            } else {
                mul_div_spec(self.total_active + amount, RATE_SCALE as int, self.total_shares as int)
            },
        }
    }

    /// The underlying that burning `shares` reserves: everything on a full
    /// exit, else the proportional amount rounded down.
    pub open spec fn unstake_amount(self, shares: i128) -> Result<i128, Error> {
        if shares == self.total_shares {
            Ok(self.total_active)
        } else {
            mul_div_spec(shares as int, self.total_active as int, self.total_shares as int)
        }
    }

    /// What an unstake request returns: the checks in order, then the id of
    /// the new request.
    pub open spec fn unstake_outcome(self, user: u64, shares: i128, now: u64) -> Result<u64, Error> {
        if self.admin is None {
            Err(Error::NotInitialized)
        } else if shares <= 0 {
            Err(Error::InvalidAmount)
        } else if shares > self.balance(user) {
            Err(Error::InsufficientShares)
        } else {
            match self.unstake_amount(shares) {
                Err(e) => Err(e),
                Ok(amount) => if amount == 0 {
                    Err(Error::InvalidAmount)
                } else if self.next_request_id == u64::MAX
                    || now as int + self.unbonding_period as int > u64::MAX
                    || !fits_i128(self.total_pending + amount) {
                    Err(Error::ArithmeticOverflow)
                } else {
                    Ok(self.next_request_id)
                },
            }
        }
    }

    /// What a claim returns: the checks in order, then the amount paid.
    pub open spec fn claim_outcome(self, user: u64, request_id: u64, now: u64) -> Result<i128, Error> {
        if self.admin is None {
            Err(Error::NotInitialized)
        } else if !self.requests.contains_key(request_id) || self.requests[request_id].owner != user {
            Err(Error::RequestNotFound)
        } else if self.requests[request_id].claimed {
            Err(Error::AlreadyClaimed)
        } else if now < self.requests[request_id].unlock_timestamp {
            Err(Error::RequestNotReady)
        } else {
            Ok(self.requests[request_id].amount)
        }
    }

    /// What converting `shares` to underlying returns.
    pub open spec fn assets_for(self, shares: i128) -> Result<i128, Error> {
        if self.admin is None {
            Err(Error::NotInitialized)
        } else if shares < 0 {
            Err(Error::InvalidAmount)
        } else if self.total_shares == 0 {
            Ok(shares)
        } else {
            mul_div_spec(shares as int, self.total_active as int, self.total_shares as int)
        }
    }

    /// What converting `assets` of underlying to shares returns.
    pub open spec fn shares_for(self, assets: i128) -> Result<i128, Error> {
        if self.admin is None {
            Err(Error::NotInitialized)
        } else if assets < 0 {
            Err(Error::InvalidAmount)
        } else if self.total_shares == 0 {
            Ok(assets)
        } else {
            mul_div_spec(assets as int, self.total_shares as int, self.total_active as int)
        }
    }
}

impl StakingDerivatives {
    /// A vault with empty storage.
    pub fn new() -> (r: Self)
        ensures
            r@.admin is None,
            r@.total_active == 0 && r@.total_shares == 0,
            r@.total_pending == 0 && r@.total_rewards == 0,
            r@.next_request_id == 0,
            r@.balances == Map::<u64, i128>::empty(),
            r@.requests == Map::<u64, UnbondingRequest>::empty(),
            r@.wf(),
    {
        let r = StakingDerivatives {
            admin: None,
            underlying: 0,
            unbonding_period: 0,
            total_active: 0,
            total_shares: 0,
            total_pending: 0,
            total_rewards: 0,
            next_request_id: 0,
            share_balances: HashMap::new(),
            requests: HashMap::new(),
        };
        proof {
            crate::ledger::lemma_total_empty();
            assert(r@.balances.dom() =~= Set::<u64>::empty());
        }
        r
    }

    /// Initializes the vault; `unbonding_period` is in seconds.
    pub fn initialize(&mut self, admin: u64, underlying: u64, unbonding_period: u64) -> (r: Result<(), Error>)
        ensures
            r == (if old(self)@.admin is Some {
                Err(Error::AlreadyInitialized)
            } else if unbonding_period == 0 {
                Err(Error::InvalidUnbondingPeriod)
            } else {
                Ok(())
            }),
            r is Err ==> final(self)@ == old(self)@,
            r is Ok ==> final(self)@ == (StakingView {
                admin: Some(admin),
                underlying,
                unbonding_period,
                total_active: 0,
                total_shares: 0,
                total_pending: 0,
                total_rewards: 0,
                next_request_id: 0,
                ..old(self)@
            }),
            old(self)@.wf() ==> final(self)@.wf(),
    {
        if self.admin.is_some() {
            return Err(Error::AlreadyInitialized);
        }
        if unbonding_period == 0 {
            return Err(Error::InvalidUnbondingPeriod);
        }
        self.admin = Some(admin);
        self.underlying = underlying;
        self.unbonding_period = unbonding_period;
        self.total_active = 0;
        self.total_shares = 0;
        self.total_pending = 0;
        self.total_rewards = 0;
        self.next_request_id = 0;
        proof {
            if old(self)@.wf() {
                crate::ledger::lemma_total_empty();
            }
        }
        Ok(())
    }

    fn ensure_initialized(&self) -> (r: Result<(), Error>)
        ensures
            r == self@.initialized(),
    {
        if self.admin.is_none() {
            return Err(Error::NotInitialized);
        }
        Ok(())
    }

    fn balance_of(&self, user: u64) -> (r: i128)
        ensures
            r == self@.balance(user),
    {
        match self.share_balances.get(&user) {
            Some(b) => *b,
            None => 0,
        }
    }

    /// Deposits `amount` of underlying and mints shares at the current rate.
    pub fn deposit(&mut self, user: u64, amount: i128) -> (r: Result<i128, Error>)
        ensures
            r == old(self)@.deposit_outcome(user, amount),
            r is Err ==> final(self)@ == old(self)@,
            r matches Ok(shares) ==> final(self)@ == (StakingView {
                total_active: (old(self)@.total_active + amount) as i128,
                total_shares: (old(self)@.total_shares + shares) as i128,
                balances: old(self)@.balances.insert(user, (old(self)@.balance(user) + shares) as i128),
                ..old(self)@
            }),
            old(self)@.rate_not_above(final(self)@),
            old(self)@.wf() ==> final(self)@.wf(),
    {
        self.ensure_initialized()?;
        if amount <= 0 {
            return Err(Error::InvalidAmount);
        }
        let active = self.total_active;
        let supply = self.total_shares;
        let shares = if supply == 0 {
            amount
        } else {
            mul_div(amount, supply, active)?
        };
        if shares == 0 {
            return Err(Error::ZeroShares);
        }
        let new_active = match active.checked_add(amount) {
            Some(v) => v,
            None => return Err(Error::ArithmeticOverflow),
        };
        let new_supply = match supply.checked_add(shares) {
            Some(v) => v,
            None => return Err(Error::ArithmeticOverflow),
        };
        let balance = self.balance_of(user);
        let new_balance = match balance.checked_add(shares) {
            Some(v) => v,
            None => return Err(Error::ArithmeticOverflow),
        };
        let ghost prev = self@;
        self.total_active = new_active;
        self.total_shares = new_supply;
        self.share_balances.insert(user, new_balance);
        proof {
            if supply > 0 {
                lemma_floor_mul_div(amount as int, supply as int, active as int);
                assert(active as int * (supply as int + shares as int)
                    <= (active as int + amount as int) * supply as int) by (nonlinear_arith)
                    requires
                        shares as int * active as int <= amount as int * supply as int;
            }
            if prev.wf() {
                lemma_total_insert(prev.balances, user, new_balance);
                assert(amount_of(prev.balances, user) == balance as int);
                assert(self@.balances.dom() =~= prev.balances.dom().insert(user));
                assert(shares > 0) by {
                    if supply > 0 {
                        lemma_floor_mul_div(amount as int, supply as int, active as int);
                    }
                }
            }
        }
        Ok(shares)
    }

    /// Funds `amount` of validator rewards into the active stake; returns the
    /// new exchange rate.
    pub fn accrue_rewards(&mut self, admin: u64, amount: i128) -> (r: Result<i128, Error>)
        ensures
            r == old(self)@.accrue_outcome(admin, amount),
            r is Err ==> final(self)@ == old(self)@,
            r is Ok ==> final(self)@ == (StakingView {
                total_active: (old(self)@.total_active + amount) as i128,
                total_rewards: (old(self)@.total_rewards + amount) as i128,
                ..old(self)@
            }),
            r is Ok ==> final(self)@.total_active > old(self)@.total_active,
            old(self)@.rate_not_above(final(self)@),
            old(self)@.wf() ==> final(self)@.wf(),
    {
        match self.admin {
            None => return Err(Error::NotInitialized),
            Some(a) => if a != admin {
                return Err(Error::Unauthorized);
            },
        }
        if amount <= 0 {
            return Err(Error::InvalidAmount);
        }
        let supply = self.total_shares;
        if supply == 0 {
            return Err(Error::NoActiveStake);
        }
        let active = self.total_active;
        let new_active = match active.checked_add(amount) {
            Some(v) => v,
            None => return Err(Error::ArithmeticOverflow),
        };
        let new_rewards = match self.total_rewards.checked_add(amount) {
            Some(v) => v,
            None => return Err(Error::ArithmeticOverflow),
        };
        let rate = mul_div(new_active, RATE_SCALE, supply)?;
        self.total_active = new_active;
        self.total_rewards = new_rewards;
        proof {
            if supply > 0 {
                assert(active as int * supply as int <= new_active as int * supply as int) by (nonlinear_arith)
                    requires active < new_active, supply > 0;
            }
        }
        Ok(rate)
    }

    /// Burns `shares` and queues a request for the underlying they are worth,
    /// payable to `user` once the unbonding period from `now` has passed.
    pub fn request_unstake(&mut self, user: u64, shares: i128, now: u64) -> (r: Result<u64, Error>)
        ensures
            r == old(self)@.unstake_outcome(user, shares, now),
            r is Err ==> final(self)@ == old(self)@,
            r is Ok ==> ({
                let s = old(self)@;
                let amount = s.unstake_amount(shares)->Ok_0;
                final(self)@ == (StakingView {
                    total_active: (s.total_active - amount) as i128,
                    total_shares: (s.total_shares - shares) as i128,
                    total_pending: (s.total_pending + amount) as i128,
                    next_request_id: (s.next_request_id + 1) as u64,
                    balances: s.balances.insert(user, (s.balance(user) - shares) as i128),
                    requests: s.requests.insert(s.next_request_id, UnbondingRequest {
                        amount,
                        claimed: false,
                        owner: user,
                        shares_burned: shares,
                        unlock_timestamp: (now + s.unbonding_period) as u64,
                    }),
                    ..s
                })
            }),
            r is Ok && old(self)@.wf() ==> {
                let amount = old(self)@.unstake_amount(shares)->Ok_0;
                amount as int * old(self)@.total_shares as int <= shares as int * old(self)@.total_active as int
            },
            old(self)@.wf() ==> old(self)@.rate_not_above(final(self)@),
            old(self)@.wf() ==> final(self)@.wf(),
    {
        self.ensure_initialized()?;
        if shares <= 0 {
            return Err(Error::InvalidAmount);
        }
        let balance = self.balance_of(user);
        if shares > balance {
            return Err(Error::InsufficientShares);
        }
        let active = self.total_active;
        let supply = self.total_shares;
        let amount = if shares == supply {
            active
        } else {
            mul_div(shares, active, supply)?
        };
        if amount == 0 {
            return Err(Error::InvalidAmount);
        }
        let pending = self.total_pending;
        let request_id = self.next_request_id;
        let next_id = match request_id.checked_add(1) {
            Some(v) => v,
            None => return Err(Error::ArithmeticOverflow),
        };
        let unlock_timestamp = match now.checked_add(self.unbonding_period) {
            Some(v) => v,
            None => return Err(Error::ArithmeticOverflow),
        };
        let new_pending = match pending.checked_add(amount) {
            Some(v) => v,
            None => return Err(Error::ArithmeticOverflow),
        };
        let ghost prev = self@;
        proof {
            if prev.wf() {
                lemma_amount_le_total(prev.balances, user);
                assert(amount_of(prev.balances, user) == balance as int);
                assert(0 < shares <= supply);
                assert(active > 0);
                if shares != supply {
                    lemma_floor_mul_div(shares as int, active as int, supply as int);
                    assert(amount as int * supply as int <= shares as int * active as int);
                    assert(amount < active) by (nonlinear_arith)
                        requires
                            amount as int * supply as int <= shares as int * active as int,
                            shares < supply,
                            supply > 0,
                            active > 0,
                            amount >= 0;
                } else {
                    assert(amount as int * supply as int <= shares as int * active as int) by (nonlinear_arith)
                        requires amount == active, shares == supply;
                }
            }
        }
        let request = UnbondingRequest {
            amount,
            claimed: false,
            owner: user,
            shares_burned: shares,
            unlock_timestamp,
        };
        self.total_active = active - amount;
        self.total_shares = supply - shares;
        self.total_pending = new_pending;
        self.next_request_id = next_id;
        self.share_balances.insert(user, balance - shares);
        self.requests.insert(request_id, request);
        proof {
            if prev.wf() {
                lemma_total_insert(prev.balances, user, (balance - shares) as i128);
                assert(self@.balances.dom() =~= prev.balances.dom().insert(user));
                lemma_pending_sum_update(prev.requests, self@.requests, request_id as nat, request_id);
                assert(pending_sum(self@.requests, next_id as nat)
                    == pending_sum(self@.requests, request_id as nat) + open_amount(self@.requests, request_id));
                if shares != supply {
                    assert(active as int * (supply as int - shares as int)
                        <= (active as int - amount as int) * supply as int) by (nonlinear_arith)
                        requires
                            amount as int * supply as int <= shares as int * active as int;
                }
                assert forall|id: u64| #[trigger] self@.requests.contains_key(id) implies {
                    &&& id < self@.next_request_id
                    &&& self@.requests[id].amount > 0
                    &&& self@.requests[id].shares_burned > 0
                } by {
                    if id != request_id {
                        assert(prev.requests.contains_key(id));
                    }
                }
            }
        }
        Ok(request_id)
    }

    /// Pays out a matured request to its owner.
    pub fn claim_unstake(&mut self, user: u64, request_id: u64, now: u64) -> (r: Result<i128, Error>)
        requires
            old(self)@.wf(),
        ensures
            r == old(self)@.claim_outcome(user, request_id, now),
            r is Err ==> final(self)@ == old(self)@,
            r matches Ok(amount) ==> final(self)@ == (StakingView {
                total_pending: (old(self)@.total_pending - amount) as i128,
                requests: old(self)@.requests.insert(request_id, UnbondingRequest {
                    claimed: true,
                    ..old(self)@.requests[request_id]
                }),
                ..old(self)@
            }),
            final(self)@.wf(),
    {
        self.ensure_initialized()?;
        let request = match self.requests.get(&request_id) {
            Some(req) => *req,
            None => return Err(Error::RequestNotFound),
        };
        if request.owner != user {
            return Err(Error::RequestNotFound);
        }
        if request.claimed {
            return Err(Error::AlreadyClaimed);
        }
        if now < request.unlock_timestamp {
            return Err(Error::RequestNotReady);
        }
        let ghost prev = self@;
        let updated = UnbondingRequest { claimed: true, ..request };
        proof {
            lemma_pending_sum_update(prev.requests, prev.requests.insert(request_id, updated),
                prev.next_request_id as nat, request_id);
            assert forall|id: u64| #[trigger] open_amount(prev.requests.insert(request_id, updated), id) >= 0 by {
                if prev.requests.insert(request_id, updated).contains_key(id) && id != request_id {
                    assert(prev.requests.contains_key(id));
                }
            }
            lemma_pending_sum_nonneg(prev.requests.insert(request_id, updated), prev.next_request_id as nat);
        }
        self.total_pending = self.total_pending - request.amount;
        self.requests.insert(request_id, updated);
        proof {
            assert forall|id: u64| #[trigger] self@.requests.contains_key(id) implies {
                &&& id < self@.next_request_id
                &&& self@.requests[id].amount > 0
                &&& self@.requests[id].shares_burned > 0
            } by {
                if id != request_id {
                    assert(prev.requests.contains_key(id));
                }
            }
        }
        Ok(request.amount)
    }

    /// The current exchange rate, `RATE_SCALE` per share while no shares exist.
    pub fn exchange_rate(&self) -> (r: Result<i128, Error>)
        ensures
            r == (if self@.admin is None {
                Err(Error::NotInitialized)
            } else if self@.total_shares == 0 {
                Ok(RATE_SCALE)
            } else {
                mul_div_spec(self@.total_active as int, RATE_SCALE as int, self@.total_shares as int)
            }),
    {
        self.ensure_initialized()?;
        if self.total_shares == 0 {
            return Ok(RATE_SCALE);
        }
        mul_div(self.total_active, RATE_SCALE, self.total_shares)
    }

    /// The underlying that `shares` are worth at the current rate.
    pub fn convert_to_assets(&self, shares: i128) -> (r: Result<i128, Error>)
        ensures
            r == self@.assets_for(shares),
    {
        self.ensure_initialized()?;
        if shares < 0 {
            return Err(Error::InvalidAmount);
        }
        if self.total_shares == 0 {
            return Ok(shares);
        }
        mul_div(shares, self.total_active, self.total_shares)
    }

    /// The shares that `assets` of underlying buy at the current rate.
    pub fn convert_to_shares(&self, assets: i128) -> (r: Result<i128, Error>)
        ensures
            r == self@.shares_for(assets),
    {
        self.ensure_initialized()?;
        if assets < 0 {
            return Err(Error::InvalidAmount);
        }
        if self.total_shares == 0 {
            return Ok(assets);
        }
        mul_div(assets, self.total_shares, self.total_active)
    }

    pub fn share_balance(&self, user: u64) -> (r: Result<i128, Error>)
        ensures
            r == (if self@.admin is None { Err(Error::NotInitialized) } else { Ok(self@.balance(user)) }),
    {
        self.ensure_initialized()?;
        Ok(self.balance_of(user))
    }

    pub fn get_request(&self, request_id: u64) -> (r: Result<UnbondingRequest, Error>)
        ensures
            r == (if self@.admin is None {
                Err(Error::NotInitialized)
            } else if !self@.requests.contains_key(request_id) {
                Err(Error::RequestNotFound)
            } else {
                Ok(self@.requests[request_id])
            }),
    {
        self.ensure_initialized()?;
        match self.requests.get(&request_id) {
            Some(req) => Ok(*req),
            None => Err(Error::RequestNotFound),
        }
    }

    /// `(total_active, total_shares, total_pending, total_rewards)`.
    pub fn totals(&self) -> (r: Result<(i128, i128, i128, i128), Error>)
        ensures
            r == (if self@.admin is None {
                Err(Error::NotInitialized)
            } else {
                Ok((self@.total_active, self@.total_shares, self@.total_pending, self@.total_rewards))
            }),
    {
        self.ensure_initialized()?;
        Ok((self.total_active, self.total_shares, self.total_pending, self.total_rewards))
    }

    pub fn get_unbonding_period(&self) -> (r: Result<u64, Error>)
        ensures
            r == (if self@.admin is None { Err(Error::NotInitialized) } else { Ok(self@.unbonding_period) }),
    {
        self.ensure_initialized()?;
        Ok(self.unbonding_period)
    }
}

/// A quotient rounded down never exceeds the exact one.
proof fn lemma_floor_mul_div(a: int, b: int, d: int)
    requires
        a >= 0,
        b >= 0,
        d > 0,
    ensures
        ((a * b) / d) * d <= a * b,
        (a * b) / d >= 0,
{
    assert(a * b >= 0) by (nonlinear_arith) requires a >= 0, b >= 0;
    vstd::arithmetic::div_mod::lemma_fundamental_div_mod(a * b, d);
    assert(((a * b) / d) * d <= a * b) by (nonlinear_arith)
        requires
            a * b == d * ((a * b) / d) + (a * b) % d,
            (a * b) % d >= 0;
    vstd::arithmetic::div_mod::lemma_div_pos_is_pos(a * b, d);
}

/// Converting underlying to shares and those shares back to underlying never
/// yields more than was put in: both conversions round down.
pub proof fn lemma_round_trip_never_gains(s: StakingView, assets: i128)
    requires
        s.wf(),
        s.shares_for(assets) is Ok,
        s.assets_for(s.shares_for(assets)->Ok_0) is Ok,
    ensures
        s.assets_for(s.shares_for(assets)->Ok_0)->Ok_0 <= assets,
{
    let sh = s.shares_for(assets)->Ok_0;
    let back = s.assets_for(sh)->Ok_0;
    if s.total_shares != 0 {
        let a = s.total_active as int;
        let t = s.total_shares as int;
        lemma_floor_mul_div(assets as int, t, a);
        lemma_floor_mul_div(sh as int, a, t);
        assert(back <= assets) by (nonlinear_arith)
            requires
                back as int * t <= sh as int * a,
                sh as int * a <= assets as int * t,
                t > 0;
    }
}

/// Requests that agree on every id below `n` but `k` have pending sums that
/// differ by what `k` reserves.
pub proof fn lemma_pending_sum_update(
    r1: Map<u64, UnbondingRequest>,
    r2: Map<u64, UnbondingRequest>,
    n: nat,
    k: u64,
)
    requires
        n <= u64::MAX + 1,
        forall|id: u64| id < n && id != k ==> open_amount(r1, id) == open_amount(r2, id),
    ensures
        k < n ==> pending_sum(r2, n) - pending_sum(r1, n) == open_amount(r2, k) - open_amount(r1, k),
        k >= n ==> pending_sum(r2, n) == pending_sum(r1, n),
    decreases n,
{
    if n > 0 {
        lemma_pending_sum_update(r1, r2, (n - 1) as nat, k);
        let last = (n - 1) as u64;
        if last != k {
            assert(open_amount(r1, last) == open_amount(r2, last));
        }
    }
}

/// With every reserved amount non-negative, the pending sum is non-negative.
pub proof fn lemma_pending_sum_nonneg(requests: Map<u64, UnbondingRequest>, n: nat)
    requires
        n <= u64::MAX + 1,
        forall|id: u64| #[trigger] open_amount(requests, id) >= 0,
    ensures
        pending_sum(requests, n) >= 0,
    decreases n,
{
    if n > 0 {
        lemma_pending_sum_nonneg(requests, (n - 1) as nat);
        assert(open_amount(requests, (n - 1) as u64) >= 0);
    }
}

} // verus!
