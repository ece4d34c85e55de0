//! Token-escrowed pari-mutuel sports pools with multi-oracle settlement.
//!
//! The admin registers oracles and opens markets with two to eight
//! outcomes; bettors stake on outcomes until the market closes; oracles vote
//! on the result until the settlement deadline, and the first outcome to
//! reach the market's vote threshold settles it. Winners share the pool,
//! less the protocol fee, in proportion to their stakes; a market whose
//! winning outcome has no stake, or that nobody settles in time, is
//! cancelled and every stake is refunded.
//!
//! Accounts, oracles and tokens are numbers; the event id is UTF-8 bytes.
//! The host verifies signatures (the admin's for administration, the fee
//! recipient's for fee claims), passes the ledger time as `now` and moves
//! the tokens a successful call implies.
use std::collections::HashMap;
use vstd::prelude::*;

use crate::bytes::copy_bytes;
use crate::fixed::{cmul, cdiv, fits_i128, div_checked};

verus! {

broadcast use vstd::std_specs::hash::group_hash_axioms;

pub const MAX_FEE_BPS: u32 = 1_000;
pub const BPS: i128 = 10_000;
pub const MAX_ORACLES: u32 = 32;
/// The most outcomes a market may have.
pub const MAX_OUTCOMES: u32 = 8;

#[derive(Copy, Clone, Debug, PartialEq, Eq, Structural)]
pub enum MarketStatus {
    Open,
    Resolved,
    Cancelled,
}

#[derive(Copy, Clone, Debug, PartialEq, Eq, Structural)]
pub enum Error {
    AlreadyInitialized,
    NotInitialized,
    Unauthorized,
    Paused,
    InvalidFee,
    InvalidThreshold,
    OracleAlreadyExists,
    OracleNotFound,
    TooManyOracles,
    InvalidSchedule,
    InvalidEvent,
    InvalidOutcome,
    InvalidAmount,
    MarketNotFound,
    BettingClosed,
    MarketNotClosed,
    SettlementExpired,
    AlreadyVoted,
    MarketFinalized,
    NotResolved,
    NothingToClaim,
    AlreadyClaimed,
    ArithmeticError,
    CancellationUnavailable,
}

#[derive(Debug)]
pub struct Market {
    pub id: u64,
    pub event_id: Vec<u8>,
    pub token: u64,
    pub close_time: u64,
    pub settlement_deadline: u64,
    pub oracle_threshold: u32,
    pub status: MarketStatus,
    pub winning_outcome: Option<u32>,
    /// The total staked on each outcome.
    pub pools: Vec<i128>,
    pub total_pool: i128,
    pub fee_amount: i128,
    pub fee_claimed: bool,
}

/// The sum of a sequence of amounts.
pub open spec fn seq_sum(s: Seq<i128>) -> int
    decreases s.len(),
{
    if s.len() == 0 { 0 } else { seq_sum(s.drop_last()) + s.last() }
}

/// An oracle votes at most once on a market: once its vote is recorded,
/// every further vote it submits there is refused, with `AlreadyVoted`
/// while the market is open and still in its voting window.
pub proof fn lemma_oracle_votes_once(s: BettingView, oracle: u64, market_id: u64, outcome: u32, now: u64)
    requires
        s.votes.contains_key(bet_key(market_id, oracle)),
    ensures
        s.vote_checks(oracle, market_id, outcome, now) is Err,
        s.admin is Some && !s.paused && s.is_oracle(oracle) && s.markets.contains_key(market_id)
            && s.markets[market_id].status == MarketStatus::Open
            && s.markets[market_id].close_time <= now <= s.markets[market_id].settlement_deadline
            && outcome < s.markets[market_id].pools@.len()
            ==> s.vote_checks(oracle, market_id, outcome, now) == Err::<(), Error>(Error::AlreadyVoted),
{
}

/// Replacing one entry replaces its amount in the sum.
pub proof fn lemma_seq_sum_update(s: Seq<i128>, i: int, v: i128)
    requires
        0 <= i < s.len(),
    ensures
        seq_sum(s.update(i, v)) == seq_sum(s) - s[i] + v,
    decreases s.len(),
{
    let t = s.update(i, v);
    if i < s.len() - 1 {
        assert(t.drop_last() =~= s.drop_last().update(i, v));
        lemma_seq_sum_update(s.drop_last(), i, v);
    } else {
        assert(t.drop_last() =~= s.drop_last());
    }
}

/// A sequence of non-negative amounts has a non-negative sum.
pub proof fn lemma_seq_sum_nonneg(s: Seq<i128>)
    requires
        forall|i: int| 0 <= i < s.len() ==> #[trigger] s[i] >= 0,
    ensures
        seq_sum(s) >= 0,
    decreases s.len(),
{
    if s.len() > 0 {
        assert(s.last() == s[s.len() - 1]);
        lemma_seq_sum_nonneg(s.drop_last());
    }
}

/// A sequence of zeros sums to zero.
proof fn lemma_seq_sum_zeros(s: Seq<i128>)
    requires
        forall|i: int| 0 <= i < s.len() ==> s[i] == 0,
    ensures
        seq_sum(s) == 0,
    decreases s.len(),
{
    if s.len() > 0 {
        lemma_seq_sum_zeros(s.drop_last());
    }
}

impl Market {
    /// Field-by-field equality, comparing the event id and pools by value.
    pub open spec fn same(self, other: Market) -> bool {
        &&& self.id == other.id
        &&& self.event_id@ == other.event_id@
        &&& self.token == other.token
        &&& self.close_time == other.close_time
        &&& self.settlement_deadline == other.settlement_deadline
        &&& self.oracle_threshold == other.oracle_threshold
        &&& self.status == other.status
        &&& self.winning_outcome == other.winning_outcome
        &&& self.pools@ == other.pools@
        &&& self.total_pool == other.total_pool
        &&& self.fee_amount == other.fee_amount
        &&& self.fee_claimed == other.fee_claimed
    }

    /// The market's books balance: two to eight outcomes, no negative
    /// pool, the total pool is the sum of the outcome pools; a resolved
    /// market's winning outcome exists and holds stakes, and its fee is
    /// within the total pool.
    pub open spec fn wf(self) -> bool {
        &&& 2 <= self.pools@.len() <= MAX_OUTCOMES
        &&& forall|i: int| 0 <= i < self.pools@.len() ==> #[trigger] self.pools@[i] >= 0
        &&& self.total_pool == seq_sum(self.pools@)
        &&& (self.status == MarketStatus::Resolved ==> {
            &&& self.winning_outcome is Some
            &&& self.winning_outcome->Some_0 < self.pools@.len()
            &&& self.pools@[self.winning_outcome->Some_0 as int] > 0
            &&& 0 <= self.fee_amount <= self.total_pool
        })
    }

    pub fn duplicate(&self) -> (r: Market)
        ensures
            r.same(*self),
    {
        let mut pools: Vec<i128> = Vec::new();
        let mut i: usize = 0;
        while i < self.pools.len()
            invariant
                i <= self.pools.len(),
                pools@ == self.pools@.take(i as int),
            decreases self.pools.len() - i,
        {
            pools.push(self.pools[i]);
            i = i + 1;
            assert(pools@ =~= self.pools@.take(i as int));
        }
        assert(self.pools@.take(self.pools.len() as int) =~= self.pools@);
        Market {
            id: self.id,
            event_id: copy_bytes(&self.event_id),
            token: self.token,
            close_time: self.close_time,
            settlement_deadline: self.settlement_deadline,
            oracle_threshold: self.oracle_threshold,
            status: self.status,
            winning_outcome: self.winning_outcome,
            pools,
            total_pool: self.total_pool,
            fee_amount: self.fee_amount,
            fee_claimed: self.fee_claimed,
        }
    }
}

/// `a * b / divisor` with Rust's checked operations: `None` on overflow or
/// a zero divisor.
pub open spec fn spec_checked_mul_div(a: int, b: int, divisor: int) -> Option<i128> {
    match cmul(a, b) {
        None => None,
        Some(v) => cdiv(v as int, divisor),
    }
}

/// `a * b / divisor`, or `ArithmeticError` where the product overflows or
/// the division fails.
pub fn checked_mul_div(a: i128, b: i128, divisor: i128) -> (r: Result<i128, Error>)
    ensures
        r == (match spec_checked_mul_div(a as int, b as int, divisor as int) {
            Some(v) => Ok(v),
            None => Err(Error::ArithmeticError),
        }),
{
    let product = match a.checked_mul(b) {
        Some(v) => v,
        None => return Err(Error::ArithmeticError),
    };
    match div_checked(product, divisor) {
        Some(v) => Ok(v),
        None => Err(Error::ArithmeticError),
    }
}

/// The key of a bettor's stakes in a market.
pub open spec fn bet_key(market_id: u64, bettor: u64) -> u128 {
    (market_id * 0x1_0000_0000_0000_0000 + bettor) as u128
}

fn make_key(a: u64, b: u64) -> (r: u128)
    ensures
        r == bet_key(a, b),
{
    assert(a * 0x1_0000_0000_0000_0000 + b <= u128::MAX) by (nonlinear_arith)
        requires a <= u64::MAX, b <= u64::MAX;
    (a as u128) * 0x1_0000_0000_0000_0000 + (b as u128)
}

/// The abstract contents of the contract's storage.
pub struct BettingView {
    pub admin: Option<u64>,
    pub fee_recipient: u64,
    pub fee_bps: u32,
    pub paused: bool,
    pub market_count: u64,
    pub oracles: Map<u64, bool>,
    pub oracle_count: u32,
    pub markets: Map<u64, Market>,
    /// Per (market, bettor): the stake on each outcome.
    pub bets: Map<u128, Seq<i128>>,
    /// Per (market, oracle): the outcome the oracle voted for.
    pub votes: Map<u128, u32>,
    /// Per market: the votes each outcome has received.
    pub vote_counts: Map<u64, Seq<u32>>,
}

/// The contract's storage.
pub struct SportsBetting {
    pub admin: Option<u64>,
    pub fee_recipient: u64,
    pub fee_bps: u32,
    pub paused: bool,
    pub market_count: u64,
    pub oracles: HashMap<u64, bool>,
    pub oracle_count: u32,
    pub markets: HashMap<u64, Market>,
    pub bets: HashMap<u128, Vec<i128>>,
    pub votes: HashMap<u128, u32>,
    pub vote_counts: HashMap<u64, Vec<u32>>,
}

/// A seq view of each vector in a map.
pub open spec fn seq_views<T>(m: Map<u128, Vec<T>>) -> Map<u128, Seq<T>> {
    Map::new(|k: u128| m.contains_key(k), |k: u128| m[k]@)
}

pub open spec fn seq_views64<T>(m: Map<u64, Vec<T>>) -> Map<u64, Seq<T>> {
    Map::new(|k: u64| m.contains_key(k), |k: u64| m[k]@)
}

impl View for SportsBetting {
    type V = BettingView;

    open spec fn view(&self) -> BettingView {
        BettingView {
            admin: self.admin,
            fee_recipient: self.fee_recipient,
            fee_bps: self.fee_bps,
            paused: self.paused,
            market_count: self.market_count,
            oracles: self.oracles@,
            oracle_count: self.oracle_count,
            markets: self.markets@,
            bets: seq_views(self.bets@),
            votes: self.votes@,
            vote_counts: seq_views64(self.vote_counts@),
        }
    }
}

impl BettingView {
    pub open spec fn is_oracle(self, oracle: u64) -> bool {
        self.oracles.contains_key(oracle) && self.oracles[oracle]
    }

    /// The stake `bettor` holds on `outcome` of a market.
    pub open spec fn stake(self, market_id: u64, bettor: u64, outcome: u32) -> int {
        let k = bet_key(market_id, bettor);
        if self.bets.contains_key(k) && outcome < self.bets[k].len() { self.bets[k][outcome as int] as int } else { 0 }
    }

    /// The votes `outcome` of a market has received.
    pub open spec fn vote_count(self, market_id: u64, outcome: u32) -> int {
        if self.vote_counts.contains_key(market_id) && outcome < self.vote_counts[market_id].len() {
            self.vote_counts[market_id][outcome as int] as int
        } else {
            0
        }
    }

    /// Every market's books balance, market ids are below the market
    /// count, and the fee is capped.
    pub open spec fn wf(self) -> bool {
        &&& forall|id: u64| #[trigger] self.markets.contains_key(id) ==> self.markets[id].wf()
            && self.markets[id].id == id && id < self.market_count
        &&& forall|k: u128| #[trigger] self.bets.contains_key(k) ==> self.bets[k].len() == MAX_OUTCOMES
        &&& forall|id: u64| #[trigger] self.vote_counts.contains_key(id)
            ==> self.markets.contains_key(id) && self.vote_counts[id].len() == self.markets[id].pools@.len()
        &&& self.fee_bps <= MAX_FEE_BPS
    }

    /// The market a call reads, after the initialization check.
    pub open spec fn market_lookup(self, market_id: u64) -> Result<Market, Error> {
        if self.admin is None {
            Err(Error::NotInitialized)
        } else if !self.markets.contains_key(market_id) {
            Err(Error::MarketNotFound)
        } else {
            Ok(self.markets[market_id])
        }
    }

    /// What placing a bet returns.
    pub open spec fn bet_outcome(self, bettor: u64, market_id: u64, outcome: u32, amount: i128, now: u64) -> Result<(), Error> {
        if self.admin is None {
            Err(Error::NotInitialized)
        } else if self.paused {
            Err(Error::Paused)
        } else if amount <= 0 {
            Err(Error::InvalidAmount)
        } else if !self.markets.contains_key(market_id) {
            Err(Error::MarketNotFound)
        } else {
            let m = self.markets[market_id];
            if m.status != MarketStatus::Open {
                Err(Error::MarketFinalized)
            } else if now >= m.close_time {
                Err(Error::BettingClosed)
            } else if outcome >= m.pools@.len() {
                Err(Error::InvalidOutcome)
            } else if !fits_i128(m.pools@[outcome as int] + amount) || !fits_i128(m.total_pool + amount)
                || !fits_i128(self.stake(market_id, bettor, outcome) + amount) {
                Err(Error::ArithmeticError)
            } else {
                Ok(())
            }
        }
    }

    /// The checks of a result submission before the vote is counted.
    pub open spec fn vote_checks(self, oracle: u64, market_id: u64, outcome: u32, now: u64) -> Result<(), Error> {
        if self.admin is None {
            Err(Error::NotInitialized)
        } else if self.paused {
            Err(Error::Paused)
        } else if !self.is_oracle(oracle) {
            Err(Error::Unauthorized)
        } else if !self.markets.contains_key(market_id) {
            Err(Error::MarketNotFound)
        } else {
            let m = self.markets[market_id];
            if m.status != MarketStatus::Open {
                Err(Error::MarketFinalized)
            } else if now < m.close_time {
                Err(Error::MarketNotClosed)
            } else if now > m.settlement_deadline {
                Err(Error::SettlementExpired)
            } else if outcome >= m.pools@.len() {
                Err(Error::InvalidOutcome)
            } else if self.votes.contains_key(bet_key(market_id, oracle)) {
                Err(Error::AlreadyVoted)
            } else {
                Ok(())
            }
        }
    }

    /// What a claim of `bettor`'s stake on `outcome` pays.
    pub open spec fn claim_outcome(self, bettor: u64, market_id: u64, outcome: u32) -> Result<i128, Error> {
        match self.market_lookup(market_id) {
            Err(e) => Err(e),
            Ok(m) => {
                let stake = self.stake(market_id, bettor, outcome);
                if outcome >= m.pools@.len() {
                    Err(Error::InvalidOutcome)
                } else if m.status == MarketStatus::Open {
                    Err(Error::NotResolved)
                } else if stake == 0 {
                    Err(Error::NothingToClaim)
                } else if m.status == MarketStatus::Cancelled {
                    Ok(stake as i128)
                } else if m.winning_outcome == Some(outcome) {
                    if !fits_i128(m.total_pool - m.fee_amount) {
                        Err(Error::ArithmeticError)
                    } else {
                        match spec_checked_mul_div(stake, m.total_pool - m.fee_amount, m.pools@[outcome as int] as int) {
                            Some(p) => Ok(p),
                            None => Err(Error::ArithmeticError),
                        }
                    }
                } else {
                    Ok(0)
                }
            },
        }
    }
}

impl SportsBetting {
    /// A contract with empty storage.
    pub fn new() -> (r: Self)
        ensures
            r@.admin is None,
            r@.markets == Map::<u64, Market>::empty(),
            r@.oracles == Map::<u64, bool>::empty(),
            r@.wf(),
    {
        let r = SportsBetting {
            admin: None,
            fee_recipient: 0,
            fee_bps: 0,
            paused: false,
            market_count: 0,
            oracles: HashMap::new(),
            oracle_count: 0,
            markets: HashMap::new(),
            bets: HashMap::new(),
            votes: HashMap::new(),
            vote_counts: HashMap::new(),
        };
        proof {
            assert(r@.bets =~= Map::<u128, Seq<i128>>::empty());
            assert(r@.vote_counts =~= Map::<u64, Seq<u32>>::empty());
        }
        r
    }

    pub fn initialize(&mut self, admin: u64, fee_recipient: u64, fee_bps: u32) -> (r: Result<(), Error>)
        requires
            old(self)@.wf(),
        ensures
            r == (if old(self)@.admin is Some {
                Err(Error::AlreadyInitialized)
            } else if fee_bps > MAX_FEE_BPS {
                Err(Error::InvalidFee)
            } else {
                Ok(())
            }),
            r is Err ==> final(self)@ == old(self)@,
            r is Ok ==> final(self)@ == (BettingView {
                admin: Some(admin),
                fee_recipient,
                fee_bps,
                paused: false,
                market_count: 0,
                oracle_count: 0,
                ..old(self)@
            }),
            old(self)@.markets.is_empty() ==> final(self)@.wf(),
    {
        if self.admin.is_some() {
            return Err(Error::AlreadyInitialized);
        }
        if fee_bps > MAX_FEE_BPS {
            return Err(Error::InvalidFee);
        }
        self.admin = Some(admin);
        self.fee_recipient = fee_recipient;
        self.fee_bps = fee_bps;
        self.paused = false;
        self.market_count = 0;
        self.oracle_count = 0;
        Ok(())
    }

    /// The admin pauses or resumes betting and settlement.
    pub fn set_paused(&mut self, paused: bool) -> (r: Result<(), Error>)
        requires
            old(self)@.wf(),
        ensures
            r == (if old(self)@.admin is None { Err(Error::NotInitialized) } else { Ok(()) }),
            r is Err ==> final(self)@ == old(self)@,
            r is Ok ==> final(self)@ == (BettingView { paused, ..old(self)@ }),
            final(self)@.wf(),
    {
        if self.admin.is_none() {
            return Err(Error::NotInitialized);
        }
        self.paused = paused;
        Ok(())
    }

    fn is_oracle_of(&self, oracle: u64) -> (r: bool)
        ensures
            r == self@.is_oracle(oracle),
    {
        match self.oracles.get(&oracle) {
            Some(a) => *a,
            None => false,
        }
    }

    /// The admin registers an oracle; at most 32 may be active.
    pub fn add_oracle(&mut self, oracle: u64) -> (r: Result<(), Error>)
        requires
            old(self)@.wf(),
        ensures
            r == (if old(self)@.admin is None {
                Err(Error::NotInitialized)
            } else if old(self)@.is_oracle(oracle) {
                Err(Error::OracleAlreadyExists)
            } else if old(self)@.oracle_count >= MAX_ORACLES {
                Err(Error::TooManyOracles)
            } else {
                Ok(())
            }),
            r is Err ==> final(self)@ == old(self)@,
            r is Ok ==> final(self)@ == (BettingView {
                oracles: old(self)@.oracles.insert(oracle, true),
                oracle_count: (old(self)@.oracle_count + 1) as u32,
                ..old(self)@
            }),
            final(self)@.wf(),
    {
        if self.admin.is_none() {
            return Err(Error::NotInitialized);
        }
        if self.is_oracle_of(oracle) {
            return Err(Error::OracleAlreadyExists);
        }
        if self.oracle_count >= MAX_ORACLES {
            return Err(Error::TooManyOracles);
        }
        self.oracles.insert(oracle, true);
        self.oracle_count = self.oracle_count + 1;
        Ok(())
    }

    /// The admin deregisters an active oracle.
    pub fn remove_oracle(&mut self, oracle: u64) -> (r: Result<(), Error>)
        requires
            old(self)@.wf(),
            old(self)@.admin is Some && old(self)@.is_oracle(oracle) ==> old(self)@.oracle_count > 0,
        ensures
            r == (if old(self)@.admin is None {
                Err(Error::NotInitialized)
            } else if !old(self)@.is_oracle(oracle) {
                Err(Error::OracleNotFound)
            } else {
                Ok(())
            }),
            r is Err ==> final(self)@ == old(self)@,
            r is Ok ==> final(self)@ == (BettingView {
                oracles: old(self)@.oracles.insert(oracle, false),
                oracle_count: (old(self)@.oracle_count - 1) as u32,
                ..old(self)@
            }),
            final(self)@.wf(),
    {
        if self.admin.is_none() {
            return Err(Error::NotInitialized);
        }
        if !self.is_oracle_of(oracle) {
            return Err(Error::OracleNotFound);
        }
        self.oracles.insert(oracle, false);
        self.oracle_count = self.oracle_count - 1;
        Ok(())
    }

    /// The admin opens a market on `event_id` with `outcome_count` outcomes,
    /// betting until `close_time` and settlement until `settlement_deadline`,
    /// settled by `oracle_threshold` agreeing votes. Returns its id.
    pub fn create_market(
        &mut self,
        event_id: Vec<u8>,
        token: u64,
        outcome_count: u32,
        close_time: u64,
        settlement_deadline: u64,
        oracle_threshold: u32,
        now: u64,
    ) -> (r: Result<u64, Error>)
        requires
            old(self)@.wf(),
            old(self)@.market_count < u64::MAX,
        ensures
            r == (if old(self)@.admin is None {
                Err(Error::NotInitialized)
            } else if old(self)@.paused {
                Err(Error::Paused)
            } else if event_id@.len() == 0 {
                Err(Error::InvalidEvent)
            } else if outcome_count < 2 || outcome_count > MAX_OUTCOMES {
                Err(Error::InvalidOutcome)
            } else if close_time <= now || settlement_deadline <= close_time {
                Err(Error::InvalidSchedule)
            } else if oracle_threshold == 0 || oracle_threshold > old(self)@.oracle_count {
                Err(Error::InvalidThreshold)
            } else {
                Ok(old(self)@.market_count)
            }),
            r is Err ==> final(self)@ == old(self)@,
            r is Ok ==> final(self)@ == (BettingView {
                markets: old(self)@.markets.insert(r->Ok_0, final(self)@.markets[r->Ok_0]),
                market_count: (old(self)@.market_count + 1) as u64,
                ..old(self)@
            }),
            r is Ok ==> ({
                let m = final(self)@.markets[r->Ok_0];
                &&& m.id == r->Ok_0
                &&& m.event_id@ == event_id@
                &&& m.token == token
                &&& m.close_time == close_time
                &&& m.settlement_deadline == settlement_deadline
                &&& m.oracle_threshold == oracle_threshold
                &&& m.status == MarketStatus::Open
                &&& m.winning_outcome is None
                &&& m.pools@ == Seq::new(outcome_count as nat, |i: int| 0i128)
                &&& m.total_pool == 0 && m.fee_amount == 0 && !m.fee_claimed
            }),
            final(self)@.wf(),
    {
        if self.admin.is_none() {
            return Err(Error::NotInitialized);
        }
        if self.paused {
            return Err(Error::Paused);
        }
        if event_id.len() == 0 {
            return Err(Error::InvalidEvent);
        }
        if outcome_count < 2 || outcome_count > MAX_OUTCOMES {
            return Err(Error::InvalidOutcome);
        }
        if close_time <= now || settlement_deadline <= close_time {
            return Err(Error::InvalidSchedule);
        }
        if oracle_threshold == 0 || oracle_threshold > self.oracle_count {
            return Err(Error::InvalidThreshold);
        }
        let id = self.market_count;
        let mut pools: Vec<i128> = Vec::new();
        let mut i: u32 = 0;
        while i < outcome_count
            invariant
                i <= outcome_count,
                pools@ == Seq::new(i as nat, |j: int| 0i128),
            decreases outcome_count - i,
        {
            pools.push(0);
            i = i + 1;
            assert(pools@ =~= Seq::new(i as nat, |j: int| 0i128));
        }
        proof {
            lemma_seq_sum_zeros(pools@);
        }
        let market = Market {
            id,
            event_id,
            token,
            close_time,
            settlement_deadline,
            oracle_threshold,
            status: MarketStatus::Open,
            winning_outcome: None,
            pools,
            total_pool: 0,
            fee_amount: 0,
            fee_claimed: false,
        };
        self.markets.insert(id, market);
        self.market_count = id + 1;
        Ok(id)
    }

    fn stake_of(&self, market_id: u64, bettor: u64, outcome: u32) -> (r: i128)
        requires
            self@.wf(),
        ensures
            r == self@.stake(market_id, bettor, outcome),
    {
        let key = make_key(market_id, bettor);
        match self.bets.get(&key) {
            Some(v) => {
                proof {
                    assert(self@.bets.contains_key(key));
                }
                if (outcome as usize) < v.len() { v[outcome as usize] } else { 0 }
            },
            None => 0,
        }
    }

    fn write_stake(&mut self, market_id: u64, bettor: u64, outcome: u32, value: i128)
        requires
            old(self)@.wf(),
            outcome < MAX_OUTCOMES,
        ensures
            final(self)@ == (BettingView {
                bets: old(self)@.bets.insert(bet_key(market_id, bettor),
                    if old(self)@.bets.contains_key(bet_key(market_id, bettor)) {
                        old(self)@.bets[bet_key(market_id, bettor)].update(outcome as int, value)
                    } else {
                        Seq::new(MAX_OUTCOMES as nat, |i: int| 0i128).update(outcome as int, value)
                    }),
                ..old(self)@
            }),
            final(self)@.wf(),
    {
        let key = make_key(market_id, bettor);
        let mut stakes = match self.bets.remove(&key) {
            Some(v) => v,
            None => {
                let mut v: Vec<i128> = Vec::new();
                let mut i: u32 = 0;
                while i < MAX_OUTCOMES
                    invariant
                        i <= MAX_OUTCOMES,
                        v@ == Seq::new(i as nat, |j: int| 0i128),
                    decreases MAX_OUTCOMES - i,
                {
                    v.push(0);
                    i = i + 1;
                    assert(v@ =~= Seq::new(i as nat, |j: int| 0i128));
                }
                v
            },
        };
        proof {
            if old(self)@.bets.contains_key(key) {
                assert(old(self)@.bets[key].len() == MAX_OUTCOMES);
            }
        }
        stakes.set(outcome as usize, value);
        self.bets.insert(key, stakes);
        proof {
            assert(self@.bets =~= old(self)@.bets.insert(key, self.bets@[key]@));
        }
    }

    /// `bettor` stakes `amount` on `outcome` at `now`; the host escrows the
    /// stake.
    pub fn place_bet(&mut self, bettor: u64, market_id: u64, outcome: u32, amount: i128, now: u64) -> (r: Result<(), Error>)
        requires
            old(self)@.wf(),
        ensures
            r == old(self)@.bet_outcome(bettor, market_id, outcome, amount, now),
            r is Err ==> final(self)@ == old(self)@,
            r is Ok ==> ({
                let m = old(self)@.markets[market_id];
                let n = final(self)@.markets[market_id];
                &&& final(self)@.markets == old(self)@.markets.insert(market_id, n)
                &&& n.pools@ == m.pools@.update(outcome as int, (m.pools@[outcome as int] + amount) as i128)
                &&& n.total_pool == m.total_pool + amount
                &&& n.id == m.id && n.event_id@ == m.event_id@ && n.token == m.token
                &&& n.close_time == m.close_time && n.settlement_deadline == m.settlement_deadline
                &&& n.oracle_threshold == m.oracle_threshold && n.status == m.status
                &&& n.winning_outcome == m.winning_outcome && n.fee_amount == m.fee_amount
                &&& n.fee_claimed == m.fee_claimed
                &&& final(self)@.stake(market_id, bettor, outcome) == old(self)@.stake(market_id, bettor, outcome) + amount
                &&& forall|b: u64, o: u32| (b != bettor || o != outcome) && o < MAX_OUTCOMES
                    ==> #[trigger] final(self)@.stake(market_id, b, o) == old(self)@.stake(market_id, b, o)
                &&& final(self)@.votes == old(self)@.votes
                &&& final(self)@.vote_counts == old(self)@.vote_counts
                &&& final(self)@.oracles == old(self)@.oracles
            }),
            final(self)@.wf(),
    {
        if self.admin.is_none() {
            return Err(Error::NotInitialized);
        }
        if self.paused {
            return Err(Error::Paused);
        }
        if amount <= 0 {
            return Err(Error::InvalidAmount);
        }
        let (pool, total) = match self.markets.get(&market_id) {
            Some(m) => {
                if m.status != MarketStatus::Open {
                    return Err(Error::MarketFinalized);
                }
                if now >= m.close_time {
                    return Err(Error::BettingClosed);
                }
                if (outcome as usize) >= m.pools.len() {
                    return Err(Error::InvalidOutcome);
                }
                (m.pools[outcome as usize], m.total_pool)
            },
            None => return Err(Error::MarketNotFound),
        };
        let new_pool = match pool.checked_add(amount) {
            Some(v) => v,
            None => return Err(Error::ArithmeticError),
        };
        let new_total = match total.checked_add(amount) {
            Some(v) => v,
            None => return Err(Error::ArithmeticError),
        };
        let prior = self.stake_of(market_id, bettor, outcome);
        let updated = match prior.checked_add(amount) {
            Some(v) => v,
            None => return Err(Error::ArithmeticError),
        };
        let mut market = match self.markets.remove(&market_id) {
            Some(m) => m,
            None => return Err(Error::MarketNotFound),
        };
        let ghost m0 = market;
        proof {
            lemma_seq_sum_update(market.pools@, outcome as int, new_pool);
        }
        market.pools.set(outcome as usize, new_pool);
        market.total_pool = new_total;
        self.markets.insert(market_id, market);
        proof {
            assert(self@.markets =~= old(self)@.markets.insert(market_id, self@.markets[market_id]));
            assert forall|i: int| 0 <= i < self@.markets[market_id].pools@.len()
                implies #[trigger] self@.markets[market_id].pools@[i] >= 0 by {
                if i != outcome {
                    assert(m0.pools@[i] >= 0);
                }
            }
            assert(self@.markets[market_id].wf());
            assert forall|id: u64| #[trigger] self@.markets.contains_key(id) implies self@.markets[id].wf()
                && self@.markets[id].id == id && id < self@.market_count by {
                if id != market_id {
                    assert(old(self)@.markets.contains_key(id));
                }
            }
            assert forall|id: u64| #[trigger] self@.vote_counts.contains_key(id) implies
                self@.markets.contains_key(id) && self@.vote_counts[id].len() == self@.markets[id].pools@.len() by {
                assert(old(self)@.vote_counts.contains_key(id));
            }
            assert forall|k: u128| #[trigger] self@.bets.contains_key(k) implies self@.bets[k].len() == MAX_OUTCOMES by {
                assert(old(self)@.bets.contains_key(k));
            }
        }
        self.write_stake(market_id, bettor, outcome, updated);
        Ok(())
    }

    /// An oracle votes at `now` for the outcome of a closed market. The
    /// vote that brings an outcome to the threshold settles the market:
    /// cancelled if that outcome has no stakes, else resolved with the fee
    /// taken from the total pool. Returns whether the market was settled.
    #[verifier::spinoff_prover]
    pub fn submit_result(&mut self, oracle: u64, market_id: u64, outcome: u32, now: u64) -> (r: Result<bool, Error>)
        requires
            old(self)@.wf(),
            old(self)@.vote_checks(oracle, market_id, outcome, now) is Ok
                ==> old(self)@.vote_count(market_id, outcome) < u32::MAX,
        ensures
            old(self)@.vote_checks(oracle, market_id, outcome, now) is Err
                ==> r == Err::<bool, Error>(old(self)@.vote_checks(oracle, market_id, outcome, now)->Err_0),
            r is Err ==> final(self)@ == old(self)@,
            old(self)@.vote_checks(oracle, market_id, outcome, now) is Ok ==> ({
                let m = old(self)@.markets[market_id];
                let votes = old(self)@.vote_count(market_id, outcome) + 1;
                let settles = votes >= m.oracle_threshold;
                let fee = spec_checked_mul_div(m.total_pool as int, old(self)@.fee_bps as int, BPS as int);
                &&& r == (if settles && m.pools@[outcome as int] != 0 && fee is None {
                    Err(Error::ArithmeticError)
                } else {
                    Ok(settles)
                })
                &&& r is Ok ==> {
                    let n = final(self)@.markets[market_id];
                    &&& final(self)@.votes == old(self)@.votes.insert(bet_key(market_id, oracle), outcome)
                    &&& final(self)@.vote_count(market_id, outcome) == votes
                    &&& forall|o: u32| o != outcome ==> #[trigger] final(self)@.vote_count(market_id, o)
                        == old(self)@.vote_count(market_id, o)
                    &&& final(self)@.markets == old(self)@.markets.insert(market_id, n)
                    &&& n.status == (if !settles {
                        MarketStatus::Open
                    } else if m.pools@[outcome as int] == 0 {
                        MarketStatus::Cancelled
                    } else {
                        MarketStatus::Resolved
                    })
                    &&& n.winning_outcome == (if settles && m.pools@[outcome as int] != 0 {
                        Some(outcome)
                    } else {
                        m.winning_outcome
                    })
                    &&& n.fee_amount == (if settles && m.pools@[outcome as int] != 0 {
                        fee->Some_0
                    } else {
                        m.fee_amount
                    })
                    &&& n.pools@ == m.pools@ && n.total_pool == m.total_pool
                    &&& n.id == m.id && n.event_id@ == m.event_id@ && n.token == m.token
                    &&& n.close_time == m.close_time && n.settlement_deadline == m.settlement_deadline
                    &&& n.oracle_threshold == m.oracle_threshold && n.fee_claimed == m.fee_claimed
                    &&& final(self)@.bets == old(self)@.bets
                    &&& final(self)@.oracles == old(self)@.oracles
                    &&& final(self)@.admin == old(self)@.admin
                    &&& final(self)@.fee_recipient == old(self)@.fee_recipient
                    &&& final(self)@.fee_bps == old(self)@.fee_bps
                    &&& final(self)@.paused == old(self)@.paused
                    &&& final(self)@.market_count == old(self)@.market_count
                    &&& final(self)@.oracle_count == old(self)@.oracle_count
                }
            }),
            final(self)@.wf(),
    {
        if self.admin.is_none() {
            return Err(Error::NotInitialized);
        }
        if self.paused {
            return Err(Error::Paused);
        }
        if !self.is_oracle_of(oracle) {
            return Err(Error::Unauthorized);
        }
        let (len, threshold, pool, total) = match self.markets.get(&market_id) {
            Some(m) => {
                if m.status != MarketStatus::Open {
                    return Err(Error::MarketFinalized);
                }
                if now < m.close_time {
                    return Err(Error::MarketNotClosed);
                }
                if now > m.settlement_deadline {
                    return Err(Error::SettlementExpired);
                }
                if (outcome as usize) >= m.pools.len() {
                    return Err(Error::InvalidOutcome);
                }
                (m.pools.len(), m.oracle_threshold, m.pools[outcome as usize], m.total_pool)
            },
            None => return Err(Error::MarketNotFound),
        };
        let vote_key = make_key(market_id, oracle);
        if self.votes.contains_key(&vote_key) {
            return Err(Error::AlreadyVoted);
        }
        let prior_votes = match self.vote_counts.get(&market_id) {
            Some(c) => {
                proof {
                    assert(seq_views64(self.vote_counts@).contains_key(market_id));
                }
                if (outcome as usize) < c.len() { c[outcome as usize] } else { 0 }
            },
            None => 0,
        };
        assert(prior_votes == old(self)@.vote_count(market_id, outcome));
        let resolved_fee: Option<i128> = if prior_votes + 1 >= threshold && pool != 0 {
            match checked_mul_div(total, self.fee_bps as i128, BPS) {
                Ok(f) => Some(f),
                Err(e) => return Err(e),
            }
        } else {
            None
        };
        proof {
            let m = old(self)@.markets[market_id];
            lemma_seq_sum_nonneg(m.pools@);
            assert(m.pools@[outcome as int] >= 0);
            if resolved_fee is Some {
                let f = resolved_fee->Some_0;
                assert(f == (total * (self.fee_bps as int)) / 10_000);
                assert(0 <= f <= total) by (nonlinear_arith)
                    requires
                        f == (total * (self.fee_bps as int)) / 10_000,
                        0 <= self.fee_bps <= 1_000,
                        total >= 0;
            }
        }
        self.votes.insert(vote_key, outcome);
        let mut counts = match self.vote_counts.remove(&market_id) {
            Some(c) => c,
            None => {
                let mut v: Vec<u32> = Vec::new();
                let mut i: usize = 0;
                while i < len
                    invariant
                        i <= len,
                        v@ == Seq::new(i as nat, |j: int| 0u32),
                    decreases len - i,
                {
                    v.push(0);
                    i = i + 1;
                    assert(v@ =~= Seq::new(i as nat, |j: int| 0u32));
                }
                v
            },
        };
        proof {
            if old(self)@.vote_counts.contains_key(market_id) {
                assert(old(self)@.vote_counts[market_id].len() == len);
            }
        }
        let votes = counts[outcome as usize] + 1;
        counts.set(outcome as usize, votes);
        self.vote_counts.insert(market_id, counts);
        proof {
            assert(self@.vote_counts =~= old(self)@.vote_counts.insert(market_id, self.vote_counts@[market_id]@));
        }
        let resolved = votes >= threshold;
        proof {
            assert forall|id: u64| #[trigger] self@.vote_counts.contains_key(id) implies
                self@.markets.contains_key(id) && self@.vote_counts[id].len() == self@.markets[id].pools@.len() by {
                if id != market_id {
                    assert(old(self)@.vote_counts.contains_key(id));
                }
            }
            assert forall|k: u128| #[trigger] self@.bets.contains_key(k) implies self@.bets[k].len() == MAX_OUTCOMES by {
                assert(old(self)@.bets.contains_key(k));
            }
        }
        assert(self@.wf());
        if resolved {
            let mut market = match self.markets.remove(&market_id) {
                Some(m) => m,
                None => return Err(Error::MarketNotFound),
            };
            if pool == 0 {
                market.status = MarketStatus::Cancelled;
            } else {
                market.status = MarketStatus::Resolved;
                market.winning_outcome = Some(outcome);
                let fee = match resolved_fee {
                    Some(f) => f,
                    None => 0,
                };
                market.fee_amount = fee;
            }
            self.markets.insert(market_id, market);
            proof {
                assert(self@.markets =~= old(self)@.markets.insert(market_id, self@.markets[market_id]));
                assert(self@.markets[market_id].wf());
                assert forall|id: u64| #[trigger] self@.vote_counts.contains_key(id) implies
                    self@.markets.contains_key(id) && self@.vote_counts[id].len() == self@.markets[id].pools@.len() by {
                    if id != market_id {
                        assert(old(self)@.vote_counts.contains_key(id));
                    }
                }
                assert forall|id: u64| #[trigger] self@.markets.contains_key(id) implies self@.markets[id].wf()
                    && self@.markets[id].id == id && id < self@.market_count by {
                    if id != market_id {
                        assert(old(self)@.markets.contains_key(id));
                    }
                }
                assert forall|k: u128| #[trigger] self@.bets.contains_key(k) implies self@.bets[k].len() == MAX_OUTCOMES by {
                    assert(old(self)@.bets.contains_key(k));
                }
                assert(self@.fee_bps <= MAX_FEE_BPS);
                assert(self@.wf());
            }
        }
        Ok(resolved)
    }

    /// Cancel an open market nobody settled by its deadline, at `now`.
    pub fn cancel_expired(&mut self, market_id: u64, now: u64) -> (r: Result<(), Error>)
        requires
            old(self)@.wf(),
        ensures
            r == (match old(self)@.market_lookup(market_id) {
                Err(e) => Err(e),
                Ok(m) => if m.status != MarketStatus::Open {
                    Err(Error::MarketFinalized)
                } else if now <= m.settlement_deadline {
                    Err(Error::CancellationUnavailable)
                } else {
                    Ok(())
                },
            }),
            r is Err ==> final(self)@ == old(self)@,
            r is Ok ==> final(self)@ == (BettingView {
                markets: old(self)@.markets.insert(market_id, final(self)@.markets[market_id]),
                ..old(self)@
            }),
            r is Ok ==> final(self)@.markets[market_id].status == MarketStatus::Cancelled
                && final(self)@.markets[market_id].pools@ == old(self)@.markets[market_id].pools@
                && final(self)@.markets[market_id].total_pool == old(self)@.markets[market_id].total_pool,
            final(self)@.wf(),
    {
        if self.admin.is_none() {
            return Err(Error::NotInitialized);
        }
        match self.markets.get(&market_id) {
            Some(m) => {
                if m.status != MarketStatus::Open {
                    return Err(Error::MarketFinalized);
                }
                if now <= m.settlement_deadline {
                    return Err(Error::CancellationUnavailable);
                }
            },
            None => return Err(Error::MarketNotFound),
        }
        let market = match self.markets.remove(&market_id) {
            Some(m) => m,
            None => return Err(Error::MarketNotFound),
        };
        self.markets.insert(market_id, Market { status: MarketStatus::Cancelled, ..market });
        proof {
            assert(self@.markets =~= old(self)@.markets.insert(market_id, self@.markets[market_id]));
        }
        Ok(())
    }

    /// `bettor` claims its stake on `outcome` of a settled market: the stake
    /// back if the market was cancelled, a pro-rata share of the pool less
    /// the fee if `outcome` won, else nothing. The stake is cleared; the
    /// host pays the returned amount.
    pub fn claim(&mut self, bettor: u64, market_id: u64, outcome: u32) -> (r: Result<i128, Error>)
        requires
            old(self)@.wf(),
        ensures
            r == old(self)@.claim_outcome(bettor, market_id, outcome),
            r is Err ==> final(self)@ == old(self)@,
            r is Ok ==> final(self)@.stake(market_id, bettor, outcome) == 0,
            r is Ok ==> forall|b: u64, o: u32| (b != bettor || o != outcome) && o < MAX_OUTCOMES
                ==> #[trigger] final(self)@.stake(market_id, b, o) == old(self)@.stake(market_id, b, o),
            r is Ok ==> final(self)@.markets == old(self)@.markets,
            final(self)@.wf(),
    {
        if self.admin.is_none() {
            return Err(Error::NotInitialized);
        }
        let stake = self.stake_of(market_id, bettor, outcome);
        let payout = match self.markets.get(&market_id) {
            Some(m) => {
                if (outcome as usize) >= m.pools.len() {
                    return Err(Error::InvalidOutcome);
                }
                if m.status == MarketStatus::Open {
                    return Err(Error::NotResolved);
                }
                if stake == 0 {
                    return Err(Error::NothingToClaim);
                }
                if m.status == MarketStatus::Cancelled {
                    stake
                } else if m.winning_outcome == Some(outcome) {
                    let distributable = match m.total_pool.checked_sub(m.fee_amount) {
                        Some(d) => d,
                        None => return Err(Error::ArithmeticError),
                    };
                    checked_mul_div(stake, distributable, m.pools[outcome as usize])?
                } else {
                    0
                }
            },
            None => return Err(Error::MarketNotFound),
        };
        self.write_stake(market_id, bettor, outcome, 0);
        Ok(payout)
    }

    /// The fee recipient claims a resolved market's fee, once; the host
    /// pays the returned amount.
    pub fn claim_fee(&mut self, market_id: u64) -> (r: Result<i128, Error>)
        requires
            old(self)@.wf(),
        ensures
            r == (match old(self)@.market_lookup(market_id) {
                Err(e) => Err(e),
                Ok(m) => if m.status != MarketStatus::Resolved {
                    Err(Error::NotResolved)
                } else if m.fee_claimed {
                    Err(Error::AlreadyClaimed)
                } else {
                    Ok(m.fee_amount)
                },
            }),
            r is Err ==> final(self)@ == old(self)@,
            r is Ok ==> final(self)@ == (BettingView {
                markets: old(self)@.markets.insert(market_id, final(self)@.markets[market_id]),
                ..old(self)@
            }),
            r is Ok ==> final(self)@.markets[market_id].fee_claimed
                && final(self)@.markets[market_id].fee_amount == r->Ok_0
                && final(self)@.markets[market_id].status == MarketStatus::Resolved,
            final(self)@.wf(),
    {
        if self.admin.is_none() {
            return Err(Error::NotInitialized);
        }
        match self.markets.get(&market_id) {
            Some(m) => {
                if m.status != MarketStatus::Resolved {
                    return Err(Error::NotResolved);
                }
                if m.fee_claimed {
                    return Err(Error::AlreadyClaimed);
                }
            },
            None => return Err(Error::MarketNotFound),
        }
        let market = match self.markets.remove(&market_id) {
            Some(m) => m,
            None => return Err(Error::MarketNotFound),
        };
        let fee = market.fee_amount;
        self.markets.insert(market_id, Market { fee_claimed: true, ..market });
        proof {
            assert(self@.markets =~= old(self)@.markets.insert(market_id, self@.markets[market_id]));
        }
        Ok(fee)
    }

    /// The current pari-mutuel payout multiplier of `outcome`, in basis
    /// points: the pool less the fee, per unit staked on `outcome`.
    pub fn odds(&self, market_id: u64, outcome: u32) -> (r: Result<u32, Error>)
        requires
            self@.wf(),
        ensures
            r == (match self@.market_lookup(market_id) {
                Err(e) => Err(e),
                Ok(m) => if outcome >= m.pools@.len() {
                    Err(Error::InvalidOutcome)
                } else if m.pools@[outcome as int] == 0 {
                    Ok(0u32)
                } else {
                    match spec_checked_mul_div(m.total_pool as int, BPS - self@.fee_bps, BPS as int) {
                        None => Err(Error::ArithmeticError),
                        Some(net) => match spec_checked_mul_div(net as int, BPS as int, m.pools@[outcome as int] as int) {
                            None => Err(Error::ArithmeticError),
                            Some(o) => if 0 <= o <= u32::MAX { Ok(o as u32) } else { Err(Error::ArithmeticError) },
                        },
                    }
                },
            }),
    {
        if self.admin.is_none() {
            return Err(Error::NotInitialized);
        }
        match self.markets.get(&market_id) {
            Some(m) => {
                if (outcome as usize) >= m.pools.len() {
                    return Err(Error::InvalidOutcome);
                }
                let pool = m.pools[outcome as usize];
                if pool == 0 {
                    return Ok(0);
                }
                let net_bps = BPS - self.fee_bps as i128;
                let net_total = checked_mul_div(m.total_pool, net_bps, BPS)?;
                let odds = checked_mul_div(net_total, BPS, pool)?;
                if 0 <= odds && odds <= 0xffff_ffff {
                    Ok(odds as u32)
                } else {
                    Err(Error::ArithmeticError)
                }
            },
            None => Err(Error::MarketNotFound),
        }
    }

    pub fn get_market(&self, market_id: u64) -> (r: Result<Market, Error>)
        ensures
            r is Err ==> r == Err::<Market, Error>(self@.market_lookup(market_id)->Err_0),
            r is Err <==> self@.market_lookup(market_id) is Err,
            r is Ok ==> r->Ok_0.same(self@.markets[market_id]),
    {
        if self.admin.is_none() {
            return Err(Error::NotInitialized);
        }
        match self.markets.get(&market_id) {
            Some(m) => Ok(m.duplicate()),
            None => Err(Error::MarketNotFound),
        }
    }

    pub fn get_bet(&self, market_id: u64, bettor: u64, outcome: u32) -> (r: i128)
        requires
            self@.wf(),
        ensures
            r == self@.stake(market_id, bettor, outcome),
    {
        self.stake_of(market_id, bettor, outcome)
    }
}

} // verus!
