//! A yield-farming aggregator: strategies with a quoted APY, user positions
//! that compound their rewards pro rata over time, a TVL-aware dynamic APY
//! for pools with configured emissions, and a risk- and capacity-aware
//! optimizer that spreads capital over the active pools and can rebalance a
//! user's whole portfolio at once.
//!
//! Accounts are numbers and strategy names UTF-8 bytes. The host
//! authenticates callers and passes the ledger time as `now`.
use std::collections::HashMap;
use vstd::prelude::*;

use crate::bytes::copy_bytes;
use crate::fixed::{clamp_i128, div_trunc, fits_i128, sat_add, sat_mul, tdiv};

pub mod optimizer;

verus! {

broadcast use vstd::std_specs::hash::group_hash_axioms;

/// Seconds in a year, for pro-rata reward accrual.
pub const SECONDS_PER_YEAR: u64 = 31_536_000;
/// Basis-point denominator: 10_000 is 100%.
pub const BPS_DENOM: u32 = 10_000;
/// The highest APY a strategy may quote, in basis points.
pub const MAX_APY_BPS: u32 = 10_000;
/// The highest risk score a pool may carry.
pub const MAX_RISK_SCORE: u32 = 100;
/// `BPS_DENOM * SECONDS_PER_YEAR`.
pub const REWARD_DIVISOR: i128 = 315_360_000_000;

#[derive(Copy, Clone, Debug, PartialEq, Eq, Structural)]
pub enum Error {
    AlreadyInitialized,
    NotInitialized,
    Unauthorized,
    ZeroAmount,
    StrategyNotFound,
    NoPosition,
    InsufficientBalance,
    StrategyPaused,
    InvalidApy,
    EmptyName,
    InvalidPoolConfig,
    InvalidBasisPoints,
    InvalidRiskScore,
    NoOptimizableStrategy,
    InsufficientCapacity,
    ArithmeticOverflow,
}

/// A yield strategy as its getter reports it.
#[derive(Debug)]
pub struct Strategy {
    pub name: Vec<u8>,
    /// Annual percentage yield in basis points.
    pub apy_bps: u32,
    /// Total value locked across all depositors.
    pub total_deposited: i128,
    /// Whether the strategy accepts new deposits.
    pub is_active: bool,
    pub pending_rewards: i128,
    /// Ledger time of the last compound through `compound` or `compound_all`.
    pub last_compound_ts: u64,
}

/// The numbers of a strategy, stored apart from its name.
#[derive(Copy, Clone, Debug, PartialEq, Eq, Structural)]
pub struct StrategyState {
    pub apy_bps: u32,
    pub total_deposited: i128,
    pub is_active: bool,
    pub pending_rewards: i128,
    pub last_compound_ts: u64,
}

/// A user's position in one strategy.
#[derive(Copy, Clone, Debug, PartialEq, Eq, Structural)]
pub struct Position {
    /// What the user put in, less what was withdrawn.
    pub deposited: i128,
    /// The deposits plus reinvested rewards.
    pub compounded_balance: i128,
    /// Ledger time of the last deposit, withdrawal or compound.
    pub last_update_ts: u64,
}

/// Optimizer settings of a pool.
#[derive(Copy, Clone, Debug, PartialEq, Eq, Structural)]
pub struct PoolConfig {
    /// Yearly reward emissions; zero means the quoted APY applies.
    pub annual_rewards: i128,
    /// Most capital the pool accepts; zero means unlimited.
    pub capacity: i128,
    /// Performance fee on gross yield, in basis points.
    pub fee_bps: u32,
    /// Relative risk from 0 to 100.
    pub risk_score: u32,
    /// Largest share of an optimized portfolio this pool may take.
    pub max_allocation_bps: u32,
}

/// One target of the optimizer.
#[derive(Copy, Clone, Debug, PartialEq, Eq, Structural)]
pub struct Allocation {
    pub strategy_id: u32,
    pub amount: i128,
    pub weight_bps: u32,
    /// Fee-adjusted APY at the pool's projected TVL after this allocation.
    pub projected_apy_bps: u32,
}

/// Summary of a portfolio rebalance.
#[derive(Debug)]
pub struct RebalanceResult {
    pub total_balance: i128,
    pub previous_weighted_apy_bps: u32,
    pub new_weighted_apy_bps: u32,
    pub allocations: Vec<Allocation>,
}

/// The settings a pool without its own configuration uses.
pub open spec fn default_config() -> PoolConfig {
    PoolConfig { annual_rewards: 0, capacity: 0, fee_bps: 0, risk_score: 0, max_allocation_bps: BPS_DENOM }
}

/// The storage key of `user`'s position in strategy `id`.
pub open spec fn pos_key(id: u32, user: u64) -> u128 {
    (id * 0x1_0000_0000_0000_0000 + user) as u128
}

pub(crate) fn make_pos_key(id: u32, user: u64) -> (r: u128)
    ensures
        r == pos_key(id, user),
{
    assert(id * 0x1_0000_0000_0000_0000 + user <= u128::MAX) by (nonlinear_arith)
        requires id <= u32::MAX, user <= u64::MAX;
    (id as u128) * 0x1_0000_0000_0000_0000 + (user as u128)
}

/// The reward a balance earns at `apy_bps` over `elapsed` seconds, rounded
/// toward zero, with the products saturating.
pub open spec fn reward_for(balance: i128, apy_bps: u32, elapsed: int) -> int {
    tdiv(clamp_i128(clamp_i128(balance * apy_bps) * elapsed), REWARD_DIVISOR as int)
}

/// `position` with the rewards accrued by `now` reinvested.
pub open spec fn compound_spec(position: Position, apy_bps: u32, now: u64) -> Position {
    let elapsed = if now > position.last_update_ts { now - position.last_update_ts } else { 0 };
    if elapsed == 0 || apy_bps == 0 || position.compounded_balance == 0 {
        position
    } else {
        Position {
            compounded_balance: clamp_i128(
                position.compounded_balance + reward_for(position.compounded_balance, apy_bps, elapsed),
            ) as i128,
            last_update_ts: now,
            ..position
        }
    }
}

/// Reinvests the rewards that `position` has accrued by `now`.
pub fn compound_position(position: Position, apy_bps: u32, now: u64) -> (r: Position)
    ensures
        r == compound_spec(position, apy_bps, now),
        position.compounded_balance >= 0 ==> r.compounded_balance >= position.compounded_balance,
        r.deposited == position.deposited,
{
    let elapsed: u64 = if now > position.last_update_ts { now - position.last_update_ts } else { 0 };
    if elapsed == 0 || apy_bps == 0 || position.compounded_balance == 0 {
        return position;
    }
    let gross = sat_mul(sat_mul(position.compounded_balance, apy_bps as i128), elapsed as i128);
    let reward = div_trunc(gross, REWARD_DIVISOR);
    proof {
        if position.compounded_balance >= 0 {
            assert(position.compounded_balance * apy_bps >= 0) by (nonlinear_arith)
                requires position.compounded_balance >= 0, apy_bps >= 0;
            assert(clamp_i128(position.compounded_balance * apy_bps) * elapsed >= 0) by (nonlinear_arith)
                requires clamp_i128(position.compounded_balance * apy_bps) >= 0, elapsed >= 0;
            assert(gross >= 0);
            assert(reward >= 0);
        }
    }
    Position {
        compounded_balance: sat_add(position.compounded_balance, reward),
        last_update_ts: now,
        ..position
    }
}

/// The fee-adjusted APY of a pool at TVL `tvl`: emissions over TVL (capped
/// at `MAX_APY_BPS`) where the pool has emissions and TVL, else the quoted
/// APY; less the fee, rounded down.
pub open spec fn dynamic_apy_spec(apy_bps: u32, config: PoolConfig, tvl: i128) -> Result<u32, Error> {
    if config.annual_rewards > 0 && tvl > 0 && !fits_i128(config.annual_rewards * BPS_DENOM) {
        Err(Error::ArithmeticOverflow)
    } else {
        let gross: int = if config.annual_rewards > 0 && tvl > 0 {
            let calculated = tdiv(config.annual_rewards * BPS_DENOM, tvl as int);
            if calculated < MAX_APY_BPS { calculated } else { MAX_APY_BPS as int }
        } else {
            apy_bps as int
        };
        let product = gross * (BPS_DENOM - config.fee_bps);
        Ok(((if product > u32::MAX { u32::MAX as int } else { product }) / BPS_DENOM as int) as u32)
    }
}

pub fn calculate_dynamic_apy(apy_bps: u32, config: PoolConfig, projected_tvl: i128) -> (r: Result<u32, Error>)
    requires
        config.fee_bps <= BPS_DENOM,
    ensures
        r == dynamic_apy_spec(apy_bps, config, projected_tvl),
        r matches Ok(v) ==> apy_bps <= MAX_APY_BPS ==> v <= MAX_APY_BPS,
{
    let gross: u32 = if config.annual_rewards > 0 && projected_tvl > 0 {
        let scaled = match config.annual_rewards.checked_mul(BPS_DENOM as i128) {
            Some(v) => v,
            None => return Err(Error::ArithmeticOverflow),
        };
        let calculated = div_trunc(scaled, projected_tvl);
        proof {
            assert(scaled >= 0);
            assert(calculated >= 0);
        }
        if calculated < MAX_APY_BPS as i128 { calculated as u32 } else { MAX_APY_BPS }
    } else {
        apy_bps
    };
    let product = match gross.checked_mul(BPS_DENOM - config.fee_bps) {
        Some(v) => v,
        None => u32::MAX,
    };
    proof {
        if gross <= MAX_APY_BPS {
            assert(gross * (BPS_DENOM - config.fee_bps) <= 100_000_000) by (nonlinear_arith)
                requires gross <= 10_000, config.fee_bps <= 10_000;
        }
    }
    Ok(product / BPS_DENOM)
}

/// The abstract contents of the contract's storage.
pub struct FarmView {
    pub admin: Option<u64>,
    pub strategy_count: u32,
    pub strategies: Map<u32, StrategyState>,
    pub names: Map<u32, Seq<u8>>,
    pub positions: Map<u128, Position>,
    pub pool_configs: Map<u32, PoolConfig>,
}

/// The contract. It is initialized once `admin` is set.
pub struct YieldFarmingContract {
    pub admin: Option<u64>,
    pub strategy_count: u32,
    pub strategies: HashMap<u32, StrategyState>,
    pub names: HashMap<u32, Vec<u8>>,
    pub positions: HashMap<u128, Position>,
    pub pool_configs: HashMap<u32, PoolConfig>,
}

pub open spec fn name_views(m: Map<u32, Vec<u8>>) -> Map<u32, Seq<u8>> {
    Map::new(|k: u32| m.contains_key(k), |k: u32| m[k]@)
}

impl View for YieldFarmingContract {
    type V = FarmView;

    open spec fn view(&self) -> FarmView {
        FarmView {
            admin: self.admin,
            strategy_count: self.strategy_count,
            strategies: self.strategies@,
            names: name_views(self.names@),
            positions: self.positions@,
            pool_configs: self.pool_configs@,
        }
    }
}

impl FarmView {
    /// The configuration the optimizer uses for strategy `id`.
    pub open spec fn config(self, id: u32) -> PoolConfig {
        if self.pool_configs.contains_key(id) { self.pool_configs[id] } else { default_config() }
    }

    pub open spec fn has_position(self, id: u32, user: u64) -> bool {
        self.positions.contains_key(pos_key(id, user))
    }

    pub open spec fn position(self, id: u32, user: u64) -> Position {
        self.positions[pos_key(id, user)]
    }

    /// The admin check: initialized, and `caller` is the admin.
    pub open spec fn admin_check(self, caller: u64) -> Result<(), Error> {
        match self.admin {
            None => Err(Error::NotInitialized),
            Some(a) => if caller != a { Err(Error::Unauthorized) } else { Ok(()) },
        }
    }

    /// The position of `user` in `id` as a deposit at `now` finds it: the
    /// existing one compounded, or an empty one.
    pub open spec fn position_before_deposit(self, id: u32, user: u64, now: u64) -> Position {
        if self.has_position(id, user) {
            compound_spec(self.position(id, user), self.strategies[id].apy_bps, now)
        } else {
            Position { deposited: 0, compounded_balance: 0, last_update_ts: now }
        }
    }

    /// The reward that compounding at `now` adds to a position.
    pub open spec fn accrued(self, id: u32, user: u64, now: u64) -> int {
        if self.has_position(id, user) {
            clamp_i128(self.position_before_deposit(id, user, now).compounded_balance
                - self.position(id, user).compounded_balance)
        } else {
            0
        }
    }

    /// The checks of a deposit, in order.
    pub open spec fn deposit_checks(self, id: u32, amount: i128) -> Result<(), Error> {
        if self.admin is None {
            Err(Error::NotInitialized)
        } else if amount <= 0 {
            Err(Error::ZeroAmount)
        } else if !self.strategies.contains_key(id) {
            Err(Error::StrategyNotFound)
        } else if !self.strategies[id].is_active {
            Err(Error::StrategyPaused)
        } else {
            Ok(())
        }
    }

    /// The checks of a withdrawal, in order, given the compounded position.
    pub open spec fn withdraw_outcome(self, user: u64, id: u32, amount: i128, now: u64) -> Result<i128, Error> {
        if self.admin is None {
            Err(Error::NotInitialized)
        } else if amount <= 0 {
            Err(Error::ZeroAmount)
        } else if !self.strategies.contains_key(id) {
            Err(Error::StrategyNotFound)
        } else if !self.has_position(id, user) {
            Err(Error::NoPosition)
        } else if amount > self.position_before_deposit(id, user, now).compounded_balance {
            Err(Error::InsufficientBalance)
        } else if !fits_i128(self.strategies[id].total_deposited + self.accrued(id, user, now)) {
            Err(Error::ArithmeticOverflow)
        } else {
            Ok(amount)
        }
    }
}

/// The positions after compounding `user`'s positions in strategies `1..=n`.
pub open spec fn compound_all_positions(
    positions: Map<u128, Position>,
    strategies: Map<u32, StrategyState>,
    user: u64,
    now: u64,
    n: nat,
) -> Map<u128, Position>
    decreases n,
{
    if n == 0 {
        positions
    } else {
        let before = compound_all_positions(positions, strategies, user, now, (n - 1) as nat);
        let k = pos_key(n as u32, user);
        if positions.contains_key(k) {
            before.insert(k, compound_spec(positions[k], strategies[n as u32].apy_bps, now))
        } else {
            before
        }
    }
}

/// The strategies after compounding `user`'s positions in strategies `1..=n`.
pub open spec fn compound_all_strategies(
    positions: Map<u128, Position>,
    strategies: Map<u32, StrategyState>,
    user: u64,
    now: u64,
    n: nat,
) -> Map<u32, StrategyState>
    decreases n,
{
    if n == 0 {
        strategies
    } else {
        let before = compound_all_strategies(positions, strategies, user, now, (n - 1) as nat);
        let id = n as u32;
        let k = pos_key(id, user);
        if positions.contains_key(k) {
            let s = strategies[id];
            before.insert(id, StrategyState {
                total_deposited: (s.total_deposited + compound_reward(positions[k], s.apy_bps, now)) as i128,
                last_compound_ts: now,
                ..s
            })
        } else {
            before
        }
    }
}

/// The reward that compounding `position` at `now` reinvests.
pub open spec fn compound_reward(position: Position, apy_bps: u32, now: u64) -> int {
    clamp_i128(compound_spec(position, apy_bps, now).compounded_balance - position.compounded_balance)
}

/// The rewards that compounding `user`'s positions in strategies `1..=n`
/// reinvests.
pub open spec fn compound_all_sum(
    positions: Map<u128, Position>,
    strategies: Map<u32, StrategyState>,
    user: u64,
    now: u64,
    n: nat,
) -> int
    decreases n,
{
    if n == 0 {
        0
    } else {
        let k = pos_key(n as u32, user);
        compound_all_sum(positions, strategies, user, now, (n - 1) as nat)
            + if positions.contains_key(k) { compound_reward(positions[k], strategies[n as u32].apy_bps, now) } else { 0 }
    }
}

/// Whether `user` holds a position in one of the strategies `1..=n`.
pub open spec fn has_any_position(positions: Map<u128, Position>, user: u64, n: nat) -> bool {
    exists|id: u32| 1 <= id <= n && #[trigger] positions.contains_key(pos_key(id, user))
}

impl FarmView {
    /// Compounding `user`'s position in strategy `id` at `now` would take
    /// the strategy's TVL past `i128::MAX`.
    pub open spec fn compound_overflows(self, id: u32, user: u64, now: u64) -> bool {
        self.has_position(id, user)
            && !fits_i128(self.strategies[id].total_deposited
                + compound_reward(self.position(id, user), self.strategies[id].apy_bps, now))
    }

    /// What `compound_all` returns.
    pub open spec fn compound_all_outcome(self, user: u64, now: u64) -> Result<i128, Error> {
        let n = self.strategy_count as nat;
        let sum = compound_all_sum(self.positions, self.strategies, user, now, n);
        if self.admin is None {
            Err(Error::NotInitialized)
        } else if !fits_i128(sum) || exists|id: u32| 1 <= id <= n && #[trigger] self.compound_overflows(id, user, now) {
            Err(Error::ArithmeticOverflow)
        } else if !has_any_position(self.positions, user, n) {
            Err(Error::NoPosition)
        } else {
            Ok(sum as i128)
        }
    }

    /// Strategies have ids `1..=strategy_count`, a name and a quoted APY
    /// within bounds; pool settings are valid basis points and a risk score
    /// within bounds, for existing strategies; positions and TVLs are not
    /// negative; nothing exists before initialization.
    pub open spec fn wf(self) -> bool {
        &&& self.admin is None ==> self.strategy_count == 0 && self.positions == Map::<u128, Position>::empty()
        &&& forall|id: u32| #[trigger] self.strategies.contains_key(id) <==> 1 <= id <= self.strategy_count
        &&& forall|id: u32| #[trigger] self.names.contains_key(id) <==> 1 <= id <= self.strategy_count
        &&& forall|id: u32| #[trigger] self.strategies.contains_key(id) ==> {
            &&& self.strategies[id].apy_bps <= MAX_APY_BPS
            &&& self.strategies[id].total_deposited >= 0
            &&& self.names[id].len() > 0
        }
        &&& forall|id: u32| #[trigger] self.pool_configs.contains_key(id) ==> {
            &&& self.strategies.contains_key(id)
            &&& self.pool_configs[id].annual_rewards >= 0 && self.pool_configs[id].capacity >= 0
            &&& self.pool_configs[id].fee_bps <= BPS_DENOM
            &&& 0 < self.pool_configs[id].max_allocation_bps <= BPS_DENOM
            &&& self.pool_configs[id].risk_score <= MAX_RISK_SCORE
        }
        &&& forall|k: u128| #[trigger] self.positions.contains_key(k) ==> {
            &&& self.positions[k].deposited >= 0
            &&& self.positions[k].compounded_balance >= 0
        }
    }
}


/// With non-negative balances, compounding reinvests a non-negative reward,
/// and the running total only grows.
proof fn lemma_compound_all_sum_grows(s: FarmView, user: u64, now: u64, i: nat, n: nat)
    requires
        s.wf(),
        i <= n,
    ensures
        compound_all_sum(s.positions, s.strategies, user, now, i)
            <= compound_all_sum(s.positions, s.strategies, user, now, n),
        compound_all_sum(s.positions, s.strategies, user, now, i) >= 0,
    decreases n,
{
    if n > 0 {
        let k = pos_key(n as u32, user);
        if s.positions.contains_key(k) {
            lemma_compound_reward_nonneg(s.positions[k], s.strategies[n as u32].apy_bps, now);
        }
        if i < n {
            lemma_compound_all_sum_grows(s, user, now, i, (n - 1) as nat);
        } else {
            lemma_compound_all_sum_grows(s, user, now, (n - 1) as nat, (n - 1) as nat);
        }
    }
}

proof fn lemma_compound_reward_nonneg(position: Position, apy_bps: u32, now: u64)
    requires
        position.compounded_balance >= 0,
    ensures
        compound_reward(position, apy_bps, now) >= 0,
        compound_spec(position, apy_bps, now).compounded_balance >= position.compounded_balance,
        compound_spec(position, apy_bps, now).deposited == position.deposited,
{
    let elapsed = if now > position.last_update_ts { now - position.last_update_ts } else { 0 };
    if !(elapsed == 0 || apy_bps == 0 || position.compounded_balance == 0) {
        let c = position.compounded_balance;
        assert(c * apy_bps >= 0) by (nonlinear_arith) requires c >= 0, apy_bps >= 0;
        assert(clamp_i128(c * apy_bps) * elapsed >= 0) by (nonlinear_arith)
            requires clamp_i128(c * apy_bps) >= 0, elapsed >= 0;
    }
}

/// Compounding strategies `1..=n` leaves the entries of strategy `id > n`
/// as they were.
proof fn lemma_compound_all_untouched(s: FarmView, user: u64, now: u64, n: nat, id: u32)
    requires
        n < id,
    ensures
        compound_all_positions(s.positions, s.strategies, user, now, n).contains_key(pos_key(id, user))
            == s.positions.contains_key(pos_key(id, user)),
        s.positions.contains_key(pos_key(id, user)) ==>
            compound_all_positions(s.positions, s.strategies, user, now, n)[pos_key(id, user)]
                == s.positions[pos_key(id, user)],
        compound_all_strategies(s.positions, s.strategies, user, now, n).contains_key(id)
            == s.strategies.contains_key(id),
        s.strategies.contains_key(id) ==>
            compound_all_strategies(s.positions, s.strategies, user, now, n)[id] == s.strategies[id],
    decreases n,
{
    if n > 0 {
        lemma_compound_all_untouched(s, user, now, (n - 1) as nat, id);
        lemma_pos_key_injective(n as u32, user, id, user);
    }
}

/// Different strategy ids or users give different position keys.
pub proof fn lemma_pos_key_injective(a: u32, u: u64, b: u32, v: u64)
    ensures
        pos_key(a, u) == pos_key(b, v) ==> a == b && u == v,
{
    if pos_key(a, u) == pos_key(b, v) {
        assert(a * 0x1_0000_0000_0000_0000 + u <= u128::MAX) by (nonlinear_arith)
            requires a <= u32::MAX, u <= u64::MAX;
        assert(b * 0x1_0000_0000_0000_0000 + v <= u128::MAX) by (nonlinear_arith)
            requires b <= u32::MAX, v <= u64::MAX;
        assert(a == b && u == v) by (nonlinear_arith)
            requires
                a * 0x1_0000_0000_0000_0000 + u == b * 0x1_0000_0000_0000_0000 + v,
                0 <= u < 0x1_0000_0000_0000_0000,
                0 <= v < 0x1_0000_0000_0000_0000;
    }
}

/// Compounding every position keeps the contract's accounting valid.
proof fn lemma_compound_all_wf(s: FarmView, user: u64, now: u64, n: nat)
    requires
        s.wf(),
        n <= s.strategy_count,
        forall|k: u32| 1 <= k <= n ==> !#[trigger] s.compound_overflows(k, user, now),
    ensures
        (FarmView {
            positions: compound_all_positions(s.positions, s.strategies, user, now, n),
            strategies: compound_all_strategies(s.positions, s.strategies, user, now, n),
            ..s
        }).wf(),
    decreases n,
{
    if n > 0 {
        lemma_compound_all_wf(s, user, now, (n - 1) as nat);
        let id = n as u32;
        let k = pos_key(id, user);
        lemma_compound_all_untouched(s, user, now, (n - 1) as nat, id);
        if s.positions.contains_key(k) {
            lemma_compound_reward_nonneg(s.positions[k], s.strategies[id].apy_bps, now);
            assert(!s.compound_overflows(id, user, now));
        }
        let t = FarmView {
            positions: compound_all_positions(s.positions, s.strategies, user, now, n),
            strategies: compound_all_strategies(s.positions, s.strategies, user, now, n),
            ..s
        };
        let p = FarmView {
            positions: compound_all_positions(s.positions, s.strategies, user, now, (n - 1) as nat),
            strategies: compound_all_strategies(s.positions, s.strategies, user, now, (n - 1) as nat),
            ..s
        };
        assert(t.strategies.dom() =~= p.strategies.dom());
        assert forall|i: u32| #[trigger] t.strategies.contains_key(i) implies {
            &&& t.strategies[i].apy_bps <= MAX_APY_BPS
            &&& t.strategies[i].total_deposited >= 0
            &&& t.names[i].len() > 0
        } by {
            assert(p.strategies.contains_key(i));
        }
        assert forall|i: u32| #[trigger] t.pool_configs.contains_key(i) implies t.strategies.contains_key(i) by {
            assert(p.pool_configs.contains_key(i));
        }
        assert forall|q: u128| #[trigger] t.positions.contains_key(q) implies {
            &&& t.positions[q].deposited >= 0
            &&& t.positions[q].compounded_balance >= 0
        } by {
            if q != k {
                assert(p.positions.contains_key(q));
            }
        }
    }
}

impl YieldFarmingContract {
    /// A contract with empty storage.
    pub fn new() -> (r: Self)
        ensures
            r@.admin is None,
            r@.strategy_count == 0,
            r@.strategies == Map::<u32, StrategyState>::empty(),
            r@.positions == Map::<u128, Position>::empty(),
            r@.pool_configs == Map::<u32, PoolConfig>::empty(),
            r@.wf(),
    {
        let r = YieldFarmingContract {
            admin: None,
            strategy_count: 0,
            strategies: HashMap::new(),
            names: HashMap::new(),
            positions: HashMap::new(),
            pool_configs: HashMap::new(),
        };
        assert(r@.names =~= Map::<u32, Seq<u8>>::empty());
        r
    }

    /// Sets the admin; once only.
    pub fn initialize(&mut self, admin: u64) -> (r: Result<(), Error>)
        ensures
            r == (if old(self)@.admin is Some { Err(Error::AlreadyInitialized) } else { Ok(()) }),
            r is Err ==> final(self)@ == old(self)@,
            r is Ok ==> final(self)@ == (FarmView { admin: Some(admin), strategy_count: 0, ..old(self)@ }),
            old(self)@.wf() ==> final(self)@.wf(),
    {
        if self.admin.is_some() {
            return Err(Error::AlreadyInitialized);
        }
        self.admin = Some(admin);
        self.strategy_count = 0;
        Ok(())
    }

    fn assert_admin(&self, caller: u64) -> (r: Result<(), Error>)
        ensures
            r == self@.admin_check(caller),
    {
        match self.admin {
            None => Err(Error::NotInitialized),
            Some(a) => if caller != a { Err(Error::Unauthorized) } else { Ok(()) },
        }
    }

    /// Registers a strategy quoting `apy_bps`, active from `now`; returns its id.
    pub fn add_strategy(&mut self, admin: u64, name: Vec<u8>, apy_bps: u32, now: u64) -> (r: Result<u32, Error>)
        requires
            old(self)@.admin_check(admin) is Ok && name@.len() > 0 && apy_bps <= MAX_APY_BPS
                ==> old(self)@.strategy_count < u32::MAX,
        ensures
            r == (if old(self)@.admin_check(admin) is Err {
                Err(old(self)@.admin_check(admin)->Err_0)
            } else if name@.len() == 0 {
                Err(Error::EmptyName)
            } else if apy_bps > MAX_APY_BPS {
                Err(Error::InvalidApy)
            } else {
                Ok((old(self)@.strategy_count + 1) as u32)
            }),
            r is Err ==> final(self)@ == old(self)@,
            r matches Ok(id) ==> final(self)@ == (FarmView {
                strategy_count: id,
                strategies: old(self)@.strategies.insert(id, StrategyState {
                    apy_bps,
                    total_deposited: 0,
                    is_active: true,
                    pending_rewards: 0,
                    last_compound_ts: now,
                }),
                names: old(self)@.names.insert(id, name@),
                ..old(self)@
            }),
            old(self)@.wf() ==> final(self)@.wf(),
    {
        self.assert_admin(admin)?;
        if name.len() == 0 {
            return Err(Error::EmptyName);
        }
        if apy_bps > MAX_APY_BPS {
            return Err(Error::InvalidApy);
        }
        let id = self.strategy_count + 1;
        let ghost prev = self@;
        self.strategies.insert(id, StrategyState {
            apy_bps,
            total_deposited: 0,
            is_active: true,
            pending_rewards: 0,
            last_compound_ts: now,
        });
        self.names.insert(id, name);
        self.strategy_count = id;
        proof {
            assert(self@.names =~= prev.names.insert(id, name@));
        }
        Ok(id)
    }

    /// Changes a strategy's quoted APY.
    pub fn update_strategy_apy(&mut self, admin: u64, strategy_id: u32, new_apy_bps: u32) -> (r: Result<(), Error>)
        ensures
            r == (if old(self)@.admin_check(admin) is Err {
                old(self)@.admin_check(admin)
            } else if new_apy_bps > MAX_APY_BPS {
                Err(Error::InvalidApy)
            } else if !old(self)@.strategies.contains_key(strategy_id) {
                Err(Error::StrategyNotFound)
            } else {
                Ok(())
            }),
            r is Err ==> final(self)@ == old(self)@,
            r is Ok ==> final(self)@ == (FarmView {
                strategies: old(self)@.strategies.insert(strategy_id, StrategyState {
                    apy_bps: new_apy_bps,
                    ..old(self)@.strategies[strategy_id]
                }),
                ..old(self)@
            }),
            old(self)@.wf() ==> final(self)@.wf(),
    {
        self.assert_admin(admin)?;
        if new_apy_bps > MAX_APY_BPS {
            return Err(Error::InvalidApy);
        }
        let s = match self.strategies.get(&strategy_id) {
            Some(s) => *s,
            None => return Err(Error::StrategyNotFound),
        };
        self.strategies.insert(strategy_id, StrategyState { apy_bps: new_apy_bps, ..s });
        Ok(())
    }

    /// Pauses or resumes a strategy.
    pub fn set_strategy_active(&mut self, admin: u64, strategy_id: u32, is_active: bool) -> (r: Result<(), Error>)
        ensures
            r == (if old(self)@.admin_check(admin) is Err {
                old(self)@.admin_check(admin)
            } else if !old(self)@.strategies.contains_key(strategy_id) {
                Err(Error::StrategyNotFound)
            } else {
                Ok(())
            }),
            r is Err ==> final(self)@ == old(self)@,
            r is Ok ==> final(self)@ == (FarmView {
                strategies: old(self)@.strategies.insert(strategy_id, StrategyState {
                    is_active,
                    ..old(self)@.strategies[strategy_id]
                }),
                ..old(self)@
            }),
            old(self)@.wf() ==> final(self)@.wf(),
    {
        self.assert_admin(admin)?;
        let s = match self.strategies.get(&strategy_id) {
            Some(s) => *s,
            None => return Err(Error::StrategyNotFound),
        };
        self.strategies.insert(strategy_id, StrategyState { is_active, ..s });
        Ok(())
    }

    /// Sets a strategy's optimizer settings.
    pub fn configure_pool(
        &mut self,
        admin: u64,
        strategy_id: u32,
        annual_rewards: i128,
        capacity: i128,
        fee_bps: u32,
        risk_score: u32,
        max_allocation_bps: u32,
    ) -> (r: Result<(), Error>)
        ensures
            r == (if old(self)@.admin_check(admin) is Err {
                old(self)@.admin_check(admin)
            } else if !old(self)@.strategies.contains_key(strategy_id) {
                Err(Error::StrategyNotFound)
            } else if annual_rewards < 0 || capacity < 0 {
                Err(Error::InvalidPoolConfig)
            } else if fee_bps > BPS_DENOM || max_allocation_bps == 0 || max_allocation_bps > BPS_DENOM {
                Err(Error::InvalidBasisPoints)
            } else if risk_score > MAX_RISK_SCORE {
                Err(Error::InvalidRiskScore)
            } else {
                Ok(())
            }),
            r is Err ==> final(self)@ == old(self)@,
            r is Ok ==> final(self)@ == (FarmView {
                pool_configs: old(self)@.pool_configs.insert(strategy_id, PoolConfig {
                    annual_rewards,
                    capacity,
                    fee_bps,
                    risk_score,
                    max_allocation_bps,
                }),
                ..old(self)@
            }),
            old(self)@.wf() ==> final(self)@.wf(),
    {
        self.assert_admin(admin)?;
        if !self.strategies.contains_key(&strategy_id) {
            return Err(Error::StrategyNotFound);
        }
        if annual_rewards < 0 || capacity < 0 {
            return Err(Error::InvalidPoolConfig);
        }
        if fee_bps > BPS_DENOM || max_allocation_bps == 0 || max_allocation_bps > BPS_DENOM {
            return Err(Error::InvalidBasisPoints);
        }
        if risk_score > MAX_RISK_SCORE {
            return Err(Error::InvalidRiskScore);
        }
        self.pool_configs.insert(strategy_id, PoolConfig {
            annual_rewards,
            capacity,
            fee_bps,
            risk_score,
            max_allocation_bps,
        });
        Ok(())
    }

    /// Deposits `amount` into a strategy at `now`, first compounding the
    /// user's existing position there.
    pub fn deposit(&mut self, user: u64, strategy_id: u32, amount: i128, now: u64) -> (r: Result<(), Error>)
        requires
            old(self)@.deposit_checks(strategy_id, amount) is Ok ==> {
                let p = old(self)@.position_before_deposit(strategy_id, user, now);
                fits_i128(p.deposited + amount) && fits_i128(p.compounded_balance + amount)
            },
        ensures
            r == (if old(self)@.deposit_checks(strategy_id, amount) is Err {
                old(self)@.deposit_checks(strategy_id, amount)
            } else if !fits_i128(old(self)@.strategies[strategy_id].total_deposited + old(self)@.accrued(strategy_id, user, now))
                || !fits_i128(old(self)@.strategies[strategy_id].total_deposited
                    + old(self)@.accrued(strategy_id, user, now) + amount) {
                Err(Error::ArithmeticOverflow)
            } else {
                Ok(())
            }),
            r is Err ==> final(self)@ == old(self)@,
            r is Ok ==> ({
                let s = old(self)@;
                let p = s.position_before_deposit(strategy_id, user, now);
                final(self)@ == (FarmView {
                    positions: s.positions.insert(pos_key(strategy_id, user), Position {
                        deposited: (p.deposited + amount) as i128,
                        compounded_balance: (p.compounded_balance + amount) as i128,
                        last_update_ts: now,
                    }),
                    strategies: s.strategies.insert(strategy_id, StrategyState {
                        total_deposited: (s.strategies[strategy_id].total_deposited
                            + s.accrued(strategy_id, user, now) + amount) as i128,
                        ..s.strategies[strategy_id]
                    }),
                    ..s
                })
            }),
            old(self)@.wf() ==> final(self)@.wf(),
    {
        if self.admin.is_none() {
            return Err(Error::NotInitialized);
        }
        if amount <= 0 {
            return Err(Error::ZeroAmount);
        }
        let strategy = match self.strategies.get(&strategy_id) {
            Some(s) => *s,
            None => return Err(Error::StrategyNotFound),
        };
        if !strategy.is_active {
            return Err(Error::StrategyPaused);
        }
        let key = make_pos_key(strategy_id, user);
        let mut accrued: i128 = 0;
        let mut position = match self.positions.get(&key) {
            Some(pos) => {
                let previous = pos.compounded_balance;
                let compounded = compound_position(*pos, strategy.apy_bps, now);
                accrued = crate::fixed::sat_sub(compounded.compounded_balance, previous);
                compounded
            },
            None => Position { deposited: 0, compounded_balance: 0, last_update_ts: now },
        };
        position.deposited = position.deposited + amount;
        position.compounded_balance = position.compounded_balance + amount;
        position.last_update_ts = now;
        let total = match strategy.total_deposited.checked_add(accrued) {
            Some(t) => match t.checked_add(amount) {
                Some(v) => v,
                None => return Err(Error::ArithmeticOverflow),
            },
            None => return Err(Error::ArithmeticOverflow),
        };
        self.positions.insert(key, position);
        self.strategies.insert(strategy_id, StrategyState { total_deposited: total, ..strategy });
        proof {
            if old(self)@.wf() && old(self)@.has_position(strategy_id, user) {
                assert(old(self)@.positions[key].compounded_balance >= 0);
            }
        }
        Ok(())
    }

    /// Withdraws `amount` of a position's compounded balance at `now`; the
    /// position closes when nothing is left.
    pub fn withdraw(&mut self, user: u64, strategy_id: u32, amount: i128, now: u64) -> (r: Result<i128, Error>)
        ensures
            r == old(self)@.withdraw_outcome(user, strategy_id, amount, now),
            r is Err ==> final(self)@ == old(self)@,
            r is Ok ==> ({
                let s = old(self)@;
                let p = s.position_before_deposit(strategy_id, user, now);
                let left = p.compounded_balance - amount;
                let total = s.strategies[strategy_id].total_deposited + s.accrued(strategy_id, user, now);
                &&& final(self)@.strategies == s.strategies.insert(strategy_id, StrategyState {
                    total_deposited: (total - (if amount < total { amount as int } else { total })) as i128,
                    ..s.strategies[strategy_id]
                })
                &&& final(self)@.positions == if left == 0 {
                    s.positions.remove(pos_key(strategy_id, user))
                } else {
                    s.positions.insert(pos_key(strategy_id, user), Position {
                        deposited: (p.deposited - (if amount < p.deposited { amount as int } else { p.deposited as int })) as i128,
                        compounded_balance: left as i128,
                        last_update_ts: now,
                    })
                }
                &&& final(self)@.admin == s.admin && final(self)@.strategy_count == s.strategy_count
                &&& final(self)@.names == s.names && final(self)@.pool_configs == s.pool_configs
            }),
            old(self)@.wf() ==> final(self)@.wf(),
    {
        if self.admin.is_none() {
            return Err(Error::NotInitialized);
        }
        if amount <= 0 {
            return Err(Error::ZeroAmount);
        }
        let strategy = match self.strategies.get(&strategy_id) {
            Some(s) => *s,
            None => return Err(Error::StrategyNotFound),
        };
        let key = make_pos_key(strategy_id, user);
        let pos = match self.positions.get(&key) {
            Some(p) => *p,
            None => return Err(Error::NoPosition),
        };
        let previous = pos.compounded_balance;
        let mut position = compound_position(pos, strategy.apy_bps, now);
        let accrued = crate::fixed::sat_sub(position.compounded_balance, previous);
        if amount > position.compounded_balance {
            return Err(Error::InsufficientBalance);
        }
        position.compounded_balance = position.compounded_balance - amount;
        let deposited_reduction = if amount < position.deposited { amount } else { position.deposited };
        position.deposited = position.deposited - deposited_reduction;
        position.last_update_ts = now;
        let total = match strategy.total_deposited.checked_add(accrued) {
            Some(v) => v,
            None => return Err(Error::ArithmeticOverflow),
        };
        let tvl_reduction = if amount < total { amount } else { total };
        let new_total = total - tvl_reduction;
        if position.compounded_balance == 0 {
            self.positions.remove(&key);
        } else {
            self.positions.insert(key, position);
        }
        self.strategies.insert(strategy_id, StrategyState { total_deposited: new_total, ..strategy });
        proof {
            if old(self)@.wf() {
                assert(old(self)@.positions[key].compounded_balance >= 0);
                assert(old(self)@.positions[key].deposited >= 0);
                assert(strategy.total_deposited >= 0);
                assert(accrued >= 0);
                assert(new_total >= 0);
                assert(position.deposited >= 0 && position.compounded_balance >= 0);
                assert forall|k: u128| #[trigger] self@.positions.contains_key(k) implies {
                    &&& self@.positions[k].deposited >= 0
                    &&& self@.positions[k].compounded_balance >= 0
                } by {
                    if k != key {
                        assert(old(self)@.positions.contains_key(k));
                    }
                }
                assert(self@.strategies.dom() =~= old(self)@.strategies.dom());
                assert forall|id: u32| #[trigger] self@.strategies.contains_key(id) implies {
                    &&& self@.strategies[id].apy_bps <= MAX_APY_BPS
                    &&& self@.strategies[id].total_deposited >= 0
                    &&& self@.names[id].len() > 0
                } by {
                    assert(old(self)@.strategies.contains_key(id));
                }
                assert forall|id: u32| #[trigger] self@.pool_configs.contains_key(id) implies self@.strategies.contains_key(id) by {
                    assert(old(self)@.pool_configs.contains_key(id));
                    assert(old(self)@.strategies.contains_key(id));
                }
                assert(self@.pool_configs == old(self)@.pool_configs);
                assert(self@.names == old(self)@.names);
                assert(self@.wf());
            }
        }
        Ok(amount)
    }

    /// Reinvests the rewards of every position `user` holds, at `now`;
    /// anyone may call it. Returns the total reinvested.
    pub fn compound_all(&mut self, user: u64, now: u64) -> (r: Result<i128, Error>)
        requires
            old(self)@.wf(),
        ensures
            r == old(self)@.compound_all_outcome(user, now),
            r is Err ==> final(self)@ == old(self)@,
            r is Ok ==> ({
                let s = old(self)@;
                let n = s.strategy_count as nat;
                final(self)@ == (FarmView {
                    positions: compound_all_positions(s.positions, s.strategies, user, now, n),
                    strategies: compound_all_strategies(s.positions, s.strategies, user, now, n),
                    ..s
                })
            }),
            r matches Ok(v) ==> v >= 0,
            final(self)@.wf(),
    {
        if self.admin.is_none() {
            return Err(Error::NotInitialized);
        }
        let ghost s0 = self@;
        let count = self.strategy_count;
        let mut total_reward: i128 = 0;
        let mut found = false;
        let mut i: u64 = 1;
        while i <= count as u64
            invariant
                s0 == old(self)@,
                self@ == s0,
                s0.wf(),
                s0.admin is Some,
                count == s0.strategy_count,
                1 <= i <= count as u64 + 1,
                total_reward == compound_all_sum(s0.positions, s0.strategies, user, now, (i - 1) as nat),
                total_reward >= 0,
                found == has_any_position(s0.positions, user, (i - 1) as nat),
                forall|j: u32| 1 <= j < i ==> !#[trigger] s0.compound_overflows(j, user, now),
            decreases count as u64 + 1 - i,
        {
            let id = i as u32;
            let key = make_pos_key(id, user);
            proof {
                assert(s0.strategies.contains_key(id));
            }
            match self.positions.get(&key) {
                Some(pos) => {
                    let strategy = *self.strategies.get(&id).unwrap();
                    let compounded = compound_position(*pos, strategy.apy_bps, now);
                    let reward = crate::fixed::sat_sub(compounded.compounded_balance, pos.compounded_balance);
                    proof {
                        assert(s0.positions[key].compounded_balance >= 0);
                        assert(reward >= 0);
                    }
                    total_reward = match total_reward.checked_add(reward) {
                        Some(v) => v,
                        None => {
                            proof {
                                lemma_compound_all_sum_grows(s0, user, now, i as nat, count as nat);
                            }
                            return Err(Error::ArithmeticOverflow);
                        },
                    };
                    if strategy.total_deposited.checked_add(reward).is_none() {
                        proof {
                            assert(s0.compound_overflows(id, user, now));
                        }
                        return Err(Error::ArithmeticOverflow);
                    }
                    found = true;
                },
                None => {},
            }
            proof {
                if s0.positions.contains_key(key) {
                    assert(has_any_position(s0.positions, user, i as nat));
                } else if has_any_position(s0.positions, user, i as nat) {
                    let w = choose|w: u32| 1 <= w <= i && #[trigger] s0.positions.contains_key(pos_key(w, user));
                    if w == id {
                        assert(false);
                    }
                    assert(has_any_position(s0.positions, user, (i - 1) as nat));
                }
            }
            i = i + 1;
        }
        if !found {
            return Err(Error::NoPosition);
        }
        let mut j: u64 = 1;
        while j <= count as u64
            invariant
                s0 == old(self)@,
                s0.wf(),
                s0.admin is Some,
                count == s0.strategy_count,
                1 <= j <= count as u64 + 1,
                forall|k: u32| 1 <= k <= count ==> !#[trigger] s0.compound_overflows(k, user, now),
                self@ == (FarmView {
                    positions: compound_all_positions(s0.positions, s0.strategies, user, now, (j - 1) as nat),
                    strategies: compound_all_strategies(s0.positions, s0.strategies, user, now, (j - 1) as nat),
                    ..s0
                }),
            decreases count as u64 + 1 - j,
        {
            let id = j as u32;
            let key = make_pos_key(id, user);
            proof {
                assert(s0.strategies.contains_key(id));
                lemma_compound_all_untouched(s0, user, now, (j - 1) as nat, id);
            }
            if self.positions.contains_key(&key) {
                let pos = *self.positions.get(&key).unwrap();
                let strategy = *self.strategies.get(&id).unwrap();
                let compounded = compound_position(pos, strategy.apy_bps, now);
                let reward = crate::fixed::sat_sub(compounded.compounded_balance, pos.compounded_balance);
                proof {
                    assert(!s0.compound_overflows(id, user, now));
                }
                self.positions.insert(key, compounded);
                self.strategies.insert(id, StrategyState {
                    total_deposited: strategy.total_deposited + reward,
                    last_compound_ts: now,
                    ..strategy
                });
            }
            j = j + 1;
        }
        proof {
            lemma_compound_all_wf(s0, user, now, count as nat);
        }
        Ok(total_reward)
    }

    /// Reinvests the rewards of `user`'s position in a strategy at `now`;
    /// anyone may call it. Returns the new balance.
    pub fn compound(&mut self, user: u64, strategy_id: u32, now: u64) -> (r: Result<i128, Error>)
        ensures
            r == (if old(self)@.admin is None {
                Err(Error::NotInitialized)
            } else if !old(self)@.strategies.contains_key(strategy_id) {
                Err(Error::StrategyNotFound)
            } else if !old(self)@.has_position(strategy_id, user) {
                Err(Error::NoPosition)
            } else {
                Ok(old(self)@.position_before_deposit(strategy_id, user, now).compounded_balance)
            }),
            r is Err ==> final(self)@ == old(self)@,
            r is Ok ==> ({
                let s = old(self)@;
                let st = s.strategies[strategy_id];
                final(self)@ == (FarmView {
                    positions: s.positions.insert(pos_key(strategy_id, user),
                        s.position_before_deposit(strategy_id, user, now)),
                    strategies: s.strategies.insert(strategy_id, StrategyState {
                        total_deposited: clamp_i128(st.total_deposited + s.accrued(strategy_id, user, now)) as i128,
                        last_compound_ts: now,
                        ..st
                    }),
                    ..s
                })
            }),
            r matches Ok(b) ==> old(self)@.wf() ==> b >= old(self)@.position(strategy_id, user).compounded_balance,
            old(self)@.wf() ==> final(self)@.wf(),
    {
        if self.admin.is_none() {
            return Err(Error::NotInitialized);
        }
        let strategy = match self.strategies.get(&strategy_id) {
            Some(s) => *s,
            None => return Err(Error::StrategyNotFound),
        };
        let key = make_pos_key(strategy_id, user);
        let pos = match self.positions.get(&key) {
            Some(p) => *p,
            None => return Err(Error::NoPosition),
        };
        let previous = pos.compounded_balance;
        let compounded = compound_position(pos, strategy.apy_bps, now);
        let new_balance = compounded.compounded_balance;
        let reward = crate::fixed::sat_sub(new_balance, previous);
        self.positions.insert(key, compounded);
        self.strategies.insert(strategy_id, StrategyState {
            total_deposited: sat_add(strategy.total_deposited, reward),
            last_compound_ts: now,
            ..strategy
        });
        proof {
            if old(self)@.wf() {
                assert(old(self)@.positions[key].compounded_balance >= 0);
            }
        }
        Ok(new_balance)
    }

    /// The fee-adjusted APY of a pool after `additional_amount` more is
    /// deposited.
    pub fn dynamic_apy(&self, strategy_id: u32, additional_amount: i128) -> (r: Result<u32, Error>)
        requires
            self@.wf(),
        ensures
            r == (if additional_amount < 0 {
                Err(Error::InvalidPoolConfig)
            } else if !self@.strategies.contains_key(strategy_id) {
                Err(Error::StrategyNotFound)
            } else if !fits_i128(self@.strategies[strategy_id].total_deposited + additional_amount) {
                Err(Error::ArithmeticOverflow)
            } else if self@.config(strategy_id).capacity > 0
                && self@.strategies[strategy_id].total_deposited + additional_amount > self@.config(strategy_id).capacity {
                Err(Error::InsufficientCapacity)
            } else {
                dynamic_apy_spec(self@.strategies[strategy_id].apy_bps, self@.config(strategy_id),
                    (self@.strategies[strategy_id].total_deposited + additional_amount) as i128)
            }),
    {
        if additional_amount < 0 {
            return Err(Error::InvalidPoolConfig);
        }
        let strategy = match self.strategies.get(&strategy_id) {
            Some(s) => *s,
            None => return Err(Error::StrategyNotFound),
        };
        let config = self.pool_config_or_default(strategy_id);
        let projected_tvl = match strategy.total_deposited.checked_add(additional_amount) {
            Some(v) => v,
            None => return Err(Error::ArithmeticOverflow),
        };
        if config.capacity > 0 && projected_tvl > config.capacity {
            return Err(Error::InsufficientCapacity);
        }
        calculate_dynamic_apy(strategy.apy_bps, config, projected_tvl)
    }

    pub(crate) fn pool_config_or_default(&self, strategy_id: u32) -> (r: PoolConfig)
        requires
            self@.wf(),
        ensures
            r == self@.config(strategy_id),
            r.fee_bps <= BPS_DENOM,
            r.risk_score <= MAX_RISK_SCORE,
            0 < r.max_allocation_bps <= BPS_DENOM,
            r.annual_rewards >= 0 && r.capacity >= 0,
    {
        match self.pool_configs.get(&strategy_id) {
            Some(c) => *c,
            None => PoolConfig { annual_rewards: 0, capacity: 0, fee_bps: 0, risk_score: 0, max_allocation_bps: BPS_DENOM },
        }
    }

    /// A strategy's details.
    pub fn get_strategy(&self, strategy_id: u32) -> (r: Result<Strategy, Error>)
        requires
            self@.wf(),
        ensures
            r is Err <==> !self@.strategies.contains_key(strategy_id),
            r is Err ==> r == Err::<Strategy, Error>(Error::StrategyNotFound),
            r matches Ok(s) ==> {
                let st = self@.strategies[strategy_id];
                &&& s.name@ == self@.names[strategy_id]
                &&& s.apy_bps == st.apy_bps && s.total_deposited == st.total_deposited
                &&& s.is_active == st.is_active && s.pending_rewards == st.pending_rewards
                &&& s.last_compound_ts == st.last_compound_ts
            },
    {
        let st = match self.strategies.get(&strategy_id) {
            Some(s) => *s,
            None => return Err(Error::StrategyNotFound),
        };
        proof {
            assert(self@.strategies.contains_key(strategy_id));
            assert(1 <= strategy_id <= self@.strategy_count);
            assert(self@.names.contains_key(strategy_id));
            assert(self.names@.contains_key(strategy_id));
        }
        let name = copy_bytes(self.names.get(&strategy_id).unwrap());
        Ok(Strategy {
            name,
            apy_bps: st.apy_bps,
            total_deposited: st.total_deposited,
            is_active: st.is_active,
            pending_rewards: st.pending_rewards,
            last_compound_ts: st.last_compound_ts,
        })
    }

    pub fn strategy_count(&self) -> (r: u32)
        ensures
            r == self@.strategy_count,
    {
        self.strategy_count
    }

    /// A user's position with its rewards compounded up to `now`.
    pub fn get_position(&self, user: u64, strategy_id: u32, now: u64) -> (r: Result<Position, Error>)
        ensures
            r == (if !self@.strategies.contains_key(strategy_id) {
                Err(Error::StrategyNotFound)
            } else if !self@.has_position(strategy_id, user) {
                Err(Error::NoPosition)
            } else {
                Ok(self@.position_before_deposit(strategy_id, user, now))
            }),
    {
        let strategy = match self.strategies.get(&strategy_id) {
            Some(s) => *s,
            None => return Err(Error::StrategyNotFound),
        };
        let key = make_pos_key(strategy_id, user);
        match self.positions.get(&key) {
            Some(p) => Ok(compound_position(*p, strategy.apy_bps, now)),
            None => Err(Error::NoPosition),
        }
    }

    pub fn get_admin(&self) -> (r: Result<u64, Error>)
        ensures
            r == (match self@.admin { None => Err(Error::NotInitialized), Some(a) => Ok(a) }),
    {
        match self.admin {
            None => Err(Error::NotInitialized),
            Some(a) => Ok(a),
        }
    }

    /// A strategy's optimizer settings, the defaults where none were set.
    pub fn get_pool_config(&self, strategy_id: u32) -> (r: Result<PoolConfig, Error>)
        requires
            self@.wf(),
        ensures
            r == (if self@.strategies.contains_key(strategy_id) {
                Ok(self@.config(strategy_id))
            } else {
                Err(Error::StrategyNotFound)
            }),
    {
        if !self.strategies.contains_key(&strategy_id) {
            return Err(Error::StrategyNotFound);
        }
        Ok(self.pool_config_or_default(strategy_id))
    }

    pub fn is_initialized(&self) -> (r: bool)
        ensures
            r == self@.admin is Some,
    {
        self.admin.is_some()
    }

    /// The ids of the strategies that exist, in order.
    pub fn list_strategies(&self) -> (r: Vec<u32>)
        ensures
            forall|i: int| 0 <= i < r@.len() ==> self@.strategies.contains_key(#[trigger] r@[i])
                && 1 <= r@[i] <= self@.strategy_count,
            forall|i: int, j: int| 0 <= i < j < r@.len() ==> r@[i] < r@[j],
            self@.wf() ==> r@.len() == self@.strategy_count,
    {
        let count = self.strategy_count;
        let mut ids: Vec<u32> = Vec::new();
        let mut i: u64 = 1;
        while i <= count as u64
            invariant
                count == self@.strategy_count,
                1 <= i <= count as u64 + 1,
                forall|k: int| 0 <= k < ids@.len() ==> self@.strategies.contains_key(#[trigger] ids@[k])
                    && 1 <= ids@[k] < i,
                forall|a: int, b: int| 0 <= a < b < ids@.len() ==> ids@[a] < ids@[b],
                self@.wf() ==> ids@.len() == i - 1,
            decreases count as u64 + 1 - i,
        {
            proof {
                if self@.wf() {
                    assert(1 <= i as u32 <= self@.strategy_count);
                    assert(self@.strategies.contains_key(i as u32));
                }
            }
            if self.strategies.contains_key(&(i as u32)) {
                ids.push(i as u32);
            }
            i = i + 1;
        }
        ids
    }

}

} // verus!
