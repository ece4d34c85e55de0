//! The multi-pool optimizer: per-pool scores from the fee-adjusted APY and
//! the risk, a proportional split of the capital capped by each pool's
//! portfolio share and capacity, the residue assigned to the best pools with
//! room, and the resulting weights and projected APYs.
use vstd::prelude::*;

use super::{
    calculate_dynamic_apy, compound_position, compound_spec, dynamic_apy_spec, make_pos_key, pos_key, Allocation, Error, FarmView,
    PoolConfig, Position, RebalanceResult, StrategyState, YieldFarmingContract, BPS_DENOM, MAX_RISK_SCORE,
};
use crate::fixed::{clamp_i128, div_trunc, fits_i128, max_i128, min_i128, tdiv};

verus! {

broadcast use vstd::std_specs::hash::group_hash_axioms;

/// What the optimizer knows of one pool for a given amount and risk bound.
#[derive(Copy, Clone, Debug, PartialEq, Eq, Structural)]
pub struct PoolTerm {
    pub strategy_id: u32,
    /// Its score: zero for a pool that takes no part.
    pub score: u32,
    /// The largest share of the amount it may take.
    pub cap: i128,
    /// The room left under its capacity.
    pub limit: i128,
    /// Its TVL without the positions being rebalanced.
    pub base_tvl: i128,
    pub apy_bps: u32,
    pub config: PoolConfig,
}

pub open spec fn lesser(a: int, b: int) -> int {
    if a <= b { a } else { b }
}

/// A strategy's TVL less the deposits of `excluded`'s position there.
pub open spec fn tvl_excluding(s: FarmView, id: u32, excluded: Option<u64>) -> i128 {
    let total = s.strategies[id].total_deposited;
    match excluded {
        None => total,
        Some(u) => if s.has_position(id, u) {
            clamp_i128(total - lesser(s.position(id, u).deposited as int, total as int)) as i128
        } else {
            total
        },
    }
}

/// The share of `total` that a pool's `max_allocation_bps` allows, or
/// `None` on overflow.
pub open spec fn portfolio_cap(total: i128, c: PoolConfig) -> Option<i128> {
    if fits_i128(total * c.max_allocation_bps) {
        Some(tdiv(total * c.max_allocation_bps, BPS_DENOM as int) as i128)
    } else {
        None
    }
}

/// The room under a pool's capacity; `total` where it is unlimited.
pub open spec fn capacity_room(total: i128, c: PoolConfig, base: i128) -> i128 {
    if c.capacity == 0 { total } else { clamp_i128(c.capacity - base) as i128 }
}

/// A net APY weighted down by risk: `apy * (100 - risk) / 100`, the
/// product saturating.
pub open spec fn risk_adjusted(apy: u32, risk: u32) -> u32 {
    let product = apy * (MAX_RISK_SCORE - risk);
    ((if product > u32::MAX { u32::MAX as int } else { product }) / MAX_RISK_SCORE as int) as u32
}

/// The optimizer's view of strategy `id`, or `None` where a computation
/// overflows. An inactive pool, one above the risk bound or one without
/// room gets score zero; the others are scored at the APY they would have
/// with their share (at least one unit) added.
pub open spec fn term_spec(s: FarmView, id: u32, total: i128, max_risk: u32, excluded: Option<u64>) -> Option<PoolTerm> {
    let st = s.strategies[id];
    let c = s.config(id);
    let base = tvl_excluding(s, id, excluded);
    let idle = PoolTerm { strategy_id: id, score: 0, cap: 0, limit: 0, base_tvl: base, apy_bps: st.apy_bps, config: c };
    if !st.is_active || c.risk_score > max_risk || !(c.capacity == 0 || base < c.capacity) {
        Some(idle)
    } else {
        match portfolio_cap(total, c) {
            None => None,
            Some(cap) => {
                let limit = capacity_room(total, c, base);
                let probe = if lesser(cap as int, limit as int) > 1 { lesser(cap as int, limit as int) } else { 1 };
                if !fits_i128(base + probe) {
                    None
                } else {
                    match dynamic_apy_spec(st.apy_bps, c, (base + probe) as i128) {
                        Err(_) => None,
                        Ok(apy) => Some(PoolTerm {
                            strategy_id: id,
                            score: risk_adjusted(apy, c.risk_score),
                            cap,
                            limit,
                            base_tvl: base,
                            apy_bps: st.apy_bps,
                            config: c,
                        }),
                    }
                }
            },
        }
    }
}

/// Every strategy's term is computed without overflow.
pub open spec fn terms_ok(s: FarmView, total: i128, max_risk: u32, excluded: Option<u64>) -> bool {
    forall|i: int| 0 <= i < s.strategy_count ==> #[trigger] term_spec(s, (i + 1) as u32, total, max_risk, excluded) is Some
}

/// The terms of strategies `1..=strategy_count`, in order.
pub open spec fn terms_of(s: FarmView, total: i128, max_risk: u32, excluded: Option<u64>) -> Seq<PoolTerm> {
    Seq::new(s.strategy_count as nat, |i: int| term_spec(s, (i + 1) as u32, total, max_risk, excluded)->Some_0)
}

pub open spec fn score_sum(t: Seq<PoolTerm>) -> int
    decreases t.len(),
{
    if t.len() == 0 { 0 } else { score_sum(t.drop_last()) + t.last().score }
}

/// A pool's proportional share of `total`, capped by its share limit and
/// its room; `None` on overflow. Pools with score zero take nothing.
pub open spec fn initial_amount(t: PoolTerm, total: i128, total_score: int) -> Option<i128> {
    if t.score == 0 {
        Some(0)
    } else if !fits_i128(total * t.score) {
        None
    } else {
        Some(lesser(lesser(tdiv(total * t.score, total_score), t.cap as int), t.limit as int) as i128)
    }
}

pub open spec fn initial_ok(t: Seq<PoolTerm>, total: i128, total_score: int) -> bool {
    forall|i: int| 0 <= i < t.len() ==> #[trigger] initial_amount(t[i], total, total_score) is Some
}

pub open spec fn initial_amounts(t: Seq<PoolTerm>, total: i128, total_score: int) -> Seq<i128> {
    Seq::new(t.len(), |i: int| initial_amount(t[i], total, total_score)->Some_0)
}

pub open spec fn amount_sum(a: Seq<i128>) -> int
    decreases a.len(),
{
    if a.len() == 0 { 0 } else { amount_sum(a.drop_last()) + a.last() }
}

/// How much more a pool holding `a` may take.
pub open spec fn room(t: PoolTerm, a: i128) -> int {
    clamp_i128(lesser(t.cap as int, t.limit as int) - a)
}

pub open spec fn candidate(t: PoolTerm, a: i128) -> bool {
    t.score > 0 && room(t, a) > 0
}

/// Among the first `k` pools, the first with room that has the highest
/// score.
pub open spec fn scan_best(t: Seq<PoolTerm>, a: Seq<i128>, k: nat) -> Option<int>
    decreases k,
{
    if k == 0 {
        None
    } else {
        let b = scan_best(t, a, (k - 1) as nat);
        let i = k - 1;
        if candidate(t[i], a[i]) && (b is None || t[i].score > t[b->Some_0].score) { Some(i) } else { b }
    }
}

pub proof fn lemma_scan_best_candidate(t: Seq<PoolTerm>, a: Seq<i128>, k: nat)
    ensures
        scan_best(t, a, k) matches Some(i) ==> 0 <= i < k && candidate(t[i], a[i]),
    decreases k,
{
    if k > 0 {
        lemma_scan_best_candidate(t, a, (k - 1) as nat);
    }
}

/// Assigns `remaining` to the pools with room, each time to the best one
/// and as much as it may take; refused when no pool has room left.
pub open spec fn fill(t: Seq<PoolTerm>, a: Seq<i128>, remaining: int) -> Result<Seq<i128>, Error>
    decreases remaining,
{
    if remaining <= 0 {
        Ok(a)
    } else {
        match scan_best(t, a, t.len()) {
            None => Err(Error::InsufficientCapacity),
            Some(i) => {
                proof {
                    lemma_scan_best_candidate(t, a, t.len());
                }
                let added = lesser(remaining, room(t[i], a[i]));
                fill(t, a.update(i, (a[i] + added) as i128), remaining - added)
            },
        }
    }
}

/// `a - b` on `u32`, saturating at zero.
pub open spec fn u32_sat_sub(a: u32, b: u32) -> u32 {
    if a >= b { (a - b) as u32 } else { 0 }
}

/// `a + b` on `u32`, saturating at `u32::MAX`.
pub open spec fn u32_sat_add(a: u32, b: u32) -> u32 {
    if a + b <= u32::MAX { (a + b) as u32 } else { u32::MAX }
}

/// The allocations of the pools among the first `k` that received
/// something, with their projected APYs and weights, and the weight
/// assigned so far.
pub open spec fn finalize_prefix(t: Seq<PoolTerm>, a: Seq<i128>, total: i128, k: nat) -> Result<(Seq<Allocation>, u32), Error>
    decreases k,
{
    if k == 0 {
        Ok((Seq::<Allocation>::empty(), 0u32))
    } else {
        match finalize_prefix(t, a, total, (k - 1) as nat) {
            Err(e) => Err(e),
            Ok(prev) => {
                let i = k - 1;
                if a[i] == 0 {
                    Ok(prev)
                } else if !fits_i128(t[i].base_tvl + a[i]) {
                    Err(Error::ArithmeticOverflow)
                } else {
                    match dynamic_apy_spec(t[i].apy_bps, t[i].config, (t[i].base_tvl + a[i]) as i128) {
                        Err(e) => Err(e),
                        Ok(p) => if !fits_i128(a[i] * BPS_DENOM) {
                            Err(Error::ArithmeticOverflow)
                        } else {
                            let raw = tdiv(a[i] * BPS_DENOM, total as int) as u32;
                            let left = u32_sat_sub(BPS_DENOM, prev.1);
                            let w = if raw <= left { raw } else { left };
                            Ok((
                                prev.0.push(Allocation {
                                    strategy_id: t[i].strategy_id,
                                    amount: a[i],
                                    weight_bps: w,
                                    projected_apy_bps: p,
                                }),
                                u32_sat_add(prev.1, w),
                            ))
                        },
                    }
                }
            },
        }
    }
}

/// The final allocations: the last one also takes whatever weight is left.
pub open spec fn finalize(t: Seq<PoolTerm>, a: Seq<i128>, total: i128) -> Result<Seq<Allocation>, Error> {
    match finalize_prefix(t, a, total, t.len()) {
        Err(e) => Err(e),
        Ok(r) => if r.0.len() == 0 {
            Err(Error::InsufficientCapacity)
        } else {
            let last = r.0.last();
            Ok(r.0.update(r.0.len() - 1, Allocation {
                weight_bps: u32_sat_add(last.weight_bps, u32_sat_sub(BPS_DENOM, r.1)),
                ..last
            }))
        },
    }
}

/// The amounts that the optimizer assigns to strategies `1..=n`, position
/// `i` for strategy `i + 1`, once the terms are known.
pub open spec fn amounts_for(t: Seq<PoolTerm>, total: i128) -> Result<Seq<i128>, Error> {
    let ts = score_sum(t);
    if ts == 0 {
        Err(Error::NoOptimizableStrategy)
    } else if !initial_ok(t, total, ts) {
        Err(Error::ArithmeticOverflow)
    } else {
        let a0 = initial_amounts(t, total, ts);
        fill(t, a0, total - amount_sum(a0))
    }
}

impl FarmView {
    /// What the optimizer returns for `total` under risk bound `max_risk`,
    /// leaving out the positions of `excluded`.
    pub open spec fn allocation_outcome(self, total: i128, max_risk: u32, excluded: Option<u64>) -> Result<Seq<Allocation>, Error> {
        if total <= 0 {
            Err(Error::ZeroAmount)
        } else if max_risk > MAX_RISK_SCORE {
            Err(Error::InvalidRiskScore)
        } else if !terms_ok(self, total, max_risk, excluded) {
            Err(Error::ArithmeticOverflow)
        } else {
            let t = terms_of(self, total, max_risk, excluded);
            match amounts_for(t, total) {
                Err(e) => Err(e),
                Ok(a) => finalize(t, a, total),
            }
        }
    }
}

/// The portfolio yield `sum(amount * projected_apy)` of allocations, or
/// `None` where a product or a running sum overflows.
pub open spec fn weighted_sum(v: Seq<Allocation>) -> Option<int>
    decreases v.len(),
{
    if v.len() == 0 {
        Some(0)
    } else {
        match weighted_sum(v.drop_last()) {
            None => None,
            Some(w) => {
                let term = v.last().amount * v.last().projected_apy_bps;
                if !fits_i128(term) || !fits_i128(w + term) { None } else { Some(w + term) }
            },
        }
    }
}

/// `user`'s portfolio over strategies `1..=k` at `now`: the compounded
/// balance, the balance-weighted current APY, and whether any position
/// exists; refused on overflow.
pub open spec fn portfolio_spec(s: FarmView, user: u64, now: u64, k: nat) -> Result<(int, int, bool), Error>
    decreases k,
{
    if k == 0 {
        Ok((0, 0, false))
    } else {
        match portfolio_spec(s, user, now, (k - 1) as nat) {
            Err(e) => Err(e),
            Ok(prev) => {
                let id = k as u32;
                if !s.has_position(id, user) {
                    Ok(prev)
                } else {
                    let st = s.strategies[id];
                    let balance = compound_spec(s.position(id, user), st.apy_bps, now).compounded_balance;
                    match dynamic_apy_spec(st.apy_bps, s.config(id), st.total_deposited) {
                        Err(e) => Err(e),
                        Ok(apy) => if !fits_i128(prev.0 + balance) || !fits_i128(balance * apy)
                            || !fits_i128(prev.1 + balance * apy) {
                            Err(Error::ArithmeticOverflow)
                        } else {
                            Ok((prev.0 + balance, prev.1 + balance * apy, true))
                        },
                    }
                }
            },
        }
    }
}

/// The amounts per strategy that a rebalance of `total` puts in place.
pub open spec fn planned_amounts(s: FarmView, total: i128, max_risk: u32, excluded: Option<u64>) -> Seq<i128> {
    amounts_for(terms_of(s, total, max_risk, excluded), total)->Ok_0
}

/// Strategy TVLs after a rebalance: the user's old deposits out, the new
/// amounts in.
pub open spec fn rebalanced_strategies(s: FarmView, user: u64, amounts: Seq<i128>) -> Map<u32, StrategyState> {
    Map::new(
        |id: u32| s.strategies.contains_key(id),
        |id: u32| StrategyState {
            total_deposited: (tvl_excluding(s, id, Some(user)) + amounts[id - 1]) as i128,
            ..s.strategies[id]
        },
    )
}

/// Positions after a rebalance: in strategies `1..=k`, `user` holds
/// exactly the new amounts.
pub open spec fn rebalanced_positions(s: FarmView, user: u64, amounts: Seq<i128>, now: u64, k: nat) -> Map<u128, Position>
    decreases k,
{
    if k == 0 {
        s.positions
    } else {
        let prev = rebalanced_positions(s, user, amounts, now, (k - 1) as nat);
        let key = pos_key(k as u32, user);
        if amounts[k - 1] > 0 {
            prev.insert(key, Position {
                deposited: amounts[k - 1],
                compounded_balance: amounts[k - 1],
                last_update_ts: now,
            })
        } else {
            prev.remove(key)
        }
    }
}

impl FarmView {
    /// What the read-only preview returns: the allocations and their
    /// weighted APY.
    pub open spec fn preview_outcome(self, total: i128, max_risk: u32) -> Result<(Seq<Allocation>, u32), Error> {
        match self.allocation_outcome(total, max_risk, None) {
            Err(e) => Err(e),
            Ok(v) => match weighted_sum(v) {
                None => Err(Error::ArithmeticOverflow),
                Some(w) => Ok((v, (if total > 0 { tdiv(w, total as int) } else { 0 }) as u32)),
            },
        }
    }

    /// What a rebalance returns: the portfolio total, the APYs before and
    /// after, and the new allocations.
    pub open spec fn rebalance_outcome(self, user: u64, max_risk: u32, now: u64) -> Result<(i128, u32, u32, Seq<Allocation>), Error> {
        if self.admin is None {
            Err(Error::NotInitialized)
        } else if max_risk > MAX_RISK_SCORE {
            Err(Error::InvalidRiskScore)
        } else {
            match portfolio_spec(self, user, now, self.strategy_count as nat) {
                Err(e) => Err(e),
                Ok(p) => if !p.2 || p.0 <= 0 {
                    Err(Error::NoPosition)
                } else {
                    match self.allocation_outcome(p.0 as i128, max_risk, Some(user)) {
                        Err(e) => Err(e),
                        Ok(v) => match weighted_sum(v) {
                            None => Err(Error::ArithmeticOverflow),
                            Some(w) => {
                                let previous = tdiv(p.1, p.0) as u32;
                                let next = tdiv(w, p.0) as u32;
                                if next <= previous {
                                    Err(Error::NoOptimizableStrategy)
                                } else {
                                    Ok((p.0 as i128, previous, next, v))
                                }
                            },
                        },
                    }
                },
            }
        }
    }

    /// The state after a successful rebalance.
    pub open spec fn rebalanced(self, user: u64, max_risk: u32, now: u64) -> FarmView {
        let total = self.rebalance_outcome(user, max_risk, now)->Ok_0.0;
        let amounts = planned_amounts(self, total, max_risk, Some(user));
        FarmView {
            strategies: rebalanced_strategies(self, user, amounts),
            positions: rebalanced_positions(self, user, amounts, now, self.strategy_count as nat),
            ..self
        }
    }

    /// What the threshold-gated rebalance returns: `Ok(false)` where there
    /// is nothing to rebalance or the preview improves the APY by less than
    /// `min_improvement_bps`; otherwise what the rebalance gives.
    pub open spec fn auto_rebalance_outcome(self, user: u64, max_risk: u32, min_improvement_bps: u32, now: u64) -> Result<bool, Error> {
        if self.admin is None {
            Err(Error::NotInitialized)
        } else if max_risk > MAX_RISK_SCORE {
            Err(Error::InvalidRiskScore)
        } else {
            match portfolio_spec(self, user, now, self.strategy_count as nat) {
                Err(e) => Err(e),
                Ok(p) => if !p.2 || p.0 <= 0 {
                    Ok(false)
                } else {
                    let current = tdiv(p.1, p.0) as u32;
                    match self.preview_outcome(p.0 as i128, max_risk) {
                        Err(e) => Err(e),
                        Ok(pv) => if u32_sat_sub(pv.1, current) < min_improvement_bps {
                            Ok(false)
                        } else {
                            match self.rebalance_outcome(user, max_risk, now) {
                                Err(e) => Err(e),
                                Ok(_) => Ok(true),
                            }
                        },
                    }
                },
            }
        }
    }
}


/// What the wf invariant gives of a term: its settings are valid; a pool
/// with a positive score has a non-negative share limit and positive room.
pub proof fn lemma_term_facts(s: FarmView, id: u32, total: i128, max_risk: u32, excluded: Option<u64>)
    requires
        s.wf(),
        s.strategies.contains_key(id),
        total > 0,
        term_spec(s, id, total, max_risk, excluded) is Some,
    ensures
        ({
            let t = term_spec(s, id, total, max_risk, excluded)->Some_0;
            &&& t.strategy_id == id
            &&& t.config == s.config(id)
            &&& t.config.fee_bps <= BPS_DENOM
            &&& t.base_tvl >= 0
            &&& t.score > 0 ==> t.cap >= 0 && t.limit > 0
        }),
{
    let c = s.config(id);
    let total_dep = s.strategies[id].total_deposited;
    assert(total_dep >= 0);
    match excluded {
        None => {},
        Some(u) => {
            if s.has_position(id, u) {
                assert(s.positions[pos_key(id, u)].deposited >= 0);
            }
        },
    }
    if s.pool_configs.contains_key(id) {
        assert(c.fee_bps <= BPS_DENOM && c.max_allocation_bps > 0 && c.capacity >= 0);
    }
    match portfolio_cap(total, c) {
        None => {},
        Some(cap) => {
            assert(total * c.max_allocation_bps >= 0) by (nonlinear_arith)
                requires total > 0, c.max_allocation_bps >= 0;
        },
    }
}

/// The proportional shares never add up to more than the amount.
proof fn lemma_initial_sum(t: Seq<PoolTerm>, total: i128, ts: int, k: nat)
    requires
        total > 0,
        ts > 0,
        k <= t.len(),
        initial_ok(t, total, ts),
        forall|i: int| 0 <= i < t.len() && #[trigger] t[i].score > 0 ==> t[i].cap >= 0 && t[i].limit > 0,
    ensures
        amount_sum(initial_amounts(t, total, ts).take(k as int)) * ts <= total * score_sum(t.take(k as int)),
        amount_sum(initial_amounts(t, total, ts).take(k as int)) >= 0,
    decreases k,
{
    let a = initial_amounts(t, total, ts);
    if k > 0 {
        lemma_initial_sum(t, total, ts, (k - 1) as nat);
        let i = k - 1;
        assert(a.take(k as int).drop_last() =~= a.take(i as int));
        assert(t.take(k as int).drop_last() =~= t.take(i as int));
        let ai = a[i as int] as int;
        let si = t[i as int].score as int;
        assert(initial_amount(t[i as int], total, ts) is Some);
        if si > 0 {
            let q = tdiv(total * si, ts);
            assert(total * si >= 0) by (nonlinear_arith) requires total > 0, si > 0;
            assert(q == (total * si) / ts);
            assert(q * ts <= total * si) by (nonlinear_arith)
                requires q == (total * si) / ts, ts > 0, total * si >= 0;
            assert(q >= 0) by (nonlinear_arith)
                requires q == (total * si) / ts, ts > 0, total * si >= 0;
            assert(0 <= ai <= q);
            assert(ai * ts <= total * si) by (nonlinear_arith)
                requires ai <= q, q * ts <= total * si, ts > 0;
        } else {
            assert(ai == 0);
        }
        let pa = amount_sum(a.take(i as int));
        let ps = score_sum(t.take(i as int));
        assert((pa + ai) * ts <= total * (ps + si)) by (nonlinear_arith)
            requires pa * ts <= total * ps, ai * ts <= total * si;
    }
}

/// With non-negative amounts, a prefix adds up to at most the whole.
proof fn lemma_amount_sum_prefix(a: Seq<i128>, k: nat)
    requires
        k <= a.len(),
        forall|j: int| 0 <= j < a.len() ==> #[trigger] a[j] >= 0,
    ensures
        0 <= amount_sum(a.take(k as int)) <= amount_sum(a),
    decreases a.len() - k,
{
    if k < a.len() {
        lemma_amount_sum_prefix(a, k + 1);
        assert(a.take((k + 1) as int).drop_last() =~= a.take(k as int));
        assert(a.take((k + 1) as int).last() == a[k as int]);
        assert forall|j: int| 0 <= j < a.take(k as int).len() implies #[trigger] a.take(k as int)[j] >= 0 by {
            assert(a[j] >= 0);
        }
        lemma_amount_sum_nonneg(a.take(k as int));
    } else {
        assert(a.take(k as int) =~= a);
        lemma_amount_sum_nonneg(a);
    }
}

proof fn lemma_amount_sum_nonneg(a: Seq<i128>)
    requires
        forall|j: int| 0 <= j < a.len() ==> #[trigger] a[j] >= 0,
    ensures
        amount_sum(a) >= 0,
    decreases a.len(),
{
    if a.len() > 0 {
        assert forall|j: int| 0 <= j < a.drop_last().len() implies #[trigger] a.drop_last()[j] >= 0 by {
            assert(a[j] >= 0);
        }
        lemma_amount_sum_nonneg(a.drop_last());
        assert(a[a.len() - 1] >= 0);
    }
}

/// Once finalizing a prefix fails, finalizing any longer prefix fails the
/// same way.
proof fn lemma_finalize_err_stays(t: Seq<PoolTerm>, a: Seq<i128>, total: i128, k: nat, n: nat)
    requires
        k <= n,
        finalize_prefix(t, a, total, k) is Err,
    ensures
        finalize_prefix(t, a, total, n) == finalize_prefix(t, a, total, k),
    decreases n - k,
{
    if k < n {
        lemma_finalize_err_stays(t, a, total, k, (n - 1) as nat);
    }
}

/// The proportional shares of `total`, capped; refused on overflow.
fn initial_split(terms: &Vec<PoolTerm>, total: i128, total_score: u64) -> (r: Result<Vec<i128>, Error>)
    requires
        total > 0,
        total_score > 0,
    ensures
        match r {
            Ok(a) => initial_ok(terms@, total, total_score as int)
                && a@ == initial_amounts(terms@, total, total_score as int),
            Err(e) => e == Error::ArithmeticOverflow && !initial_ok(terms@, total, total_score as int),
        },
{
    let ghost ts = total_score as int;
    let n = terms.len();
    let mut amounts: Vec<i128> = Vec::new();
    let mut k: usize = 0;
    while k < n
        invariant
            n == terms@.len(),
            total > 0,
            ts == total_score as int,
            ts > 0,
            k <= n,
            amounts@.len() == k,
            forall|j: int| 0 <= j < k ==> initial_amount(terms@[j], total, ts) == Some(#[trigger] amounts@[j]),
        decreases n - k,
    {
        let t = terms[k];
        let a: i128 = if t.score == 0 {
            0
        } else {
            match total.checked_mul(t.score as i128) {
                Some(v) => min_i128(min_i128(div_trunc(v, total_score as i128), t.cap), t.limit),
                None => {
                    proof {
                        assert(initial_amount(terms@[k as int], total, ts) is None);
                    }
                    return Err(Error::ArithmeticOverflow);
                },
            }
        };
        amounts.push(a);
        k = k + 1;
    }
    proof {
        assert(amounts@ =~= initial_amounts(terms@, total, ts));
        assert forall|j: int| 0 <= j < terms@.len() implies #[trigger] initial_amount(terms@[j], total, ts) is Some by {
            assert(initial_amount(terms@[j], total, ts) == Some(amounts@[j]));
        }
    }
    Ok(amounts)
}

/// The sum of non-negative amounts whose total fits.
fn sum_amounts(a: &Vec<i128>) -> (r: i128)
    requires
        forall|j: int| 0 <= j < a@.len() ==> #[trigger] a@[j] >= 0,
        amount_sum(a@) <= i128::MAX,
    ensures
        r == amount_sum(a@),
{
    let n = a.len();
    let mut total: i128 = 0;
    let mut k: usize = 0;
    while k < n
        invariant
            n == a@.len(),
            forall|j: int| 0 <= j < n ==> #[trigger] a@[j] >= 0,
            amount_sum(a@) <= i128::MAX,
            k <= n,
            total == amount_sum(a@.take(k as int)),
        decreases n - k,
    {
        proof {
            lemma_amount_sum_prefix(a@, (k + 1) as nat);
            assert(a@.take((k + 1) as int).drop_last() =~= a@.take(k as int));
        }
        total = total + a[k];
        k = k + 1;
    }
    proof {
        assert(a@.take(n as int) =~= a@);
    }
    total
}

/// The best pool with room: its index, score and room.
fn scan_best_pool(terms: &Vec<PoolTerm>, amounts: &Vec<i128>) -> (r: Option<(usize, u32, i128)>)
    requires
        amounts@.len() == terms@.len(),
    ensures
        match r {
            None => scan_best(terms@, amounts@, terms@.len()) is None,
            Some(b) => scan_best(terms@, amounts@, terms@.len()) == Some(b.0 as int)
                && b.1 == terms@[b.0 as int].score
                && b.2 == room(terms@[b.0 as int], amounts@[b.0 as int]),
        },
{
    let n = terms.len();
    let mut best: Option<(usize, u32, i128)> = None;
    let mut q: usize = 0;
    while q < n
        invariant
            n == terms@.len(),
            amounts@.len() == n,
            q <= n,
            match best {
                None => scan_best(terms@, amounts@, q as nat) is None,
                Some(b) => scan_best(terms@, amounts@, q as nat) == Some(b.0 as int)
                    && b.1 == terms@[b.0 as int].score
                    && b.2 == room(terms@[b.0 as int], amounts@[b.0 as int]),
            },
        decreases n - q,
    {
        let t = terms[q];
        if t.score > 0 {
            let room_left = crate::fixed::sat_sub(min_i128(t.cap, t.limit), amounts[q]);
            let better = match best {
                None => true,
                Some(b) => t.score > b.1,
            };
            if room_left > 0 && better {
                best = Some((q, t.score, room_left));
            }
        }
        q = q + 1;
    }
    best
}

/// Assigns `remaining` to the best pools with room.
fn fill_residue(terms: &Vec<PoolTerm>, start: Vec<i128>, residue: i128) -> (r: Result<Vec<i128>, Error>)
    requires
        start@.len() == terms@.len(),
        residue >= 0,
        forall|j: int| 0 <= j < terms@.len() ==> {
            &&& #[trigger] start@[j] >= 0
            &&& terms@[j].score > 0 ==> terms@[j].cap >= 0 && terms@[j].limit > 0
            &&& terms@[j].score == 0 ==> start@[j] == 0
            &&& terms@[j].score > 0 ==> start@[j] <= lesser(terms@[j].cap as int, terms@[j].limit as int)
        },
    ensures
        match r {
            Ok(a) => fill(terms@, start@, residue as int) == Ok::<Seq<i128>, Error>(a@),
            Err(e) => fill(terms@, start@, residue as int) == Err::<Seq<i128>, Error>(e),
        },
        r matches Ok(a) ==> a@.len() == terms@.len(),
{
    let ghost a0 = start@;
    let ghost rem0 = residue as int;
    let mut amounts = start;
    let mut remaining = residue;
    let n = terms.len();
    while remaining > 0
        invariant
            n == terms@.len(),
            amounts@.len() == n,
            remaining >= 0,
            fill(terms@, amounts@, remaining as int) == fill(terms@, a0, rem0),
            a0 == start@,
            rem0 == residue as int,
            forall|j: int| 0 <= j < n ==> {
                &&& #[trigger] amounts@[j] >= 0
                &&& terms@[j].score > 0 ==> terms@[j].cap >= 0 && terms@[j].limit > 0
                &&& terms@[j].score == 0 ==> amounts@[j] == 0
                &&& terms@[j].score > 0 ==> amounts@[j] <= lesser(terms@[j].cap as int, terms@[j].limit as int)
            },
        decreases remaining,
    {
        let (b, _score, best_room) = match scan_best_pool(terms, &amounts) {
            Some(found) => found,
            None => {
                proof {
                    assert(fill(terms@, amounts@, remaining as int) == Err::<Seq<i128>, Error>(Error::InsufficientCapacity));
                }
                return Err(Error::InsufficientCapacity);
            },
        };
        proof {
            lemma_scan_best_candidate(terms@, amounts@, n as nat);
            assert(amounts@[b as int] >= 0);
        }
        let added = min_i128(remaining, best_room);
        let ghost prev = amounts@;
        let updated = amounts[b] + added;
        amounts.set(b, updated);
        proof {
            assert(amounts@ == prev.update(b as int, updated));
            assert forall|j: int| 0 <= j < n implies {
                &&& #[trigger] amounts@[j] >= 0
                &&& terms@[j].score > 0 ==> terms@[j].cap >= 0 && terms@[j].limit > 0
                &&& terms@[j].score == 0 ==> amounts@[j] == 0
                &&& terms@[j].score > 0 ==> amounts@[j] <= lesser(terms@[j].cap as int, terms@[j].limit as int)
            } by {
                assert(prev[j] >= 0);
            }
        }
        remaining = remaining - added;
    }
    Ok(amounts)
}

/// The allocations, with projected APYs and weights, of the pools that
/// received something.
fn finalize_allocations(terms: &Vec<PoolTerm>, amounts: &Vec<i128>, total: i128) -> (r: Result<Vec<Allocation>, Error>)
    requires
        amounts@.len() == terms@.len(),
        total > 0,
        forall|j: int| 0 <= j < terms@.len() ==> (#[trigger] terms@[j]).config.fee_bps <= BPS_DENOM,
    ensures
        match r {
            Ok(v) => finalize(terms@, amounts@, total) == Ok::<Seq<Allocation>, Error>(v@),
            Err(e) => finalize(terms@, amounts@, total) == Err::<Seq<Allocation>, Error>(e),
        },
{
    let n = terms.len();
    let mut allocs: Vec<Allocation> = Vec::new();
    let mut assigned: u32 = 0;
    let mut k: usize = 0;
    while k < n
        invariant
            n == terms@.len(),
            amounts@.len() == n,
            total > 0,
            k <= n,
            forall|j: int| 0 <= j < n ==> (#[trigger] terms@[j]).config.fee_bps <= BPS_DENOM,
            finalize_prefix(terms@, amounts@, total, k as nat) == Ok::<(Seq<Allocation>, u32), Error>((allocs@, assigned)),
        decreases n - k,
    {
        let a = amounts[k];
        if a != 0 {
            let t = terms[k];
            let tvl = match t.base_tvl.checked_add(a) {
                Some(v) => v,
                None => {
                    proof {
                        lemma_finalize_err_stays(terms@, amounts@, total, (k + 1) as nat, n as nat);
                    }
                    return Err(Error::ArithmeticOverflow);
                },
            };
            let p = match calculate_dynamic_apy(t.apy_bps, t.config, tvl) {
                Ok(v) => v,
                Err(e) => {
                    proof {
                        lemma_finalize_err_stays(terms@, amounts@, total, (k + 1) as nat, n as nat);
                    }
                    return Err(e);
                },
            };
            let raw: u32 = match a.checked_mul(BPS_DENOM as i128) {
                Some(v) => div_trunc(v, total) as u32,
                None => {
                    proof {
                        lemma_finalize_err_stays(terms@, amounts@, total, (k + 1) as nat, n as nat);
                    }
                    return Err(Error::ArithmeticOverflow);
                },
            };
            let left: u32 = if assigned <= BPS_DENOM { BPS_DENOM - assigned } else { 0 };
            let w = if raw <= left { raw } else { left };
            allocs.push(Allocation { strategy_id: t.strategy_id, amount: a, weight_bps: w, projected_apy_bps: p });
            assigned = match assigned.checked_add(w) {
                Some(v) => v,
                None => u32::MAX,
            };
        }
        k = k + 1;
    }
    if allocs.len() == 0 {
        return Err(Error::InsufficientCapacity);
    }
    let last_index = allocs.len() - 1;
    let last = allocs[last_index];
    let left: u32 = if assigned <= BPS_DENOM { BPS_DENOM - assigned } else { 0 };
    let last_weight = match last.weight_bps.checked_add(left) {
        Some(v) => v,
        None => u32::MAX,
    };
    allocs.set(last_index, Allocation { weight_bps: last_weight, ..last });
    Ok(allocs)
}

/// The running sum of `amount * projected_apy` over allocations, refused on
/// overflow.
fn weighted_total(allocs: &Vec<Allocation>) -> (r: Result<i128, Error>)
    ensures
        match weighted_sum(allocs@) {
            None => r == Err::<i128, Error>(Error::ArithmeticOverflow),
            Some(w) => r == Ok::<i128, Error>(w as i128),
        },
{
    let n = allocs.len();
    let mut w: i128 = 0;
    let mut k: usize = 0;
    while k < n
        invariant
            n == allocs@.len(),
            k <= n,
            weighted_sum(allocs@.take(k as int)) == Some(w as int),
        decreases n - k,
    {
        let a = allocs[k];
        proof {
            assert(allocs@.take((k + 1) as int).drop_last() =~= allocs@.take(k as int));
            assert(allocs@.take((k + 1) as int).last() == a);
        }
        let next = match a.amount.checked_mul(a.projected_apy_bps as i128) {
            Some(m) => w.checked_add(m),
            None => None,
        };
        match next {
            Some(v) => w = v,
            None => {
                proof {
                    lemma_weighted_none_stays(allocs@, (k + 1) as nat);
                    assert(allocs@.take(n as int) =~= allocs@);
                }
                return Err(Error::ArithmeticOverflow);
            },
        }
        k = k + 1;
    }
    proof {
        assert(allocs@.take(n as int) =~= allocs@);
    }
    Ok(w)
}

proof fn lemma_weighted_none_stays(v: Seq<Allocation>, k: nat)
    requires
        k <= v.len(),
        weighted_sum(v.take(k as int)) is None,
    ensures
        weighted_sum(v) is None,
    decreases v.len() - k,
{
    if k < v.len() {
        assert(v.take((k + 1) as int).drop_last() =~= v.take(k as int));
        lemma_weighted_none_stays(v, k + 1);
    } else {
        assert(v.take(k as int) =~= v);
    }
}

proof fn lemma_portfolio_err_stays(s: FarmView, user: u64, now: u64, k: nat, n: nat)
    requires
        k <= n,
        portfolio_spec(s, user, now, k) is Err,
    ensures
        portfolio_spec(s, user, now, n) == portfolio_spec(s, user, now, k),
    decreases n - k,
{
    if k < n {
        lemma_portfolio_err_stays(s, user, now, k, (n - 1) as nat);
    }
}

proof fn lemma_score_sum_nonneg(t: Seq<PoolTerm>)
    ensures
        score_sum(t) >= 0,
    decreases t.len(),
{
    if t.len() > 0 {
        lemma_score_sum_nonneg(t.drop_last());
    }
}

/// Filling keeps the amounts' length and keeps them non-negative.
proof fn lemma_fill_facts(t: Seq<PoolTerm>, a: Seq<i128>, remaining: int)
    requires
        a.len() == t.len(),
        forall|j: int| 0 <= j < a.len() ==> #[trigger] a[j] >= 0,
        fill(t, a, remaining) is Ok,
    ensures
        fill(t, a, remaining)->Ok_0.len() == t.len(),
        forall|j: int| 0 <= j < t.len() ==> #[trigger] fill(t, a, remaining)->Ok_0[j] >= 0,
    decreases remaining,
{
    if remaining > 0 {
        lemma_scan_best_candidate(t, a, t.len());
        let i = scan_best(t, a, t.len())->Some_0;
        let added = lesser(remaining, room(t[i], a[i]));
        let b = a.update(i, (a[i] + added) as i128);
        assert forall|j: int| 0 <= j < b.len() implies #[trigger] b[j] >= 0 by {
            assert(a[j] >= 0);
        }
        lemma_fill_facts(t, b, remaining - added);
    }
}

/// Every allocated pool's TVL after the allocation fits.
proof fn lemma_finalize_prefix_fits(t: Seq<PoolTerm>, a: Seq<i128>, total: i128, k: nat)
    requires
        k <= a.len(),
        finalize_prefix(t, a, total, k) is Ok,
    ensures
        forall|j: int| 0 <= j < k && a[j] != 0 ==> #[trigger] fits_i128(t[j].base_tvl + a[j]),
    decreases k,
{
    if k > 0 {
        lemma_finalize_prefix_fits(t, a, total, (k - 1) as nat);
    }
}

/// What a successful plan gives a rebalance: the terms' base TVLs, and
/// non-negative amounts whose TVLs fit.
proof fn lemma_plan_facts(s: FarmView, total: i128, max_risk: u32, excluded: Option<u64>, t: Seq<PoolTerm>, a: Seq<i128>)
    requires
        s.wf(),
        total > 0,
        terms_ok(s, total, max_risk, excluded),
        t == terms_of(s, total, max_risk, excluded),
        amounts_for(t, total) == Ok::<Seq<i128>, Error>(a),
        finalize(t, a, total) is Ok,
    ensures
        t.len() == s.strategy_count,
        a.len() == s.strategy_count,
        a == planned_amounts(s, total, max_risk, excluded),
        forall|k: int| 0 <= k < s.strategy_count ==> {
            &&& (#[trigger] t[k]).base_tvl == tvl_excluding(s, (k + 1) as u32, excluded)
            &&& t[k].base_tvl >= 0
            &&& a[k] >= 0
            &&& fits_i128(t[k].base_tvl + a[k])
        },
{
    let ts = score_sum(t);
    let a0 = initial_amounts(t, total, ts);
    lemma_score_sum_nonneg(t);
    assert forall|k: int| 0 <= k < t.len() implies {
        &&& (#[trigger] t[k]).base_tvl == tvl_excluding(s, (k + 1) as u32, excluded)
        &&& t[k].base_tvl >= 0
        &&& (t[k].score > 0 ==> t[k].cap >= 0 && t[k].limit > 0)
    } by {
        assert(s.strategies.contains_key((k + 1) as u32));
        assert(term_spec(s, (k + 1) as u32, total, max_risk, excluded) is Some);
        lemma_term_facts(s, (k + 1) as u32, total, max_risk, excluded);
    }
    assert forall|j: int| 0 <= j < a0.len() implies #[trigger] a0[j] >= 0 by {
        assert(initial_amount(t[j], total, ts) is Some);
        if t[j].score > 0 {
            let v = total * t[j].score;
            assert(v >= 0) by (nonlinear_arith) requires v == total * t[j].score, total > 0, t[j].score > 0;
            assert(tdiv(v, ts) >= 0);
        }
    }
    lemma_fill_facts(t, a0, total - amount_sum(a0));
    lemma_finalize_prefix_fits(t, a, total, t.len());
    assert forall|k: int| 0 <= k < s.strategy_count implies fits_i128(#[trigger] t[k].base_tvl + a[k]) by {
        if a[k] != 0 {
            assert(fits_i128(t[k].base_tvl + a[k]));
        }
    }
}

/// Entries of strategies above `k` are not touched by the rebalance of
/// strategies `1..=k`.
proof fn lemma_rebalanced_untouched(s: FarmView, user: u64, a: Seq<i128>, now: u64, k: nat, id: u32)
    requires
        k < id,
    ensures
        rebalanced_positions(s, user, a, now, k).contains_key(pos_key(id, user))
            == s.positions.contains_key(pos_key(id, user)),
        rebalanced_positions(s, user, a, now, k)[pos_key(id, user)] == s.positions[pos_key(id, user)],
    decreases k,
{
    if k > 0 {
        lemma_rebalanced_untouched(s, user, a, now, (k - 1) as nat, id);
        super::lemma_pos_key_injective(k as u32, user, id, user);
    }
}

/// A rebalance keeps the contract's accounting valid.
proof fn lemma_rebalanced_wf(s: FarmView, user: u64, a: Seq<i128>, now: u64, n: nat)
    requires
        s.wf(),
        n == s.strategy_count,
        a.len() == n,
        forall|k: int| 0 <= k < n ==> {
            &&& (#[trigger] a[k]) >= 0
            &&& tvl_excluding(s, (k + 1) as u32, Some(user)) >= 0
            &&& fits_i128(tvl_excluding(s, (k + 1) as u32, Some(user)) + a[k])
        },
    ensures
        (FarmView {
            strategies: rebalanced_strategies(s, user, a),
            positions: rebalanced_positions(s, user, a, now, n),
            ..s
        }).wf(),
{
    let t = FarmView {
        strategies: rebalanced_strategies(s, user, a),
        positions: rebalanced_positions(s, user, a, now, n),
        ..s
    };
    assert(t.strategies.dom() =~= s.strategies.dom());
    assert forall|id: u32| #[trigger] t.strategies.contains_key(id) implies {
        &&& t.strategies[id].apy_bps <= super::MAX_APY_BPS
        &&& t.strategies[id].total_deposited >= 0
        &&& t.names[id].len() > 0
    } by {
        assert(s.strategies.contains_key(id));
        let k = (id - 1) as int;
        assert(a[k] >= 0);
        assert((k + 1) as u32 == id);
    }
    assert forall|i: u32| #[trigger] t.pool_configs.contains_key(i) implies t.strategies.contains_key(i) by {
        assert(s.pool_configs.contains_key(i));
    }
    lemma_rebalanced_positions_nonneg(s, user, a, now, n);
}

proof fn lemma_rebalanced_positions_nonneg(s: FarmView, user: u64, a: Seq<i128>, now: u64, k: nat)
    requires
        s.wf(),
        k <= a.len(),
        forall|j: int| 0 <= j < a.len() ==> #[trigger] a[j] >= 0,
    ensures
        forall|q: u128| #[trigger] rebalanced_positions(s, user, a, now, k).contains_key(q) ==> {
            &&& rebalanced_positions(s, user, a, now, k)[q].deposited >= 0
            &&& rebalanced_positions(s, user, a, now, k)[q].compounded_balance >= 0
        },
    decreases k,
{
    if k > 0 {
        lemma_rebalanced_positions_nonneg(s, user, a, now, (k - 1) as nat);
        let prev = rebalanced_positions(s, user, a, now, (k - 1) as nat);
        let cur = rebalanced_positions(s, user, a, now, k);
        assert forall|q: u128| #[trigger] cur.contains_key(q) implies {
            &&& cur[q].deposited >= 0
            &&& cur[q].compounded_balance >= 0
        } by {
            if q != pos_key(k as u32, user) {
                assert(prev.contains_key(q));
            }
        }
    }
}

/// The total amount of allocations.
pub open spec fn allocated_total(v: Seq<Allocation>) -> int
    decreases v.len(),
{
    if v.len() == 0 { 0 } else { allocated_total(v.drop_last()) + v.last().amount }
}

/// The total weight of allocations.
pub open spec fn weight_total(v: Seq<Allocation>) -> int
    decreases v.len(),
{
    if v.len() == 0 { 0 } else { weight_total(v.drop_last()) + v.last().weight_bps }
}

proof fn lemma_amount_sum_update(a: Seq<i128>, i: int, v: i128)
    requires
        0 <= i < a.len(),
    ensures
        amount_sum(a.update(i, v)) == amount_sum(a) - a[i] + v,
    decreases a.len(),
{
    let b = a.update(i, v);
    if i < a.len() - 1 {
        assert(b.drop_last() =~= a.drop_last().update(i, v));
        lemma_amount_sum_update(a.drop_last(), i, v);
    } else {
        assert(b.drop_last() =~= a.drop_last());
    }
}

/// Filling adds exactly the residue.
proof fn lemma_fill_sum(t: Seq<PoolTerm>, a: Seq<i128>, remaining: int)
    requires
        a.len() == t.len(),
        remaining >= 0,
        fill(t, a, remaining) is Ok,
    ensures
        amount_sum(fill(t, a, remaining)->Ok_0) == amount_sum(a) + remaining,
    decreases remaining,
{
    if remaining > 0 {
        lemma_scan_best_candidate(t, a, t.len());
        let i = scan_best(t, a, t.len())->Some_0;
        let added = lesser(remaining, room(t[i], a[i]));
        let b = a.update(i, (a[i] + added) as i128);
        lemma_amount_sum_update(a, i, (a[i] + added) as i128);
        lemma_fill_sum(t, b, remaining - added);
    }
}

/// Finalizing keeps every non-zero amount, and hands out at most the full
/// weight, as much as it assigns.
proof fn lemma_finalize_prefix_sums(t: Seq<PoolTerm>, a: Seq<i128>, total: i128, k: nat)
    requires
        k <= a.len(),
        finalize_prefix(t, a, total, k) is Ok,
    ensures
        allocated_total(finalize_prefix(t, a, total, k)->Ok_0.0) == amount_sum(a.take(k as int)),
        weight_total(finalize_prefix(t, a, total, k)->Ok_0.0) == finalize_prefix(t, a, total, k)->Ok_0.1,
        finalize_prefix(t, a, total, k)->Ok_0.1 <= BPS_DENOM,
    decreases k,
{
    assert(a.take(k as int).len() == k);
    if k > 0 {
        lemma_finalize_prefix_sums(t, a, total, (k - 1) as nat);
        assert(a.take(k as int).drop_last() =~= a.take((k - 1) as int));
        let cur = finalize_prefix(t, a, total, k)->Ok_0;
        let prev = finalize_prefix(t, a, total, (k - 1) as nat)->Ok_0;
        if a[k - 1] != 0 {
            assert(cur.0.drop_last() =~= prev.0);
        }
    }
}

/// The optimizer places exactly the requested amount, and its weights add
/// up to the whole (10_000 basis points).
pub proof fn lemma_allocation_places_everything(s: FarmView, total: i128, max_risk: u32, excluded: Option<u64>)
    requires
        s.wf(),
        s.allocation_outcome(total, max_risk, excluded) is Ok,
    ensures
        allocated_total(s.allocation_outcome(total, max_risk, excluded)->Ok_0) == total,
        weight_total(s.allocation_outcome(total, max_risk, excluded)->Ok_0) == BPS_DENOM,
{
    let t = terms_of(s, total, max_risk, excluded);
    let ts = score_sum(t);
    let a0 = initial_amounts(t, total, ts);
    lemma_score_sum_nonneg(t);
    assert forall|k: int| 0 <= k < t.len() && #[trigger] t[k].score > 0 implies
        t[k].cap >= 0 && t[k].limit > 0 by {
        assert(s.strategies.contains_key((k + 1) as u32));
        assert(term_spec(s, (k + 1) as u32, total, max_risk, excluded) is Some);
        lemma_term_facts(s, (k + 1) as u32, total, max_risk, excluded);
    }
    lemma_initial_sum(t, total, ts, t.len());
    assert(a0.take(t.len() as int) =~= a0);
    assert(t.take(t.len() as int) =~= t);
    assert(amount_sum(a0) <= total) by (nonlinear_arith)
        requires amount_sum(a0) * ts <= total * ts, ts > 0;
    lemma_fill_sum(t, a0, total - amount_sum(a0));
    let a = fill(t, a0, total - amount_sum(a0))->Ok_0;
    lemma_fill_facts_len(t, a0, total - amount_sum(a0));
    lemma_finalize_prefix_sums(t, a, total, t.len());
    assert(a.take(t.len() as int) =~= a);
    let r = finalize_prefix(t, a, total, t.len())->Ok_0;
    let v = r.0;
    let last = v.last();
    let updated = v.update(v.len() - 1, Allocation {
        weight_bps: u32_sat_add(last.weight_bps, u32_sat_sub(BPS_DENOM, r.1)),
        ..last
    });
    assert(v.len() > 0);
    assert(updated.drop_last() =~= v.drop_last());
    assert(weight_total(v) == weight_total(v.drop_last()) + last.weight_bps);
    lemma_weight_total_nonneg(v.drop_last());
    assert(weight_total(updated) == weight_total(updated.drop_last()) + updated.last().weight_bps);
    assert(updated.last().weight_bps == last.weight_bps + (BPS_DENOM - r.1));
}

proof fn lemma_weight_total_nonneg(v: Seq<Allocation>)
    ensures
        weight_total(v) >= 0,
    decreases v.len(),
{
    if v.len() > 0 {
        lemma_weight_total_nonneg(v.drop_last());
    }
}

proof fn lemma_fill_facts_len(t: Seq<PoolTerm>, a: Seq<i128>, remaining: int)
    requires
        a.len() == t.len(),
        fill(t, a, remaining) is Ok,
    ensures
        fill(t, a, remaining)->Ok_0.len() == t.len(),
    decreases remaining,
{
    if remaining > 0 {
        lemma_scan_best_candidate(t, a, t.len());
        let i = scan_best(t, a, t.len())->Some_0;
        let added = lesser(remaining, room(t[i], a[i]));
        lemma_fill_facts_len(t, a.update(i, (a[i] + added) as i128), remaining - added);
    }
}

impl YieldFarmingContract {
    /// A strategy's TVL less the deposits of `excluded`'s position there.
    pub(crate) fn tvl_excluding_user(&self, strategy_id: u32, total_deposited: i128, excluded: Option<u64>) -> (r: i128)
        requires
            self@.strategies.contains_key(strategy_id),
            total_deposited == self@.strategies[strategy_id].total_deposited,
        ensures
            r == tvl_excluding(self@, strategy_id, excluded),
    {
        match excluded {
            None => total_deposited,
            Some(u) => {
                let key = make_pos_key(strategy_id, u);
                match self.positions.get(&key) {
                    Some(p) => crate::fixed::sat_sub(total_deposited, min_i128(p.deposited, total_deposited)),
                    None => total_deposited,
                }
            },
        }
    }

    /// The optimizer's view of strategy `id`; `None` where it overflows.
    fn pool_term(&self, id: u32, total: i128, max_risk: u32, excluded: Option<u64>) -> (r: Option<PoolTerm>)
        requires
            self@.wf(),
            self@.strategies.contains_key(id),
            total > 0,
        ensures
            r == term_spec(self@, id, total, max_risk, excluded),
    {
        let st = *self.strategies.get(&id).unwrap();
        let c = self.pool_config_or_default(id);
        let base = self.tvl_excluding_user(id, st.total_deposited, excluded);
        if !st.is_active || c.risk_score > max_risk || !(c.capacity == 0 || base < c.capacity) {
            return Some(PoolTerm { strategy_id: id, score: 0, cap: 0, limit: 0, base_tvl: base, apy_bps: st.apy_bps, config: c });
        }
        let cap = match total.checked_mul(c.max_allocation_bps as i128) {
            Some(v) => div_trunc(v, BPS_DENOM as i128),
            None => return None,
        };
        let limit = if c.capacity == 0 { total } else { crate::fixed::sat_sub(c.capacity, base) };
        let probe = max_i128(min_i128(cap, limit), 1);
        let probe_tvl = match base.checked_add(probe) {
            Some(v) => v,
            None => return None,
        };
        let apy = match calculate_dynamic_apy(st.apy_bps, c, probe_tvl) {
            Ok(v) => v,
            Err(_) => return None,
        };
        let product = match apy.checked_mul(MAX_RISK_SCORE - c.risk_score) {
            Some(v) => v,
            None => u32::MAX,
        };
        Some(PoolTerm {
            strategy_id: id,
            score: product / MAX_RISK_SCORE,
            cap,
            limit,
            base_tvl: base,
            apy_bps: st.apy_bps,
            config: c,
        })
    }


    /// The terms of every strategy and the sum of their scores.
    fn collect_terms(&self, total_amount: i128, max_risk_score: u32, excluded: Option<u64>) -> (r: Result<(Vec<PoolTerm>, u64), Error>)
        requires
            self@.wf(),
            total_amount > 0,
        ensures
            match r {
                Ok(p) => terms_ok(self@, total_amount, max_risk_score, excluded)
                    && p.0@ == terms_of(self@, total_amount, max_risk_score, excluded)
                    && p.1 == score_sum(p.0@),
                Err(e) => e == Error::ArithmeticOverflow && !terms_ok(self@, total_amount, max_risk_score, excluded),
            },
    {
        let count = self.strategy_count;
        let mut terms: Vec<PoolTerm> = Vec::new();
        let mut total_score: u64 = 0;
        let mut i: u64 = 1;
        while i <= count as u64
            invariant
                self@.wf(),
                total_amount > 0,
                count == self@.strategy_count,
                1 <= i <= count as u64 + 1,
                terms@.len() == i - 1,
                forall|k: int| 0 <= k < terms@.len() ==>
                    term_spec(self@, (k + 1) as u32, total_amount, max_risk_score, excluded) == Some(#[trigger] terms@[k]),
                total_score == score_sum(terms@),
                total_score <= (i - 1) * 0xFFFF_FFFF,
            decreases count as u64 + 1 - i,
        {
            proof {
                assert(self@.strategies.contains_key(i as u32));
            }
            let t = match self.pool_term(i as u32, total_amount, max_risk_score, excluded) {
                Some(t) => t,
                None => {
                    proof {
                        let k = (i - 1) as int;
                        assert(term_spec(self@, (k + 1) as u32, total_amount, max_risk_score, excluded) is None);
                    }
                    return Err(Error::ArithmeticOverflow);
                },
            };
            let ghost before = terms@;
            terms.push(t);
            proof {
                assert(terms@.drop_last() =~= before);
                assert(total_score + t.score <= i * 0xFFFF_FFFF) by (nonlinear_arith)
                    requires total_score <= (i - 1) * 0xFFFF_FFFF, t.score <= 0xFFFF_FFFF;
                assert(i * 0xFFFF_FFFF <= 0xFFFF_FFFF * 0xFFFF_FFFF) by (nonlinear_arith)
                    requires i <= 0xFFFF_FFFF;
            }
            total_score = total_score + t.score as u64;
            i = i + 1;
        }
        proof {
            assert(terms@ =~= terms_of(self@, total_amount, max_risk_score, excluded));
            assert forall|k: int| 0 <= k < self@.strategy_count implies
                #[trigger] term_spec(self@, (k + 1) as u32, total_amount, max_risk_score, excluded) is Some by {
                assert(term_spec(self@, (k + 1) as u32, total_amount, max_risk_score, excluded) == Some(terms@[k]));
            }
        }
        Ok((terms, total_score))
    }

    /// The optimizer's terms, the amounts per strategy and the allocations
    /// for `total_amount`, leaving out the positions of `excluded`.
    fn plan_allocation(&self, total_amount: i128, max_risk_score: u32, excluded: Option<u64>)
        -> (r: Result<(Vec<PoolTerm>, Vec<i128>, Vec<Allocation>), Error>)
        requires
            self@.wf(),
        ensures
            match r {
                Ok(p) => {
                    &&& self@.allocation_outcome(total_amount, max_risk_score, excluded) == Ok::<Seq<Allocation>, Error>(p.2@)
                    &&& total_amount > 0 && max_risk_score <= MAX_RISK_SCORE
                    &&& terms_ok(self@, total_amount, max_risk_score, excluded)
                    &&& p.0@ == terms_of(self@, total_amount, max_risk_score, excluded)
                    &&& amounts_for(p.0@, total_amount) == Ok::<Seq<i128>, Error>(p.1@)
                    &&& finalize(p.0@, p.1@, total_amount) == Ok::<Seq<Allocation>, Error>(p.2@)
                },
                Err(e) => self@.allocation_outcome(total_amount, max_risk_score, excluded) == Err::<Seq<Allocation>, Error>(e),
            },
    {
        if total_amount <= 0 {
            return Err(Error::ZeroAmount);
        }
        if max_risk_score > MAX_RISK_SCORE {
            return Err(Error::InvalidRiskScore);
        }
        let (terms, total_score) = self.collect_terms(total_amount, max_risk_score, excluded)?;
        let ghost tseq = terms@;
        proof {
            assert forall|k: int| 0 <= k < tseq.len() implies {
                &&& (#[trigger] tseq[k]).config.fee_bps <= BPS_DENOM
                &&& tseq[k].base_tvl >= 0
                &&& (tseq[k].score > 0 ==> tseq[k].cap >= 0 && tseq[k].limit > 0)
            } by {
                assert(self@.strategies.contains_key((k + 1) as u32));
                assert(term_spec(self@, (k + 1) as u32, total_amount, max_risk_score, excluded) is Some);
                lemma_term_facts(self@, (k + 1) as u32, total_amount, max_risk_score, excluded);
            }
        }
        if total_score == 0 {
            return Err(Error::NoOptimizableStrategy);
        }
        let amounts = initial_split(&terms, total_amount, total_score)?;
        let ghost ts = total_score as int;
        let ghost a0 = amounts@;
        proof {
            lemma_initial_sum(tseq, total_amount, ts, tseq.len());
            assert(a0.take(tseq.len() as int) =~= a0);
            assert(tseq.take(tseq.len() as int) =~= tseq);
            assert(amount_sum(a0) <= total_amount) by (nonlinear_arith)
                requires amount_sum(a0) * ts <= total_amount * ts, ts > 0;
            assert forall|j: int| 0 <= j < tseq.len() implies {
                &&& #[trigger] a0[j] >= 0
                &&& tseq[j].score > 0 ==> tseq[j].cap >= 0 && tseq[j].limit > 0
                &&& tseq[j].score == 0 ==> a0[j] == 0
                &&& tseq[j].score > 0 ==> a0[j] <= lesser(tseq[j].cap as int, tseq[j].limit as int)
            } by {
                assert(initial_amount(tseq[j], total_amount, ts) is Some);
                if tseq[j].score > 0 {
                    let v = total_amount * tseq[j].score;
                    assert(v >= 0) by (nonlinear_arith)
                        requires v == total_amount * tseq[j].score, total_amount > 0, tseq[j].score > 0;
                    assert(tdiv(v, ts) >= 0);
                }
            }
        }
        let allocated = sum_amounts(&amounts);
        let amounts = fill_residue(&terms, amounts, total_amount - allocated)?;
        let allocs = finalize_allocations(&terms, &amounts, total_amount)?;
        Ok((terms, amounts, allocs))
    }

    /// Risk- and capacity-aware targets for `total_amount` across the
    /// active pools, leaving out the positions of `excluded`.
    pub(crate) fn build_allocation(&self, total_amount: i128, max_risk_score: u32, excluded: Option<u64>) -> (r: Result<Vec<Allocation>, Error>)
        requires
            self@.wf(),
        ensures
            match r {
                Ok(v) => self@.allocation_outcome(total_amount, max_risk_score, excluded) == Ok::<Seq<Allocation>, Error>(v@),
                Err(e) => self@.allocation_outcome(total_amount, max_risk_score, excluded) == Err::<Seq<Allocation>, Error>(e),
            },
    {
        let (_terms, _amounts, allocs) = self.plan_allocation(total_amount, max_risk_score, excluded)?;
        Ok(allocs)
    }


    /// `user`'s compounded balance over all strategies at `now`, its
    /// balance-weighted current APY sum, and whether any position exists.
    fn portfolio(&self, user: u64, now: u64) -> (r: Result<(i128, i128, bool), Error>)
        requires
            self@.wf(),
        ensures
            match portfolio_spec(self@, user, now, self@.strategy_count as nat) {
                Err(e) => r == Err::<(i128, i128, bool), Error>(e),
                Ok(p) => r matches Ok(q) && q.0 == p.0 && q.1 == p.1 && q.2 == p.2,
            },
    {
        let count = self.strategy_count;
        let mut total_balance: i128 = 0;
        let mut weighted: i128 = 0;
        let mut found = false;
        let mut i: u64 = 1;
        while i <= count as u64
            invariant
                self@.wf(),
                count == self@.strategy_count,
                1 <= i <= count as u64 + 1,
                portfolio_spec(self@, user, now, (i - 1) as nat) matches Ok(p)
                    && p.0 == total_balance && p.1 == weighted && p.2 == found,
            decreases count as u64 + 1 - i,
        {
            let id = i as u32;
            let key = make_pos_key(id, user);
            proof {
                assert(self@.strategies.contains_key(id));
            }
            match self.positions.get(&key) {
                None => {},
                Some(pos) => {
                    let st = *self.strategies.get(&id).unwrap();
                    let balance = compound_position(*pos, st.apy_bps, now).compounded_balance;
                    let config = self.pool_config_or_default(id);
                    let apy = match calculate_dynamic_apy(st.apy_bps, config, st.total_deposited) {
                        Ok(v) => v,
                        Err(e) => {
                            proof {
                                lemma_portfolio_err_stays(self@, user, now, i as nat, count as nat);
                            }
                            return Err(e);
                        },
                    };
                    let next_total = total_balance.checked_add(balance);
                    let product = balance.checked_mul(apy as i128);
                    let next_weighted = match (next_total, product) {
                        (Some(_), Some(m)) => weighted.checked_add(m),
                        _ => None,
                    };
                    match (next_total, next_weighted) {
                        (Some(t), Some(w)) => {
                            total_balance = t;
                            weighted = w;
                            found = true;
                        },
                        _ => {
                            proof {
                                lemma_portfolio_err_stays(self@, user, now, i as nat, count as nat);
                            }
                            return Err(Error::ArithmeticOverflow);
                        },
                    }
                },
            }
            i = i + 1;
        }
        Ok((total_balance, weighted, found))
    }

    /// Capacity- and risk-aware targets for `total_amount` of new capital
    /// across the active pools.
    pub fn optimize_allocation(&self, total_amount: i128, max_risk_score: u32) -> (r: Result<Vec<Allocation>, Error>)
        requires
            self@.wf(),
        ensures
            match r {
                Ok(v) => self@.allocation_outcome(total_amount, max_risk_score, None) == Ok::<Seq<Allocation>, Error>(v@),
                Err(e) => self@.allocation_outcome(total_amount, max_risk_score, None) == Err::<Seq<Allocation>, Error>(e),
            },
    {
        self.build_allocation(total_amount, max_risk_score, None)
    }

    /// A read-only dry run of the optimizer: the allocations and their
    /// weighted projected APY.
    pub fn get_optimization_preview(&self, total_amount: i128, max_risk_score: u32) -> (r: Result<(Vec<Allocation>, u32), Error>)
        requires
            self@.wf(),
        ensures
            match self@.preview_outcome(total_amount, max_risk_score) {
                Err(e) => r matches Err(f) && f == e,
                Ok(p) => r matches Ok(q) && q.0@ == p.0 && q.1 == p.1,
            },
    {
        let allocations = self.build_allocation(total_amount, max_risk_score, None)?;
        let weighted = weighted_total(&allocations)?;
        let apy = if total_amount > 0 { div_trunc(weighted, total_amount) as u32 } else { 0 };
        Ok((allocations, apy))
    }

    /// Compounds and moves all of `user`'s capital to the optimizer's
    /// targets in one step; refused unless the weighted APY improves.
    pub fn rebalance(&mut self, user: u64, max_risk_score: u32, now: u64) -> (r: Result<RebalanceResult, Error>)
        requires
            old(self)@.wf(),
        ensures
            match old(self)@.rebalance_outcome(user, max_risk_score, now) {
                Err(e) => r matches Err(f) && f == e,
                Ok(o) => r matches Ok(res) && res.total_balance == o.0 && res.previous_weighted_apy_bps == o.1
                    && res.new_weighted_apy_bps == o.2 && res.allocations@ == o.3,
            },
            r is Err ==> final(self)@ == old(self)@,
            r is Ok ==> final(self)@ == old(self)@.rebalanced(user, max_risk_score, now),
            r matches Ok(res) ==> res.new_weighted_apy_bps > res.previous_weighted_apy_bps,
            final(self)@.wf(),
    {
        if self.admin.is_none() {
            return Err(Error::NotInitialized);
        }
        if max_risk_score > MAX_RISK_SCORE {
            return Err(Error::InvalidRiskScore);
        }
        let (total_balance, previous_yield, found) = self.portfolio(user, now)?;
        if !found || total_balance <= 0 {
            return Err(Error::NoPosition);
        }
        let (terms, amounts, allocations) = self.plan_allocation(total_balance, max_risk_score, Some(user))?;
        let previous = div_trunc(previous_yield, total_balance) as u32;
        let new_yield = weighted_total(&allocations)?;
        let next = div_trunc(new_yield, total_balance) as u32;
        if next <= previous {
            return Err(Error::NoOptimizableStrategy);
        }
        let ghost s0 = self@;
        let ghost tseq = terms@;
        let ghost aseq = amounts@;
        proof {
            lemma_plan_facts(s0, total_balance, max_risk_score, Some(user), tseq, aseq);
        }
        let count = self.strategy_count;
        let mut j: u64 = 1;
        while j <= count as u64
            invariant
                s0 == old(self)@,
                s0.wf(),
                count == s0.strategy_count,
                1 <= j <= count as u64 + 1,
                terms@ == tseq,
                amounts@ == aseq,
                tseq.len() == count,
                aseq.len() == count,
                forall|k: int| 0 <= k < count ==> {
                    &&& (#[trigger] tseq[k]).base_tvl == tvl_excluding(s0, (k + 1) as u32, Some(user))
                    &&& tseq[k].base_tvl >= 0
                    &&& aseq[k] >= 0
                    &&& fits_i128(tseq[k].base_tvl + aseq[k])
                },
                self@.admin == s0.admin,
                self@.strategy_count == s0.strategy_count,
                self@.names == s0.names,
                self@.pool_configs == s0.pool_configs,
                self@.positions == rebalanced_positions(s0, user, aseq, now, (j - 1) as nat),
                self@.strategies == Map::new(
                    |id: u32| s0.strategies.contains_key(id),
                    |id: u32| if id < j {
                        StrategyState {
                            total_deposited: (tvl_excluding(s0, id, Some(user)) + aseq[id - 1]) as i128,
                            ..s0.strategies[id]
                        }
                    } else {
                        s0.strategies[id]
                    },
                ),
            decreases count as u64 + 1 - j,
        {
            let id = j as u32;
            let idx = (j - 1) as usize;
            proof {
                assert(s0.strategies.contains_key(id));
                assert(self@.strategies.contains_key(id));
            }
            let a = amounts[idx];
            let base = terms[idx].base_tvl;
            let st = *self.strategies.get(&id).unwrap();
            let ghost before_strategies = self@.strategies;
            self.strategies.insert(id, StrategyState { total_deposited: base + a, ..st });
            let key = make_pos_key(id, user);
            if a > 0 {
                self.positions.insert(key, Position { deposited: a, compounded_balance: a, last_update_ts: now });
            } else {
                self.positions.remove(&key);
            }
            proof {
                assert(self@.strategies =~= Map::new(
                    |i: u32| s0.strategies.contains_key(i),
                    |i: u32| if i < j + 1 {
                        StrategyState {
                            total_deposited: (tvl_excluding(s0, i, Some(user)) + aseq[i - 1]) as i128,
                            ..s0.strategies[i]
                        }
                    } else {
                        s0.strategies[i]
                    },
                ));
            }
            j = j + 1;
        }
        proof {
            assert(self@.strategies =~= rebalanced_strategies(s0, user, aseq));
            assert forall|k: int| 0 <= k < count implies {
                &&& (#[trigger] aseq[k]) >= 0
                &&& tvl_excluding(s0, (k + 1) as u32, Some(user)) >= 0
                &&& fits_i128(tvl_excluding(s0, (k + 1) as u32, Some(user)) + aseq[k])
            } by {
                assert(tseq[k].base_tvl == tvl_excluding(s0, (k + 1) as u32, Some(user)));
            }
            lemma_rebalanced_wf(s0, user, aseq, now, count as nat);
        }
        Ok(RebalanceResult {
            total_balance,
            previous_weighted_apy_bps: previous,
            new_weighted_apy_bps: next,
            allocations,
        })
    }

    /// Rebalances only where the preview improves the weighted APY by at
    /// least `min_improvement_bps`; returns whether it did.
    pub fn auto_rebalance_threshold(&mut self, user: u64, max_risk_score: u32, min_improvement_bps: u32, now: u64) -> (r: Result<bool, Error>)
        requires
            old(self)@.wf(),
        ensures
            r == old(self)@.auto_rebalance_outcome(user, max_risk_score, min_improvement_bps, now),
            r == Ok::<bool, Error>(true) ==> final(self)@ == old(self)@.rebalanced(user, max_risk_score, now),
            r != Ok::<bool, Error>(true) ==> final(self)@ == old(self)@,
            final(self)@.wf(),
    {
        if self.admin.is_none() {
            return Err(Error::NotInitialized);
        }
        if max_risk_score > MAX_RISK_SCORE {
            return Err(Error::InvalidRiskScore);
        }
        let (total_balance, weighted, found) = self.portfolio(user, now)?;
        if !found || total_balance <= 0 {
            return Ok(false);
        }
        let current = div_trunc(weighted, total_balance) as u32;
        let (_allocations, proposed) = self.get_optimization_preview(total_balance, max_risk_score)?;
        let improvement = if proposed >= current { proposed - current } else { 0 };
        if improvement < min_improvement_bps {
            return Ok(false);
        }
        self.rebalance(user, max_risk_score, now)?;
        Ok(true)
    }

}

} // verus!
