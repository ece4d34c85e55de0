use stellar_contracts::yield_farming::{Allocation, Error, YieldFarmingContract, SECONDS_PER_YEAR};

const ADMIN: u64 = 1;
const USER: u64 = 2;
const OTHER: u64 = 3;

fn setup() -> YieldFarmingContract {
    let mut c = YieldFarmingContract::new();
    c.initialize(ADMIN).unwrap();
    c
}

/// Two strategies: id 1 at 10% and id 2 at 5%.
fn setup_two() -> YieldFarmingContract {
    let mut c = setup();
    assert_eq!(c.add_strategy(ADMIN, b"Alpha".to_vec(), 1_000, 0), Ok(1));
    assert_eq!(c.add_strategy(ADMIN, b"Beta".to_vec(), 500, 0), Ok(2));
    c
}

#[test]
fn farm_strategies_are_numbered_and_listed() {
    let mut c = setup_two();
    assert_eq!(c.strategy_count(), 2);
    assert_eq!(c.list_strategies(), vec![1, 2]);
    let s = c.get_strategy(1).unwrap();
    assert_eq!(s.name, b"Alpha".to_vec());
    assert_eq!(s.apy_bps, 1_000);
    assert!(s.is_active);
    assert!(matches!(c.get_strategy(3), Err(Error::StrategyNotFound)));
    assert_eq!(c.add_strategy(ADMIN, Vec::new(), 100, 0), Err(Error::EmptyName));
    assert_eq!(c.add_strategy(ADMIN, b"X".to_vec(), 10_001, 0), Err(Error::InvalidApy));
    assert_eq!(c.add_strategy(OTHER, b"X".to_vec(), 100, 0), Err(Error::Unauthorized));
    assert_eq!(c.update_strategy_apy(ADMIN, 1, 2_000), Ok(()));
    assert_eq!(c.get_strategy(1).unwrap().apy_bps, 2_000);
    assert_eq!(c.update_strategy_apy(ADMIN, 9, 2_000), Err(Error::StrategyNotFound));
    assert_eq!(c.initialize(ADMIN), Err(Error::AlreadyInitialized));
    assert_eq!(c.get_admin(), Ok(ADMIN));
    assert!(c.is_initialized());
}

#[test]
fn farm_rewards_compound_pro_rata() {
    let mut c = setup_two();
    c.deposit(USER, 1, 1_000_000, 0).unwrap();
    let year = SECONDS_PER_YEAR;
    assert_eq!(c.get_position(USER, 1, year).unwrap().compounded_balance, 1_100_000);
    assert_eq!(c.compound(USER, 1, year), Ok(1_100_000));
    let s = c.get_strategy(1).unwrap();
    assert_eq!(s.total_deposited, 1_100_000);
    assert_eq!(s.last_compound_ts, year);
    assert_eq!(c.compound(OTHER, 1, year), Err(Error::NoPosition));
}

#[test]
fn farm_withdraw_compounds_first() {
    let mut c = setup_two();
    c.deposit(USER, 1, 1_000_000, 0).unwrap();
    let year = SECONDS_PER_YEAR;
    assert_eq!(c.withdraw(USER, 1, 2_000_000, year), Err(Error::InsufficientBalance));
    assert_eq!(c.withdraw(USER, 1, 600_000, year), Ok(600_000));
    let p = c.get_position(USER, 1, year).unwrap();
    assert_eq!(p.compounded_balance, 500_000);
    assert_eq!(p.deposited, 400_000);
    assert_eq!(c.get_strategy(1).unwrap().total_deposited, 500_000);
    assert_eq!(c.withdraw(USER, 1, 500_000, year), Ok(500_000));
    assert_eq!(c.get_position(USER, 1, year), Err(Error::NoPosition));
    assert_eq!(c.withdraw(USER, 1, 1, year), Err(Error::NoPosition));
    assert_eq!(c.withdraw(USER, 1, 0, year), Err(Error::ZeroAmount));
}

#[test]
fn farm_deposit_checks() {
    let mut c = setup_two();
    assert_eq!(c.deposit(USER, 1, 0, 0), Err(Error::ZeroAmount));
    assert_eq!(c.deposit(USER, 7, 10, 0), Err(Error::StrategyNotFound));
    c.set_strategy_active(ADMIN, 1, false).unwrap();
    assert_eq!(c.deposit(USER, 1, 10, 0), Err(Error::StrategyPaused));
    let mut fresh = YieldFarmingContract::new();
    assert_eq!(fresh.deposit(USER, 1, 10, 0), Err(Error::NotInitialized));
}

#[test]
fn farm_compound_all_reinvests_every_position() {
    let mut c = setup_two();
    c.deposit(USER, 1, 1_000, 0).unwrap();
    c.deposit(USER, 2, 1_000, 0).unwrap();
    let half_year = SECONDS_PER_YEAR / 2;
    assert_eq!(c.compound_all(USER, half_year), Ok(75));
    assert_eq!(c.get_position(USER, 1, half_year).unwrap().compounded_balance, 1_050);
    assert_eq!(c.get_position(USER, 2, half_year).unwrap().compounded_balance, 1_025);
    assert_eq!(c.compound_all(OTHER, half_year), Err(Error::NoPosition));
}

#[test]
fn farm_dynamic_apy_follows_emissions_over_tvl() {
    let mut c = setup_two();
    c.configure_pool(ADMIN, 1, 100, 0, 1_000, 0, 10_000).unwrap();
    // No TVL yet: the quoted 10% less the 10% fee.
    assert_eq!(c.dynamic_apy(1, 0), Ok(900));
    c.deposit(USER, 1, 1_000, 0).unwrap();
    assert_eq!(c.dynamic_apy(1, 0), Ok(900));
    assert_eq!(c.dynamic_apy(1, 1_000), Ok(450));
    assert_eq!(c.dynamic_apy(1, -1), Err(Error::InvalidPoolConfig));
    c.configure_pool(ADMIN, 2, 0, 1_500, 0, 0, 10_000).unwrap();
    assert_eq!(c.dynamic_apy(2, 2_000), Err(Error::InsufficientCapacity));
    assert_eq!(c.configure_pool(ADMIN, 1, -1, 0, 0, 0, 10_000), Err(Error::InvalidPoolConfig));
    assert_eq!(c.configure_pool(ADMIN, 1, 0, 0, 10_001, 0, 10_000), Err(Error::InvalidBasisPoints));
    assert_eq!(c.configure_pool(ADMIN, 1, 0, 0, 0, 0, 0), Err(Error::InvalidBasisPoints));
    assert_eq!(c.configure_pool(ADMIN, 1, 0, 0, 0, 101, 10_000), Err(Error::InvalidRiskScore));
    let cfg = c.get_pool_config(1).unwrap();
    assert_eq!(cfg.fee_bps, 1_000);
    assert_eq!(c.get_pool_config(2).unwrap().capacity, 1_500);
}

#[test]
fn farm_optimizer_splits_by_score_and_places_the_residue() {
    let c = setup_two();
    let allocs = c.optimize_allocation(1_000, 100).unwrap();
    assert_eq!(
        allocs,
        vec![
            Allocation { strategy_id: 1, amount: 667, weight_bps: 6_670, projected_apy_bps: 1_000 },
            Allocation { strategy_id: 2, amount: 333, weight_bps: 3_330, projected_apy_bps: 500 },
        ]
    );
    let (preview, apy) = c.get_optimization_preview(1_000, 100).unwrap();
    assert_eq!(preview, allocs);
    assert_eq!(apy, 833);
    assert_eq!(c.optimize_allocation(0, 100), Err(Error::ZeroAmount));
    assert_eq!(c.optimize_allocation(1_000, 101), Err(Error::InvalidRiskScore));
}

#[test]
fn farm_optimizer_respects_capacity_and_risk() {
    let mut c = setup_two();
    c.configure_pool(ADMIN, 1, 0, 500, 0, 0, 10_000).unwrap();
    let allocs = c.optimize_allocation(1_000, 100).unwrap();
    assert_eq!(allocs.len(), 2);
    assert_eq!((allocs[0].amount, allocs[0].weight_bps), (500, 5_000));
    assert_eq!((allocs[1].amount, allocs[1].weight_bps), (500, 5_000));

    c.configure_pool(ADMIN, 1, 0, 0, 0, 50, 10_000).unwrap();
    let allocs = c.optimize_allocation(1_000, 40).unwrap();
    assert_eq!(allocs, vec![Allocation { strategy_id: 2, amount: 1_000, weight_bps: 10_000, projected_apy_bps: 500 }]);

    c.configure_pool(ADMIN, 2, 0, 600, 0, 0, 10_000).unwrap();
    assert_eq!(c.optimize_allocation(1_000, 40), Err(Error::InsufficientCapacity));
    c.set_strategy_active(ADMIN, 2, false).unwrap();
    assert_eq!(c.optimize_allocation(1_000, 40), Err(Error::NoOptimizableStrategy));
}

#[test]
fn farm_rebalance_moves_capital_to_the_better_pool() {
    let mut c = setup_two();
    c.deposit(USER, 2, 1_000, 0).unwrap();
    let result = c.rebalance(USER, 100, 0).unwrap();
    assert_eq!(result.total_balance, 1_000);
    assert_eq!(result.previous_weighted_apy_bps, 500);
    assert_eq!(result.new_weighted_apy_bps, 833);
    assert_eq!(result.allocations.len(), 2);
    assert_eq!(c.get_strategy(1).unwrap().total_deposited, 667);
    assert_eq!(c.get_strategy(2).unwrap().total_deposited, 333);
    let p1 = c.get_position(USER, 1, 0).unwrap();
    assert_eq!((p1.deposited, p1.compounded_balance), (667, 667));
    assert_eq!(c.get_position(USER, 2, 0).unwrap().compounded_balance, 333);
    // Nothing left to gain.
    assert!(matches!(c.rebalance(USER, 100, 0), Err(Error::NoOptimizableStrategy)));
    assert!(matches!(c.rebalance(OTHER, 100, 0), Err(Error::NoPosition)));
    assert!(matches!(c.rebalance(USER, 101, 0), Err(Error::InvalidRiskScore)));
}

#[test]
fn farm_auto_rebalance_needs_the_threshold() {
    let mut c = setup_two();
    c.deposit(USER, 2, 1_000, 0).unwrap();
    assert_eq!(c.auto_rebalance_threshold(USER, 100, 400, 0), Ok(false));
    assert_eq!(c.get_position(USER, 2, 0).unwrap().compounded_balance, 1_000);
    assert_eq!(c.auto_rebalance_threshold(USER, 100, 300, 0), Ok(true));
    assert_eq!(c.get_position(USER, 1, 0).unwrap().compounded_balance, 667);
    assert_eq!(c.auto_rebalance_threshold(OTHER, 100, 0, 0), Ok(false));
}
