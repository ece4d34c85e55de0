use stellar_contracts::amm_pool::{constant_product_amount_out, isqrt, AmmPool, DynamicFeeConfig, Error};

const ADMIN: u64 = 1;
const TOKEN_A: u64 = 10;
const TOKEN_B: u64 = 11;
const P1: u64 = 20;
const P2: u64 = 21;

fn setup() -> AmmPool {
    let mut pool = AmmPool::new();
    pool.initialize(ADMIN, TOKEN_A, TOKEN_B, None, 0).unwrap();
    pool
}

#[test]
fn test_test_double_init_fails() {
    let mut pool = setup();
    assert_eq!(pool.initialize(ADMIN, TOKEN_A, TOKEN_B, None, 0), Err(Error::AlreadyInitialized));
}

#[test]
fn test_default_fee_bps() {
    let pool = setup();
    assert_eq!(pool.get_fee_bps(), Ok(30));
}

#[test]
fn test_add_liquidity_first_deposit() {
    let mut pool = setup();
    let lp = pool.add_liquidity(P1, 10_000, 10_000, 1).unwrap();
    assert_eq!(lp, 9_000);
    assert_eq!(pool.get_lp_balance(P1), Ok(9_000));
    assert_eq!(pool.get_reserves(), Ok((10_000, 10_000)));
}

#[test]
fn test_add_liquidity_proportional() {
    let mut pool = setup();
    pool.add_liquidity(P1, 10_000, 10_000, 1).unwrap();
    let lp2 = pool.add_liquidity(P2, 5_000, 5_000, 1).unwrap();
    assert_eq!(lp2, 5_000);
}

#[test]
fn test_remove_liquidity() {
    let mut pool = setup();
    let lp = pool.add_liquidity(P1, 10_000, 10_000, 1).unwrap();
    let (out_a, out_b) = pool.remove_liquidity(P1, lp, 1, 1).unwrap();
    assert_eq!(out_a, 9_000);
    assert_eq!(out_b, 9_000);
    assert_eq!(pool.get_lp_balance(P1), Ok(0));
}

#[test]
fn test_remove_liquidity_slippage_fails() {
    let mut pool = setup();
    let lp = pool.add_liquidity(P1, 10_000, 10_000, 1).unwrap();
    assert_eq!(pool.remove_liquidity(P1, lp, 99_999, 1), Err(Error::SlippageExceeded));
}

#[test]
fn test_swap_a_to_b() {
    let mut pool = setup();
    pool.add_liquidity(P1, 100_000, 100_000, 1).unwrap();
    let out = pool.swap(P1, TOKEN_A, 1_000, 1, 0).unwrap();
    assert!(out > 0 && out < 1_000);
    let (ra, rb) = pool.get_reserves().unwrap();
    assert_eq!(ra, 101_000);
    assert_eq!(rb, 100_000 - out);
}

#[test]
fn test_swap_slippage_protection() {
    let mut pool = setup();
    pool.add_liquidity(P1, 100_000, 100_000, 1).unwrap();
    assert_eq!(pool.swap(P1, TOKEN_A, 1_000, 99_999, 0), Err(Error::SlippageExceeded));
}

#[test]
fn test_swap_invalid_token() {
    let mut pool = setup();
    pool.add_liquidity(P1, 100_000, 100_000, 1).unwrap();
    assert_eq!(pool.swap(P1, 99, 1_000, 1, 0), Err(Error::InvalidToken));
}

#[test]
fn test_swap_zero_liquidity_fails() {
    let mut pool = setup();
    assert_eq!(pool.swap(P1, TOKEN_A, 1_000, 1, 0), Err(Error::InsufficientLiquidity));
}

#[test]
fn test_twap_accumulates_after_swap() {
    let mut pool = setup();
    pool.add_liquidity(P1, 100_000, 100_000, 1).unwrap();
    pool.swap(P1, TOKEN_A, 1_000, 1, 100).unwrap();
    let (pa, pb, _ts) = pool.get_twap().unwrap();
    assert!(pa > 0);
    assert!(pb > 0);
}

#[test]
fn test_get_amount_out_preview() {
    let mut pool = setup();
    pool.add_liquidity(P1, 100_000, 100_000, 1).unwrap();
    let preview = pool.get_amount_out(1_000, TOKEN_A, 0).unwrap();
    let actual = pool.swap(P1, TOKEN_A, 1_000, 1, 0).unwrap();
    assert_eq!(preview, actual);
}

#[test]
fn test_initialize_nft_pool() {
    let mut pool = AmmPool::new();
    pool.initialize_nft(ADMIN, TOKEN_A, TOKEN_B, 77, None, 0).unwrap();
    assert_eq!(pool.get_fee_bps(), Ok(30));
    let stats = pool.get_collection_stats().unwrap();
    assert_eq!(stats.floor_price, 0);
    assert_eq!(stats.ceiling_price, 0);
    assert_eq!(stats.total_volume, 0);
    assert_eq!(stats.trade_count, 0);
}

#[test]
fn test_update_floor_price() {
    let mut pool = setup();
    pool.initialize_nft(ADMIN, TOKEN_A, TOKEN_B, 77, None, 0).unwrap();
    pool.update_floor_price(ADMIN, 1_000, 0).unwrap();
    assert_eq!(pool.get_floor_price(), Ok(1_000));
    assert_eq!(pool.get_collection_stats().unwrap().floor_price, 1_000);
}

#[test]
fn test_pool_metrics_track_volume() {
    let mut pool = setup();
    pool.add_liquidity(P1, 100_000, 100_000, 1).unwrap();
    pool.swap(P1, TOKEN_A, 1_000, 1, 0).unwrap();
    pool.swap(P1, TOKEN_A, 2_000, 1, 0).unwrap();
    let (volume, fees) = pool.get_pool_metrics().unwrap();
    assert_eq!(volume, 3_000);
    assert!(fees > 0);
}

#[test]
fn test_floor_price_negative_fails() {
    let mut pool = setup();
    pool.initialize_nft(ADMIN, TOKEN_A, TOKEN_B, 77, None, 0).unwrap();
    assert_eq!(pool.update_floor_price(ADMIN, -1, 0), Err(Error::ZeroAmount));
}

#[test]
fn test_multiple_swaps_accumulate_metrics() {
    let mut pool = setup();
    pool.add_liquidity(P1, 1_000_000, 1_000_000, 1).unwrap();
    for _ in 0..5 {
        pool.swap(P1, TOKEN_A, 10_000, 1, 0).unwrap();
        pool.swap(P1, TOKEN_B, 10_000, 1, 0).unwrap();
    }
    let (volume, fees) = pool.get_pool_metrics().unwrap();
    assert_eq!(volume, 100_000);
    assert!(fees > 0);
}

fn dynamic_config() -> DynamicFeeConfig {
    DynamicFeeConfig {
        min_fee_bps: 30,
        max_fee_bps: 500,
        volatility_multiplier_bps: 5_000,
        utilization_multiplier_bps: 1_000,
        ema_alpha_bps: 5_000,
        volatility_window: 3_600,
        max_price_impact_bps: 2_000,
    }
}

fn setup_dynamic() -> AmmPool {
    let mut pool = setup();
    pool.add_liquidity(P1, 1_000_000, 1_000_000, 1).unwrap();
    pool.configure_dynamic_fees(ADMIN, dynamic_config(), 0).unwrap();
    pool
}

#[test]
fn test_fixed_fee_behavior_is_preserved_until_opt_in() {
    let mut pool = setup();
    pool.add_liquidity(P1, 1_000_000, 1_000_000, 1).unwrap();
    let quote = pool.quote_dynamic_swap(100_000, TOKEN_A, 0).unwrap();
    assert_eq!(quote.fee_bps, 30);
    assert_eq!(quote.volatility_bps, 0);
    assert_eq!(pool.get_amount_out(100_000, TOKEN_A, 0), Ok(quote.amount_out));
    assert_eq!(pool.get_dynamic_fee_config(), Ok(None));
}

#[test]
fn test_utilization_increases_effective_fee() {
    let pool = setup_dynamic();
    let small = pool.quote_dynamic_swap(10_000, TOKEN_A, 0).unwrap();
    let large = pool.quote_dynamic_swap(100_000, TOKEN_A, 0).unwrap();
    assert!(large.utilization_bps > small.utilization_bps);
    assert!(large.fee_bps > small.fee_bps);
    assert_eq!(large.fee_bps, 120);
    assert_eq!(pool.get_amount_out(100_000, TOKEN_A, 0), Ok(large.amount_out));
}

#[test]
fn test_recent_price_volatility_increases_and_caps_fee() {
    let mut pool = setup_dynamic();
    let first_quote = pool.quote_dynamic_swap(100_000, TOKEN_A, 0).unwrap();
    pool.swap(P2, TOKEN_A, 100_000, 1, 0).unwrap();
    let state = pool.get_volatility_state().unwrap();
    assert!(state.ema_volatility_bps > 0);
    let second_quote = pool.quote_dynamic_swap(100_000, TOKEN_A, 0).unwrap();
    assert!(second_quote.fee_bps > first_quote.fee_bps);
    assert_eq!(second_quote.fee_bps, dynamic_config().max_fee_bps);
}

#[test]
fn test_volatility_decays_after_inactivity_window() {
    let mut pool = setup_dynamic();
    pool.swap(P2, TOKEN_A, 100_000, 1, 0).unwrap();
    let volatile_quote = pool.quote_dynamic_swap(10_000, TOKEN_A, 0).unwrap();
    assert!(volatile_quote.volatility_bps > 0);
    let decayed_quote = pool.quote_dynamic_swap(10_000, TOKEN_A, 3_600).unwrap();
    assert_eq!(decayed_quote.volatility_bps, 0);
    assert!(decayed_quote.fee_bps < volatile_quote.fee_bps);
}

#[test]
fn test_dynamic_price_impact_curve_rejects_oversized_swap() {
    let mut pool = setup_dynamic();
    let quote = pool.quote_dynamic_swap(500_000, TOKEN_A, 0).unwrap();
    assert!(quote.price_impact_bps > dynamic_config().max_price_impact_bps);
    assert_eq!(pool.swap(P2, TOKEN_A, 500_000, 1, 0), Err(Error::PriceImpactExceeded));
    assert_eq!(pool.get_reserves(), Ok((1_000_000, 1_000_000)));
}

#[test]
fn test_swap_with_limits_guards_fee_and_deadline() {
    let mut pool = setup_dynamic();
    let now = 100;
    let quote = pool.quote_dynamic_swap(100_000, TOKEN_A, now).unwrap();
    assert_eq!(
        pool.swap_with_limits(P2, TOKEN_A, 100_000, 1, quote.fee_bps - 1, now + 60, now),
        Err(Error::FeeLimitExceeded)
    );
    assert_eq!(
        pool.swap_with_limits(P2, TOKEN_A, 100_000, 1, quote.fee_bps, now - 1, now),
        Err(Error::DeadlineExpired)
    );
    assert_eq!(
        pool.swap_with_limits(P2, TOKEN_A, 100_000, quote.amount_out, quote.fee_bps, now + 60, now),
        Ok(quote.amount_out)
    );
}

#[test]
fn test_actual_dynamic_fee_is_recorded_in_metrics() {
    let mut pool = setup_dynamic();
    let quote = pool.quote_dynamic_swap(100_000, TOKEN_A, 0).unwrap();
    pool.swap(P2, TOKEN_A, 100_000, 1, 0).unwrap();
    let (volume, fees) = pool.get_pool_metrics().unwrap();
    assert_eq!(volume, 100_000);
    assert_eq!(fees, 100_000 * quote.fee_bps / 10_000);
}

#[test]
fn test_dynamic_configuration_requires_admin_and_valid_bounds() {
    let mut pool = setup();
    assert_eq!(pool.configure_dynamic_fees(99, dynamic_config(), 0), Err(Error::Unauthorized));
    let mut invalid = dynamic_config();
    invalid.min_fee_bps = invalid.max_fee_bps + 1;
    assert_eq!(pool.configure_dynamic_fees(ADMIN, invalid, 0), Err(Error::InvalidDynamicFeeConfig));
}

#[test]
fn test_disabling_dynamic_fees_restores_base_fee() {
    let mut pool = setup_dynamic();
    assert!(pool.quote_dynamic_swap(100_000, TOKEN_A, 0).unwrap().fee_bps > 30);
    pool.disable_dynamic_fees(ADMIN).unwrap();
    assert_eq!(pool.quote_dynamic_swap(100_000, TOKEN_A, 0).unwrap().fee_bps, 30);
    assert_eq!(pool.get_dynamic_fee_config(), Ok(None));
}

#[test]
fn test_initialize_rejects_invalid_fee_and_identical_tokens() {
    let mut pool = AmmPool::new();
    assert_eq!(pool.initialize(ADMIN, TOKEN_A, TOKEN_B, Some(10_000), 0), Err(Error::InvalidFee));
    assert_eq!(pool.initialize(ADMIN, TOKEN_A, TOKEN_A, None, 0), Err(Error::InvalidToken));
}

#[test]
fn isqrt_is_the_floor_square_root() {
    assert_eq!(isqrt(10_000, 10_000), Ok(10_000));
    assert_eq!(isqrt(3, 5), Ok(3));
    assert_eq!(isqrt(0, 5), Ok(0));
    assert_eq!(isqrt(i128::MAX, 2), Err(Error::Overflow));
}

#[test]
fn swaps_never_lower_the_reserve_product() {
    let mut pool = setup();
    pool.add_liquidity(P1, 123_457, 98_765, 1).unwrap();
    for i in 1..20 {
        let (ra, rb) = pool.get_reserves().unwrap();
        let token = if i % 2 == 0 { TOKEN_A } else { TOKEN_B };
        pool.swap(P2, token, 1_000 * i, 1, i as u64).unwrap();
        let (na, nb) = pool.get_reserves().unwrap();
        assert!(na * nb >= ra * rb);
    }
}

#[test]
fn refused_swap_leaves_pool_unchanged() {
    let mut pool = setup();
    pool.add_liquidity(P1, 100_000, 100_000, 1).unwrap();
    assert_eq!(pool.swap(P2, TOKEN_A, 0, 0, 5), Err(Error::ZeroAmount));
    assert_eq!(pool.get_reserves(), Ok((100_000, 100_000)));
    assert_eq!(pool.get_twap(), Ok((0, 0, 0)));
}

#[test]
fn amm_amount_out_formula_and_empty_reserve() {
    assert_eq!(constant_product_amount_out(1_000, 100_000, 100_000, 30), Ok(987));
    assert_eq!(constant_product_amount_out(1_000, 0, 100_000, 30), Err(Error::InsufficientLiquidity));
    assert_eq!(constant_product_amount_out(1_000, 100_000, 0, 30), Err(Error::InsufficientLiquidity));
}

#[test]
fn amm_swap_settles_reserves_volume_and_fees() {
    let mut pool = setup();
    pool.add_liquidity(P1, 100_000, 100_000, 1).unwrap();
    let preview = pool.get_amount_out(1_000, TOKEN_A, 0).unwrap();
    assert_eq!(preview, 987);
    assert_eq!(pool.swap(P1, TOKEN_A, 1_000, 1, 0), Ok(987));
    assert_eq!(pool.get_reserves(), Ok((101_000, 100_000 - 987)));
    assert_eq!(pool.get_pool_metrics(), Ok((1_000, 3)));
}
