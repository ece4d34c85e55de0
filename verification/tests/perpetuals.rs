use stellar_contracts::perpetuals::{
    mul_div, premium_bps, reserve_price, Error, Perpetuals, FUNDING_INTERVAL,
    MAX_FUNDING_RATE_BPS, MAX_INTERVALS_PER_CALL, PRICE_SCALE,
};

const ADMIN: u64 = 1;
const ORACLE: u64 = 2;
const STRANGER: u64 = 3;
const START: u64 = 0;

fn setup() -> Perpetuals {
    let mut p = Perpetuals::new();
    p.initialize(ADMIN, ORACLE, 1_000, 1_000, PRICE_SCALE, START).unwrap();
    p
}

#[test]
fn derives_mark_price_from_vamm_reserves() {
    let mut s = setup();
    assert_eq!(s.update_vamm_reserves(ADMIN, 1_000, 1_100), Ok(11_000_000));
    let market = s.get_market().unwrap();
    assert_eq!(market.mark_price, 11_000_000);
    assert_eq!(market.index_price, PRICE_SCALE);
}

#[test]
fn funding_settles_only_on_eight_hour_boundary() {
    let mut s = setup();
    s.update_vamm_reserves(ADMIN, 1_000, 1_005).unwrap();
    assert_eq!(s.preview_funding_rate(), Ok(50));
    assert_eq!(s.settle_funding(START), Err(Error::FundingTooEarly));

    let result = s.settle_funding(START + FUNDING_INTERVAL).unwrap();
    assert_eq!(result.rate_bps, 50);
    assert_eq!(result.intervals_settled, 1);
    assert_eq!(result.cumulative_funding_bps, 50);
}

#[test]
fn funding_is_signed_and_capped() {
    let mut s = setup();
    s.update_vamm_reserves(ADMIN, 1_000, 2_000).unwrap();
    assert_eq!(s.preview_funding_rate(), Ok(MAX_FUNDING_RATE_BPS));

    s.update_index_price(ORACLE, 20_000_000).unwrap();
    s.update_vamm_reserves(ADMIN, 1_000, 1_000).unwrap();
    assert_eq!(s.preview_funding_rate(), Ok(-MAX_FUNDING_RATE_BPS));
}

#[test]
fn catch_up_is_bounded_and_preserves_interval_alignment() {
    let mut s = setup();
    s.update_vamm_reserves(ADMIN, 1_000, 1_001).unwrap();
    let now = START + FUNDING_INTERVAL * 25;

    let first = s.settle_funding(now).unwrap();
    assert_eq!(first.intervals_settled, MAX_INTERVALS_PER_CALL);
    let second = s.settle_funding(now).unwrap();
    assert_eq!(second.intervals_settled, 4);
    let state = s.get_funding().unwrap();
    assert_eq!(state.cumulative_funding_bps, 250);
    assert_eq!(s.settle_funding(now), Err(Error::FundingTooEarly));
}

#[test]
fn validates_roles_prices_and_reserves() {
    let mut s = setup();
    assert_eq!(s.update_vamm_reserves(STRANGER, 1_000, 1_000), Err(Error::Unauthorized));
    assert_eq!(s.update_index_price(ORACLE, 0), Err(Error::InvalidPrice));
    assert_eq!(s.update_vamm_reserves(ADMIN, 0, 1_000), Err(Error::InvalidReserve));
}

#[test]
fn perpetuals_initialize_checks() {
    let mut s = setup();
    assert_eq!(s.initialize(ADMIN, ORACLE, 1_000, 1_000, PRICE_SCALE, START), Err(Error::AlreadyInitialized));
    let mut fresh = Perpetuals::new();
    assert_eq!(fresh.get_market(), Err(Error::NotInitialized));
    assert_eq!(fresh.settle_funding(START), Err(Error::NotInitialized));
    assert_eq!(fresh.initialize(ADMIN, ORACLE, 1_000, 0, PRICE_SCALE, START), Err(Error::InvalidReserve));
    assert_eq!(fresh.initialize(ADMIN, ORACLE, 1_000, 1_000, 0, START), Err(Error::InvalidPrice));
    assert_eq!(fresh.initialize(ADMIN, ORACLE, 1_000, 1_000, PRICE_SCALE, u64::MAX), Err(Error::ArithmeticOverflow));
    assert_eq!(fresh.initialize(ADMIN, ORACLE, 1_000, 1_000, PRICE_SCALE, 5), Ok(()));
    assert_eq!(fresh.get_admin(), Ok(ADMIN));
    assert_eq!(fresh.get_oracle(), Ok(ORACLE));
    let f = fresh.get_funding().unwrap();
    assert_eq!(f.last_funding_timestamp, 5);
    assert_eq!(f.next_funding_timestamp, 5 + FUNDING_INTERVAL);
}

#[test]
fn perpetuals_index_updates_only_from_oracle() {
    let mut s = setup();
    assert_eq!(s.update_index_price(ADMIN, 5), Err(Error::Unauthorized));
    assert_eq!(s.update_index_price(ORACLE, 11_000_000), Ok(()));
    // mark 10_000_000 below index 11_000_000: -909.09 bps, capped.
    assert_eq!(s.preview_funding_rate(), Ok(-MAX_FUNDING_RATE_BPS));
}

#[test]
fn perpetuals_settlement_keeps_alignment_after_late_call() {
    let mut s = setup();
    s.update_vamm_reserves(ADMIN, 1_000, 1_002).unwrap();
    // A call 2.5 intervals late settles two and keeps the boundary grid.
    let now = START + FUNDING_INTERVAL * 2 + FUNDING_INTERVAL / 2;
    let settled = s.settle_funding(now).unwrap();
    assert_eq!(settled.intervals_settled, 2);
    assert_eq!(settled.rate_bps, 20);
    assert_eq!(settled.cumulative_funding_bps, 40);
    let f = s.get_funding().unwrap();
    assert_eq!(f.last_funding_timestamp, START + FUNDING_INTERVAL * 2);
    assert_eq!(f.next_funding_timestamp, START + FUNDING_INTERVAL * 3);
    assert_eq!(f.current_rate_bps, 20);
}

#[test]
fn perpetuals_helpers() {
    assert_eq!(reserve_price(3, 1), Ok(3_333_333));
    assert_eq!(reserve_price(0, 1), Err(Error::ArithmeticOverflow));
    assert_eq!(premium_bps(10_050_000, 10_000_000), Ok(50));
    assert_eq!(premium_bps(9_999_000, 10_000_000), Ok(-1));
    assert_eq!(premium_bps(0, 10_000_000), Err(Error::InvalidPrice));
    assert_eq!(premium_bps(i128::MAX, 1), Err(Error::ArithmeticOverflow));
    assert_eq!(mul_div(i128::MAX, 2, 2), Ok(i128::MAX));
}
