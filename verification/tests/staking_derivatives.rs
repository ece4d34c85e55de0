use stellar_contracts::staking_derivatives::{mul_div, Error, StakingDerivatives, RATE_SCALE};

const ADMIN: u64 = 1;
const ALICE: u64 = 2;
const BOB: u64 = 3;
const TOKEN: u64 = 90;

fn setup() -> StakingDerivatives {
    let mut vault = StakingDerivatives::new();
    vault.initialize(ADMIN, TOKEN, 100).unwrap();
    vault
}

#[test]
fn rewards_accrue_into_exchange_rate_and_later_deposits_get_fewer_shares() {
    let mut s = setup();
    assert_eq!(s.deposit(ALICE, 1_000), Ok(1_000));
    assert_eq!(s.accrue_rewards(ADMIN, 200), Ok(12_000_000));
    assert_eq!(s.exchange_rate(), Ok(12_000_000));
    assert_eq!(s.convert_to_assets(500), Ok(600));
    assert_eq!(s.deposit(BOB, 600), Ok(500));
    assert_eq!(s.totals(), Ok((1_800, 1_500, 0, 200)));
}

#[test]
fn unbonding_reserves_value_and_claims_only_after_maturity() {
    let mut s = setup();
    // Alice's wallet of underlying, moved by the host as the calls direct.
    let mut alice_wallet: i128 = 10_000;
    let deposited: i128 = 1_000;
    s.deposit(ALICE, deposited).unwrap();
    alice_wallet -= deposited;
    s.accrue_rewards(ADMIN, 200).unwrap();

    let now: u64 = 0;
    let id = s.request_unstake(ALICE, 500, now).unwrap();
    let request = s.get_request(id).unwrap();
    assert_eq!(request.amount, 600);
    assert_eq!(s.totals(), Ok((600, 500, 600, 200)));
    assert_eq!(s.claim_unstake(ALICE, id, now), Err(Error::RequestNotReady));

    let later = now + 100;
    let paid = s.claim_unstake(ALICE, id, later).unwrap();
    assert_eq!(paid, 600);
    alice_wallet += paid;
    assert_eq!(alice_wallet, 9_600);
    assert_eq!(s.totals(), Ok((600, 500, 0, 200)));
    assert_eq!(s.claim_unstake(ALICE, id, later), Err(Error::AlreadyClaimed));
}

#[test]
fn full_exit_does_not_leave_rounding_dust() {
    let mut s = setup();
    s.deposit(ALICE, 3).unwrap();
    s.accrue_rewards(ADMIN, 1).unwrap();
    let id = s.request_unstake(ALICE, 3, 0).unwrap();
    assert_eq!(s.get_request(id).unwrap().amount, 4);
    assert_eq!(s.totals(), Ok((0, 0, 4, 1)));
    assert_eq!(s.exchange_rate(), Ok(RATE_SCALE));
}

#[test]
fn queue_entries_are_owned_and_independent() {
    let mut s = setup();
    s.deposit(ALICE, 500).unwrap();
    s.deposit(BOB, 500).unwrap();
    let first = s.request_unstake(ALICE, 100, 0).unwrap();
    let second = s.request_unstake(BOB, 200, 0).unwrap();
    assert_eq!(first, 0);
    assert_eq!(second, 1);
    assert_eq!(s.claim_unstake(BOB, first, 0), Err(Error::RequestNotFound));
}

#[test]
fn validates_initialization_amounts_balances_and_empty_rewards() {
    let mut s = setup();
    assert_eq!(s.deposit(ALICE, 0), Err(Error::InvalidAmount));
    assert_eq!(s.accrue_rewards(ADMIN, 10), Err(Error::NoActiveStake));
    s.deposit(ALICE, 100).unwrap();
    assert_eq!(s.request_unstake(ALICE, 101, 0), Err(Error::InsufficientShares));

    let mut other = StakingDerivatives::new();
    assert_eq!(other.initialize(ADMIN, TOKEN, 0), Err(Error::InvalidUnbondingPeriod));
}

#[test]
fn staking_initialize_twice_fails() {
    let mut s = setup();
    assert_eq!(s.initialize(ADMIN, TOKEN, 100), Err(Error::AlreadyInitialized));
    assert_eq!(s.get_unbonding_period(), Ok(100));
}

#[test]
fn staking_calls_before_initialize_fail() {
    let mut s = StakingDerivatives::new();
    assert_eq!(s.deposit(ALICE, 10), Err(Error::NotInitialized));
    assert_eq!(s.exchange_rate(), Err(Error::NotInitialized));
    assert_eq!(s.totals(), Err(Error::NotInitialized));
    assert_eq!(s.share_balance(ALICE), Err(Error::NotInitialized));
    assert_eq!(s.accrue_rewards(ADMIN, 10), Err(Error::NotInitialized));
}

#[test]
fn staking_rewards_only_from_admin() {
    let mut s = setup();
    s.deposit(ALICE, 100).unwrap();
    assert_eq!(s.accrue_rewards(BOB, 10), Err(Error::Unauthorized));
    assert_eq!(s.accrue_rewards(ADMIN, 0), Err(Error::InvalidAmount));
}

#[test]
fn staking_round_trip_rounds_down() {
    let mut s = setup();
    s.deposit(ALICE, 3).unwrap();
    s.accrue_rewards(ADMIN, 1).unwrap();
    // rate 4/3: 5 assets buy 3 shares, worth 4 assets.
    assert_eq!(s.convert_to_shares(5), Ok(3));
    assert_eq!(s.convert_to_assets(3), Ok(4));
    assert_eq!(s.convert_to_shares(-1), Err(Error::InvalidAmount));
    assert_eq!(s.convert_to_assets(-1), Err(Error::InvalidAmount));
}

#[test]
fn staking_deposit_that_buys_no_share_is_refused() {
    let mut s = setup();
    s.deposit(ALICE, 3).unwrap();
    s.accrue_rewards(ADMIN, 3).unwrap();
    // rate 2: one unit of underlying buys half a share, rounded to zero.
    assert_eq!(s.deposit(BOB, 1), Err(Error::ZeroShares));
    assert_eq!(s.share_balance(BOB), Ok(0));
    assert_eq!(s.share_balance(ALICE), Ok(3));
}

#[test]
fn staking_unknown_request_and_unlock_overflow() {
    let mut s = setup();
    assert_eq!(s.get_request(7), Err(Error::RequestNotFound));
    assert_eq!(s.claim_unstake(ALICE, 7, 0), Err(Error::RequestNotFound));
    s.deposit(ALICE, 10).unwrap();
    assert_eq!(s.request_unstake(ALICE, 5, u64::MAX), Err(Error::ArithmeticOverflow));
    assert_eq!(s.request_unstake(ALICE, 0, 0), Err(Error::InvalidAmount));
}

#[test]
fn staking_mul_div_uses_a_wide_product() {
    let big: i128 = i128::MAX / 2;
    assert_eq!(mul_div(big, 4, 4), Ok(big));
    assert_eq!(mul_div(big, 5, 2), Err(Error::ArithmeticOverflow));
    assert_eq!(mul_div(7, 3, 2), Ok(10));
    assert_eq!(mul_div(-1, 3, 2), Err(Error::ArithmeticOverflow));
    assert_eq!(mul_div(1, 3, 0), Err(Error::ArithmeticOverflow));
    assert_eq!(mul_div(i128::MAX, i128::MAX, i128::MAX), Ok(i128::MAX));
}
