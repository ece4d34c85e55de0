use stellar_contracts::sports_betting::{checked_mul_div, Error, MarketStatus, SportsBetting};

const ADMIN: u64 = 1;
const FEE_RECIPIENT: u64 = 2;
const TOKEN: u64 = 3;
const O1: u64 = 10;
const O2: u64 = 11;
const O3: u64 = 12;
const ALICE: u64 = 20;
const BOB: u64 = 21;
const CAROL: u64 = 22;

fn setup() -> (SportsBetting, u64) {
    let mut c = SportsBetting::new();
    c.initialize(ADMIN, FEE_RECIPIENT, 200).unwrap();
    c.add_oracle(O1).unwrap();
    c.add_oracle(O2).unwrap();
    c.add_oracle(O3).unwrap();
    let id = c.create_market(b"final-2026".to_vec(), TOKEN, 3, 100, 200, 2, 0).unwrap();
    (c, id)
}

#[test]
fn winners_share_the_pool_less_the_fee() {
    let (mut c, id) = setup();
    c.place_bet(ALICE, id, 0, 300, 10).unwrap();
    c.place_bet(BOB, id, 0, 100, 20).unwrap();
    c.place_bet(CAROL, id, 1, 600, 30).unwrap();
    assert_eq!(c.get_bet(id, ALICE, 0), 300);
    let m = c.get_market(id).unwrap();
    assert_eq!(m.total_pool, 1_000);
    assert_eq!(m.pools, vec![400, 600, 0]);
    // 1_000 less 2% over the 400 staked on outcome 0.
    assert_eq!(c.odds(id, 0), Ok(24_500));
    assert_eq!(c.odds(id, 2), Ok(0));

    assert_eq!(c.submit_result(O1, id, 0, 150), Ok(false));
    assert_eq!(c.submit_result(O1, id, 0, 150), Err(Error::AlreadyVoted));
    assert_eq!(c.submit_result(O2, id, 0, 150), Ok(true));
    let m = c.get_market(id).unwrap();
    assert_eq!(m.status, MarketStatus::Resolved);
    assert_eq!(m.winning_outcome, Some(0));
    assert_eq!(m.fee_amount, 20);

    assert_eq!(c.claim(ALICE, id, 0), Ok(735));
    assert_eq!(c.claim(BOB, id, 0), Ok(245));
    assert_eq!(c.claim(CAROL, id, 1), Ok(0));
    assert_eq!(c.claim(ALICE, id, 0), Err(Error::NothingToClaim));
    assert_eq!(c.claim_fee(id), Ok(20));
    assert_eq!(c.claim_fee(id), Err(Error::AlreadyClaimed));
}

#[test]
fn a_winner_without_stakes_cancels_and_refunds() {
    let (mut c, id) = setup();
    c.place_bet(ALICE, id, 0, 300, 10).unwrap();
    c.submit_result(O1, id, 2, 150).unwrap();
    assert_eq!(c.submit_result(O2, id, 2, 150), Ok(true));
    assert_eq!(c.get_market(id).unwrap().status, MarketStatus::Cancelled);
    assert_eq!(c.claim(ALICE, id, 0), Ok(300));
    assert_eq!(c.claim_fee(id), Err(Error::NotResolved));
}

#[test]
fn schedule_is_enforced() {
    let (mut c, id) = setup();
    assert_eq!(c.place_bet(ALICE, id, 0, 1, 100), Err(Error::BettingClosed));
    assert_eq!(c.submit_result(O1, id, 0, 99), Err(Error::MarketNotClosed));
    assert_eq!(c.submit_result(O1, id, 0, 201), Err(Error::SettlementExpired));
    assert_eq!(c.cancel_expired(id, 200), Err(Error::CancellationUnavailable));
    c.cancel_expired(id, 201).unwrap();
    assert_eq!(c.cancel_expired(id, 202), Err(Error::MarketFinalized));
    assert_eq!(c.claim(ALICE, id, 0), Err(Error::NothingToClaim));
}

#[test]
fn bet_and_vote_validation() {
    let (mut c, id) = setup();
    assert_eq!(c.place_bet(ALICE, id, 3, 1, 10), Err(Error::InvalidOutcome));
    assert_eq!(c.place_bet(ALICE, id, 0, 0, 10), Err(Error::InvalidAmount));
    assert_eq!(c.place_bet(ALICE, 9, 0, 1, 10), Err(Error::MarketNotFound));
    assert_eq!(c.submit_result(ALICE, id, 0, 150), Err(Error::Unauthorized));
    assert_eq!(c.submit_result(O1, id, 3, 150), Err(Error::InvalidOutcome));
    assert_eq!(c.claim(ALICE, id, 0), Err(Error::NotResolved));
    c.set_paused(true).unwrap();
    assert_eq!(c.place_bet(ALICE, id, 0, 1, 10), Err(Error::Paused));
}

#[test]
fn market_and_oracle_administration() {
    let mut c = SportsBetting::new();
    assert_eq!(c.initialize(ADMIN, FEE_RECIPIENT, 1_001), Err(Error::InvalidFee));
    c.initialize(ADMIN, FEE_RECIPIENT, 1_000).unwrap();
    assert_eq!(c.create_market(b"e".to_vec(), TOKEN, 2, 10, 20, 1, 0), Err(Error::InvalidThreshold));
    c.add_oracle(O1).unwrap();
    assert_eq!(c.add_oracle(O1), Err(Error::OracleAlreadyExists));
    assert_eq!(c.create_market(Vec::new(), TOKEN, 2, 10, 20, 1, 0), Err(Error::InvalidEvent));
    assert_eq!(c.create_market(b"e".to_vec(), TOKEN, 9, 10, 20, 1, 0), Err(Error::InvalidOutcome));
    assert_eq!(c.create_market(b"e".to_vec(), TOKEN, 2, 10, 10, 1, 0), Err(Error::InvalidSchedule));
    assert_eq!(c.create_market(b"e".to_vec(), TOKEN, 2, 0, 10, 1, 0), Err(Error::InvalidSchedule));
    assert_eq!(c.create_market(b"e".to_vec(), TOKEN, 2, 10, 20, 1, 0), Ok(0));
    assert_eq!(c.create_market(b"e".to_vec(), TOKEN, 8, 10, 20, 1, 0), Ok(1));
    c.remove_oracle(O1).unwrap();
    assert_eq!(c.remove_oracle(O1), Err(Error::OracleNotFound));
    for i in 0..32 {
        c.add_oracle(100 + i).unwrap();
    }
    assert_eq!(c.add_oracle(200), Err(Error::TooManyOracles));
}

#[test]
fn checked_mul_div_fails_on_overflow_and_zero() {
    assert_eq!(checked_mul_div(1_000, 200, 10_000), Ok(20));
    assert_eq!(checked_mul_div(-7, 3, 2), Ok(-10));
    assert_eq!(checked_mul_div(i128::MAX, 2, 4), Err(Error::ArithmeticError));
    assert_eq!(checked_mul_div(5, 5, 0), Err(Error::ArithmeticError));
}
