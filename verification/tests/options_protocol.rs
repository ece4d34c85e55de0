use stellar_contracts::options_protocol::math::{black_scholes, div, mul};
use stellar_contracts::options_protocol::{
    Error, GreeksInput, OptionKind, OptionStatus, OptionsProtocol,
};

const STRIKE: i128 = 100_000_000;
const PREMIUM: i128 = 5_000_000;
const AMOUNT: i128 = 1_000_000_000;
const ADMIN: u64 = 1;
const WRITER: u64 = 2;
const HOLDER: u64 = 3;
const ORACLE: u64 = 4;
const TOKEN: u64 = 5;
const XLM: u64 = 100;
const USDC: u64 = 101;

fn setup() -> OptionsProtocol {
    let mut c = OptionsProtocol::new();
    c.initialize(ADMIN).unwrap();
    c
}

fn future(now: u64) -> u64 {
    now + 86_400
}

fn write(c: &mut OptionsProtocol, underlying: u64, kind: OptionKind, expiry: u64, now: u64) -> u32 {
    c.write_option(WRITER, HOLDER, underlying, STRIKE, PREMIUM, AMOUNT, expiry, kind, now).unwrap()
}

#[test]
fn test_test_initialize_sets_admin() {
    let c = setup();
    assert_eq!(c.get_admin(), Ok(ADMIN));
}

#[test]
fn test_test_initialize_twice_fails() {
    let mut c = setup();
    assert!(c.initialize(ADMIN).is_err());
}

#[test]
fn test_write_call_option() {
    let mut c = setup();
    let id = write(&mut c, XLM, OptionKind::Call, future(0), 0);
    assert_eq!(id, 1);
    assert_eq!(c.option_count(), 1);
}

#[test]
fn test_write_put_option() {
    let mut c = setup();
    let id = write(&mut c, XLM, OptionKind::Put, future(0), 0);
    assert_eq!(c.get_option(id).unwrap().kind, OptionKind::Put);
}

#[test]
fn test_write_zero_strike_fails() {
    let mut c = setup();
    assert!(c.write_option(WRITER, HOLDER, XLM, 0, PREMIUM, AMOUNT, future(0), OptionKind::Call, 0).is_err());
}

#[test]
fn test_write_zero_amount_fails() {
    let mut c = setup();
    assert!(c.write_option(WRITER, HOLDER, XLM, STRIKE, PREMIUM, 0, future(0), OptionKind::Call, 0).is_err());
}

#[test]
fn test_write_past_expiry_fails() {
    let mut c = setup();
    assert!(c.write_option(WRITER, HOLDER, XLM, STRIKE, PREMIUM, AMOUNT, 0, OptionKind::Call, 0).is_err());
}

#[test]
fn test_write_writer_equals_holder_fails() {
    let mut c = setup();
    assert!(c.write_option(WRITER, WRITER, XLM, STRIKE, PREMIUM, AMOUNT, future(0), OptionKind::Call, 0).is_err());
}

#[test]
fn test_exercise_success() {
    let mut c = setup();
    let id = write(&mut c, XLM, OptionKind::Call, future(0), 0);
    let settlement = c.exercise(HOLDER, id, 0).unwrap();
    assert_eq!(settlement, STRIKE);
    assert_eq!(c.get_option(id).unwrap().status, OptionStatus::Exercised);
}

#[test]
fn test_exercise_by_non_holder_fails() {
    let mut c = setup();
    let id = write(&mut c, XLM, OptionKind::Call, future(0), 0);
    assert!(c.exercise(WRITER, id, 0).is_err());
}

#[test]
fn test_exercise_twice_fails() {
    let mut c = setup();
    let id = write(&mut c, XLM, OptionKind::Call, future(0), 0);
    c.exercise(HOLDER, id, 0).unwrap();
    assert!(c.exercise(HOLDER, id, 0).is_err());
}

#[test]
fn test_exercise_expired_fails() {
    let mut c = setup();
    let expiry = 1;
    let id = write(&mut c, XLM, OptionKind::Call, expiry, 0);
    assert!(c.exercise(HOLDER, id, expiry + 1).is_err());
}

#[test]
fn test_cancel_by_writer() {
    let mut c = setup();
    let id = write(&mut c, XLM, OptionKind::Call, future(0), 0);
    c.cancel_option(WRITER, id).unwrap();
    assert_eq!(c.get_option(id).unwrap().status, OptionStatus::Cancelled);
}

#[test]
fn test_cancel_by_non_writer_fails() {
    let mut c = setup();
    let id = write(&mut c, XLM, OptionKind::Call, future(0), 0);
    assert!(c.cancel_option(HOLDER, id).is_err());
}

#[test]
fn test_test_cancel_twice_fails() {
    let mut c = setup();
    let id = write(&mut c, XLM, OptionKind::Call, future(0), 0);
    c.cancel_option(WRITER, id).unwrap();
    assert!(c.cancel_option(WRITER, id).is_err());
}

#[test]
fn test_expire_after_expiry() {
    let mut c = setup();
    let expiry = 1;
    let id = write(&mut c, XLM, OptionKind::Call, expiry, 0);
    c.expire_option(id, expiry + 1).unwrap();
    assert_eq!(c.get_option(id).unwrap().status, OptionStatus::Expired);
}

#[test]
fn test_expire_before_expiry_fails() {
    let mut c = setup();
    let id = write(&mut c, XLM, OptionKind::Call, future(0), 0);
    assert!(c.expire_option(id, 0).is_err());
}

#[test]
fn test_pause_blocks_write() {
    let mut c = setup();
    c.set_paused(ADMIN, true).unwrap();
    assert!(c.write_option(WRITER, HOLDER, XLM, STRIKE, PREMIUM, AMOUNT, future(0), OptionKind::Call, 0).is_err());
}

#[test]
fn test_unpause_allows_write() {
    let mut c = setup();
    c.set_paused(ADMIN, true).unwrap();
    c.set_paused(ADMIN, false).unwrap();
    let id = write(&mut c, XLM, OptionKind::Call, future(0), 0);
    assert_eq!(id, 1);
}

#[test]
fn test_non_admin_cannot_pause() {
    let mut c = setup();
    assert!(c.set_paused(WRITER, true).is_err());
}

#[test]
fn test_get_option_not_found() {
    let c = setup();
    assert!(c.get_option(999).is_err());
}

#[test]
fn test_option_fields_stored_correctly() {
    let mut c = setup();
    let expiry = future(0);
    let id = write(&mut c, USDC, OptionKind::Put, expiry, 0);
    let opt = c.get_option(id).unwrap();
    assert_eq!(opt.writer, WRITER);
    assert_eq!(opt.holder, HOLDER);
    assert_eq!(opt.strike_price, STRIKE);
    assert_eq!(opt.premium, PREMIUM);
    assert_eq!(opt.amount, AMOUNT);
    assert_eq!(opt.expiry, expiry);
    assert_eq!(opt.kind, OptionKind::Put);
    assert_eq!(opt.status, OptionStatus::Active);
}

#[test]
fn test_write_negative_premium_fails() {
    let mut c = setup();
    assert!(c.write_option(WRITER, HOLDER, XLM, STRIKE, -1, AMOUNT, future(0), OptionKind::Call, 0).is_err());
}

#[test]
fn test_pause_blocks_exercise() {
    let mut c = setup();
    let id = write(&mut c, XLM, OptionKind::Call, future(0), 0);
    c.set_paused(ADMIN, true).unwrap();
    assert!(c.exercise(HOLDER, id, 0).is_err());
}

#[test]
fn test_exercise_cancelled_option_fails() {
    let mut c = setup();
    let id = write(&mut c, XLM, OptionKind::Call, future(0), 0);
    c.cancel_option(WRITER, id).unwrap();
    assert!(c.exercise(HOLDER, id, 0).is_err());
}

#[test]
fn test_expire_already_exercised_fails() {
    let mut c = setup();
    let expiry = 1;
    let id = write(&mut c, XLM, OptionKind::Call, expiry, 0);
    c.exercise(HOLDER, id, 0).unwrap();
    assert!(c.expire_option(id, expiry + 1).is_err());
}

#[test]
fn test_expire_already_cancelled_fails() {
    let mut c = setup();
    let expiry = 1;
    let id = write(&mut c, XLM, OptionKind::Call, expiry, 0);
    c.cancel_option(WRITER, id).unwrap();
    assert!(c.expire_option(id, expiry + 1).is_err());
}

#[test]
fn test_multiple_options_sequential_ids() {
    let mut c = setup();
    let id1 = write(&mut c, XLM, OptionKind::Call, future(0), 0);
    let id2 = write(&mut c, USDC, OptionKind::Put, future(0), 0);
    assert_eq!(id1, 1);
    assert_eq!(id2, 2);
    assert_eq!(c.option_count(), 2);
}

#[test]
fn test_is_paused_getter() {
    let mut c = setup();
    assert!(!c.is_paused());
    c.set_paused(ADMIN, true).unwrap();
    assert!(c.is_paused());
}

fn assert_approx(actual: i128, expected: i128, tolerance: i128) {
    let difference = if actual >= expected { actual - expected } else { expected - actual };
    assert!(difference <= tolerance, "actual {actual}, expected {expected}, tolerance {tolerance}");
}

fn reference_input(kind: OptionKind) -> GreeksInput {
    GreeksInput {
        spot_price: 1_000_000_000,
        strike_price: 1_000_000_000,
        volatility: 2_000_000,
        risk_free_rate: 500_000,
        time_to_expiry: 31_557_600,
        kind,
    }
}

#[test]
fn test_black_scholes_call_reference_values() {
    let c = setup();
    let result = c.calculate_greeks(reference_input(OptionKind::Call)).unwrap();
    assert_approx(result.price, 104_506_000, 100_000);
    assert_approx(result.delta, 6_368_000, 5_000);
    assert_approx(result.gamma, 187_600, 2_000);
    assert_approx(result.vega, 375_240_000, 300_000);
    assert_approx(result.theta, -64_140_000, 300_000);
    assert_approx(result.rho, 532_320_000, 500_000);
}

#[test]
fn test_black_scholes_put_call_parity_and_delta() {
    let c = setup();
    let call = c.calculate_greeks(reference_input(OptionKind::Call)).unwrap();
    let put = c.calculate_greeks(reference_input(OptionKind::Put)).unwrap();
    assert_approx(put.price, 55_735_000, 100_000);
    assert_eq!(call.delta - put.delta, 10_000_000);
    assert_eq!(call.gamma, put.gamma);
    assert_eq!(call.vega, put.vega);
    assert!(put.rho < 0);
}

#[test]
fn test_black_scholes_rejects_invalid_inputs() {
    let c = setup();
    let mut input = reference_input(OptionKind::Call);
    input.volatility = 0;
    assert_eq!(c.calculate_greeks(input), Err(Error::InvalidVolatility));
}

/// A margin pool with a configured token and oracle, plus a model of the
/// settlement token balances the host moves on each successful call.
struct MarginSetup {
    c: OptionsProtocol,
    writer_tokens: i128,
    holder_tokens: i128,
    now: u64,
}

fn setup_margin() -> MarginSetup {
    let mut c = setup();
    c.configure_margin_pool(ADMIN, TOKEN, ORACLE, 1_000, 600).unwrap();
    c.update_price(ORACLE, XLM, 1_000_000_000, 0).unwrap();
    MarginSetup { c, writer_tokens: 2_000_000_000, holder_tokens: 1_000_000_000, now: 0 }
}

fn deposit(s: &mut MarginSetup, amount: i128) {
    s.c.deposit_margin(WRITER, amount).unwrap();
    s.writer_tokens -= amount;
}

fn write_collateralized(s: &mut MarginSetup, kind: OptionKind) -> Result<u32, Error> {
    let premium = 50_000_000;
    let id = s.c.write_collateralized_option(
        WRITER, HOLDER, XLM, 1_000_000_000, premium, 10_000_000, s.now + 3_600, kind, 1_000_000_000, s.now,
    )?;
    s.holder_tokens -= premium;
    s.writer_tokens += premium;
    Ok(id)
}

fn write_margin_call(s: &mut MarginSetup, amount: i128) -> u32 {
    deposit(s, amount);
    write_collateralized(s, OptionKind::Call).unwrap()
}

#[test]
fn test_margin_deposit_and_available_withdrawal() {
    let mut s = setup_margin();
    deposit(&mut s, 500_000_000);
    assert_eq!(s.c.get_margin_account(WRITER).balance, 500_000_000);
    s.c.withdraw_margin(WRITER, 200_000_000).unwrap();
    s.writer_tokens += 200_000_000;
    assert_eq!(s.c.get_margin_account(WRITER).balance, 300_000_000);
    assert_eq!(s.writer_tokens, 1_700_000_000);
}

#[test]
fn test_collateralized_write_locks_margin_and_blocks_legacy_exercise() {
    let mut s = setup_margin();
    let id = write_margin_call(&mut s, 600_000_000);
    let account = s.c.get_margin_account(WRITER);
    assert_eq!(account.balance, 600_000_000);
    assert_eq!(account.locked, 100_000_000);
    assert_eq!(s.c.get_margin_position(id).unwrap().max_payout, 1_000_000_000);
    assert_eq!(s.holder_tokens, 950_000_000);
    assert_eq!(s.writer_tokens, 1_450_000_000);
    assert_eq!(s.c.exercise(HOLDER, id, s.now), Err(Error::EuropeanOnly));
    assert_eq!(s.c.withdraw_margin(WRITER, 550_000_000), Err(Error::InsufficientMargin));
}

#[test]
fn test_margin_call_trigger_and_cure() {
    let mut s = setup_margin();
    let id = write_margin_call(&mut s, 600_000_000);
    s.c.update_price(ORACLE, XLM, 1_500_000_000, s.now).unwrap();
    assert!(!s.c.check_margin(id, s.now).unwrap());
    assert_eq!(s.c.get_option(id).unwrap().status, OptionStatus::MarginCalled);
    s.writer_tokens += 100_000_000;
    deposit(&mut s, 100_000_000);
    s.c.cure_margin_call(WRITER, id, s.now).unwrap();
    assert_eq!(s.c.get_option(id).unwrap().status, OptionStatus::Active);
    assert_eq!(s.c.get_margin_position(id).unwrap().locked, 650_000_000);
}

#[test]
fn test_cash_settlement_transfers_intrinsic_value_and_releases_margin() {
    let mut s = setup_margin();
    let id = write_margin_call(&mut s, 1_000_000_000);
    let expiry = s.c.get_option(id).unwrap().expiry;
    s.now = expiry;
    s.c.update_price(ORACLE, XLM, 1_500_000_000, s.now).unwrap();
    s.c.check_margin(id, s.now).unwrap();
    let holder_balance = s.holder_tokens;
    let payout = s.c.settle_option(id, s.now).unwrap();
    s.holder_tokens += payout;
    assert_eq!(payout, 500_000_000);
    assert_eq!(s.holder_tokens, holder_balance + payout);
    assert_eq!(s.c.get_option(id).unwrap().status, OptionStatus::Exercised);
    let account = s.c.get_margin_account(WRITER);
    assert_eq!(account.balance, 500_000_000);
    assert_eq!(account.locked, 0);
    assert_eq!(s.c.get_margin_position(id), Err(Error::PositionNotCollateralized));
}

#[test]
fn test_out_of_money_settlement_and_cancel_release_all_margin() {
    let mut s = setup_margin();
    let first = write_margin_call(&mut s, 600_000_000);
    assert_eq!(s.c.cancel_option(WRITER, first), Err(Error::EuropeanOnly));
    s.c.cancel_collateralized_option(WRITER, HOLDER, first, s.now).unwrap();
    assert_eq!(s.c.get_margin_account(WRITER).locked, 0);

    let second = write_collateralized(&mut s, OptionKind::Put).unwrap();
    let expiry = s.c.get_option(second).unwrap().expiry;
    s.now = expiry;
    s.c.update_price(ORACLE, XLM, 1_100_000_000, s.now).unwrap();
    assert_eq!(s.c.settle_option(second, s.now), Ok(0));
    assert_eq!(s.c.get_option(second).unwrap().status, OptionStatus::Expired);
    assert_eq!(s.c.get_margin_account(WRITER).locked, 0);
}

#[test]
fn test_stale_and_unauthorized_oracle_prices_are_rejected() {
    let mut s = setup_margin();
    let impostor = 99;
    assert_eq!(s.c.update_price(impostor, XLM, 1_100_000_000, s.now), Err(Error::Unauthorized));
    s.now += 601;
    deposit(&mut s, 600_000_000);
    assert_eq!(write_collateralized(&mut s, OptionKind::Call), Err(Error::StalePrice));
}

#[test]
fn test_margin_pool_can_only_be_configured_once() {
    let mut s = setup_margin();
    assert_eq!(
        s.c.configure_margin_pool(ADMIN, TOKEN, ORACLE, 1_000, 600),
        Err(Error::PoolAlreadyConfigured)
    );
}

#[test]
fn fixed_point_product_and_quotient_round_toward_zero() {
    assert_eq!(mul(15_000_000, 20_000_000), Ok(30_000_000));
    assert_eq!(mul(-3, 5_000_000), Ok(-1));
    assert_eq!(div(10_000_000, 3), Ok(33_333_333_333_333));
    assert_eq!(div(1, 0), Err(Error::MathOverflow));
    assert_eq!(mul(i128::MAX, 2), Err(Error::MathOverflow));
}

#[test]
fn black_scholes_input_errors_follow_check_order() {
    let mut input = reference_input(OptionKind::Call);
    input.spot_price = 0;
    input.volatility = 0;
    assert_eq!(black_scholes(&input), Err(Error::InvalidPrice));
    let mut input = reference_input(OptionKind::Call);
    input.risk_free_rate = 30_000_000;
    assert_eq!(black_scholes(&input), Err(Error::InvalidRate));
    let mut input = reference_input(OptionKind::Call);
    input.time_to_expiry = 0;
    assert_eq!(black_scholes(&input), Err(Error::InvalidTimeToExpiry));
}

#[test]
fn failed_settlement_leaves_margin_untouched() {
    let mut s = setup_margin();
    let id = write_margin_call(&mut s, 600_000_000);
    let before = s.c.get_margin_account(WRITER);
    assert_eq!(s.c.settle_option(id, s.now), Err(Error::OptionNotExpired));
    assert_eq!(s.c.get_margin_account(WRITER), before);
    assert!(s.c.get_margin_position(id).is_ok());
}
