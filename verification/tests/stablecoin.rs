use stellar_contracts::stablecoin::{
    assert_collateral, fee_ceil, validate_fees, AlgorithmicStablecoin, Error, PsmConfig,
    MAX_PSM_FEE_BPS,
};

const ADMIN: u64 = 1;
const ORACLE: u64 = 2;
const USER: u64 = 3;
const RECIPIENT: u64 = 4;
const USDC: u64 = 50;
const USDT: u64 = 51;
const UNSUPPORTED: u64 = 52;

fn setup() -> AlgorithmicStablecoin {
    let mut coin = AlgorithmicStablecoin::new();
    coin.init(ADMIN, ORACLE).unwrap();
    coin
}

/// The PSM setup; the user starts with 10_000 of each collateral, tracked
/// here as the host's token ledger.
fn setup_psm() -> (AlgorithmicStablecoin, i128) {
    let mut coin = setup();
    coin.configure_psm(ADMIN, USDC, USDT, 30, 20).unwrap();
    (coin, 10_000)
}

#[test]
fn test_init() {
    let coin = setup();
    assert_eq!(coin.get_admin(), Ok(ADMIN));
    assert_eq!(coin.get_price(), 10_000_000);
    assert_eq!(coin.get_target_price(), 10_000_000);
    assert!(!coin.is_paused());
}

#[test]
fn init_twice_fails() {
    let mut coin = setup();
    assert_eq!(coin.init(ADMIN, ORACLE), Err(Error::AlreadyInState));
}

#[test]
fn test_mint() {
    let mut coin = setup();
    coin.mint(ADMIN, USER, 1000).unwrap();
    assert_eq!(coin.balance(USER), 1000);
    assert_eq!(coin.total_supply(), 1000);
}

#[test]
fn mint_errors() {
    let mut coin = AlgorithmicStablecoin::new();
    assert_eq!(coin.mint(ADMIN, USER, 10), Err(Error::NotInitialized));
    coin.init(ADMIN, ORACLE).unwrap();
    assert_eq!(coin.mint(USER, USER, 10), Err(Error::Unauthorized));
    assert_eq!(coin.mint(ADMIN, USER, 0), Err(Error::InvalidAmount));
}

#[test]
fn test_burn() {
    let mut coin = setup();
    coin.mint(ADMIN, USER, 1000).unwrap();
    coin.burn(USER, 500).unwrap();
    assert_eq!(coin.balance(USER), 500);
    assert_eq!(coin.total_supply(), 500);
}

#[test]
fn burn_more_than_balance_fails() {
    let mut coin = setup();
    coin.mint(ADMIN, USER, 100).unwrap();
    assert_eq!(coin.burn(USER, 101), Err(Error::InsufficientBalance));
    assert_eq!(coin.balance(USER), 100);
}

#[test]
fn test_transfer() {
    let mut coin = setup();
    coin.mint(ADMIN, USER, 1000).unwrap();
    coin.transfer(USER, RECIPIENT, 300).unwrap();
    assert_eq!(coin.balance(USER), 700);
    assert_eq!(coin.balance(RECIPIENT), 300);
}

#[test]
fn transfer_to_self_credits_the_amount_again() {
    // The recipient's balance is read before the sender's is written, so a
    // transfer to oneself leaves the balance `amount` higher.
    let mut coin = setup();
    coin.mint(ADMIN, USER, 1000).unwrap();
    coin.transfer(USER, USER, 300).unwrap();
    assert_eq!(coin.balance(USER), 1300);
}

#[test]
fn test_set_price() {
    let mut coin = setup();
    coin.set_price(ORACLE, 12_000_000).unwrap();
    assert_eq!(coin.get_price(), 12_000_000);
    assert_eq!(coin.set_price(ADMIN, 12_000_000), Err(Error::Unauthorized));
    assert_eq!(coin.set_price(ORACLE, 0), Err(Error::InvalidAmount));
}

#[test]
fn test_rebase_expansion() {
    let mut coin = setup();
    coin.mint(ADMIN, ADMIN, 1_000_000).unwrap();
    coin.set_price(ORACLE, 11_000_000).unwrap();
    let info = coin.rebase(ADMIN, 4000).unwrap();
    assert!(info.new_supply > info.old_supply);
    assert_eq!(info.new_supply, 1_100_000);
    assert_eq!(coin.total_supply(), 1_100_000);
}

#[test]
fn rebase_contraction_is_limited_by_reserve() {
    let mut coin = setup();
    coin.mint(ADMIN, ADMIN, 1_000_000).unwrap();
    coin.add_reserve(ADMIN, 50_000).unwrap();
    coin.set_price(ORACLE, 9_000_000).unwrap();
    let info = coin.rebase(ADMIN, 4000).unwrap();
    assert_eq!(info.new_supply, 950_000);
}

#[test]
fn rebase_contraction_full() {
    let mut coin = setup();
    coin.mint(ADMIN, ADMIN, 1_000_000).unwrap();
    coin.add_reserve(ADMIN, 500_000).unwrap();
    coin.set_price(ORACLE, 9_000_000).unwrap();
    let info = coin.rebase(ADMIN, 4000).unwrap();
    assert_eq!(info.new_supply, 900_000);
    assert_eq!(info.price, 9_000_000);
    assert_eq!(info.timestamp, 4000);
}

#[test]
fn rebase_too_frequent() {
    let mut coin = setup();
    assert_eq!(coin.rebase(ADMIN, 100).err(), Some(Error::RebaseTooFrequent));
    coin.rebase(ADMIN, 3600).unwrap();
    assert_eq!(coin.rebase(ADMIN, 7199).err(), Some(Error::RebaseTooFrequent));
}

#[test]
fn test_pause_and_unpause() {
    let mut coin = setup();
    coin.pause(ADMIN).unwrap();
    assert!(coin.is_paused());
    assert_eq!(coin.mint(ADMIN, USER, 100), Err(Error::ContractPaused));
    assert_eq!(coin.pause(ADMIN), Err(Error::AlreadyInState));
    coin.unpause(ADMIN).unwrap();
    assert!(!coin.is_paused());
    assert_eq!(coin.unpause(ADMIN), Err(Error::AlreadyInState));
    coin.mint(ADMIN, USER, 100).unwrap();
    assert_eq!(coin.balance(USER), 100);
}

#[test]
fn test_reserve_operations() {
    let mut coin = setup();
    coin.add_reserve(ADMIN, 5000).unwrap();
    assert_eq!(coin.get_reserve(), 5000);
    coin.withdraw_reserve(ADMIN, 2000).unwrap();
    assert_eq!(coin.get_reserve(), 3000);
    assert_eq!(coin.withdraw_reserve(ADMIN, 3001), Err(Error::InsufficientBalance));
    assert_eq!(coin.add_reserve(ADMIN, -1), Err(Error::InvalidAmount));
}

#[test]
fn psm_mint_is_one_to_one_less_fee_and_fully_backed() {
    let (mut coin, mut user_usdc) = setup_psm();
    let result = coin.psm_mint(USER, USDC, 1_000, 997).unwrap();
    user_usdc -= result.amount_in;
    assert_eq!(result.fee, 3);
    assert_eq!(result.amount_out, 997);
    assert_eq!(coin.balance(USER), 997);
    assert_eq!(coin.get_psm_supply(), Ok(997));
    assert_eq!(coin.get_collateral_reserve(USDC), Ok(1_000));
    assert_eq!(user_usdc, 9_000);
}

#[test]
fn psm_burn_returns_collateral_and_retains_fees() {
    let (mut coin, mut user_usdc) = setup_psm();
    let minted = coin.psm_mint(USER, USDC, 1_000, 997).unwrap();
    user_usdc -= minted.amount_in;
    let result = coin.psm_burn(USER, USDC, 500, 499).unwrap();
    user_usdc += result.amount_out;
    assert_eq!(result.fee, 1);
    assert_eq!(result.amount_out, 499);
    assert_eq!(coin.balance(USER), 497);
    assert_eq!(coin.get_psm_supply(), Ok(497));
    assert_eq!(coin.get_collateral_reserve(USDC), Ok(501));
    assert_eq!(user_usdc, 9_499);
}

#[test]
fn dynamic_fees_and_slippage_limits_are_enforced() {
    let (mut coin, _) = setup_psm();
    coin.set_psm_fees(ADMIN, 100, 50).unwrap();
    let config = coin.get_psm_config().unwrap();
    assert_eq!(config.mint_fee_bps, 100);
    assert_eq!(config.burn_fee_bps, 50);
    assert_eq!(coin.psm_mint(USER, USDC, 1_000, 991), Err(Error::SlippageExceeded));
    assert_eq!(coin.set_psm_fees(ADMIN, MAX_PSM_FEE_BPS + 1, 0), Err(Error::InvalidFee));
}

#[test]
fn rejects_unsupported_collateral_and_insufficient_reserves() {
    let (mut coin, _) = setup_psm();
    assert_eq!(coin.psm_mint(USER, UNSUPPORTED, 100, 0), Err(Error::UnsupportedCollateral));
    coin.psm_mint(USER, USDC, 1_000, 0).unwrap();
    assert_eq!(coin.psm_burn(USER, USDT, 100, 0), Err(Error::InsufficientReserve));
}

#[test]
fn psm_configuration_is_single_use_and_pause_applies_to_swaps() {
    let (mut coin, _) = setup_psm();
    assert_eq!(coin.configure_psm(ADMIN, USDC, USDT, 0, 0), Err(Error::PsmAlreadyConfigured));
    coin.pause(ADMIN).unwrap();
    assert_eq!(coin.psm_mint(USER, USDC, 100, 0), Err(Error::ContractPaused));
}

#[test]
fn psm_requires_configuration() {
    let mut coin = setup();
    assert_eq!(coin.psm_mint(USER, USDC, 100, 0), Err(Error::PsmNotConfigured));
    assert_eq!(coin.get_psm_supply(), Err(Error::PsmNotConfigured));
    assert_eq!(coin.get_psm_config(), Err(Error::PsmNotConfigured));
    assert_eq!(coin.set_psm_fees(ADMIN, 1, 1), Err(Error::PsmNotConfigured));
    assert_eq!(coin.configure_psm(ADMIN, USDC, USDC, 0, 0), Err(Error::UnsupportedCollateral));
}

#[test]
fn psm_burn_checks_balance_and_psm_supply() {
    let (mut coin, _) = setup_psm();
    coin.psm_mint(USER, USDC, 1_000, 0).unwrap();
    assert_eq!(coin.psm_burn(USER, USDC, 998, 0), Err(Error::InsufficientBalance));
    coin.mint(ADMIN, USER, 10).unwrap();
    assert_eq!(coin.psm_burn(USER, USDC, 1_000, 0), Err(Error::InsufficientPsmSupply));
}

#[test]
fn legacy_burn_reduces_psm_supply() {
    let (mut coin, _) = setup_psm();
    coin.psm_mint(USER, USDC, 1_000, 0).unwrap();
    coin.burn(USER, 100).unwrap();
    assert_eq!(coin.get_psm_supply(), Ok(897));
    assert_eq!(coin.total_supply(), 897);
}

#[test]
fn fee_rounds_up() {
    assert_eq!(fee_ceil(1_000, 30), Ok(3));
    assert_eq!(fee_ceil(500, 20), Ok(1));
    assert_eq!(fee_ceil(1, 1), Ok(1));
    assert_eq!(fee_ceil(10_000, 0), Ok(0));
    assert_eq!(fee_ceil(i128::MAX, 10_000), Ok(i128::MAX));
    assert_eq!(fee_ceil(i128::MAX, 20_000), Err(Error::ArithmeticOverflow));
}

#[test]
fn fee_and_collateral_validation() {
    assert_eq!(validate_fees(500, 500), Ok(()));
    assert_eq!(validate_fees(501, 0), Err(Error::InvalidFee));
    assert_eq!(validate_fees(0, 501), Err(Error::InvalidFee));
    let config = PsmConfig { burn_fee_bps: 0, mint_fee_bps: 0, usdc: USDC, usdt: USDT };
    assert_eq!(assert_collateral(&config, USDT), Ok(()));
    assert_eq!(assert_collateral(&config, UNSUPPORTED), Err(Error::UnsupportedCollateral));
}
