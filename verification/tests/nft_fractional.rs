use stellar_contracts::nft_fractional::{mul_bps_ceil, Error, InitConfig, NftFractionalVault, VaultStatus};

const CURATOR: u64 = 1;
const DEPOSITOR: u64 = 2;
const VAULT: u64 = 100;
const NFT_CONTRACT: u64 = 101;
const PAYMENT: u64 = 102;

fn config() -> InitConfig {
    InitConfig {
        nft_contract: NFT_CONTRACT,
        nft_id: 7,
        payment_token: PAYMENT,
        total_supply: 1_000_000,
        name: b"Fractional Art".to_vec(),
        symbol: b"FART".to_vec(),
        reserve_price: 10_000,
        auction_duration: 100,
        min_increment_bps: 500,
    }
}

/// The vault at time 1_000 and ledger 100, with the NFT moved into custody.
fn fixture() -> NftFractionalVault {
    let mut v = NftFractionalVault::new();
    v.initialize(CURATOR, DEPOSITOR, config(), VAULT, VAULT).unwrap();
    v
}

#[test]
fn initialization_locks_nft_and_mints_fixed_supply() {
    let v = fixture();
    assert_eq!(v.balance(DEPOSITOR), 1_000_000);
    assert_eq!(v.total_supply(), 1_000_000);
    assert_eq!(v.decimals(), 7);
    assert_eq!(v.name(), b"Fractional Art".to_vec());
    assert_eq!(v.symbol(), b"FART".to_vec());
    let info = v.vault_info().unwrap();
    assert_eq!(info.curator, CURATOR);
    assert_eq!(info.status, VaultStatus::Fractionalized);
    assert_eq!(info.nft_id, 7);
}

#[test]
fn initialize_rejects_bad_config_custody_and_reinit() {
    let mut v = NftFractionalVault::new();
    let mut bad = config();
    bad.min_increment_bps = 10_001;
    assert_eq!(v.initialize(CURATOR, DEPOSITOR, bad, VAULT, VAULT), Err(Error::InvalidConfig));
    let mut bad = config();
    bad.symbol = Vec::new();
    assert_eq!(v.initialize(CURATOR, DEPOSITOR, bad, VAULT, VAULT), Err(Error::InvalidConfig));
    let mut bad = config();
    bad.name = vec![b'x'; 65];
    assert_eq!(v.initialize(CURATOR, DEPOSITOR, bad, VAULT, VAULT), Err(Error::InvalidConfig));
    assert_eq!(v.initialize(CURATOR, DEPOSITOR, config(), VAULT, DEPOSITOR), Err(Error::CustodyFailed));
    assert_eq!(v.vault_info(), Err(Error::NotInitialized));
    v.initialize(CURATOR, DEPOSITOR, config(), VAULT, VAULT).unwrap();
    assert_eq!(v.initialize(CURATOR, DEPOSITOR, config(), VAULT, VAULT), Err(Error::AlreadyInitialized));
}

#[test]
fn fraction_transfers_and_expiring_allowances_follow_sep41() {
    let mut v = fixture();
    let alice = 10;
    let broker = 11;
    v.transfer(DEPOSITOR, alice, 400_000).unwrap();
    v.approve(alice, broker, 150_000, 200, 100).unwrap();
    v.transfer_from(broker, alice, DEPOSITOR, 100_000, 100).unwrap();
    assert_eq!(v.balance(alice), 300_000);
    assert_eq!(v.allowance(alice, broker, 100), 50_000);

    assert_eq!(v.allowance(alice, broker, 201), 0);
    assert_eq!(v.transfer_from(broker, alice, DEPOSITOR, 1, 201), Err(Error::AllowanceExpired));
}

#[test]
fn transfer_errors_and_conservation() {
    let mut v = fixture();
    assert_eq!(v.transfer(DEPOSITOR, 10, 0), Err(Error::InvalidAmount));
    assert_eq!(v.transfer(10, DEPOSITOR, 1), Err(Error::InsufficientBalance));
    v.transfer(DEPOSITOR, DEPOSITOR, 5).unwrap();
    assert_eq!(v.balance(DEPOSITOR), 1_000_000);
    v.transfer(DEPOSITOR, 10, 1_000_000).unwrap();
    assert_eq!(v.balance(DEPOSITOR), 0);
    assert_eq!(v.balance(10), 1_000_000);
    assert_eq!(v.approve(10, 11, -1, 200, 100), Err(Error::InvalidAmount));
    assert_eq!(v.approve(10, 11, 5, 99, 100), Err(Error::InvalidAmount));
    assert_eq!(v.transfer_from(11, 10, 12, 1, 100), Err(Error::AllowanceExpired));
    v.approve(10, 11, 5, 200, 100).unwrap();
    assert_eq!(v.transfer_from(11, 10, 12, 6, 100), Err(Error::InsufficientAllowance));
}

#[test]
fn auction_escrows_bids_refunds_previous_bidder_and_settles() {
    let mut v = fixture();
    let first = 20;
    let winner = 21;
    // The host's payment ledger.
    let mut first_balance: i128 = 20_000;
    let mut vault_balance: i128 = 0;

    v.start_auction(first, 10_000, 1_000).unwrap();
    first_balance -= 10_000;
    vault_balance += 10_000;
    assert_eq!(vault_balance, 10_000);
    assert_eq!(v.bid(winner, 10_499, 1_000), Err(Error::BidTooLow));
    let previous = v.auction_info().unwrap();
    v.bid(winner, 10_500, 1_000).unwrap();
    vault_balance += 10_500 - previous.bid;
    first_balance += previous.bid;
    assert_eq!(first_balance, 20_000);
    assert_eq!(vault_balance, 10_500);

    assert_eq!(v.settle(1_099), Err(Error::AuctionNotEnded));
    v.settle(1_100).unwrap();
    assert_eq!(v.auction_info().unwrap().bidder, winner);
    assert_eq!(v.vault_info().unwrap().status, VaultStatus::Settled);
    assert_eq!(v.remaining_proceeds(), 10_500);
    assert_eq!(v.bid(first, 20_000, 1_100), Err(Error::AuctionNotActive));
}

#[test]
fn bids_after_the_end_are_rejected() {
    let mut v = fixture();
    v.start_auction(20, 10_000, 1_000).unwrap();
    assert_eq!(v.start_auction(21, 50_000, 1_000), Err(Error::AuctionActive));
    assert_eq!(v.bid(21, 50_000, 1_100), Err(Error::AuctionEnded));
}

#[test]
fn holders_burn_fractions_for_all_proceeds_including_rounding_remainder() {
    let mut v = fixture();
    let holder = 30;
    let buyer = 31;
    v.transfer(DEPOSITOR, holder, 333_333).unwrap();
    v.start_auction(buyer, 10_001, 1_000).unwrap();
    v.settle(1_100).unwrap();

    assert_eq!(v.claim(holder, 333_333), Ok(3_333));
    assert_eq!(v.claim(DEPOSITOR, 666_667), Ok(6_668));
    assert_eq!(v.total_supply(), 0);
    assert_eq!(v.remaining_proceeds(), 0);
}

#[test]
fn invalid_configuration_and_early_claim_are_rejected() {
    let mut v = fixture();
    assert_eq!(v.claim(DEPOSITOR, 1), Err(Error::NotSettled));
    assert_eq!(v.start_auction(40, 9_999, 1_000), Err(Error::BidTooLow));
}

#[test]
fn tiny_claims_pay_nothing() {
    let mut v = fixture();
    v.start_auction(40, 10_000, 1_000).unwrap();
    v.settle(1_100).unwrap();
    assert_eq!(v.claim(DEPOSITOR, 99), Err(Error::NothingToClaim));
    assert_eq!(v.claim(DEPOSITOR, 100), Ok(1));
    assert_eq!(v.claim(DEPOSITOR, 1_000_000), Err(Error::InsufficientBalance));
}

#[test]
fn minimum_increment_rounds_up() {
    assert_eq!(mul_bps_ceil(10_000, 500), 500);
    assert_eq!(mul_bps_ceil(10_001, 500), 501);
    assert_eq!(mul_bps_ceil(1, 1), 1);
    assert_eq!(mul_bps_ceil(0, 10_000), 0);
    assert_eq!(mul_bps_ceil(i128::MAX, 10_000), i128::MAX);
}

#[test]
fn config_is_validated_before_the_nft_moves() {
    let mut v = NftFractionalVault::new();
    let mut bad = config();
    bad.total_supply = 0;
    assert_eq!(v.validate_config(&bad), Err(Error::InvalidConfig));
    assert_eq!(v.validate_config(&config()), Ok(()));
    v.initialize(CURATOR, DEPOSITOR, config(), VAULT, VAULT).unwrap();
    assert_eq!(v.validate_config(&config()), Err(Error::AlreadyInitialized));
}
