use stellar_contracts::upgradeable::delayed::{
    PendingUpgrade, UpgradeError, UpgradeableContract as DelayedUpgradeable, TIMELOCK_DELAY_SECONDS,
};
use stellar_contracts::upgradeable::{Error, UpgradeableContract};

const ADMIN: u64 = 1;
const STRANGER: u64 = 2;
const HASH_A: [u8; 32] = [7u8; 32];
const HASH_B: [u8; 32] = [9u8; 32];

#[test]
fn upgrade_with_zero_timelock_applies_at_once() {
    let mut c = UpgradeableContract::new();
    c.initialize(ADMIN, None).unwrap();
    assert_eq!(c.get_timelock(), Ok(0));
    assert_eq!(c.propose_upgrade(ADMIN, HASH_A, 10), Ok(Some(HASH_A)));
    assert_eq!(c.get_pending_upgrade(), None);
    assert_eq!(c.upgrade_to(ADMIN, HASH_B, 11), Ok(Some(HASH_B)));
}

#[test]
fn upgrade_waits_for_the_timelock() {
    let mut c = UpgradeableContract::new();
    c.initialize(ADMIN, Some(5)).unwrap();
    assert_eq!(c.propose_upgrade(ADMIN, HASH_A, 100), Ok(None));
    assert_eq!(c.get_pending_upgrade(), Some((HASH_A, 100)));
    assert_eq!(c.execute_upgrade(ADMIN, 104), Err(Error::TimelockNotElapsed));
    assert_eq!(c.execute_upgrade(ADMIN, 105), Ok(HASH_A));
    assert_eq!(c.get_pending_upgrade(), None);
    assert_eq!(c.execute_upgrade(ADMIN, 200), Err(Error::NoPendingUpgrade));
}

#[test]
fn upgrade_roles_and_pause() {
    let mut c = UpgradeableContract::new();
    assert!(!c.is_initialized());
    assert_eq!(c.get_admin(), Err(Error::NotInitialized));
    assert_eq!(c.get_timelock(), Err(Error::NotInitialized));
    assert_eq!(c.pause(ADMIN), Err(Error::NotInitialized));
    c.initialize(ADMIN, Some(3)).unwrap();
    assert_eq!(c.initialize(ADMIN, None), Err(Error::AlreadyInitialized));
    assert_eq!(c.get_admin(), Ok(ADMIN));
    assert_eq!(c.propose_upgrade(STRANGER, HASH_A, 1), Err(Error::Unauthorized));
    assert_eq!(c.pause(STRANGER), Err(Error::Unauthorized));
    c.pause(ADMIN).unwrap();
    assert!(c.is_paused());
    assert_eq!(c.propose_upgrade(ADMIN, HASH_A, 1), Err(Error::ContractPaused));
    assert_eq!(c.execute_upgrade(ADMIN, 1), Err(Error::ContractPaused));
    c.unpause(ADMIN).unwrap();
    assert!(!c.is_paused());
    assert_eq!(c.propose_upgrade(ADMIN, HASH_A, 1), Ok(None));
}

#[test]
fn delayed_upgrade_after_48_hours() {
    let mut c = DelayedUpgradeable::new();
    assert_eq!(c.propose_upgrade(HASH_A, 0), Err(UpgradeError::NotAdmin));
    c.initialize(ADMIN);
    assert_eq!(c.get_admin(), Ok(ADMIN));
    assert_eq!(c.execute_upgrade(0), Err(UpgradeError::NoUpgradeProposed));
    c.propose_upgrade(HASH_A, 1_000).unwrap();
    assert_eq!(c.pending, Some(PendingUpgrade { new_wasm_hash: HASH_A, eta: 1_000 + TIMELOCK_DELAY_SECONDS }));
    assert_eq!(c.execute_upgrade(1_000 + TIMELOCK_DELAY_SECONDS - 1), Err(UpgradeError::TimelockNotExpired));
    c.set_paused(true).unwrap();
    assert_eq!(c.execute_upgrade(1_000 + TIMELOCK_DELAY_SECONDS), Err(UpgradeError::ContractPaused));
    c.set_paused(false).unwrap();
    assert_eq!(c.execute_upgrade(1_000 + TIMELOCK_DELAY_SECONDS), Ok(HASH_A));
    assert_eq!(c.pending, None);
}
