use stellar_contracts::identity_registry::{Error, IdentityRegistryContract, IdentityStatus};

const ADMIN: u64 = 1;
const OWNER: u64 = 2;
const STRANGER: u64 = 3;
const NEW_ADMIN: u64 = 4;

fn setup() -> IdentityRegistryContract {
    let mut client = IdentityRegistryContract::new();
    client.initialize(ADMIN).unwrap();
    client
}

fn n(s: &str) -> Vec<u8> {
    s.as_bytes().to_vec()
}

#[test]
fn test_test_initialize_ok() {
    let client = setup();
    assert!(client.is_initialized());
    assert_eq!(client.get_admin(), Ok(ADMIN));
}

#[test]
fn identity_double_init_fails() {
    let mut client = setup();
    assert_eq!(client.initialize(ADMIN), Err(Error::AlreadyInitialized));
}

#[test]
fn test_test_register_ok() {
    let mut client = setup();
    client.register(OWNER, n("Alice"), n("https://example.com/alice"), 0).unwrap();
    assert!(client.has_identity(OWNER));
    let identity = client.get_identity(OWNER).unwrap();
    assert_eq!(identity.status, IdentityStatus::Pending);
    assert_eq!(identity.owner, OWNER);
}

#[test]
fn test_register_empty_name_fails() {
    let mut client = setup();
    assert_eq!(client.register(OWNER, n(""), n("https://example.com"), 0), Err(Error::EmptyDisplayName));
}

#[test]
fn test_register_name_too_long_fails() {
    let mut client = setup();
    // 65 characters
    let long = n("AAAAAAAAAAAAAAAAAAAAAAAAAAAAAAAAAAAAAAAAAAAAAAAAAAAAAAAAAAAAAAAAA");
    assert_eq!(client.register(OWNER, long, n("https://example.com"), 0), Err(Error::DisplayNameTooLong));
}

#[test]
fn test_register_empty_uri_fails() {
    let mut client = setup();
    assert_eq!(client.register(OWNER, n("Bob"), n(""), 0), Err(Error::EmptyMetadataUri));
}

#[test]
fn test_test_register_duplicate_fails() {
    let mut client = setup();
    client.register(OWNER, n("Alice"), n("https://example.com/alice"), 0).unwrap();
    assert_eq!(
        client.register(OWNER, n("Alice"), n("https://example.com/alice"), 0),
        Err(Error::AlreadyRegistered)
    );
}

#[test]
fn test_has_identity_false_for_unregistered() {
    let client = setup();
    assert!(!client.has_identity(STRANGER));
}

#[test]
fn test_verify_ok() {
    let mut client = setup();
    client.register(OWNER, n("Carol"), n("https://carol.io"), 0).unwrap();
    client.verify(OWNER, 0).unwrap();
    let identity = client.get_identity(OWNER).unwrap();
    assert_eq!(identity.status, IdentityStatus::Verified);
    assert_eq!(client.is_verified(OWNER), Ok(true));
}

#[test]
fn test_verify_nonexistent_fails() {
    let mut client = setup();
    assert_eq!(client.verify(OWNER, 0), Err(Error::IdentityNotFound));
}

#[test]
fn test_verify_already_verified_fails() {
    let mut client = setup();
    client.register(OWNER, n("Dave"), n("https://dave.io"), 0).unwrap();
    client.verify(OWNER, 0).unwrap();
    assert_eq!(client.verify(OWNER, 0), Err(Error::InvalidStatus));
}

#[test]
fn test_is_verified_returns_false_for_pending() {
    let mut client = setup();
    client.register(OWNER, n("Eve"), n("https://eve.io"), 0).unwrap();
    assert_eq!(client.is_verified(OWNER), Ok(false));
}

#[test]
fn test_revoke_by_admin_ok() {
    let mut client = setup();
    client.register(OWNER, n("Frank"), n("https://frank.io"), 0).unwrap();
    client.revoke(ADMIN, OWNER, 0).unwrap();
    assert_eq!(client.get_identity(OWNER).unwrap().status, IdentityStatus::Revoked);
}

#[test]
fn test_revoke_by_owner_ok() {
    let mut client = setup();
    client.register(OWNER, n("Grace"), n("https://grace.io"), 0).unwrap();
    client.revoke(OWNER, OWNER, 0).unwrap();
    assert_eq!(client.get_identity(OWNER).unwrap().status, IdentityStatus::Revoked);
}

#[test]
fn test_revoke_by_stranger_fails() {
    let mut client = setup();
    client.register(OWNER, n("Henry"), n("https://henry.io"), 0).unwrap();
    assert_eq!(client.revoke(STRANGER, OWNER, 0), Err(Error::Unauthorized));
}

#[test]
fn test_revoke_twice_fails() {
    let mut client = setup();
    client.register(OWNER, n("Ivy"), n("https://ivy.io"), 0).unwrap();
    client.revoke(ADMIN, OWNER, 0).unwrap();
    assert_eq!(client.revoke(ADMIN, OWNER, 0), Err(Error::AlreadyRevoked));
}

#[test]
fn test_revoke_nonexistent_fails() {
    let mut client = setup();
    assert_eq!(client.revoke(ADMIN, OWNER, 0), Err(Error::IdentityNotFound));
}

#[test]
fn test_update_metadata_ok() {
    let mut client = setup();
    let start: u64 = 0;
    client.register(OWNER, n("Jack"), n("https://jack.io/v1"), start).unwrap();
    client.update_metadata(OWNER, n("Jack Updated"), n("https://jack.io/v2"), start + 100).unwrap();
    let identity = client.get_identity(OWNER).unwrap();
    assert_eq!(identity.display_name, n("Jack Updated"));
    assert_eq!(identity.metadata_uri, n("https://jack.io/v2"));
    assert!(identity.updated_at > identity.registered_at);
}

#[test]
fn test_update_metadata_empty_name_fails() {
    let mut client = setup();
    client.register(OWNER, n("Karl"), n("https://karl.io"), 0).unwrap();
    assert_eq!(client.update_metadata(OWNER, n(""), n("https://karl.io"), 0), Err(Error::EmptyDisplayName));
}

#[test]
fn test_update_metadata_on_revoked_fails() {
    let mut client = setup();
    client.register(OWNER, n("Lisa"), n("https://lisa.io"), 0).unwrap();
    client.revoke(ADMIN, OWNER, 0).unwrap();
    assert_eq!(
        client.update_metadata(OWNER, n("Lisa New"), n("https://lisa.io"), 0),
        Err(Error::IdentityRevoked)
    );
}

#[test]
fn test_update_metadata_nonexistent_fails() {
    let mut client = setup();
    assert_eq!(
        client.update_metadata(OWNER, n("Nobody"), n("https://nobody.io"), 0),
        Err(Error::IdentityNotFound)
    );
}

#[test]
fn test_test_transfer_admin_ok() {
    let mut client = setup();
    client.transfer_admin(NEW_ADMIN).unwrap();
    assert_eq!(client.get_admin(), Ok(NEW_ADMIN));
}

#[test]
fn test_test_full_lifecycle() {
    let mut client = setup();
    let mut now: u64 = 0;
    client.register(OWNER, n("Mallory"), n("https://mallory.io/id"), now).unwrap();
    assert_eq!(client.get_identity(OWNER).unwrap().status, IdentityStatus::Pending);

    client.verify(OWNER, now).unwrap();
    assert_eq!(client.is_verified(OWNER), Ok(true));

    now += 500;
    client.update_metadata(OWNER, n("Mallory V2"), n("https://mallory.io/id/v2"), now).unwrap();

    client.revoke(OWNER, OWNER, now).unwrap();
    assert_eq!(client.get_identity(OWNER).unwrap().status, IdentityStatus::Revoked);
    assert_eq!(client.is_verified(OWNER), Ok(false));
}

#[test]
fn test_get_identity_not_found() {
    let client = setup();
    assert!(client.get_identity(OWNER).is_err());
}

#[test]
fn identity_uri_too_long_and_uninitialized() {
    let mut fresh = IdentityRegistryContract::new();
    assert!(!fresh.is_initialized());
    assert_eq!(fresh.register(OWNER, n("A"), n("u"), 0), Err(Error::NotInitialized));
    assert_eq!(fresh.transfer_admin(NEW_ADMIN), Err(Error::NotInitialized));
    assert_eq!(fresh.get_admin(), Err(Error::NotInitialized));
    let mut client = setup();
    let long_uri = vec![b'u'; 257];
    assert_eq!(client.register(OWNER, n("A"), long_uri, 0), Err(Error::MetadataUriTooLong));
    let max_uri = vec![b'u'; 256];
    let max_name = vec![b'n'; 64];
    assert_eq!(client.register(OWNER, max_name, max_uri, 0), Ok(()));
}

#[test]
fn identity_revoked_stays_revoked() {
    let mut client = setup();
    client.register(OWNER, n("Zed"), n("https://zed.io"), 0).unwrap();
    client.revoke(OWNER, OWNER, 1).unwrap();
    assert_eq!(client.verify(OWNER, 2), Err(Error::InvalidStatus));
    assert_eq!(client.get_identity(OWNER).unwrap().status, IdentityStatus::Revoked);
    assert_eq!(client.get_identity(OWNER).unwrap().updated_at, 1);
}
