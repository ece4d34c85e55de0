use stellar_contracts::reputation_system::{Error, ReputationSystemContract, MAX_SCORE, MIN_SCORE};

const ADMIN: u64 = 1;
const SUBJECT: u64 = 2;
const E1: u64 = 3;
const E2: u64 = 4;

fn setup() -> ReputationSystemContract {
    let mut c = ReputationSystemContract::new();
    c.initialize(ADMIN).unwrap();
    c
}

#[test]
fn test_initialize_ok() {
    let c = setup();
    assert!(c.is_initialized());
    assert_eq!(c.get_admin(), Ok(ADMIN));
}

#[test]
fn reputation_double_init_fails() {
    let mut c = setup();
    assert_eq!(c.initialize(ADMIN), Err(Error::AlreadyInitialized));
}

#[test]
fn test_register_ok() {
    let mut c = setup();
    c.register(SUBJECT, 0).unwrap();
    assert!(c.is_registered(SUBJECT));
    assert_eq!(c.get_score(SUBJECT), Ok(0));
}

#[test]
fn test_register_duplicate_fails() {
    let mut c = setup();
    c.register(SUBJECT, 0).unwrap();
    assert_eq!(c.register(SUBJECT, 0), Err(Error::AlreadyRegistered));
}

#[test]
fn test_award_increases_score() {
    let mut c = setup();
    c.register(SUBJECT, 0).unwrap();
    assert_eq!(c.award(SUBJECT, 100, 0), Ok(100));
    assert_eq!(c.get_score(SUBJECT), Ok(100));
}

#[test]
fn test_slash_decreases_score() {
    let mut c = setup();
    c.register(SUBJECT, 0).unwrap();
    c.award(SUBJECT, 500, 0).unwrap();
    assert_eq!(c.slash(SUBJECT, 200, 0), Ok(300));
}

#[test]
fn test_award_clamped_at_max() {
    let mut c = setup();
    c.register(SUBJECT, 0).unwrap();
    c.set_score(SUBJECT, MAX_SCORE - 1, 0).unwrap();
    assert_eq!(c.award(SUBJECT, MAX_SCORE, 0), Ok(MAX_SCORE));
}

#[test]
fn test_slash_clamped_at_min() {
    let mut c = setup();
    c.register(SUBJECT, 0).unwrap();
    assert_eq!(c.slash(SUBJECT, MAX_SCORE, 0), Ok(MIN_SCORE));
}

#[test]
fn test_award_zero_delta_fails() {
    let mut c = setup();
    c.register(SUBJECT, 0).unwrap();
    assert_eq!(c.award(SUBJECT, 0, 0), Err(Error::ZeroDelta));
}

#[test]
fn test_slash_zero_delta_fails() {
    let mut c = setup();
    c.register(SUBJECT, 0).unwrap();
    assert_eq!(c.slash(SUBJECT, 0, 0), Err(Error::ZeroDelta));
}

#[test]
fn test_award_delta_too_large_fails() {
    let mut c = setup();
    c.register(SUBJECT, 0).unwrap();
    assert_eq!(c.award(SUBJECT, MAX_SCORE + 1, 0), Err(Error::DeltaTooLarge));
}

#[test]
fn test_award_negative_delta_fails() {
    let mut c = setup();
    c.register(SUBJECT, 0).unwrap();
    assert_eq!(c.award(SUBJECT, -1, 0), Err(Error::DeltaTooLarge));
}

#[test]
fn test_set_score_exact_value() {
    let mut c = setup();
    c.register(SUBJECT, 0).unwrap();
    assert_eq!(c.set_score(SUBJECT, 12345, 0), Ok(12345));
}

#[test]
fn test_set_score_clamped_above_max() {
    let mut c = setup();
    c.register(SUBJECT, 0).unwrap();
    assert_eq!(c.set_score(SUBJECT, MAX_SCORE + 9999, 0), Ok(MAX_SCORE));
}

#[test]
fn test_set_score_clamped_below_min() {
    let mut c = setup();
    c.register(SUBJECT, 0).unwrap();
    assert_eq!(c.set_score(SUBJECT, MIN_SCORE - 9999, 0), Ok(MIN_SCORE));
}

#[test]
fn test_award_on_unregistered_fails() {
    let mut c = setup();
    assert_eq!(c.award(SUBJECT, 100, 0), Err(Error::SubjectNotFound));
}

#[test]
fn test_endorse_increases_count_and_score() {
    let mut c = setup();
    c.register(SUBJECT, 0).unwrap();
    let before = c.get_score(SUBJECT).unwrap();
    c.endorse(E1, SUBJECT, 0).unwrap();
    assert_eq!(c.get_record(SUBJECT).unwrap().endorsements, 1);
    assert_eq!(c.get_score(SUBJECT), Ok(before + 10));
}

#[test]
fn test_endorse_self_fails() {
    let mut c = setup();
    c.register(SUBJECT, 0).unwrap();
    assert_eq!(c.endorse(SUBJECT, SUBJECT, 0), Err(Error::SelfEndorsement));
}

#[test]
fn test_endorse_unregistered_fails() {
    let mut c = setup();
    assert_eq!(c.endorse(E1, SUBJECT, 0), Err(Error::SubjectNotRegistered));
}

#[test]
fn test_endorse_duplicate_fails() {
    let mut c = setup();
    c.register(SUBJECT, 0).unwrap();
    c.endorse(E1, SUBJECT, 0).unwrap();
    assert_eq!(c.endorse(E1, SUBJECT, 0), Err(Error::AlreadyEndorsed));
}

#[test]
fn test_has_endorsed_flag() {
    let mut c = setup();
    c.register(SUBJECT, 0).unwrap();
    assert!(!c.has_endorsed(E1, SUBJECT));
    c.endorse(E1, SUBJECT, 0).unwrap();
    assert!(c.has_endorsed(E1, SUBJECT));
}

#[test]
fn test_transfer_admin_ok() {
    let mut c = setup();
    c.transfer_admin(E2).unwrap();
    assert_eq!(c.get_admin(), Ok(E2));
}

#[test]
fn test_event_counters() {
    let mut c = setup();
    c.register(SUBJECT, 0).unwrap();
    c.award(SUBJECT, 100, 0).unwrap();
    c.award(SUBJECT, 50, 0).unwrap();
    c.slash(SUBJECT, 25, 0).unwrap();
    let record = c.get_record(SUBJECT).unwrap();
    assert_eq!(record.positive_events, 2);
    assert_eq!(record.negative_events, 1);
}

#[test]
fn test_full_lifecycle() {
    let mut c = setup();
    c.register(SUBJECT, 5).unwrap();
    assert_eq!(c.get_score(SUBJECT), Ok(0));
    c.award(SUBJECT, 200, 6).unwrap();
    assert_eq!(c.get_score(SUBJECT), Ok(200));
    c.endorse(E1, SUBJECT, 7).unwrap();
    c.endorse(E2, SUBJECT, 8).unwrap();
    assert_eq!(c.get_score(SUBJECT), Ok(220));
    c.slash(SUBJECT, 50, 9).unwrap();
    assert_eq!(c.get_score(SUBJECT), Ok(170));
    c.set_score(SUBJECT, 999, 10).unwrap();
    assert_eq!(c.get_score(SUBJECT), Ok(999));
    let record = c.get_record(SUBJECT).unwrap();
    assert_eq!(record.endorsements, 2);
    assert_eq!(record.positive_events, 1);
    assert_eq!(record.negative_events, 1);
    assert_eq!(record.registered_at, 5);
    assert_eq!(record.last_updated, 10);
}

#[test]
fn uninitialized_contract_refuses_everything() {
    let mut c = ReputationSystemContract::new();
    assert_eq!(c.register(SUBJECT, 0), Err(Error::NotInitialized));
    assert_eq!(c.award(SUBJECT, 1, 0), Err(Error::NotInitialized));
    assert_eq!(c.transfer_admin(E1), Err(Error::NotInitialized));
    assert_eq!(ReputationSystemContract::saturating_add(i64::MAX, 5), MAX_SCORE);
    assert_eq!(ReputationSystemContract::saturating_sub(i64::MIN, 5), MIN_SCORE);
    assert_eq!(ReputationSystemContract::validate_delta(MAX_SCORE), Ok(()));
}
