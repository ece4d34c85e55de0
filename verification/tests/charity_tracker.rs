use stellar_contracts::charity_tracker::{CharityError, CharityTrackerContract};

const ADMIN: u64 = 1;
const TOKEN: u64 = 2;
const ORGANIZER: u64 = 3;
const DONOR: u64 = 4;

fn setup() -> CharityTrackerContract {
    let mut c = CharityTrackerContract::new();
    c.initialize(ADMIN, TOKEN).unwrap();
    c
}

#[test]
fn test_test_initialize() {
    let mut c = setup();
    assert_eq!(c.admin, Some(ADMIN));
    assert_eq!(c.initialize(ADMIN, TOKEN), Err(CharityError::AlreadyInitialized));
}

#[test]
fn test_create_campaign() {
    let mut c = setup();
    let id = c
        .create_campaign(ORGANIZER, b"Clean Water".to_vec(), b"Provide clean water".to_vec(), 100_000, 3, 0)
        .unwrap();
    assert_eq!(id, 1);
    let campaign = c.get_campaign(id).unwrap();
    assert_eq!(campaign.charity_name, b"Clean Water".to_vec());
    assert!(campaign.active);
    assert_eq!(c.get_total_donations(id), 0);
}

#[test]
fn create_campaign_rejects_bad_parameters() {
    let mut c = setup();
    assert_eq!(c.create_campaign(ORGANIZER, b"F".to_vec(), b"D".to_vec(), 0, 3, 0), Err(CharityError::InvalidParameters));
    assert_eq!(c.create_campaign(ORGANIZER, b"F".to_vec(), b"D".to_vec(), 10, 0, 0), Err(CharityError::InvalidParameters));
    assert_eq!(c.create_campaign(ORGANIZER, b"F".to_vec(), b"D".to_vec(), 10, 21, 0), Err(CharityError::InvalidParameters));
    assert_eq!(c.create_campaign(ORGANIZER, b"F".to_vec(), b"D".to_vec(), 10, 20, 0), Ok(1));
}

#[test]
fn test_donate() {
    let mut c = setup();
    let id = c.create_campaign(ORGANIZER, b"Fund".to_vec(), b"Desc".to_vec(), 100_000, 2, 0).unwrap();
    let donation_id = c.donate(DONOR, id, 50_000, 5).unwrap();
    assert_eq!(donation_id, 1);
    let campaign = c.get_campaign(id).unwrap();
    assert_eq!(campaign.raised_amount, 50_000);
    let donation = c.get_donation(donation_id).unwrap();
    assert_eq!(donation.amount, 50_000);
    assert_eq!(donation.timestamp, 5);
    assert_eq!(c.get_total_donations(id), 1);
}

#[test]
fn reaching_the_goal_closes_the_campaign() {
    let mut c = setup();
    let id = c.create_campaign(ORGANIZER, b"Fund".to_vec(), b"Desc".to_vec(), 100_000, 2, 0).unwrap();
    c.donate(DONOR, id, 60_000, 0).unwrap();
    assert!(c.get_campaign(id).unwrap().active);
    c.donate(DONOR, id, 40_000, 0).unwrap();
    assert!(!c.get_campaign(id).unwrap().active);
    assert_eq!(c.donate(DONOR, id, 1, 0), Err(CharityError::CampaignNotActive));
    assert_eq!(c.donate(DONOR, id, 0, 0), Err(CharityError::InvalidParameters));
    assert_eq!(c.donate(DONOR, 9, 1, 0), Err(CharityError::CampaignNotFound));
    assert_eq!(c.get_donation(3), Err(CharityError::DonationFailed));
}

#[test]
fn test_milestone_flow() {
    let mut c = setup();
    let id = c.create_campaign(ORGANIZER, b"Fund".to_vec(), b"Desc".to_vec(), 100_000, 1, 0).unwrap();
    c.add_milestone(ORGANIZER, id, 1, b"Build well".to_vec(), 50_000).unwrap();
    c.complete_milestone(ORGANIZER, id, 1, b"proof_hash".to_vec(), 7).unwrap();
    let released = c.verify_milestone(ADMIN, id, 1).unwrap();
    assert_eq!(released, 50_000);
    let m = c.get_milestone(id, 1).unwrap();
    assert!(m.verified);
    assert_eq!(m.released_amount, 50_000);
    assert_eq!(m.proof_hash, b"proof_hash".to_vec());
    assert_eq!(m.completed_at, 7);
}

#[test]
fn milestone_errors() {
    let mut c = setup();
    let id = c.create_campaign(ORGANIZER, b"Fund".to_vec(), b"Desc".to_vec(), 100_000, 1, 0).unwrap();
    assert_eq!(c.add_milestone(DONOR, id, 1, b"x".to_vec(), 5), Err(CharityError::Unauthorized));
    assert_eq!(c.add_milestone(ORGANIZER, id, 2, b"x".to_vec(), 5), Err(CharityError::InvalidParameters));
    assert_eq!(c.add_milestone(ORGANIZER, id, 1, b"x".to_vec(), 0), Err(CharityError::InvalidParameters));
    assert_eq!(c.add_milestone(ORGANIZER, 9, 1, b"x".to_vec(), 5), Err(CharityError::CampaignNotFound));
    assert_eq!(c.complete_milestone(ORGANIZER, id, 1, b"p".to_vec(), 0), Err(CharityError::MilestoneNotFound));
    c.add_milestone(ORGANIZER, id, 1, b"x".to_vec(), 5).unwrap();
    assert_eq!(c.verify_milestone(ADMIN, id, 1), Err(CharityError::MilestoneNotApproved));
    c.complete_milestone(ORGANIZER, id, 1, b"p".to_vec(), 0).unwrap();
    assert_eq!(c.complete_milestone(ORGANIZER, id, 1, b"p".to_vec(), 0), Err(CharityError::MilestoneAlreadyCompleted));
    assert_eq!(c.verify_milestone(DONOR, id, 1), Err(CharityError::Unauthorized));
    c.verify_milestone(ADMIN, id, 1).unwrap();
    assert_eq!(c.verify_milestone(ADMIN, id, 1), Err(CharityError::MilestoneAlreadyCompleted));
}

#[test]
fn donations_need_a_token() {
    let mut c = CharityTrackerContract::new();
    let id = c.create_campaign(ORGANIZER, b"Fund".to_vec(), b"Desc".to_vec(), 100, 1, 0).unwrap();
    assert_eq!(c.donate(DONOR, id, 5, 0), Err(CharityError::NotInitialized));
    assert_eq!(c.get_campaign(id).unwrap().raised_amount, 0);
}
