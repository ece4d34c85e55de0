use stellar_contracts::royalty::{allocate, checked_mul_div, validate_tree, Error, Royalty, RoyaltyNode};

const ADMIN: u64 = 1;
const TOKEN: u64 = 2;
const ROOT: u64 = 10;
const PRODUCER: u64 = 11;
const ENGINEER: u64 = 12;
const PAYER: u64 = 20;
const OPERATOR: u64 = 21;

fn node(account: u64, parent: Option<u32>, share_bps: u32) -> RoyaltyNode {
    RoyaltyNode { account, parent, share_bps }
}

fn tree() -> Vec<RoyaltyNode> {
    vec![node(ROOT, None, 10_000), node(PRODUCER, Some(0), 6_000), node(ENGINEER, Some(1), 2_500)]
}

fn setup() -> (Royalty, u64) {
    let mut c = Royalty::new();
    c.initialize(ADMIN).unwrap();
    let id = c.create_agreement(ROOT, TOKEN, b"recording:catalog-42".to_vec(), tree()).unwrap();
    (c, id)
}

#[test]
fn recursive_preview_conserves_every_unit() {
    let (c, id) = setup();
    let shares = c.preview(id, 10_000).unwrap();
    assert_eq!(shares, vec![4_000, 4_500, 1_500]);
    assert_eq!(shares.iter().sum::<i128>(), 10_000);
}

#[test]
fn local_rounding_remainder_stays_with_parent() {
    let (c, id) = setup();
    let shares = c.preview(id, 7).unwrap();
    // root -> producer floor(7 * .6) = 4; producer -> engineer = 1.
    assert_eq!(shares, vec![3, 3, 1]);
    assert_eq!(shares.iter().sum::<i128>(), 7);
}

#[test]
fn deposit_is_escrowed_and_accumulates_pending_balances() {
    let (mut c, id) = setup();
    let mut payer_balance: i128 = 20_000;
    c.deposit(PAYER, id, 10_000).unwrap();
    payer_balance -= 10_000;
    c.deposit(PAYER, id, 10_000).unwrap();
    payer_balance -= 10_000;
    assert_eq!(payer_balance, 0);
    assert_eq!(c.pending_balance(id, ROOT), 8_000);
    assert_eq!(c.pending_balance(id, PRODUCER), 9_000);
    assert_eq!(c.pending_balance(id, ENGINEER), 3_000);
    assert_eq!(c.get_agreement(id).unwrap().total_received, 20_000);
}

#[test]
fn individual_claim_is_single_use() {
    let (mut c, id) = setup();
    c.deposit(PAYER, id, 10_000).unwrap();
    assert_eq!(c.claim(id, ENGINEER), Ok(1_500));
    assert_eq!(c.claim(id, ENGINEER), Err(Error::NothingToClaim));
    assert_eq!(c.get_agreement(id).unwrap().total_claimed, 1_500);
}

#[test]
fn batch_claim_pays_multiple_recipients() {
    let (mut c, id) = setup();
    c.deposit(PAYER, id, 10_000).unwrap();
    assert_eq!(c.claim_batch(OPERATOR, id, &vec![ROOT, PRODUCER]), Ok(8_500));
    assert_eq!(c.pending_balance(id, ROOT), 0);
    assert_eq!(c.pending_balance(id, PRODUCER), 0);
    assert_eq!(c.pending_balance(id, ENGINEER), 1_500);
    assert_eq!(c.get_agreement(id).unwrap().total_claimed, 8_500);
    assert_eq!(c.claim_batch(OPERATOR, id, &vec![ROOT, PRODUCER]), Err(Error::NothingToClaim));
}

#[test]
fn rejects_cycles_duplicates_and_overallocated_parent() {
    let (mut c, _) = setup();
    let bad_parent = vec![node(ROOT, None, 10_000), node(PRODUCER, Some(1), 5_000)];
    assert_eq!(c.create_agreement(ROOT, TOKEN, b"cycle".to_vec(), bad_parent), Err(Error::InvalidTree));
    let duplicate = vec![node(ROOT, None, 10_000), node(ROOT, Some(0), 5_000)];
    assert_eq!(c.create_agreement(ROOT, TOKEN, b"duplicate".to_vec(), duplicate), Err(Error::DuplicateAccount));
    let overallocated = vec![node(ROOT, None, 10_000), node(PRODUCER, Some(0), 6_000), node(ENGINEER, Some(0), 5_000)];
    assert_eq!(
        c.create_agreement(ROOT, TOKEN, b"overallocated".to_vec(), overallocated),
        Err(Error::InvalidShare)
    );
}

#[test]
fn batch_validation_precedes_any_transfer() {
    let (mut c, id) = setup();
    c.deposit(PAYER, id, 10_000).unwrap();
    assert_eq!(c.claim_batch(OPERATOR, id, &vec![ROOT, ROOT]), Err(Error::DuplicateAccount));
    assert_eq!(c.pending_balance(id, ROOT), 4_000);
    assert_eq!(c.claim_batch(OPERATOR, id, &Vec::new()), Err(Error::EmptyBatch));
    assert_eq!(c.claim_batch(OPERATOR, id, &(100..121).collect()), Err(Error::BatchTooLarge));
}

#[test]
fn pause_and_close_do_not_block_existing_claims() {
    let (mut c, id) = setup();
    c.deposit(PAYER, id, 10_000).unwrap();
    c.close_agreement(id).unwrap();
    assert_eq!(c.deposit(PAYER, id, 10_000), Err(Error::AgreementInactive));
    c.set_paused(true).unwrap();
    assert_eq!(c.deposit(PAYER, id, 10_000), Err(Error::Paused));
    assert_eq!(c.claim(id, ROOT), Ok(4_000));
}

#[test]
fn tree_validation_errors() {
    assert_eq!(validate_tree(&Vec::new()), Err(Error::InvalidTree));
    assert_eq!(validate_tree(&vec![node(ROOT, None, 9_999)]), Err(Error::InvalidTree));
    assert_eq!(validate_tree(&vec![node(ROOT, Some(0), 10_000)]), Err(Error::InvalidTree));
    assert_eq!(validate_tree(&vec![node(ROOT, None, 10_000), node(1, Some(0), 0)]), Err(Error::InvalidShare));
    let too_many: Vec<RoyaltyNode> = (0..65).map(|i| node(i, if i == 0 { None } else { Some(0) }, 1)).collect();
    assert_eq!(validate_tree(&too_many), Err(Error::TooManyNodes));
    // A chain nine levels deep.
    let deep: Vec<RoyaltyNode> = (0..10).map(|i| node(i, if i == 0 { None } else { Some(i as u32 - 1) }, 10_000)).collect();
    assert_eq!(validate_tree(&deep), Err(Error::TreeTooDeep));
    assert_eq!(validate_tree(&deep[..9].to_vec()), Ok(()));
}

#[test]
fn allocation_of_a_chain_and_overflow() {
    let chain = vec![node(ROOT, None, 10_000), node(PRODUCER, Some(0), 5_000), node(ENGINEER, Some(1), 5_000)];
    assert_eq!(allocate(101, &chain), Ok(vec![51, 25, 25]));
    assert_eq!(allocate(i128::MAX, &chain), Err(Error::ArithmeticError));
    assert_eq!(checked_mul_div(7, 6_000, 10_000), Ok(4));
    assert_eq!(checked_mul_div(1, 1, 0), Err(Error::ArithmeticError));
}

#[test]
fn missing_agreements_and_uninitialized_contract() {
    let mut c = Royalty::new();
    assert_eq!(c.create_agreement(ROOT, TOKEN, b"r".to_vec(), tree()), Err(Error::NotInitialized));
    c.initialize(ADMIN).unwrap();
    assert_eq!(c.deposit(PAYER, 3, 10), Err(Error::AgreementNotFound));
    assert_eq!(c.preview(3, 10).err(), Some(Error::AgreementNotFound));
    assert_eq!(c.create_agreement(ROOT, TOKEN, Vec::new(), tree()), Err(Error::InvalidReference));
    assert_eq!(c.claim_batch(OPERATOR, 3, &vec![ROOT]), Err(Error::NothingToClaim));
}
