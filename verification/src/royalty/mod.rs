//! Token-escrowed recursive royalty waterfalls with batched pull payments.
//!
//! An agreement holds a royalty tree (see `tree`). Each deposit is split
//! down the tree into credits that add up to the deposit and accrue to the
//! nodes' accounts; recipients claim what has accrued, alone or in batches
//! run by an operator who can only pay recipients their own balances.
//!
//! Accounts and tokens are numbers and the reference is UTF-8 bytes. The
//! host verifies signatures (the admin's to pause, an agreement owner's to
//! close it) and moves the tokens a successful call implies.
pub mod tree;

use std::collections::HashMap;
use vstd::prelude::*;

pub use self::tree::{allocate, checked_mul_div, validate_tree, Error, RoyaltyNode, MAX_DEPTH, MAX_NODES};
use self::tree::{credit, lemma_credits_sum_to_amount, lemma_valid_tree_shape, range_sum, split_fits, tree_validation, well_shaped};
use crate::bytes::copy_bytes;
use crate::fixed::fits_i128;

verus! {

broadcast use vstd::std_specs::hash::group_hash_axioms;

/// The most recipients one batch claim may pay.
pub const MAX_BATCH: usize = 20;
/// The longest agreement reference, in bytes.
pub const MAX_REFERENCE_LEN: usize = 128;

#[derive(Debug)]
pub struct Agreement {
    pub id: u64,
    pub owner: u64,
    pub token: u64,
    pub reference: Vec<u8>,
    pub nodes: Vec<RoyaltyNode>,
    pub active: bool,
    pub total_received: i128,
    pub total_claimed: i128,
}

impl Agreement {
    /// Field-by-field equality, comparing the reference and the tree by value.
    pub open spec fn same(self, other: Agreement) -> bool {
        &&& self.id == other.id
        &&& self.owner == other.owner
        &&& self.token == other.token
        &&& self.reference@ == other.reference@
        &&& self.nodes@ == other.nodes@
        &&& self.active == other.active
        &&& self.total_received == other.total_received
        &&& self.total_claimed == other.total_claimed
    }

    pub fn duplicate(&self) -> (r: Agreement)
        ensures
            r.same(*self),
    {
        let mut nodes: Vec<RoyaltyNode> = Vec::new();
        let mut i: usize = 0;
        while i < self.nodes.len()
            invariant
                i <= self.nodes.len(),
                nodes@ == self.nodes@.take(i as int),
            decreases self.nodes.len() - i,
        {
            nodes.push(self.nodes[i]);
            i = i + 1;
            assert(nodes@ =~= self.nodes@.take(i as int));
        }
        assert(self.nodes@.take(self.nodes.len() as int) =~= self.nodes@);
        Agreement {
            id: self.id,
            owner: self.owner,
            token: self.token,
            reference: copy_bytes(&self.reference),
            nodes,
            active: self.active,
            total_received: self.total_received,
            total_claimed: self.total_claimed,
        }
    }
}

/// The storage key of an account's balance in an agreement.
pub open spec fn pending_key(agreement_id: u64, account: u64) -> u128 {
    (agreement_id * 0x1_0000_0000_0000_0000 + account) as u128
}

fn make_pending_key(agreement_id: u64, account: u64) -> (r: u128)
    ensures
        r == pending_key(agreement_id, account),
{
    assert(agreement_id * 0x1_0000_0000_0000_0000 + account <= u128::MAX) by (nonlinear_arith)
        requires agreement_id <= u64::MAX, account <= u64::MAX;
    (agreement_id as u128) * 0x1_0000_0000_0000_0000 + (account as u128)
}

proof fn lemma_pending_key_injective(a1: u64, b1: u64, a2: u64, b2: u64)
    ensures
        pending_key(a1, b1) == pending_key(a2, b2) ==> a1 == a2 && b1 == b2,
{
    if pending_key(a1, b1) == pending_key(a2, b2) {
        assert(a1 * 0x1_0000_0000_0000_0000 + b1 == a2 * 0x1_0000_0000_0000_0000 + b2) by (nonlinear_arith)
            requires
                a1 <= u64::MAX, b1 <= u64::MAX, a2 <= u64::MAX, b2 <= u64::MAX,
                (a1 * 0x1_0000_0000_0000_0000 + b1) as u128 == (a2 * 0x1_0000_0000_0000_0000 + b2) as u128;
        assert(a1 == a2 && b1 == b2) by (nonlinear_arith)
            requires
                a1 * 0x1_0000_0000_0000_0000 + b1 == a2 * 0x1_0000_0000_0000_0000 + b2,
                0 <= b1 <= u64::MAX, 0 <= b2 <= u64::MAX, a1 >= 0, a2 >= 0;
    }
}

/// The abstract contents of the contract's storage.
pub struct RoyaltyView {
    pub admin: Option<u64>,
    pub paused: bool,
    pub agreement_count: u64,
    pub agreements: Map<u64, Agreement>,
    pub pending: Map<u128, i128>,
}

/// The contract's storage.
pub struct Royalty {
    pub admin: Option<u64>,
    pub paused: bool,
    pub agreement_count: u64,
    pub agreements: HashMap<u64, Agreement>,
    pub pending: HashMap<u128, i128>,
}

impl View for Royalty {
    type V = RoyaltyView;

    open spec fn view(&self) -> RoyaltyView {
        RoyaltyView {
            admin: self.admin,
            paused: self.paused,
            agreement_count: self.agreement_count,
            agreements: self.agreements@,
            pending: self.pending@,
        }
    }
}

/// The sum of the balances of `recipients` in an agreement.
pub open spec fn batch_total(pending: Map<u128, i128>, agreement_id: u64, recipients: Seq<u64>) -> int
    decreases recipients.len(),
{
    if recipients.len() == 0 {
        0
    } else {
        batch_total(pending, agreement_id, recipients.drop_last())
            + pending_amount(pending, agreement_id, recipients.last())
    }
}

/// An account's balance in an agreement.
pub open spec fn pending_amount(pending: Map<u128, i128>, agreement_id: u64, account: u64) -> int {
    let k = pending_key(agreement_id, account);
    if pending.contains_key(k) { pending[k] as int } else { 0 }
}

impl RoyaltyView {
    pub open spec fn balance(self, agreement_id: u64, account: u64) -> int {
        pending_amount(self.pending, agreement_id, account)
    }

    /// Every stored tree passes validation, agreement ids are below the
    /// count, balances are never negative and only agreements that exist
    /// owe anything.
    pub open spec fn wf(self) -> bool {
        &&& forall|id: u64| #[trigger] self.agreements.contains_key(id) ==> {
            &&& tree_validation(self.agreements[id].nodes@) is Ok
            &&& self.agreements[id].id == id
            &&& id < self.agreement_count
            &&& self.agreements[id].total_received >= 0
        }
        &&& forall|id: u64, acct: u64| #[trigger] pending_amount(self.pending, id, acct) >= 0
        &&& forall|id: u64, acct: u64| #[trigger] pending_amount(self.pending, id, acct) > 0
            ==> self.agreements.contains_key(id)
    }

    /// The agreement a call reads, after the initialization check.
    pub open spec fn lookup(self, agreement_id: u64) -> Result<Agreement, Error> {
        if self.admin is None {
            Err(Error::NotInitialized)
        } else if !self.agreements.contains_key(agreement_id) {
            Err(Error::AgreementNotFound)
        } else {
            Ok(self.agreements[agreement_id])
        }
    }

    /// Every node's new balance after crediting a deposit of `amount` fits.
    pub open spec fn credits_fit(self, agreement_id: u64, amount: i128) -> bool {
        let nodes = self.agreements[agreement_id].nodes@;
        forall|i: int| 0 <= i < nodes.len() ==> fits_i128(
            #[trigger] self.balance(agreement_id, nodes[i].account) + credit(nodes, amount as int, i),
        )
    }

    /// What a deposit returns.
    pub open spec fn deposit_outcome(self, agreement_id: u64, amount: i128) -> Result<(), Error> {
        if self.admin is None {
            Err(Error::NotInitialized)
        } else if self.paused {
            Err(Error::Paused)
        } else if amount <= 0 {
            Err(Error::InvalidAmount)
        } else if !self.agreements.contains_key(agreement_id) {
            Err(Error::AgreementNotFound)
        } else if !self.agreements[agreement_id].active {
            Err(Error::AgreementInactive)
        } else if !split_fits(self.agreements[agreement_id].nodes@, amount as int)
            || !self.credits_fit(agreement_id, amount)
            || !fits_i128(self.agreements[agreement_id].total_received + amount) {
            Err(Error::ArithmeticError)
        } else {
            Ok(())
        }
    }
}

impl Royalty {
    /// A contract with empty storage.
    pub fn new() -> (r: Self)
        ensures
            r@.admin is None && !r@.paused && r@.agreement_count == 0,
            r@.agreements == Map::<u64, Agreement>::empty(),
            r@.pending == Map::<u128, i128>::empty(),
            r@.wf(),
    {
        Royalty {
            admin: None,
            paused: false,
            agreement_count: 0,
            agreements: HashMap::new(),
            pending: HashMap::new(),
        }
    }

    pub fn initialize(&mut self, admin: u64) -> (r: Result<(), Error>)
        requires
            old(self)@.wf(),
        ensures
            r == (if old(self)@.admin is Some { Err(Error::AlreadyInitialized) } else { Ok(()) }),
            r is Err ==> final(self)@ == old(self)@,
            r is Ok ==> final(self)@ == (RoyaltyView {
                admin: Some(admin),
                paused: false,
                agreement_count: 0,
                ..old(self)@
            }),
            old(self)@.agreements.is_empty() ==> final(self)@.wf(),
    {
        if self.admin.is_some() {
            return Err(Error::AlreadyInitialized);
        }
        self.admin = Some(admin);
        self.paused = false;
        self.agreement_count = 0;
        Ok(())
    }

    /// The admin pauses or resumes deposits and new agreements.
    pub fn set_paused(&mut self, paused: bool) -> (r: Result<(), Error>)
        requires
            old(self)@.wf(),
        ensures
            r == (if old(self)@.admin is None { Err(Error::NotInitialized) } else { Ok(()) }),
            r is Err ==> final(self)@ == old(self)@,
            r is Ok ==> final(self)@ == (RoyaltyView { paused, ..old(self)@ }),
            final(self)@.wf(),
    {
        if self.admin.is_none() {
            return Err(Error::NotInitialized);
        }
        self.paused = paused;
        Ok(())
    }

    /// Create an agreement over a validated royalty tree; returns its id.
    pub fn create_agreement(&mut self, owner: u64, token: u64, reference: Vec<u8>, nodes: Vec<RoyaltyNode>) -> (r: Result<u64, Error>)
        requires
            old(self)@.wf(),
            old(self)@.agreement_count < u64::MAX,
        ensures
            r == (if old(self)@.admin is None {
                Err(Error::NotInitialized)
            } else if old(self)@.paused {
                Err(Error::Paused)
            } else if reference@.len() == 0 || reference@.len() > MAX_REFERENCE_LEN {
                Err(Error::InvalidReference)
            } else if tree_validation(nodes@) is Err {
                Err(tree_validation(nodes@)->Err_0)
            } else {
                Ok(old(self)@.agreement_count)
            }),
            r is Err ==> final(self)@ == old(self)@,
            r is Ok ==> final(self)@ == (RoyaltyView {
                agreements: old(self)@.agreements.insert(r->Ok_0, Agreement {
                    id: r->Ok_0,
                    owner,
                    token,
                    reference,
                    nodes,
                    active: true,
                    total_received: 0,
                    total_claimed: 0,
                }),
                agreement_count: (old(self)@.agreement_count + 1) as u64,
                ..old(self)@
            }),
            final(self)@.wf(),
    {
        if self.admin.is_none() {
            return Err(Error::NotInitialized);
        }
        if self.paused {
            return Err(Error::Paused);
        }
        if reference.len() == 0 || reference.len() > MAX_REFERENCE_LEN {
            return Err(Error::InvalidReference);
        }
        validate_tree(&nodes)?;
        let id = self.agreement_count;
        self.agreements.insert(id, Agreement {
            id,
            owner,
            token,
            reference,
            nodes,
            active: true,
            total_received: 0,
            total_claimed: 0,
        });
        self.agreement_count = id + 1;
        Ok(id)
    }

    /// Stop future deposits; balances already accrued stay claimable.
    pub fn close_agreement(&mut self, agreement_id: u64) -> (r: Result<(), Error>)
        requires
            old(self)@.wf(),
        ensures
            r == (match old(self)@.lookup(agreement_id) {
                Ok(_) => Ok(()),
                Err(e) => Err(e),
            }),
            r is Err ==> final(self)@ == old(self)@,
            r is Ok ==> final(self)@ == (RoyaltyView {
                agreements: old(self)@.agreements.insert(agreement_id, Agreement {
                    active: false,
                    ..old(self)@.agreements[agreement_id]
                }),
                ..old(self)@
            }),
            final(self)@.wf(),
    {
        if self.admin.is_none() {
            return Err(Error::NotInitialized);
        }
        if !self.agreements.contains_key(&agreement_id) {
            return Err(Error::AgreementNotFound);
        }
        let agreement = match self.agreements.remove(&agreement_id) {
            Some(a) => a,
            None => return Err(Error::AgreementNotFound),
        };
        self.agreements.insert(agreement_id, Agreement { active: false, ..agreement });
        proof {
            assert(self@.agreements =~= old(self)@.agreements.insert(agreement_id, Agreement {
                active: false,
                ..old(self)@.agreements[agreement_id]
            }));
        }
        Ok(())
    }

    fn balance_of(&self, agreement_id: u64, account: u64) -> (r: i128)
        ensures
            r == self@.balance(agreement_id, account),
    {
        match self.pending.get(&make_pending_key(agreement_id, account)) {
            Some(v) => *v,
            None => 0,
        }
    }

    /// The balance `recipient` can claim from an agreement.
    pub fn pending_balance(&self, agreement_id: u64, recipient: u64) -> (r: i128)
        ensures
            r == self@.balance(agreement_id, recipient),
    {
        self.balance_of(agreement_id, recipient)
    }

    pub fn get_agreement(&self, agreement_id: u64) -> (r: Result<Agreement, Error>)
        ensures
            r is Err <==> self@.lookup(agreement_id) is Err,
            r is Err ==> r->Err_0 == self@.lookup(agreement_id)->Err_0,
            r is Ok ==> r->Ok_0.same(self@.agreements[agreement_id]),
    {
        if self.admin.is_none() {
            return Err(Error::NotInitialized);
        }
        match self.agreements.get(&agreement_id) {
            Some(a) => Ok(a.duplicate()),
            None => Err(Error::AgreementNotFound),
        }
    }

    /// `payer` deposits `amount`, which is split down the agreement's tree
    /// and credited to each node's account; the host escrows the deposit.
    pub fn deposit(&mut self, payer: u64, agreement_id: u64, amount: i128) -> (r: Result<(), Error>)
        requires
            old(self)@.wf(),
        ensures
            r == old(self)@.deposit_outcome(agreement_id, amount),
            r is Err ==> final(self)@ == old(self)@,
            r is Ok ==> {
                let nodes = old(self)@.agreements[agreement_id].nodes@;
                &&& final(self)@.agreements == old(self)@.agreements.insert(agreement_id, Agreement {
                    total_received: (old(self)@.agreements[agreement_id].total_received + amount) as i128,
                    ..old(self)@.agreements[agreement_id]
                })
                &&& forall|i: int| 0 <= i < nodes.len() ==> #[trigger] final(self)@.balance(agreement_id, nodes[i].account)
                    == old(self)@.balance(agreement_id, nodes[i].account) + credit(nodes, amount as int, i)
                &&& forall|id: u64, acct: u64| (id != agreement_id || forall|i: int| 0 <= i < nodes.len() ==> nodes[i].account != acct)
                    ==> #[trigger] final(self)@.balance(id, acct) == old(self)@.balance(id, acct)
                &&& final(self)@.admin == old(self)@.admin && final(self)@.paused == old(self)@.paused
                &&& final(self)@.agreement_count == old(self)@.agreement_count
            },
            final(self)@.wf(),
    {
        if self.admin.is_none() {
            return Err(Error::NotInitialized);
        }
        if self.paused {
            return Err(Error::Paused);
        }
        if amount <= 0 {
            return Err(Error::InvalidAmount);
        }
        let (credits, total_received) = match self.agreements.get(&agreement_id) {
            Some(agreement) => {
                if !agreement.active {
                    return Err(Error::AgreementInactive);
                }
                proof {
                    lemma_valid_tree_shape(agreement.nodes@);
                }
                let credits = allocate(amount, &agreement.nodes)?;
                (credits, agreement.total_received)
            },
            None => return Err(Error::AgreementNotFound),
        };
        let ghost nodes = self@.agreements[agreement_id].nodes@;
        let n = credits.len();
        let mut accounts: Vec<u64> = Vec::new();
        let mut new_pending: Vec<i128> = Vec::new();
        let mut i: usize = 0;
        while i < n
            invariant
                n == credits@.len(),
                n == nodes.len(),
                nodes == self@.agreements[agreement_id].nodes@,
                self@.agreements.contains_key(agreement_id),
                self@ == old(self)@,
                old(self)@.wf(),
                old(self)@.admin is Some && !old(self)@.paused && amount > 0,
                old(self)@.agreements[agreement_id].active,
                split_fits(nodes, amount as int),
                i <= n,
                accounts@.len() == i,
                new_pending@.len() == i,
                forall|p: int| 0 <= p < n ==> #[trigger] credits@[p] == credit(nodes, amount as int, p) && credits@[p] >= 0,
                forall|j: int| 0 <= j < i ==> #[trigger] accounts@[j] == nodes[j].account,
                forall|j: int| 0 <= j < i ==> #[trigger] new_pending@[j]
                    == self@.balance(agreement_id, nodes[j].account) + credit(nodes, amount as int, j),
                forall|j: int| 0 <= j < i ==> fits_i128(
                    #[trigger] self@.balance(agreement_id, nodes[j].account) + credit(nodes, amount as int, j)),
            decreases n - i,
        {
            let account = match self.agreements.get(&agreement_id) {
                Some(a) => a.nodes[i].account,
                None => return Err(Error::AgreementNotFound),
            };
            let before = self.balance_of(agreement_id, account);
            let updated = match before.checked_add(credits[i]) {
                Some(v) => v,
                None => return Err(Error::ArithmeticError),
            };
            accounts.push(account);
            new_pending.push(updated);
            i = i + 1;
        }
        let new_total = match total_received.checked_add(amount) {
            Some(v) => v,
            None => return Err(Error::ArithmeticError),
        };
        proof {
            lemma_valid_tree_shape(nodes);
            lemma_distinct_accounts(nodes);
            assert forall|q: int| 0 <= q < n implies #[trigger] credit(nodes, amount as int, q) >= 0 by {
                assert(credits@[q] == credit(nodes, amount as int, q) && credits@[q] >= 0);
            }
        }
        let mut j: usize = 0;
        while j < n
            invariant
                n == nodes.len(),
                n == accounts@.len(),
                n == new_pending@.len(),
                j <= n,
                forall|x: int, y: int| 0 <= x < y < n ==> #[trigger] nodes[x].account != #[trigger] nodes[y].account,
                forall|q: int| 0 <= q < n ==> #[trigger] accounts@[q] == nodes[q].account,
                forall|q: int| 0 <= q < n ==> #[trigger] new_pending@[q]
                    == old(self)@.balance(agreement_id, nodes[q].account) + credit(nodes, amount as int, q),
                forall|q: int| 0 <= q < n ==> #[trigger] credit(nodes, amount as int, q) >= 0,
                self@.agreements == old(self)@.agreements,
                old(self)@.wf(),
                nodes == old(self)@.agreements[agreement_id].nodes@,
                old(self)@.agreements.contains_key(agreement_id),
                self@.admin == old(self)@.admin && self@.paused == old(self)@.paused,
                self@.agreement_count == old(self)@.agreement_count,
                forall|q: int| 0 <= q < j ==> #[trigger] self@.balance(agreement_id, nodes[q].account) == new_pending@[q],
                forall|id: u64, acct: u64| (id != agreement_id || forall|q: int| 0 <= q < j ==> nodes[q].account != acct)
                    ==> #[trigger] self@.balance(id, acct) == old(self)@.balance(id, acct),
            decreases n - j,
        {
            let key = make_pending_key(agreement_id, accounts[j]);
            let ghost before = self@.pending;
            let ghost prev = self@;
            self.pending.insert(key, new_pending[j]);
            proof {
                assert(self@.pending == before.insert(key, new_pending@[j as int]));
                assert(key == pending_key(agreement_id, nodes[j as int].account));
                assert(self@.balance(agreement_id, nodes[j as int].account) == new_pending@[j as int]);
                assert forall|q: int| 0 <= q < j + 1 implies #[trigger] self@.balance(agreement_id, nodes[q].account) == new_pending@[q] by {
                    if q != j {
                        lemma_pending_key_injective(agreement_id, nodes[q].account, agreement_id, nodes[j as int].account);
                        assert(prev.balance(agreement_id, nodes[q].account) == new_pending@[q]);
                    }
                }
                assert forall|id: u64, acct: u64| (id != agreement_id || forall|q: int| 0 <= q < j + 1 ==> nodes[q].account != acct)
                    implies #[trigger] self@.balance(id, acct) == old(self)@.balance(id, acct) by {
                    lemma_pending_key_injective(id, acct, agreement_id, nodes[j as int].account);
                    if id == agreement_id {
                        assert(nodes[j as int].account != acct);
                    }
                    assert(prev.balance(id, acct) == old(self)@.balance(id, acct));
                }
            }
            j = j + 1;
        }
        let ghost after_loop = self@;
        let agreement = match self.agreements.remove(&agreement_id) {
            Some(a) => a,
            None => return Err(Error::AgreementNotFound),
        };
        self.agreements.insert(agreement_id, Agreement { total_received: new_total, ..agreement });
        proof {
            assert(self@.agreements =~= old(self)@.agreements.insert(agreement_id, Agreement {
                total_received: (old(self)@.agreements[agreement_id].total_received + amount) as i128,
                ..old(self)@.agreements[agreement_id]
            }));
            assert forall|i: int| 0 <= i < nodes.len() implies #[trigger] self@.balance(agreement_id, nodes[i].account)
                == old(self)@.balance(agreement_id, nodes[i].account) + credit(nodes, amount as int, i) by {
                assert(after_loop.balance(agreement_id, nodes[i].account) == new_pending@[i]);
            }
            assert forall|id: u64, acct: u64| (id != agreement_id || forall|i: int| 0 <= i < nodes.len() ==> nodes[i].account != acct)
                implies #[trigger] self@.balance(id, acct) == old(self)@.balance(id, acct) by {
                assert(after_loop.balance(id, acct) == old(self)@.balance(id, acct));
            }
            assert forall|id: u64, acct: u64| #[trigger] pending_amount(self@.pending, id, acct) >= 0 by {
                if id == agreement_id && exists|q: int| 0 <= q < n && nodes[q].account == acct {
                    let q = choose|q: int| 0 <= q < n && nodes[q].account == acct;
                    assert(after_loop.balance(agreement_id, nodes[q].account) == new_pending@[q]);
                    assert(pending_amount(old(self)@.pending, id, acct) >= 0);
                } else {
                    assert(after_loop.balance(id, acct) == old(self)@.balance(id, acct));
                }
            }
            assert forall|id: u64, acct: u64| #[trigger] pending_amount(self@.pending, id, acct) > 0
                implies self@.agreements.contains_key(id) by {
                if id != agreement_id {
                    assert(after_loop.balance(id, acct) == old(self)@.balance(id, acct));
                }
            }
        }
        Ok(())
    }

    fn claim_one(&mut self, agreement_id: u64, recipient: u64) -> (r: Result<i128, Error>)
        requires
            old(self)@.wf(),
            old(self)@.admin is Some,
        ensures
            r == (if !old(self)@.agreements.contains_key(agreement_id) {
                Err(Error::AgreementNotFound)
            } else if old(self)@.balance(agreement_id, recipient) <= 0 {
                Err(Error::NothingToClaim)
            } else if !fits_i128(old(self)@.agreements[agreement_id].total_claimed + old(self)@.balance(agreement_id, recipient)) {
                Err(Error::ArithmeticError)
            } else {
                Ok(old(self)@.balance(agreement_id, recipient) as i128)
            }),
            r is Err ==> final(self)@ == old(self)@,
            r is Ok ==> final(self)@ == (RoyaltyView {
                pending: old(self)@.pending.insert(pending_key(agreement_id, recipient), 0),
                agreements: old(self)@.agreements.insert(agreement_id, Agreement {
                    total_claimed: (old(self)@.agreements[agreement_id].total_claimed + r->Ok_0) as i128,
                    ..old(self)@.agreements[agreement_id]
                }),
                ..old(self)@
            }),
            final(self)@.wf(),
    {
        if !self.agreements.contains_key(&agreement_id) {
            return Err(Error::AgreementNotFound);
        }
        let amount = self.balance_of(agreement_id, recipient);
        if amount <= 0 {
            return Err(Error::NothingToClaim);
        }
        let agreement = match self.agreements.remove(&agreement_id) {
            Some(a) => a,
            None => return Err(Error::AgreementNotFound),
        };
        let claimed = match agreement.total_claimed.checked_add(amount) {
            Some(v) => v,
            None => {
                self.agreements.insert(agreement_id, agreement);
                proof {
                    assert(self@.agreements =~= old(self)@.agreements);
                }
                return Err(Error::ArithmeticError);
            },
        };
        self.agreements.insert(agreement_id, Agreement { total_claimed: claimed, ..agreement });
        self.pending.insert(make_pending_key(agreement_id, recipient), 0);
        proof {
            assert(self@.agreements =~= old(self)@.agreements.insert(agreement_id, Agreement {
                total_claimed: (old(self)@.agreements[agreement_id].total_claimed + amount) as i128,
                ..old(self)@.agreements[agreement_id]
            }));
            assert forall|id: u64, acct: u64| #[trigger] pending_amount(self@.pending, id, acct) >= 0 by {
                lemma_pending_key_injective(id, acct, agreement_id, recipient);
                assert(pending_amount(old(self)@.pending, id, acct) >= 0);
            }
            assert forall|id: u64, acct: u64| #[trigger] pending_amount(self@.pending, id, acct) > 0
                implies self@.agreements.contains_key(id) by {
                lemma_pending_key_injective(id, acct, agreement_id, recipient);
                if pending_amount(old(self)@.pending, id, acct) > 0 {
                    assert(old(self)@.agreements.contains_key(id));
                }
            }
        }
        Ok(amount)
    }

    /// `recipient` claims its whole balance in an agreement; the host pays it.
    pub fn claim(&mut self, agreement_id: u64, recipient: u64) -> (r: Result<i128, Error>)
        requires
            old(self)@.wf(),
        ensures
            r == (if old(self)@.admin is None {
                Err(Error::NotInitialized)
            } else if !old(self)@.agreements.contains_key(agreement_id) {
                Err(Error::AgreementNotFound)
            } else if old(self)@.balance(agreement_id, recipient) <= 0 {
                Err(Error::NothingToClaim)
            } else if !fits_i128(old(self)@.agreements[agreement_id].total_claimed + old(self)@.balance(agreement_id, recipient)) {
                Err(Error::ArithmeticError)
            } else {
                Ok(old(self)@.balance(agreement_id, recipient) as i128)
            }),
            r is Err ==> final(self)@ == old(self)@,
            r is Ok ==> final(self)@ == (RoyaltyView {
                pending: old(self)@.pending.insert(pending_key(agreement_id, recipient), 0),
                agreements: old(self)@.agreements.insert(agreement_id, Agreement {
                    total_claimed: (old(self)@.agreements[agreement_id].total_claimed + r->Ok_0) as i128,
                    ..old(self)@.agreements[agreement_id]
                }),
                ..old(self)@
            }),
            final(self)@.wf(),
    {
        if self.admin.is_none() {
            return Err(Error::NotInitialized);
        }
        self.claim_one(agreement_id, recipient)
    }

    /// An operator claims for up to 20 distinct recipients at once, each
    /// paid only its own balance; recipients with nothing are skipped.
    /// Returns the total, which the host pays out recipient by recipient.
    pub fn claim_batch(&mut self, operator: u64, agreement_id: u64, recipients: &Vec<u64>) -> (r: Result<i128, Error>)
        requires
            old(self)@.wf(),
        ensures
            r == ({
                let total = batch_total(old(self)@.pending, agreement_id, recipients@);
                if old(self)@.admin is None {
                    Err(Error::NotInitialized)
                } else if recipients@.len() == 0 {
                    Err(Error::EmptyBatch)
                } else if recipients@.len() > MAX_BATCH {
                    Err(Error::BatchTooLarge)
                } else if exists|i: int, j: int| 0 <= i < j < recipients@.len() && recipients@[i] == recipients@[j] {
                    Err(Error::DuplicateAccount)
                } else if total > 0 && !old(self)@.agreements.contains_key(agreement_id) {
                    Err(Error::AgreementNotFound)
                } else if total > 0 && (!fits_i128(total)
                    || !fits_i128(old(self)@.agreements[agreement_id].total_claimed + total)) {
                    Err(Error::ArithmeticError)
                } else if total == 0 {
                    Err(Error::NothingToClaim)
                } else {
                    Ok(total as i128)
                }
            }),
            r is Err ==> final(self)@ == old(self)@,
            r is Ok ==> {
                &&& final(self)@.agreements == old(self)@.agreements.insert(agreement_id, Agreement {
                    total_claimed: (old(self)@.agreements[agreement_id].total_claimed + r->Ok_0) as i128,
                    ..old(self)@.agreements[agreement_id]
                })
                &&& forall|id: u64, acct: u64| #[trigger] final(self)@.balance(id, acct)
                    == if id == agreement_id && recipients@.contains(acct) { 0 } else { old(self)@.balance(id, acct) }
                &&& final(self)@.admin == old(self)@.admin && final(self)@.paused == old(self)@.paused
                &&& final(self)@.agreement_count == old(self)@.agreement_count
            },
            final(self)@.wf(),
    {
        if self.admin.is_none() {
            return Err(Error::NotInitialized);
        }
        let n = recipients.len();
        if n == 0 {
            return Err(Error::EmptyBatch);
        }
        if n > MAX_BATCH {
            return Err(Error::BatchTooLarge);
        }
        let mut i: usize = 0;
        while i < n
            invariant
                n == recipients@.len(),
                i <= n,
                1 <= n <= MAX_BATCH,
                self@ == old(self)@,
                old(self)@.wf(),
                old(self)@.admin is Some,
                forall|x: int, y: int| 0 <= x < y < n && x < i ==> recipients@[x] != recipients@[y],
            decreases n - i,
        {
            let mut j: usize = i + 1;
            while j < n
                invariant
                    n == recipients@.len(),
                    i < j <= n,
                    1 <= n <= MAX_BATCH,
                    self@ == old(self)@,
                    old(self)@.wf(),
                    old(self)@.admin is Some,
                    forall|x: int, y: int| 0 <= x < y < n && x < i ==> recipients@[x] != recipients@[y],
                    forall|y: int| i < y < j ==> recipients@[i as int] != recipients@[y],
                decreases n - j,
            {
                if recipients[i] == recipients[j] {
                    return Err(Error::DuplicateAccount);
                }
                j = j + 1;
            }
            i = i + 1;
        }
        // Work out the total before anything is written.
        let mut total: i128 = 0;
        let mut k: usize = 0;
        while k < n
            invariant
                n == recipients@.len(),
                k <= n,
                1 <= n <= MAX_BATCH,
                forall|x: int, y: int| 0 <= x < y < n ==> recipients@[x] != recipients@[y],
                self@ == old(self)@,
                old(self)@.wf(),
                old(self)@.admin is Some,
                total == batch_total(old(self)@.pending, agreement_id, recipients@.take(k as int)),
                total >= 0,
                total > 0 ==> old(self)@.agreements.contains_key(agreement_id),
            decreases n - k,
        {
            let amount = self.balance_of(agreement_id, recipients[k]);
            proof {
                assert(recipients@.take(k + 1).drop_last() =~= recipients@.take(k as int));
                assert(pending_amount(old(self)@.pending, agreement_id, recipients@[k as int]) >= 0);
            }
            if amount > 0 {
                if !self.agreements.contains_key(&agreement_id) {
                    proof {
                        lemma_batch_total_overflow(old(self)@, agreement_id, recipients@, (k + 1) as int);
                    }
                    return Err(Error::AgreementNotFound);
                }
                total = match total.checked_add(amount) {
                    Some(t) => t,
                    None => {
                        proof { lemma_batch_total_overflow(old(self)@, agreement_id, recipients@, (k + 1) as int); }
                        return Err(Error::ArithmeticError);
                    },
                };
            }
            k = k + 1;
        }
        proof {
            assert(recipients@.take(n as int) =~= recipients@);
        }
        if total == 0 {
            return Err(Error::NothingToClaim);
        }
        match self.agreements.get(&agreement_id) {
            Some(a) => {
                if a.total_claimed.checked_add(total).is_none() {
                    return Err(Error::ArithmeticError);
                }
            },
            None => return Err(Error::AgreementNotFound),
        }
        // Pay each recipient its balance.
        let ghost full = total;
        let mut paid: i128 = 0;
        let mut k: usize = 0;
        while k < n
            invariant
                n == recipients@.len(),
                1 <= n <= MAX_BATCH,
                k <= n,
                old(self)@.wf(),
                old(self)@.admin is Some,
                old(self)@.agreements.contains_key(agreement_id),
                full == batch_total(old(self)@.pending, agreement_id, recipients@),
                fits_i128(old(self)@.agreements[agreement_id].total_claimed + full),
                self@.wf(),
                self@.admin == old(self)@.admin && self@.paused == old(self)@.paused,
                self@.agreement_count == old(self)@.agreement_count,
                forall|x: int, y: int| 0 <= x < y < n ==> recipients@[x] != recipients@[y],
                paid == batch_total(old(self)@.pending, agreement_id, recipients@.take(k as int)),
                0 <= paid <= full,
                self@.agreements == old(self)@.agreements.insert(agreement_id, Agreement {
                    total_claimed: (old(self)@.agreements[agreement_id].total_claimed + paid) as i128,
                    ..old(self)@.agreements[agreement_id]
                }),
                forall|id: u64, acct: u64| #[trigger] self@.balance(id, acct)
                    == if id == agreement_id && recipients@.take(k as int).contains(acct) { 0 } else { old(self)@.balance(id, acct) },
            decreases n - k,
        {
            let recipient = recipients[k];
            let amount = self.balance_of(agreement_id, recipient);
            let ghost prefix = recipients@.take(k as int);
            proof {
                assert(recipients@.take(k + 1).drop_last() =~= prefix);
                assert(recipients@.take(k + 1).last() == recipient);
                assert(!prefix.contains(recipient)) by {
                    if prefix.contains(recipient) {
                        let x = choose|x: int| 0 <= x < prefix.len() && #[trigger] prefix[x] == recipient;
                        assert(recipients@[x] == recipients@[k as int]);
                    }
                }
                assert(amount == old(self)@.balance(agreement_id, recipient));
                assert(pending_amount(old(self)@.pending, agreement_id, recipient) >= 0);
                lemma_batch_total_overflow(old(self)@, agreement_id, recipients@, (k + 1) as int);
            }
            if amount > 0 {
                let ghost before = self@;
                let claimed = self.claim_one(agreement_id, recipient);
                match claimed {
                    Ok(_) => {},
                    Err(e) => return Err(e),
                }
                proof {
                    assert forall|id: u64, acct: u64| #[trigger] self@.balance(id, acct)
                        == if id == agreement_id && recipients@.take(k + 1).contains(acct) { 0 } else { old(self)@.balance(id, acct) } by {
                        lemma_pending_key_injective(id, acct, agreement_id, recipient);
                        assert(before.balance(id, acct) == if id == agreement_id && prefix.contains(acct) { 0 } else { old(self)@.balance(id, acct) });
                        if recipients@.take(k + 1).contains(acct) && !prefix.contains(acct) {
                            let x = choose|x: int| 0 <= x < k + 1 && #[trigger] recipients@.take(k + 1)[x] == acct;
                            if x < k {
                                assert(prefix[x] == acct);
                            }
                        }
                        if prefix.contains(acct) {
                            let x = choose|x: int| 0 <= x < prefix.len() && #[trigger] prefix[x] == acct;
                            assert(recipients@.take(k + 1)[x] == acct);
                        }
                    }
                    assert(self@.agreements =~= old(self)@.agreements.insert(agreement_id, Agreement {
                        total_claimed: (old(self)@.agreements[agreement_id].total_claimed + paid + amount) as i128,
                        ..old(self)@.agreements[agreement_id]
                    }));
                }
                paid = paid + amount;
            } else {
                proof {
                    assert forall|id: u64, acct: u64| #[trigger] self@.balance(id, acct)
                        == if id == agreement_id && recipients@.take(k + 1).contains(acct) { 0 } else { old(self)@.balance(id, acct) } by {
                        if id == agreement_id && acct == recipient {
                            assert(recipients@.take(k + 1)[k as int] == recipient);
                        }
                        if recipients@.take(k + 1).contains(acct) && !prefix.contains(acct) {
                            let x = choose|x: int| 0 <= x < k + 1 && #[trigger] recipients@.take(k + 1)[x] == acct;
                            if x < k {
                                assert(prefix[x] == acct);
                            }
                        }
                        if prefix.contains(acct) {
                            let x = choose|x: int| 0 <= x < prefix.len() && #[trigger] prefix[x] == acct;
                            assert(recipients@.take(k + 1)[x] == acct);
                        }
                    }
                }
            }
            k = k + 1;
        }
        proof {
            assert(recipients@.take(n as int) =~= recipients@);
        }
        Ok(total)
    }

    /// How a deposit of `amount` would be credited to each node; the
    /// credits add up to `amount`.
    pub fn preview(&self, agreement_id: u64, amount: i128) -> (r: Result<Vec<i128>, Error>)
        requires
            self@.wf(),
        ensures
            r is Err <==> (amount <= 0 || self@.lookup(agreement_id) is Err
                || !split_fits(self@.agreements[agreement_id].nodes@, amount as int)),
            r is Err ==> r->Err_0 == (if amount <= 0 {
                Error::InvalidAmount
            } else if self@.lookup(agreement_id) is Err {
                self@.lookup(agreement_id)->Err_0
            } else {
                Error::ArithmeticError
            }),
            r is Ok ==> {
                let nodes = self@.agreements[agreement_id].nodes@;
                &&& r->Ok_0@.len() == nodes.len()
                &&& forall|p: int| 0 <= p < nodes.len() ==> #[trigger] r->Ok_0@[p] == credit(nodes, amount as int, p)
                &&& forall|p: int| 0 <= p < nodes.len() ==> #[trigger] r->Ok_0@[p] >= 0
                &&& range_sum(|i: int| r->Ok_0@[i] as int, 0, nodes.len() as int) == amount
            },
    {
        if amount <= 0 {
            return Err(Error::InvalidAmount);
        }
        if self.admin.is_none() {
            return Err(Error::NotInitialized);
        }
        let agreement = match self.agreements.get(&agreement_id) {
            Some(a) => a,
            None => return Err(Error::AgreementNotFound),
        };
        proof {
            lemma_valid_tree_shape(agreement.nodes@);
        }
        let credits = allocate(amount, &agreement.nodes)?;
        proof {
            let nodes = agreement.nodes@;
            lemma_credits_sum_to_amount(nodes, amount as int);
            tree::lemma_range_sum_ext_pub(|i: int| credits@[i] as int, |i: int| credit(nodes, amount as int, i), 0, nodes.len() as int);
        }
        Ok(credits)
    }
}


/// Once the running total of a batch overflows (or cannot be added to
/// the claimed total), so does the whole batch's total: balances are never
/// negative.
proof fn lemma_batch_total_overflow(s: RoyaltyView, agreement_id: u64, recipients: Seq<u64>, k: int)
    requires
        s.wf(),
        0 <= k <= recipients.len(),
    ensures
        0 <= batch_total(s.pending, agreement_id, recipients.take(k)) <= batch_total(s.pending, agreement_id, recipients),
    decreases recipients.len(),
{
    if recipients.len() > 0 {
        if k == recipients.len() {
            assert(recipients.take(k) =~= recipients);
            lemma_batch_total_nonneg(s, agreement_id, recipients);
        } else {
            lemma_batch_total_overflow(s, agreement_id, recipients.drop_last(), k);
            assert(recipients.drop_last().take(k) =~= recipients.take(k));
            assert(pending_amount(s.pending, agreement_id, recipients.last()) >= 0);
        }
    } else {
        assert(recipients.take(k) =~= recipients);
    }
}

proof fn lemma_batch_total_nonneg(s: RoyaltyView, agreement_id: u64, recipients: Seq<u64>)
    requires
        s.wf(),
    ensures
        batch_total(s.pending, agreement_id, recipients) >= 0,
    decreases recipients.len(),
{
    if recipients.len() > 0 {
        lemma_batch_total_nonneg(s, agreement_id, recipients.drop_last());
        assert(pending_amount(s.pending, agreement_id, recipients.last()) >= 0);
    }
}

/// A valid tree names each account once.
proof fn lemma_distinct_accounts(nodes: Seq<RoyaltyNode>)
    requires
        tree_validation(nodes) is Ok,
    ensures
        forall|x: int, y: int| 0 <= x < y < nodes.len() ==> #[trigger] nodes[x].account != #[trigger] nodes[y].account,
{
    tree::lemma_checks_all_ok(nodes);
    assert forall|x: int, y: int| 0 <= x < y < nodes.len() implies #[trigger] nodes[x].account != #[trigger] nodes[y].account by {
        assert(tree::node_check(nodes, y) is Ok);
    }
}

} // verus!
