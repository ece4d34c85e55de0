//! Charity campaigns with milestone-based fund release: organizers open
//! campaigns with a goal and a number of milestones, donors give until the
//! goal is reached (which closes the campaign), organizers mark milestones
//! complete with a proof, and the admin verifies each completed milestone,
//! releasing its target amount.
//!
//! Accounts and the donation token are numbers; text is UTF-8 bytes. The
//! host verifies signatures, passes the ledger time as `now` and moves the
//! tokens a successful call implies.
use std::collections::HashMap;
use vstd::prelude::*;

use crate::bytes::copy_bytes;
use crate::fixed::fits_i128;

verus! {

broadcast use vstd::std_specs::hash::group_hash_axioms;

/// The most milestones a campaign may have.
pub const MAX_MILESTONES: u32 = 20;

#[derive(Copy, Clone, Debug, PartialEq, Eq, Structural)]
pub enum CharityError {
    NotInitialized,
    AlreadyInitialized,
    Unauthorized,
    InvalidParameters,
    CampaignNotFound,
    MilestoneNotFound,
    MilestoneAlreadyCompleted,
    InsufficientFunds,
    CampaignNotActive,
    MilestoneNotApproved,
    DonationFailed,
    InvalidMilestoneStatus,
}

#[derive(Debug)]
pub struct CharityCampaign {
    pub id: u32,
    pub organizer: u64,
    pub charity_name: Vec<u8>,
    pub description: Vec<u8>,
    pub goal_amount: i128,
    pub raised_amount: i128,
    pub milestone_count: u32,
    pub active: bool,
    pub created_at: u64,
}

#[derive(Debug)]
pub struct Milestone {
    pub id: u32,
    pub campaign_id: u32,
    pub description: Vec<u8>,
    pub target_amount: i128,
    pub released_amount: i128,
    pub completed: bool,
    pub verified: bool,
    pub proof_hash: Vec<u8>,
    pub completed_at: u64,
}

#[derive(Copy, Clone, Debug, PartialEq, Eq, Structural)]
pub struct Donation {
    pub id: u32,
    pub campaign_id: u32,
    pub donor: u64,
    pub amount: i128,
    pub timestamp: u64,
    pub receipt_issued: bool,
}

impl CharityCampaign {
    /// Field-by-field equality, comparing text by its bytes.
    pub open spec fn same(self, other: CharityCampaign) -> bool {
        &&& self.id == other.id
        &&& self.organizer == other.organizer
        &&& self.charity_name@ == other.charity_name@
        &&& self.description@ == other.description@
        &&& self.goal_amount == other.goal_amount
        &&& self.raised_amount == other.raised_amount
        &&& self.milestone_count == other.milestone_count
        &&& self.active == other.active
        &&& self.created_at == other.created_at
    }

    pub fn duplicate(&self) -> (r: CharityCampaign)
        ensures
            r.same(*self),
    {
        CharityCampaign {
            id: self.id,
            organizer: self.organizer,
            charity_name: copy_bytes(&self.charity_name),
            description: copy_bytes(&self.description),
            goal_amount: self.goal_amount,
            raised_amount: self.raised_amount,
            milestone_count: self.milestone_count,
            active: self.active,
            created_at: self.created_at,
        }
    }
}

impl Milestone {
    /// Field-by-field equality, comparing text by its bytes.
    pub open spec fn same(self, other: Milestone) -> bool {
        &&& self.id == other.id
        &&& self.campaign_id == other.campaign_id
        &&& self.description@ == other.description@
        &&& self.target_amount == other.target_amount
        &&& self.released_amount == other.released_amount
        &&& self.completed == other.completed
        &&& self.verified == other.verified
        &&& self.proof_hash@ == other.proof_hash@
        &&& self.completed_at == other.completed_at
    }

    pub fn duplicate(&self) -> (r: Milestone)
        ensures
            r.same(*self),
    {
        Milestone {
            id: self.id,
            campaign_id: self.campaign_id,
            description: copy_bytes(&self.description),
            target_amount: self.target_amount,
            released_amount: self.released_amount,
            completed: self.completed,
            verified: self.verified,
            proof_hash: copy_bytes(&self.proof_hash),
            completed_at: self.completed_at,
        }
    }
}

/// The storage key of a milestone, or of a campaign's n-th donation.
pub open spec fn pair_key(a: u32, b: u32) -> u64 {
    (a * 0x1_0000_0000 + b) as u64
}

fn make_pair_key(a: u32, b: u32) -> (r: u64)
    ensures
        r == pair_key(a, b),
{
    assert(a * 0x1_0000_0000 + b <= u64::MAX) by (nonlinear_arith)
        requires a <= u32::MAX, b <= u32::MAX;
    (a as u64) * 0x1_0000_0000 + (b as u64)
}

/// The abstract contents of the contract's storage.
pub struct CharityView {
    pub admin: Option<u64>,
    pub token: Option<u64>,
    pub campaign_count: u32,
    pub donation_count: u32,
    pub campaigns: Map<u32, CharityCampaign>,
    pub milestones: Map<u64, Milestone>,
    pub donations: Map<u32, Donation>,
    pub campaign_donations: Map<u64, u32>,
    pub total_donations: Map<u32, u32>,
}

/// The contract's storage.
pub struct CharityTrackerContract {
    pub admin: Option<u64>,
    pub token: Option<u64>,
    pub campaign_count: u32,
    pub donation_count: u32,
    pub campaigns: HashMap<u32, CharityCampaign>,
    pub milestones: HashMap<u64, Milestone>,
    pub donations: HashMap<u32, Donation>,
    pub campaign_donations: HashMap<u64, u32>,
    pub total_donations: HashMap<u32, u32>,
}

impl View for CharityTrackerContract {
    type V = CharityView;

    open spec fn view(&self) -> CharityView {
        CharityView {
            admin: self.admin,
            token: self.token,
            campaign_count: self.campaign_count,
            donation_count: self.donation_count,
            campaigns: self.campaigns@,
            milestones: self.milestones@,
            donations: self.donations@,
            campaign_donations: self.campaign_donations@,
            total_donations: self.total_donations@,
        }
    }
}

impl CharityView {
    pub open spec fn donations_of(self, campaign_id: u32) -> int {
        if self.total_donations.contains_key(campaign_id) { self.total_donations[campaign_id] as int } else { 0 }
    }

    /// Campaign ids are handed out in order from 1; a campaign has a
    /// positive goal, 1 to 20 milestones and a non-negative amount raised,
    /// and stays open only while that amount is below its goal; a verified
    /// milestone is completed and has released exactly its target, an
    /// unverified one nothing.
    pub open spec fn wf(self) -> bool {
        &&& forall|id: u32| #[trigger] self.campaigns.contains_key(id) ==> {
            let c = self.campaigns[id];
            &&& 1 <= id <= self.campaign_count
            &&& c.id == id
            &&& c.goal_amount > 0
            &&& 1 <= c.milestone_count <= MAX_MILESTONES
            &&& c.raised_amount >= 0
            &&& (c.active ==> c.raised_amount < c.goal_amount)
        }
        &&& forall|k: u64| #[trigger] self.milestones.contains_key(k) ==> {
            let m = self.milestones[k];
            &&& (m.verified ==> m.completed)
            &&& m.released_amount == (if m.verified { m.target_amount } else { 0 })
        }
        &&& forall|id: u32| #[trigger] self.donations.contains_key(id) ==> 1 <= id <= self.donation_count
    }

    /// What a donation of `amount` to `campaign_id` returns.
    pub open spec fn donate_outcome(self, campaign_id: u32, amount: i128) -> Result<u32, CharityError> {
        if amount <= 0 {
            Err(CharityError::InvalidParameters)
        } else if !self.campaigns.contains_key(campaign_id) {
            Err(CharityError::CampaignNotFound)
        } else if !self.campaigns[campaign_id].active {
            Err(CharityError::CampaignNotActive)
        } else if self.token is None {
            Err(CharityError::NotInitialized)
        } else {
            Ok((self.donation_count + 1) as u32)
        }
    }
}

impl CharityTrackerContract {
    /// A contract with empty storage.
    pub fn new() -> (r: Self)
        ensures
            r@.admin is None && r@.token is None,
            r@.campaign_count == 0 && r@.donation_count == 0,
            r@.campaigns == Map::<u32, CharityCampaign>::empty(),
            r@.milestones == Map::<u64, Milestone>::empty(),
            r@.donations == Map::<u32, Donation>::empty(),
            r@.campaign_donations == Map::<u64, u32>::empty(),
            r@.total_donations == Map::<u32, u32>::empty(),
            r@.wf(),
    {
        CharityTrackerContract {
            admin: None,
            token: None,
            campaign_count: 0,
            donation_count: 0,
            campaigns: HashMap::new(),
            milestones: HashMap::new(),
            donations: HashMap::new(),
            campaign_donations: HashMap::new(),
            total_donations: HashMap::new(),
        }
    }

    pub fn initialize(&mut self, admin: u64, token: u64) -> (r: Result<(), CharityError>)
        requires
            old(self)@.wf(),
        ensures
            r == (if old(self)@.admin is Some { Err(CharityError::AlreadyInitialized) } else { Ok(()) }),
            r is Err ==> final(self)@ == old(self)@,
            r is Ok ==> final(self)@ == (CharityView {
                admin: Some(admin),
                token: Some(token),
                campaign_count: 0,
                donation_count: 0,
                ..old(self)@
            }),
            old(self)@.campaigns.is_empty() && old(self)@.donations.is_empty() ==> final(self)@.wf(),
    {
        if self.admin.is_some() {
            return Err(CharityError::AlreadyInitialized);
        }
        self.admin = Some(admin);
        self.token = Some(token);
        self.campaign_count = 0;
        self.donation_count = 0;
        Ok(())
    }

    /// Open a campaign at `now`; returns its id.
    pub fn create_campaign(
        &mut self,
        organizer: u64,
        charity_name: Vec<u8>,
        description: Vec<u8>,
        goal_amount: i128,
        milestone_count: u32,
        now: u64,
    ) -> (r: Result<u32, CharityError>)
        requires
            old(self)@.wf(),
            goal_amount > 0 && 0 < milestone_count <= MAX_MILESTONES ==> old(self)@.campaign_count < u32::MAX,
        ensures
            r == (if goal_amount <= 0 || milestone_count == 0 || milestone_count > MAX_MILESTONES {
                Err(CharityError::InvalidParameters)
            } else {
                Ok((old(self)@.campaign_count + 1) as u32)
            }),
            r is Err ==> final(self)@ == old(self)@,
            r is Ok ==> final(self)@ == (CharityView {
                campaigns: old(self)@.campaigns.insert(r->Ok_0, CharityCampaign {
                    id: r->Ok_0,
                    organizer,
                    charity_name,
                    description,
                    goal_amount,
                    raised_amount: 0,
                    milestone_count,
                    active: true,
                    created_at: now,
                }),
                campaign_count: r->Ok_0,
                total_donations: old(self)@.total_donations.insert(r->Ok_0, 0),
                ..old(self)@
            }),
            final(self)@.wf(),
    {
        if goal_amount <= 0 || milestone_count == 0 || milestone_count > MAX_MILESTONES {
            return Err(CharityError::InvalidParameters);
        }
        let id = self.campaign_count + 1;
        let campaign = CharityCampaign {
            id,
            organizer,
            charity_name,
            description,
            goal_amount,
            raised_amount: 0,
            milestone_count,
            active: true,
            created_at: now,
        };
        self.campaigns.insert(id, campaign);
        self.campaign_count = id;
        self.total_donations.insert(id, 0);
        Ok(id)
    }

    /// The organizer defines milestone `milestone_id` (1 to the campaign's
    /// milestone count) of a campaign, replacing any earlier definition.
    pub fn add_milestone(
        &mut self,
        organizer: u64,
        campaign_id: u32,
        milestone_id: u32,
        description: Vec<u8>,
        target_amount: i128,
    ) -> (r: Result<(), CharityError>)
        requires
            old(self)@.wf(),
        ensures
            r == (if !old(self)@.campaigns.contains_key(campaign_id) {
                Err(CharityError::CampaignNotFound)
            } else if old(self)@.campaigns[campaign_id].organizer != organizer {
                Err(CharityError::Unauthorized)
            } else if milestone_id == 0 || milestone_id > old(self)@.campaigns[campaign_id].milestone_count
                || target_amount <= 0 {
                Err(CharityError::InvalidParameters)
            } else {
                Ok(())
            }),
            r is Err ==> final(self)@ == old(self)@,
            r is Ok ==> final(self)@ == (CharityView {
                milestones: old(self)@.milestones.insert(pair_key(campaign_id, milestone_id),
                    final(self)@.milestones[pair_key(campaign_id, milestone_id)]),
                ..old(self)@
            }),
            r is Ok ==> ({
                let m = final(self)@.milestones[pair_key(campaign_id, milestone_id)];
                &&& m.id == milestone_id && m.campaign_id == campaign_id
                &&& m.description@ == description@
                &&& m.target_amount == target_amount
                &&& m.released_amount == 0
                &&& !m.completed && !m.verified
                &&& m.proof_hash@ == Seq::<u8>::empty()
                &&& m.completed_at == 0
            }),
            final(self)@.wf(),
    {
        let campaign = match self.campaigns.get(&campaign_id) {
            Some(c) => c,
            None => return Err(CharityError::CampaignNotFound),
        };
        if campaign.organizer != organizer {
            return Err(CharityError::Unauthorized);
        }
        if milestone_id == 0 || milestone_id > campaign.milestone_count {
            return Err(CharityError::InvalidParameters);
        }
        if target_amount <= 0 {
            return Err(CharityError::InvalidParameters);
        }
        let milestone = Milestone {
            id: milestone_id,
            campaign_id,
            description,
            target_amount,
            released_amount: 0,
            completed: false,
            verified: false,
            proof_hash: Vec::new(),
            completed_at: 0,
        };
        self.milestones.insert(make_pair_key(campaign_id, milestone_id), milestone);
        Ok(())
    }

    /// `donor` gives `amount` to an open campaign at `now`; reaching the goal
    /// closes it. Returns the donation id; the host moves the tokens.
    pub fn donate(&mut self, donor: u64, campaign_id: u32, amount: i128, now: u64) -> (r: Result<u32, CharityError>)
        requires
            old(self)@.wf(),
            old(self)@.donate_outcome(campaign_id, amount) is Ok ==> {
                &&& old(self)@.donation_count < u32::MAX
                &&& old(self)@.donations_of(campaign_id) < u32::MAX
                &&& fits_i128(old(self)@.campaigns[campaign_id].raised_amount + amount)
            },
        ensures
            r == old(self)@.donate_outcome(campaign_id, amount),
            r is Err ==> final(self)@ == old(self)@,
            r is Ok ==> final(self)@ == (CharityView {
                donations: old(self)@.donations.insert(r->Ok_0, Donation {
                    id: r->Ok_0,
                    campaign_id,
                    donor,
                    amount,
                    timestamp: now,
                    receipt_issued: false,
                }),
                donation_count: r->Ok_0,
                campaign_donations: old(self)@.campaign_donations.insert(
                    pair_key(campaign_id, old(self)@.donations_of(campaign_id) as u32), r->Ok_0),
                total_donations: old(self)@.total_donations.insert(campaign_id,
                    (old(self)@.donations_of(campaign_id) + 1) as u32),
                campaigns: old(self)@.campaigns.insert(campaign_id, CharityCampaign {
                    raised_amount: (old(self)@.campaigns[campaign_id].raised_amount + amount) as i128,
                    active: old(self)@.campaigns[campaign_id].raised_amount + amount
                        < old(self)@.campaigns[campaign_id].goal_amount,
                    ..old(self)@.campaigns[campaign_id]
                }),
                ..old(self)@
            }),
            final(self)@.wf(),
    {
        if amount <= 0 {
            return Err(CharityError::InvalidParameters);
        }
        match self.campaigns.get(&campaign_id) {
            Some(c) => {
                if !c.active {
                    return Err(CharityError::CampaignNotActive);
                }
            },
            None => return Err(CharityError::CampaignNotFound),
        }
        if self.token.is_none() {
            return Err(CharityError::NotInitialized);
        }
        let id = self.donation_count + 1;
        self.donations.insert(id, Donation {
            id,
            campaign_id,
            donor,
            amount,
            timestamp: now,
            receipt_issued: false,
        });
        self.donation_count = id;
        let donation_index = match self.total_donations.get(&campaign_id) {
            Some(n) => *n,
            None => 0,
        };
        self.campaign_donations.insert(make_pair_key(campaign_id, donation_index), id);
        self.total_donations.insert(campaign_id, donation_index + 1);
        let campaign = match self.campaigns.remove(&campaign_id) {
            Some(c) => c,
            None => return Err(CharityError::CampaignNotFound),
        };
        let raised = campaign.raised_amount + amount;
        let goal = campaign.goal_amount;
        self.campaigns.insert(campaign_id, CharityCampaign {
            raised_amount: raised,
            active: raised < goal,
            ..campaign
        });
        proof {
            assert(self@.campaigns =~= old(self)@.campaigns.insert(campaign_id, self@.campaigns[campaign_id]));
        }
        Ok(id)
    }

    /// The organizer marks a milestone complete at `now`, recording its
    /// proof.
    pub fn complete_milestone(
        &mut self,
        organizer: u64,
        campaign_id: u32,
        milestone_id: u32,
        proof_hash: Vec<u8>,
        now: u64,
    ) -> (r: Result<(), CharityError>)
        requires
            old(self)@.wf(),
        ensures
            r == (if !old(self)@.campaigns.contains_key(campaign_id) {
                Err(CharityError::CampaignNotFound)
            } else if old(self)@.campaigns[campaign_id].organizer != organizer {
                Err(CharityError::Unauthorized)
            } else if !old(self)@.milestones.contains_key(pair_key(campaign_id, milestone_id)) {
                Err(CharityError::MilestoneNotFound)
            } else if old(self)@.milestones[pair_key(campaign_id, milestone_id)].completed {
                Err(CharityError::MilestoneAlreadyCompleted)
            } else {
                Ok(())
            }),
            r is Err ==> final(self)@ == old(self)@,
            r is Ok ==> final(self)@ == (CharityView {
                milestones: old(self)@.milestones.insert(pair_key(campaign_id, milestone_id), Milestone {
                    completed: true,
                    proof_hash,
                    completed_at: now,
                    ..old(self)@.milestones[pair_key(campaign_id, milestone_id)]
                }),
                ..old(self)@
            }),
            final(self)@.wf(),
    {
        match self.campaigns.get(&campaign_id) {
            Some(c) => {
                if c.organizer != organizer {
                    return Err(CharityError::Unauthorized);
                }
            },
            None => return Err(CharityError::CampaignNotFound),
        }
        let key = make_pair_key(campaign_id, milestone_id);
        match self.milestones.get(&key) {
            Some(m) => {
                if m.completed {
                    return Err(CharityError::MilestoneAlreadyCompleted);
                }
            },
            None => return Err(CharityError::MilestoneNotFound),
        }
        let milestone = match self.milestones.remove(&key) {
            Some(m) => m,
            None => return Err(CharityError::MilestoneNotFound),
        };
        self.milestones.insert(key, Milestone { completed: true, proof_hash, completed_at: now, ..milestone });
        proof {
            assert(self@.milestones =~= old(self)@.milestones.insert(key, self@.milestones[key]));
        }
        Ok(())
    }

    /// The admin verifies a completed milestone, releasing its target
    /// amount; returns that amount, which the host pays to the admin.
    pub fn verify_milestone(&mut self, admin: u64, campaign_id: u32, milestone_id: u32) -> (r: Result<i128, CharityError>)
        requires
            old(self)@.wf(),
        ensures
            r == (match old(self)@.admin {
                None => Err(CharityError::NotInitialized),
                Some(a) => if a != admin {
                    Err(CharityError::Unauthorized)
                } else if !old(self)@.milestones.contains_key(pair_key(campaign_id, milestone_id)) {
                    Err(CharityError::MilestoneNotFound)
                } else if !old(self)@.milestones[pair_key(campaign_id, milestone_id)].completed {
                    Err(CharityError::MilestoneNotApproved)
                } else if old(self)@.milestones[pair_key(campaign_id, milestone_id)].verified {
                    Err(CharityError::MilestoneAlreadyCompleted)
                } else if old(self)@.token is None {
                    Err(CharityError::NotInitialized)
                } else {
                    Ok(old(self)@.milestones[pair_key(campaign_id, milestone_id)].target_amount)
                },
            }),
            r is Err ==> final(self)@ == old(self)@,
            r is Ok ==> final(self)@ == (CharityView {
                milestones: old(self)@.milestones.insert(pair_key(campaign_id, milestone_id), Milestone {
                    verified: true,
                    released_amount: r->Ok_0,
                    ..old(self)@.milestones[pair_key(campaign_id, milestone_id)]
                }),
                ..old(self)@
            }),
            final(self)@.wf(),
    {
        match self.admin {
            None => return Err(CharityError::NotInitialized),
            Some(a) => {
                if a != admin {
                    return Err(CharityError::Unauthorized);
                }
            },
        }
        let key = make_pair_key(campaign_id, milestone_id);
        match self.milestones.get(&key) {
            Some(m) => {
                if !m.completed {
                    return Err(CharityError::MilestoneNotApproved);
                }
                if m.verified {
                    return Err(CharityError::MilestoneAlreadyCompleted);
                }
            },
            None => return Err(CharityError::MilestoneNotFound),
        }
        if self.token.is_none() {
            return Err(CharityError::NotInitialized);
        }
        let milestone = match self.milestones.remove(&key) {
            Some(m) => m,
            None => return Err(CharityError::MilestoneNotFound),
        };
        let target = milestone.target_amount;
        self.milestones.insert(key, Milestone { verified: true, released_amount: target, ..milestone });
        proof {
            assert(self@.milestones =~= old(self)@.milestones.insert(key, self@.milestones[key]));
        }
        Ok(target)
    }

    pub fn get_campaign(&self, campaign_id: u32) -> (r: Result<CharityCampaign, CharityError>)
        ensures
            r is Err <==> !self@.campaigns.contains_key(campaign_id),
            r is Err ==> r->Err_0 == CharityError::CampaignNotFound,
            r is Ok ==> r->Ok_0.same(self@.campaigns[campaign_id]),
    {
        match self.campaigns.get(&campaign_id) {
            Some(c) => Ok(c.duplicate()),
            None => Err(CharityError::CampaignNotFound),
        }
    }

    pub fn get_milestone(&self, campaign_id: u32, milestone_id: u32) -> (r: Result<Milestone, CharityError>)
        ensures
            r is Err <==> !self@.milestones.contains_key(pair_key(campaign_id, milestone_id)),
            r is Err ==> r->Err_0 == CharityError::MilestoneNotFound,
            r is Ok ==> r->Ok_0.same(self@.milestones[pair_key(campaign_id, milestone_id)]),
    {
        match self.milestones.get(&make_pair_key(campaign_id, milestone_id)) {
            Some(m) => Ok(m.duplicate()),
            None => Err(CharityError::MilestoneNotFound),
        }
    }

    pub fn get_donation(&self, donation_id: u32) -> (r: Result<Donation, CharityError>)
        ensures
            r == (if self@.donations.contains_key(donation_id) {
                Ok(self@.donations[donation_id])
            } else {
                Err(CharityError::DonationFailed)
            }),
    {
        match self.donations.get(&donation_id) {
            Some(d) => Ok(*d),
            None => Err(CharityError::DonationFailed),
        }
    }

    pub fn get_total_donations(&self, campaign_id: u32) -> (r: u32)
        ensures
            r == self@.donations_of(campaign_id),
    {
        match self.total_donations.get(&campaign_id) {
            Some(n) => *n,
            None => 0,
        }
    }
}

} // verus!
