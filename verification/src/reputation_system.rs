//! Per-account reputation scores with admin-controlled adjustments and peer
//! endorsements. Every score stays within `[MIN_SCORE, MAX_SCORE]`.
//!
//! Accounts are numbers; the host verifies signatures (the admin's for
//! administration, the endorser's for endorsements) and passes the ledger
//! time as `now`.
use std::collections::HashMap;
use vstd::prelude::*;

verus! {

broadcast use vstd::std_specs::hash::group_hash_axioms;

/// The highest score.
pub const MAX_SCORE: i64 = 1_000_000;
/// The lowest score.
pub const MIN_SCORE: i64 = -100_000;
/// What one endorsement adds to a score.
pub const ENDORSEMENT_BONUS: i64 = 10;

#[derive(Copy, Clone, Debug, PartialEq, Eq, Structural)]
pub enum Error {
    AlreadyInitialized,
    NotInitialized,
    Unauthorized,
    SubjectNotFound,
    AlreadyRegistered,
    ZeroDelta,
    DeltaTooLarge,
    SelfEndorsement,
    AlreadyEndorsed,
    SubjectNotRegistered,
}

/// One account's reputation.
#[derive(Copy, Clone, Debug, PartialEq, Eq, Structural)]
pub struct ReputationRecord {
    pub subject: u64,
    pub score: i64,
    pub positive_events: u32,
    pub negative_events: u32,
    pub endorsements: u32,
    pub registered_at: u64,
    pub last_updated: u64,
}

/// `x` clamped to `[MIN_SCORE, MAX_SCORE]`.
pub open spec fn clamp_score(x: int) -> int {
    if x < MIN_SCORE { MIN_SCORE as int } else if x > MAX_SCORE { MAX_SCORE as int } else { x }
}

/// `x` saturated to the range of `i64`.
pub open spec fn sat_i64(x: int) -> int {
    if x < i64::MIN { i64::MIN as int } else if x > i64::MAX { i64::MAX as int } else { x }
}

/// `n + 1`, saturating at `u32::MAX`.
pub open spec fn bump(n: u32) -> u32 {
    if n == u32::MAX { n } else { (n + 1) as u32 }
}

/// The storage key of an endorsement.
pub open spec fn endorse_key(endorser: u64, subject: u64) -> u128 {
    (endorser * 0x1_0000_0000_0000_0000 + subject) as u128
}

fn make_endorse_key(endorser: u64, subject: u64) -> (r: u128)
    ensures
        r == endorse_key(endorser, subject),
{
    assert(endorser * 0x1_0000_0000_0000_0000 + subject <= u128::MAX) by (nonlinear_arith)
        requires endorser <= u64::MAX, subject <= u64::MAX;
    (endorser as u128) * 0x1_0000_0000_0000_0000 + (subject as u128)
}

/// The abstract contents of the contract's storage.
pub struct ReputationView {
    pub admin: Option<u64>,
    pub initialized: bool,
    pub records: Map<u64, ReputationRecord>,
    pub endorsed: Map<u128, bool>,
}

/// The contract's storage.
pub struct ReputationSystemContract {
    pub admin: Option<u64>,
    pub initialized: bool,
    pub records: HashMap<u64, ReputationRecord>,
    pub endorsed: HashMap<u128, bool>,
}

impl View for ReputationSystemContract {
    type V = ReputationView;

    open spec fn view(&self) -> ReputationView {
        ReputationView {
            admin: self.admin,
            initialized: self.initialized,
            records: self.records@,
            endorsed: self.endorsed@,
        }
    }
}

impl ReputationView {
    /// Every score is within `[MIN_SCORE, MAX_SCORE]` and filed under its
    /// own subject.
    pub open spec fn wf(self) -> bool {
        forall|s: u64| #[trigger] self.records.contains_key(s) ==> {
            &&& MIN_SCORE <= self.records[s].score <= MAX_SCORE
            &&& self.records[s].subject == s
        }
    }

    /// The admin, once the contract is initialized.
    pub open spec fn require_admin(self) -> Result<u64, Error> {
        if !self.initialized || self.admin is None {
            Err(Error::NotInitialized)
        } else {
            Ok(self.admin->Some_0)
        }
    }

    /// What an award or a slash of `delta` on `subject` returns, given the
    /// new score it computes.
    pub open spec fn adjust_outcome(self, subject: u64, delta: i64, new_score: int) -> Result<i64, Error> {
        if self.require_admin() is Err {
            Err(Error::NotInitialized)
        } else if delta == 0 {
            Err(Error::ZeroDelta)
        } else if delta < 0 || delta > MAX_SCORE {
            Err(Error::DeltaTooLarge)
        } else if !self.records.contains_key(subject) {
            Err(Error::SubjectNotFound)
        } else {
            Ok(new_score as i64)
        }
    }
}

impl ReputationSystemContract {
    /// A contract with empty storage.
    pub fn new() -> (r: Self)
        ensures
            r@.admin is None && !r@.initialized,
            r@.records == Map::<u64, ReputationRecord>::empty(),
            r@.endorsed == Map::<u128, bool>::empty(),
            r@.wf(),
    {
        ReputationSystemContract {
            admin: None,
            initialized: false,
            records: HashMap::new(),
            endorsed: HashMap::new(),
        }
    }

    pub fn initialize(&mut self, admin: u64) -> (r: Result<(), Error>)
        ensures
            r == (if old(self)@.initialized { Err(Error::AlreadyInitialized) } else { Ok(()) }),
            r is Err ==> final(self)@ == old(self)@,
            r is Ok ==> final(self)@ == (ReputationView { admin: Some(admin), initialized: true, ..old(self)@ }),
            old(self)@.wf() ==> final(self)@.wf(),
    {
        if self.initialized {
            return Err(Error::AlreadyInitialized);
        }
        self.admin = Some(admin);
        self.initialized = true;
        Ok(())
    }

    fn require_admin(&self) -> (r: Result<u64, Error>)
        ensures
            r == self@.require_admin(),
    {
        if !self.initialized {
            return Err(Error::NotInitialized);
        }
        match self.admin {
            Some(a) => Ok(a),
            None => Err(Error::NotInitialized),
        }
    }

    /// Hand admin rights to `new_admin`.
    pub fn transfer_admin(&mut self, new_admin: u64) -> (r: Result<(), Error>)
        ensures
            r == (match old(self)@.require_admin() {
                Ok(_) => Ok(()),
                Err(e) => Err(e),
            }),
            r is Err ==> final(self)@ == old(self)@,
            r is Ok ==> final(self)@ == (ReputationView { admin: Some(new_admin), ..old(self)@ }),
            old(self)@.wf() ==> final(self)@.wf(),
    {
        self.require_admin()?;
        self.admin = Some(new_admin);
        Ok(())
    }

    /// Register `subject` at `now` with a zero score.
    pub fn register(&mut self, subject: u64, now: u64) -> (r: Result<(), Error>)
        ensures
            r == (if !old(self)@.initialized {
                Err(Error::NotInitialized)
            } else if old(self)@.records.contains_key(subject) {
                Err(Error::AlreadyRegistered)
            } else {
                Ok(())
            }),
            r is Err ==> final(self)@ == old(self)@,
            r is Ok ==> final(self)@ == (ReputationView {
                records: old(self)@.records.insert(subject, ReputationRecord {
                    subject,
                    score: 0,
                    positive_events: 0,
                    negative_events: 0,
                    endorsements: 0,
                    registered_at: now,
                    last_updated: now,
                }),
                ..old(self)@
            }),
            old(self)@.wf() ==> final(self)@.wf(),
    {
        if !self.initialized {
            return Err(Error::NotInitialized);
        }
        if self.records.contains_key(&subject) {
            return Err(Error::AlreadyRegistered);
        }
        self.records.insert(subject, ReputationRecord {
            subject,
            score: 0,
            positive_events: 0,
            negative_events: 0,
            endorsements: 0,
            registered_at: now,
            last_updated: now,
        });
        Ok(())
    }

    /// Raise `subject`'s score by `delta` (1 to `MAX_SCORE`) at `now`,
    /// clamped to the score range; returns the new score.
    pub fn award(&mut self, subject: u64, delta: i64, now: u64) -> (r: Result<i64, Error>)
        ensures
            r == old(self)@.adjust_outcome(subject, delta,
                clamp_score(sat_i64(old(self)@.records[subject].score + delta))),
            r is Err ==> final(self)@ == old(self)@,
            r is Ok ==> final(self)@ == (ReputationView {
                records: old(self)@.records.insert(subject, ReputationRecord {
                    score: r->Ok_0,
                    positive_events: bump(old(self)@.records[subject].positive_events),
                    last_updated: now,
                    ..old(self)@.records[subject]
                }),
                ..old(self)@
            }),
            old(self)@.wf() ==> final(self)@.wf(),
    {
        self.require_admin()?;
        Self::validate_delta(delta)?;
        let record = match self.records.get(&subject) {
            Some(r) => *r,
            None => return Err(Error::SubjectNotFound),
        };
        let score = Self::saturating_add(record.score, delta);
        let positive_events = if record.positive_events == u32::MAX { u32::MAX } else { record.positive_events + 1 };
        self.records.insert(subject, ReputationRecord { score, positive_events, last_updated: now, ..record });
        Ok(score)
    }

    /// Lower `subject`'s score by `delta` (1 to `MAX_SCORE`) at `now`,
    /// clamped to the score range; returns the new score.
    pub fn slash(&mut self, subject: u64, delta: i64, now: u64) -> (r: Result<i64, Error>)
        ensures
            r == old(self)@.adjust_outcome(subject, delta,
                clamp_score(sat_i64(old(self)@.records[subject].score - delta))),
            r is Err ==> final(self)@ == old(self)@,
            r is Ok ==> final(self)@ == (ReputationView {
                records: old(self)@.records.insert(subject, ReputationRecord {
                    score: r->Ok_0,
                    negative_events: bump(old(self)@.records[subject].negative_events),
                    last_updated: now,
                    ..old(self)@.records[subject]
                }),
                ..old(self)@
            }),
            old(self)@.wf() ==> final(self)@.wf(),
    {
        self.require_admin()?;
        Self::validate_delta(delta)?;
        let record = match self.records.get(&subject) {
            Some(r) => *r,
            None => return Err(Error::SubjectNotFound),
        };
        let score = Self::saturating_sub(record.score, delta);
        let negative_events = if record.negative_events == u32::MAX { u32::MAX } else { record.negative_events + 1 };
        self.records.insert(subject, ReputationRecord { score, negative_events, last_updated: now, ..record });
        Ok(score)
    }

    /// Set `subject`'s score at `now` to `score` clamped to the score range;
    /// returns the new score.
    pub fn set_score(&mut self, subject: u64, score: i64, now: u64) -> (r: Result<i64, Error>)
        ensures
            r == (if old(self)@.require_admin() is Err {
                Err(Error::NotInitialized)
            } else if !old(self)@.records.contains_key(subject) {
                Err(Error::SubjectNotFound)
            } else {
                Ok(clamp_score(score as int) as i64)
            }),
            r is Err ==> final(self)@ == old(self)@,
            r is Ok ==> final(self)@ == (ReputationView {
                records: old(self)@.records.insert(subject, ReputationRecord {
                    score: r->Ok_0,
                    last_updated: now,
                    ..old(self)@.records[subject]
                }),
                ..old(self)@
            }),
            old(self)@.wf() ==> final(self)@.wf(),
    {
        self.require_admin()?;
        let record = match self.records.get(&subject) {
            Some(r) => *r,
            None => return Err(Error::SubjectNotFound),
        };
        let clamped = if score < MIN_SCORE { MIN_SCORE } else if score > MAX_SCORE { MAX_SCORE } else { score };
        self.records.insert(subject, ReputationRecord { score: clamped, last_updated: now, ..record });
        Ok(clamped)
    }

    /// `endorser` endorses `subject` once at `now`, adding
    /// `ENDORSEMENT_BONUS` to its score (clamped).
    pub fn endorse(&mut self, endorser: u64, subject: u64, now: u64) -> (r: Result<(), Error>)
        ensures
            r == (if !old(self)@.initialized {
                Err(Error::NotInitialized)
            } else if endorser == subject {
                Err(Error::SelfEndorsement)
            } else if !old(self)@.records.contains_key(subject) {
                Err(Error::SubjectNotRegistered)
            } else if old(self)@.endorsed.contains_key(endorse_key(endorser, subject)) {
                Err(Error::AlreadyEndorsed)
            } else {
                Ok(())
            }),
            r is Err ==> final(self)@ == old(self)@,
            r is Ok ==> final(self)@ == (ReputationView {
                endorsed: old(self)@.endorsed.insert(endorse_key(endorser, subject), true),
                records: old(self)@.records.insert(subject, ReputationRecord {
                    score: clamp_score(sat_i64(old(self)@.records[subject].score + ENDORSEMENT_BONUS)) as i64,
                    endorsements: bump(old(self)@.records[subject].endorsements),
                    last_updated: now,
                    ..old(self)@.records[subject]
                }),
                ..old(self)@
            }),
            old(self)@.wf() ==> final(self)@.wf(),
    {
        if !self.initialized {
            return Err(Error::NotInitialized);
        }
        if endorser == subject {
            return Err(Error::SelfEndorsement);
        }
        let record = match self.records.get(&subject) {
            Some(r) => *r,
            None => return Err(Error::SubjectNotRegistered),
        };
        let key = make_endorse_key(endorser, subject);
        if self.endorsed.contains_key(&key) {
            return Err(Error::AlreadyEndorsed);
        }
        self.endorsed.insert(key, true);
        let endorsements = if record.endorsements == u32::MAX { u32::MAX } else { record.endorsements + 1 };
        let score = Self::saturating_add(record.score, ENDORSEMENT_BONUS);
        self.records.insert(subject, ReputationRecord { score, endorsements, last_updated: now, ..record });
        Ok(())
    }

    pub fn get_record(&self, subject: u64) -> (r: Result<ReputationRecord, Error>)
        ensures
            r == (if self@.records.contains_key(subject) {
                Ok(self@.records[subject])
            } else {
                Err(Error::SubjectNotFound)
            }),
    {
        match self.records.get(&subject) {
            Some(r) => Ok(*r),
            None => Err(Error::SubjectNotFound),
        }
    }

    pub fn get_score(&self, subject: u64) -> (r: Result<i64, Error>)
        ensures
            r == (if self@.records.contains_key(subject) {
                Ok(self@.records[subject].score)
            } else {
                Err(Error::SubjectNotFound)
            }),
    {
        match self.records.get(&subject) {
            Some(r) => Ok(r.score),
            None => Err(Error::SubjectNotFound),
        }
    }

    pub fn is_registered(&self, subject: u64) -> (r: bool)
        ensures
            r == self@.records.contains_key(subject),
    {
        self.records.contains_key(&subject)
    }

    pub fn has_endorsed(&self, endorser: u64, subject: u64) -> (r: bool)
        ensures
            r == self@.endorsed.contains_key(endorse_key(endorser, subject)),
    {
        self.endorsed.contains_key(&make_endorse_key(endorser, subject))
    }

    pub fn get_admin(&self) -> (r: Result<u64, Error>)
        ensures
            r == (match self@.admin {
                Some(a) => Ok(a),
                None => Err(Error::NotInitialized),
            }),
    {
        match self.admin {
            Some(a) => Ok(a),
            None => Err(Error::NotInitialized),
        }
    }

    pub fn is_initialized(&self) -> (r: bool)
        ensures
            r == self@.initialized,
    {
        self.initialized
    }

    /// A delta must be positive and at most `MAX_SCORE`.
    pub fn validate_delta(delta: i64) -> (r: Result<(), Error>)
        ensures
            r == (if delta == 0 {
                Err(Error::ZeroDelta)
            } else if delta < 0 || delta > MAX_SCORE {
                Err(Error::DeltaTooLarge)
            } else {
                Ok(())
            }),
    {
        if delta == 0 {
            return Err(Error::ZeroDelta);
        }
        if delta < 0 || delta > MAX_SCORE {
            return Err(Error::DeltaTooLarge);
        }
        Ok(())
    }

    /// `score + delta`, saturating at the bounds of `i64`, then clamped to
    /// the score range.
    pub fn saturating_add(score: i64, delta: i64) -> (r: i64)
        ensures
            r == clamp_score(sat_i64(score + delta)),
            MIN_SCORE <= r <= MAX_SCORE,
    {
        let s = match score.checked_add(delta) {
            Some(v) => v,
            None => if delta > 0 { i64::MAX } else { i64::MIN },
        };
        if s < MIN_SCORE { MIN_SCORE } else if s > MAX_SCORE { MAX_SCORE } else { s }
    }

    /// `score - delta`, saturating at the bounds of `i64`, then clamped to
    /// the score range.
    pub fn saturating_sub(score: i64, delta: i64) -> (r: i64)
        ensures
            r == clamp_score(sat_i64(score - delta)),
            MIN_SCORE <= r <= MAX_SCORE,
    {
        let s = match score.checked_sub(delta) {
            Some(v) => v,
            None => if delta < 0 { i64::MAX } else { i64::MIN },
        };
        if s < MIN_SCORE { MIN_SCORE } else if s > MAX_SCORE { MAX_SCORE } else { s }
    }
}

} // verus!
