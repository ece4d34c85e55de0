//! Parametric insurance: the admin defines products (premium, coverage and
//! a trigger on an oracle parameter), holders buy policies for a fixed term,
//! authorised oracles push readings, and a claim pays out automatically when
//! the latest reading breaches the trigger. Crop products settle instead
//! from a verified satellite rainfall observation; their policies are
//! funded from a token reserve that keeps their full coverage set aside.
//!
//! Accounts, oracles and tokens are numbers. The host verifies signatures,
//! passes the ledger time as `now`, fetches the satellite observation from
//! the product's weather oracle under the requested data id, reports the contract's settlement-token balance and
//! moves the tokens a successful call implies.
pub mod types;

use std::collections::HashMap;
use vstd::prelude::*;

pub use self::types::{
    CropTerms, DataSourceType, Error, OracleReading, Policy, PolicyStatus, Product, ReserveConfig,
    SatelliteWeatherData, TriggerDirection, WeatherDataStatus,
};
use crate::bytes::{bytes_equal, copy_bytes};
use crate::fixed::fits_i128;

verus! {

broadcast use vstd::std_specs::hash::group_hash_axioms;

/// Maximum age of an oracle reading used by a claim (24 hours).
pub const MAX_ORACLE_STALENESS_SECS: u64 = 86_400;
/// Longest observation window a crop product may accept (7 days).
pub const MAX_CROP_OBSERVATION_AGE_SECS: u64 = 604_800;

/// A reading together with the oracle that pushed it.
#[derive(Debug)]
pub struct ReadingRecord {
    pub oracle: u64,
    pub reading: OracleReading,
}

/// The abstract contents of the contract's storage.
pub struct InsuranceView {
    pub admin: Option<u64>,
    pub product_count: u32,
    pub policy_count: u32,
    pub products: Map<u32, Product>,
    pub policies: Map<u32, Policy>,
    pub oracles: Map<u64, bool>,
    /// Every reading pushed, oldest first; a lookup sees the latest.
    pub readings: Seq<ReadingRecord>,
    pub crop_terms: Map<u32, CropTerms>,
    pub reserve_config: Option<ReserveConfig>,
    pub total_reserved: i128,
    pub funded: Map<u32, bool>,
}

/// The contract's storage.
pub struct ParametricInsurance {
    pub admin: Option<u64>,
    pub product_count: u32,
    pub policy_count: u32,
    pub products: HashMap<u32, Product>,
    pub policies: HashMap<u32, Policy>,
    pub oracles: HashMap<u64, bool>,
    pub readings: Vec<ReadingRecord>,
    pub crop_terms: HashMap<u32, CropTerms>,
    pub reserve_config: Option<ReserveConfig>,
    pub total_reserved: i128,
    pub funded: HashMap<u32, bool>,
}

impl View for ParametricInsurance {
    type V = InsuranceView;

    open spec fn view(&self) -> InsuranceView {
        InsuranceView {
            admin: self.admin,
            product_count: self.product_count,
            policy_count: self.policy_count,
            products: self.products@,
            policies: self.policies@,
            oracles: self.oracles@,
            readings: self.readings@,
            crop_terms: self.crop_terms@,
            reserve_config: self.reserve_config,
            total_reserved: self.total_reserved,
            funded: self.funded@,
        }
    }
}

impl Product {
    /// Field-by-field equality, comparing text by its bytes.
    pub open spec fn same(self, other: Product) -> bool {
        &&& self.name@ == other.name@
        &&& self.premium == other.premium
        &&& self.coverage_amount == other.coverage_amount
        &&& self.oracle == other.oracle
        &&& self.parameter_key@ == other.parameter_key@
        &&& self.trigger_threshold == other.trigger_threshold
        &&& self.trigger_direction == other.trigger_direction
        &&& self.term_secs == other.term_secs
        &&& self.is_active == other.is_active
    }

    pub fn duplicate(&self) -> (r: Product)
        ensures
            r.same(*self),
    {
        Product {
            name: copy_bytes(&self.name),
            premium: self.premium,
            coverage_amount: self.coverage_amount,
            oracle: self.oracle,
            parameter_key: copy_bytes(&self.parameter_key),
            trigger_threshold: self.trigger_threshold,
            trigger_direction: self.trigger_direction,
            term_secs: self.term_secs,
            is_active: self.is_active,
        }
    }
}

impl OracleReading {
    pub open spec fn same(self, other: OracleReading) -> bool {
        self.parameter_key@ == other.parameter_key@ && self.value == other.value
            && self.timestamp == other.timestamp
    }

    pub fn duplicate(&self) -> (r: OracleReading)
        ensures
            r.same(*self),
    {
        OracleReading {
            parameter_key: copy_bytes(&self.parameter_key),
            value: self.value,
            timestamp: self.timestamp,
        }
    }
}

impl CropTerms {
    pub open spec fn same(self, other: CropTerms) -> bool {
        self.region@ == other.region@ && self.max_observation_age == other.max_observation_age
    }

    pub fn duplicate(&self) -> (r: CropTerms)
        ensures
            r.same(*self),
    {
        CropTerms { region: copy_bytes(&self.region), max_observation_age: self.max_observation_age }
    }
}

/// The trigger condition of a product on an observed value.
pub open spec fn is_triggered(direction: TriggerDirection, value: int, threshold: int) -> bool {
    match direction {
        TriggerDirection::AtOrAbove => value >= threshold,
        TriggerDirection::AtOrBelow => value <= threshold,
    }
}

fn triggered(direction: TriggerDirection, value: i128, threshold: i128) -> (r: bool)
    ensures
        r == is_triggered(direction, value as int, threshold as int),
{
    match direction {
        TriggerDirection::AtOrAbove => value >= threshold,
        TriggerDirection::AtOrBelow => value <= threshold,
    }
}

/// The most recent reading pushed by `oracle` for `key`.
pub open spec fn latest_reading(readings: Seq<ReadingRecord>, oracle: u64, key: Seq<u8>) -> Option<OracleReading>
    decreases readings.len(),
{
    if readings.len() == 0 {
        None
    } else if readings.last().oracle == oracle && readings.last().reading.parameter_key@ == key {
        Some(readings.last().reading)
    } else {
        latest_reading(readings.drop_last(), oracle, key)
    }
}

/// The bytes of the parameter key under which crop products are settled.
pub open spec fn sat_rain_key() -> Seq<u8> {
    seq![83u8, 65u8, 84u8, 95u8, 82u8, 65u8, 73u8, 78u8]
}

/// `a - b`, or 0 where `b > a`.
pub open spec fn sat_sub_u64(a: u64, b: u64) -> int {
    if a >= b { a - b } else { 0 }
}

/// The coverage a policy keeps reserved: its full coverage while it is
/// funded, else nothing.
pub open spec fn reserved_for(policies: Map<u32, Policy>, funded: Map<u32, bool>, policy_id: u32) -> int {
    if funded.contains_key(policy_id) && funded[policy_id] && policies.contains_key(policy_id) {
        policies[policy_id].coverage_amount as int
    } else {
        0
    }
}

/// The coverage reserved by the policies with ids `1..=n`.
pub open spec fn reserved_sum(policies: Map<u32, Policy>, funded: Map<u32, bool>, n: nat) -> int
    decreases n,
{
    if n == 0 {
        0
    } else {
        reserved_sum(policies, funded, (n - 1) as nat) + reserved_for(policies, funded, n as u32)
    }
}

impl InsuranceView {
    pub open spec fn is_oracle(self, oracle: u64) -> bool {
        self.oracles.contains_key(oracle) && self.oracles[oracle]
    }

    pub open spec fn is_funded(self, policy_id: u32) -> bool {
        self.funded.contains_key(policy_id) && self.funded[policy_id]
    }

    /// The coverage reserved by the policies with ids `1..=n`.
    pub open spec fn reserved_sum(self, n: nat) -> int {
        reserved_sum(self.policies, self.funded, n)
    }

    /// The reserve accounting: the reserved total is exactly the coverage of
    /// the funded policies; a funded policy is an active crop policy with
    /// non-negative coverage; nothing is funded before the reserve exists;
    /// ids are handed out in order from 1.
    pub open spec fn reserve_consistent(self) -> bool {
        &&& self.total_reserved == self.reserved_sum(self.policy_count as nat)
        &&& forall|id: u32| #[trigger] self.policies.contains_key(id) ==> 1 <= id <= self.policy_count
        &&& forall|id: u32| #[trigger] self.products.contains_key(id) ==> 1 <= id <= self.product_count
            && self.products[id].coverage_amount > 0
        &&& forall|id: u32| #[trigger] self.funded.contains_key(id) && self.funded[id] ==> {
            &&& self.policies.contains_key(id)
            &&& self.policies[id].status == PolicyStatus::Active
            &&& self.policies[id].coverage_amount >= 0
            &&& self.crop_terms.contains_key(self.policies[id].product_id)
            &&& self.reserve_config is Some
        }
    }

    pub open spec fn assert_admin(self, caller: u64) -> Result<(), Error> {
        match self.admin {
            None => Err(Error::NotInitialized),
            Some(a) => if a != caller { Err(Error::Unauthorized) } else { Ok(()) },
        }
    }

    /// Product creation checks, in order, before the new id is taken.
    pub open spec fn product_checks(self, admin: u64, name_len: nat, premium: i128, coverage_amount: i128, term_secs: u64) -> Result<(), Error> {
        if self.assert_admin(admin) is Err {
            self.assert_admin(admin)
        } else if name_len == 0 {
            Err(Error::EmptyName)
        } else if premium <= 0 {
            Err(Error::ZeroPremium)
        } else if coverage_amount <= 0 {
            Err(Error::ZeroCoverage)
        } else if term_secs == 0 {
            Err(Error::InvalidTrigger)
        } else {
            Ok(())
        }
    }

    /// Crop product creation checks, in order, before the new id is taken.
    pub open spec fn crop_product_checks(
        self, admin: u64, name_len: nat, region_len: nat, premium: i128, coverage_amount: i128,
        rainfall_threshold: i128, term_secs: u64, max_observation_age: u64,
    ) -> Result<(), Error> {
        if self.assert_admin(admin) is Err {
            self.assert_admin(admin)
        } else if name_len == 0 || region_len == 0 {
            Err(Error::EmptyName)
        } else if premium <= 0 {
            Err(Error::ZeroPremium)
        } else if coverage_amount <= 0 {
            Err(Error::ZeroCoverage)
        } else if rainfall_threshold < 0 || term_secs == 0 || max_observation_age == 0
            || max_observation_age > MAX_CROP_OBSERVATION_AGE_SECS {
            Err(Error::InvalidConfig)
        } else if self.product_count == u32::MAX {
            Err(Error::Overflow)
        } else {
            Ok(())
        }
    }

    /// What buying a legacy policy returns.
    pub open spec fn buy_policy_outcome(self, product_id: u32, now: u64) -> Result<u32, Error> {
        if self.admin is None {
            Err(Error::NotInitialized)
        } else if !self.products.contains_key(product_id) {
            Err(Error::ProductNotFound)
        } else if !self.products[product_id].is_active {
            Err(Error::ProductInactive)
        } else if self.crop_terms.contains_key(product_id) {
            Err(Error::SatelliteDataRequired)
        } else if self.policy_count == u32::MAX || now + self.products[product_id].term_secs > u64::MAX {
            Err(Error::Overflow)
        } else {
            Ok((self.policy_count + 1) as u32)
        }
    }

    /// What buying a funded crop policy returns; `balance` is the
    /// contract's settlement-token balance once the premium is received.
    pub open spec fn buy_crop_policy_outcome(self, product_id: u32, now: u64, balance: i128) -> Result<u32, Error> {
        if self.admin is None {
            Err(Error::NotInitialized)
        } else if !self.crop_terms.contains_key(product_id) {
            Err(Error::SatelliteDataRequired)
        } else if !self.products.contains_key(product_id) {
            Err(Error::ProductNotFound)
        } else if !self.products[product_id].is_active {
            Err(Error::ProductInactive)
        } else if self.reserve_config is None {
            Err(Error::ReserveNotConfigured)
        } else if now + self.products[product_id].term_secs > u64::MAX || self.policy_count == u32::MAX
            || !fits_i128(self.total_reserved + self.products[product_id].coverage_amount) {
            Err(Error::Overflow)
        } else if balance < self.total_reserved + self.products[product_id].coverage_amount {
            Err(Error::InsufficientReserve)
        } else {
            Ok((self.policy_count + 1) as u32)
        }
    }

    /// The policy a purchase of `product_id` at `now` creates.
    pub open spec fn new_policy(self, product_id: u32, holder: u64, now: u64) -> Policy {
        let prod = self.products[product_id];
        Policy {
            product_id,
            holder,
            premium_paid: prod.premium,
            coverage_amount: prod.coverage_amount,
            purchased_at: now,
            expires_at: (now + prod.term_secs) as u64,
            status: PolicyStatus::Active,
            trigger_value: None,
            payout_amount: None,
        }
    }

    /// What expiring a policy returns.
    pub open spec fn expire_outcome(self, policy_id: u32, now: u64) -> Result<(), Error> {
        if self.admin is None {
            Err(Error::NotInitialized)
        } else if !self.policies.contains_key(policy_id) {
            Err(Error::PolicyNotFound)
        } else if self.policies[policy_id].status != PolicyStatus::Active {
            Err(Error::PolicyNotActive)
        } else if now <= self.policies[policy_id].expires_at {
            Err(Error::PolicyExpired)
        } else if self.is_funded(policy_id) && (self.policies[policy_id].coverage_amount < 0
            || self.policies[policy_id].coverage_amount > self.total_reserved) {
            Err(Error::Overflow)
        } else {
            Ok(())
        }
    }

    /// The reading a legacy claim on `policy_id` is settled from.
    pub open spec fn claim_reading(self, policy_id: u32) -> Option<OracleReading> {
        let p = self.policies[policy_id];
        let prod = self.products[p.product_id];
        latest_reading(self.readings, prod.oracle, prod.parameter_key@)
    }

    /// What a legacy claim returns.
    pub open spec fn claim_outcome(self, policy_id: u32, now: u64) -> Result<i128, Error> {
        if self.admin is None {
            Err(Error::NotInitialized)
        } else if !self.policies.contains_key(policy_id) {
            Err(Error::PolicyNotFound)
        } else {
            let p = self.policies[policy_id];
            if p.status != PolicyStatus::Active {
                if p.status == PolicyStatus::Claimed {
                    Err(Error::PolicyAlreadyClaimed)
                } else {
                    Err(Error::PolicyNotActive)
                }
            } else if now > p.expires_at {
                Err(Error::PolicyExpired)
            } else if !self.products.contains_key(p.product_id) {
                Err(Error::ProductNotFound)
            } else if self.crop_terms.contains_key(p.product_id) {
                Err(Error::SatelliteDataRequired)
            } else {
                let prod = self.products[p.product_id];
                match self.claim_reading(policy_id) {
                    None => Err(Error::OracleDataStale),
                    Some(rd) => if sat_sub_u64(now, rd.timestamp) > MAX_ORACLE_STALENESS_SECS {
                        Err(Error::OracleDataStale)
                    } else if !is_triggered(prod.trigger_direction, rd.value as int, prod.trigger_threshold as int) {
                        Err(Error::TriggerNotMet)
                    } else {
                        Ok(p.coverage_amount)
                    },
                }
            }
        }
    }

    /// The observation is a verified satellite reading for the policy's
    /// region, taken during the policy's life and recently enough.
    pub open spec fn observation_outcome(self, policy_id: u32, reading: SatelliteWeatherData, now: u64) -> Result<(), Error> {
        let p = self.policies[policy_id];
        let terms = self.crop_terms[p.product_id];
        if (reading.status != WeatherDataStatus::Verified && reading.status != WeatherDataStatus::Finalized)
            || reading.source_type != DataSourceType::Satellite || reading.confirmations == 0 {
            Err(Error::InvalidOracleData)
        } else if reading.location@ != terms.region@ {
            Err(Error::WrongRegion)
        } else if reading.timestamp < p.purchased_at || reading.timestamp > now
            || reading.timestamp > p.expires_at
            || sat_sub_u64(now, reading.timestamp) > terms.max_observation_age {
            Err(Error::InvalidObservation)
        } else {
            Ok(())
        }
    }

    /// What a satellite claim returns.
    pub open spec fn satellite_claim_outcome(self, policy_id: u32, reading: SatelliteWeatherData, now: u64) -> Result<i128, Error> {
        if self.admin is None {
            Err(Error::NotInitialized)
        } else if !self.policies.contains_key(policy_id) {
            Err(Error::PolicyNotFound)
        } else {
            let p = self.policies[policy_id];
            if p.status != PolicyStatus::Active {
                if p.status == PolicyStatus::Claimed {
                    Err(Error::PolicyAlreadyClaimed)
                } else {
                    Err(Error::PolicyNotActive)
                }
            } else if !self.is_funded(policy_id) {
                Err(Error::PolicyNotFunded)
            } else if now > p.expires_at {
                Err(Error::PolicyExpired)
            } else if !self.products.contains_key(p.product_id) {
                Err(Error::ProductNotFound)
            } else if !self.crop_terms.contains_key(p.product_id) {
                Err(Error::SatelliteDataRequired)
            } else if self.observation_outcome(policy_id, reading, now) is Err {
                Err(self.observation_outcome(policy_id, reading, now)->Err_0)
            } else if !is_triggered(self.products[p.product_id].trigger_direction,
                reading.precipitation as int, self.products[p.product_id].trigger_threshold as int) {
                Err(Error::TriggerNotMet)
            } else if p.coverage_amount < 0 || p.coverage_amount > self.total_reserved {
                Err(Error::Overflow)
            } else if self.reserve_config is None {
                Err(Error::ReserveNotConfigured)
            } else {
                Ok(p.coverage_amount)
            }
        }
    }
}

/// Under the reserve accounting, a funded policy's coverage is reserved in
/// full and the reserve exists.
pub proof fn lemma_funded_coverage_is_reserved(s: InsuranceView, policy_id: u32)
    requires
        s.reserve_consistent(),
        s.is_funded(policy_id),
    ensures
        0 <= s.policies[policy_id].coverage_amount <= s.total_reserved,
        s.reserve_config is Some,
{
    lemma_reserved_nonneg_when_consistent(s);
    lemma_reserved_sum_covers(s.policies, s.funded, s.policy_count as nat, policy_id);
}

proof fn lemma_reserved_nonneg_when_consistent(s: InsuranceView)
    requires
        s.reserve_consistent(),
    ensures
        forall|id: u32| #[trigger] reserved_for(s.policies, s.funded, id) >= 0,
{
    assert forall|id: u32| #[trigger] reserved_for(s.policies, s.funded, id) >= 0 by {
        if s.funded.contains_key(id) && s.funded[id] {}
    }
}

proof fn lemma_reserved_sum_covers(policies: Map<u32, Policy>, funded: Map<u32, bool>, n: nat, k: u32)
    requires
        n <= u32::MAX,
        1 <= k <= n,
        forall|id: u32| #[trigger] reserved_for(policies, funded, id) >= 0,
    ensures
        reserved_sum(policies, funded, n) >= reserved_for(policies, funded, k),
    decreases n,
{
    lemma_reserved_sum_nonneg(policies, funded, (n - 1) as nat);
    assert(reserved_for(policies, funded, n as u32) >= 0);
    if k < n {
        lemma_reserved_sum_covers(policies, funded, (n - 1) as nat, k);
    }
}

proof fn lemma_reserved_sum_nonneg(policies: Map<u32, Policy>, funded: Map<u32, bool>, n: nat)
    requires
        n <= u32::MAX,
        forall|id: u32| #[trigger] reserved_for(policies, funded, id) >= 0,
    ensures
        reserved_sum(policies, funded, n) >= 0,
    decreases n,
{
    if n > 0 {
        lemma_reserved_sum_nonneg(policies, funded, (n - 1) as nat);
        assert(reserved_for(policies, funded, n as u32) >= 0);
    }
}

/// Reserved coverage that agrees on every id in `1..=n` but `k` gives
/// sums that differ by the difference at `k`.
proof fn lemma_reserved_sum_update(
    p1: Map<u32, Policy>, f1: Map<u32, bool>,
    p2: Map<u32, Policy>, f2: Map<u32, bool>,
    n: nat, k: u32,
)
    requires
        n <= u32::MAX,
        forall|id: u32| 1 <= id <= n && id != k ==> reserved_for(p1, f1, id) == reserved_for(p2, f2, id),
    ensures
        1 <= k <= n ==> reserved_sum(p2, f2, n) - reserved_sum(p1, f1, n)
            == reserved_for(p2, f2, k) - reserved_for(p1, f1, k),
        !(1 <= k <= n) ==> reserved_sum(p2, f2, n) == reserved_sum(p1, f1, n),
    decreases n,
{
    if n > 0 {
        lemma_reserved_sum_update(p1, f1, p2, f2, (n - 1) as nat, k);
        if n as u32 != k {
            assert(reserved_for(p1, f1, n as u32) == reserved_for(p2, f2, n as u32));
        }
    }
}

proof fn lemma_reserved_sum_zero(policies: Map<u32, Policy>, n: nat)
    requires
        n <= u32::MAX,
    ensures
        reserved_sum(policies, Map::<u32, bool>::empty(), n) == 0,
    decreases n,
{
    if n > 0 {
        lemma_reserved_sum_zero(policies, (n - 1) as nat);
    }
}

impl ParametricInsurance {
    /// A contract with empty storage.
    pub fn new() -> (r: Self)
        ensures
            r@.admin is None,
            r@.product_count == 0 && r@.policy_count == 0,
            r@.products == Map::<u32, Product>::empty(),
            r@.policies == Map::<u32, Policy>::empty(),
            r@.oracles == Map::<u64, bool>::empty(),
            r@.readings == Seq::<ReadingRecord>::empty(),
            r@.crop_terms == Map::<u32, CropTerms>::empty(),
            r@.reserve_config is None,
            r@.total_reserved == 0,
            r@.funded == Map::<u32, bool>::empty(),
            r@.reserve_consistent(),
    {
        ParametricInsurance {
            admin: None,
            product_count: 0,
            policy_count: 0,
            products: HashMap::new(),
            policies: HashMap::new(),
            oracles: HashMap::new(),
            readings: Vec::new(),
            crop_terms: HashMap::new(),
            reserve_config: None,
            total_reserved: 0,
            funded: HashMap::new(),
        }
    }

    pub fn initialize(&mut self, admin: u64) -> (r: Result<(), Error>)
        ensures
            r == (if old(self)@.admin is Some { Err(Error::AlreadyInitialized) } else { Ok(()) }),
            r is Err ==> final(self)@ == old(self)@,
            r is Ok ==> final(self)@ == (InsuranceView {
                admin: Some(admin),
                product_count: 0,
                policy_count: 0,
                ..old(self)@
            }),
    {
        if self.admin.is_some() {
            return Err(Error::AlreadyInitialized);
        }
        self.admin = Some(admin);
        self.product_count = 0;
        self.policy_count = 0;
        Ok(())
    }

    fn assert_initialized(&self) -> (r: Result<(), Error>)
        ensures
            r == (if self@.admin is None { Err(Error::NotInitialized) } else { Ok(()) }),
    {
        if self.admin.is_none() {
            return Err(Error::NotInitialized);
        }
        Ok(())
    }

    fn assert_admin(&self, caller: u64) -> (r: Result<(), Error>)
        ensures
            r == self@.assert_admin(caller),
    {
        match self.admin {
            None => Err(Error::NotInitialized),
            Some(a) => if a != caller { Err(Error::Unauthorized) } else { Ok(()) },
        }
    }

    /// Register or deregister an authorised oracle.
    pub fn set_oracle(&mut self, admin: u64, oracle: u64, active: bool) -> (r: Result<(), Error>)
        ensures
            r == old(self)@.assert_admin(admin),
            r is Err ==> final(self)@ == old(self)@,
            r is Ok ==> final(self)@ == (InsuranceView { oracles: old(self)@.oracles.insert(oracle, active), ..old(self)@ }),
            old(self)@.reserve_consistent() ==> final(self)@.reserve_consistent(),
    {
        self.assert_admin(admin)?;
        self.oracles.insert(oracle, active);
        Ok(())
    }

    fn is_oracle_of(&self, oracle: u64) -> (r: bool)
        ensures
            r == self@.is_oracle(oracle),
    {
        match self.oracles.get(&oracle) {
            Some(a) => *a,
            None => false,
        }
    }

    /// An authorised oracle records a reading for a parameter.
    pub fn submit_reading(&mut self, oracle: u64, parameter_key: Vec<u8>, value: i128, now: u64) -> (r: Result<(), Error>)
        ensures
            r == (if old(self)@.admin is None {
                Err(Error::NotInitialized)
            } else if !old(self)@.is_oracle(oracle) {
                Err(Error::UnknownOracle)
            } else {
                Ok(())
            }),
            r is Err ==> final(self)@ == old(self)@,
            r is Ok ==> final(self)@ == (InsuranceView { readings: final(self)@.readings, ..old(self)@ }),
            r is Ok ==> final(self)@.readings.len() == old(self)@.readings.len() + 1,
            r is Ok ==> final(self)@.readings.drop_last() == old(self)@.readings,
            r is Ok ==> final(self)@.readings.last().oracle == oracle,
            r is Ok ==> final(self)@.readings.last().reading.parameter_key@ == parameter_key@,
            r is Ok ==> final(self)@.readings.last().reading.value == value,
            r is Ok ==> final(self)@.readings.last().reading.timestamp == now,
            old(self)@.reserve_consistent() ==> final(self)@.reserve_consistent(),
    {
        self.assert_initialized()?;
        if !self.is_oracle_of(oracle) {
            return Err(Error::UnknownOracle);
        }
        let reading = OracleReading { parameter_key, value, timestamp: now };
        self.readings.push(ReadingRecord { oracle, reading });
        proof {
            assert(self@.readings.drop_last() =~= old(self)@.readings);
        }
        Ok(())
    }

    /// The latest reading `oracle` pushed for `parameter_key`.
    pub fn get_reading(&self, oracle: u64, parameter_key: &Vec<u8>) -> (r: Option<OracleReading>)
        ensures
            r is None <==> latest_reading(self@.readings, oracle, parameter_key@) is None,
            r is Some ==> r->Some_0.same(latest_reading(self@.readings, oracle, parameter_key@)->Some_0),
    {
        let mut i = self.readings.len();
        proof {
            assert(self.readings@.take(i as int) =~= self.readings@);
        }
        while i > 0
            invariant
                i <= self.readings.len(),
                latest_reading(self.readings@, oracle, parameter_key@)
                    == latest_reading(self.readings@.take(i as int), oracle, parameter_key@),
            decreases i,
        {
            let rec = &self.readings[i - 1];
            let ghost prefix = self.readings@.take(i as int);
            proof {
                assert(prefix.last() == self.readings@[i - 1]);
                assert(prefix.drop_last() =~= self.readings@.take(i - 1));
            }
            if rec.oracle == oracle && bytes_equal(&rec.reading.parameter_key, parameter_key) {
                return Some(rec.reading.duplicate());
            }
            i = i - 1;
        }
        None
    }

    /// Create a product; returns its id.
    pub fn create_product(
        &mut self,
        admin: u64,
        name: Vec<u8>,
        premium: i128,
        coverage_amount: i128,
        oracle: u64,
        parameter_key: Vec<u8>,
        trigger_threshold: i128,
        trigger_direction: TriggerDirection,
        term_secs: u64,
    ) -> (r: Result<u32, Error>)
        requires
            old(self)@.product_checks(admin, name@.len(), premium, coverage_amount, term_secs) is Ok
                ==> old(self)@.product_count < u32::MAX,
        ensures
            r == (if old(self)@.product_checks(admin, name@.len(), premium, coverage_amount, term_secs) is Err {
                Err(old(self)@.product_checks(admin, name@.len(), premium, coverage_amount, term_secs)->Err_0)
            } else {
                Ok((old(self)@.product_count + 1) as u32)
            }),
            r is Err ==> final(self)@ == old(self)@,
            r is Ok ==> final(self)@ == (InsuranceView {
                products: old(self)@.products.insert(r->Ok_0, Product {
                    name,
                    premium,
                    coverage_amount,
                    oracle,
                    parameter_key,
                    trigger_threshold,
                    trigger_direction,
                    term_secs,
                    is_active: true,
                }),
                product_count: r->Ok_0,
                ..old(self)@
            }),
            old(self)@.reserve_consistent() ==> final(self)@.reserve_consistent(),
    {
        self.assert_admin(admin)?;
        if name.len() == 0 {
            return Err(Error::EmptyName);
        }
        if premium <= 0 {
            return Err(Error::ZeroPremium);
        }
        if coverage_amount <= 0 {
            return Err(Error::ZeroCoverage);
        }
        if term_secs == 0 {
            return Err(Error::InvalidTrigger);
        }
        let id = self.product_count + 1;
        let product = Product {
            name,
            premium,
            coverage_amount,
            oracle,
            parameter_key,
            trigger_threshold,
            trigger_direction,
            term_secs,
            is_active: true,
        };
        self.products.insert(id, product);
        self.product_count = id;
        Ok(id)
    }

    pub fn deactivate_product(&mut self, admin: u64, product_id: u32) -> (r: Result<(), Error>)
        ensures
            r == (if old(self)@.assert_admin(admin) is Err {
                old(self)@.assert_admin(admin)
            } else if !old(self)@.products.contains_key(product_id) {
                Err(Error::ProductNotFound)
            } else {
                Ok(())
            }),
            r is Err ==> final(self)@ == old(self)@,
            r is Ok ==> final(self)@ == (InsuranceView {
                products: old(self)@.products.insert(product_id, Product {
                    is_active: false,
                    ..old(self)@.products[product_id]
                }),
                ..old(self)@
            }),
            old(self)@.reserve_consistent() ==> final(self)@.reserve_consistent(),
    {
        self.assert_admin(admin)?;
        if !self.products.contains_key(&product_id) {
            return Err(Error::ProductNotFound);
        }
        let product = match self.products.remove(&product_id) {
            Some(p) => p,
            None => return Err(Error::ProductNotFound),
        };
        let updated = Product { is_active: false, ..product };
        self.products.insert(product_id, updated);
        proof {
            assert(self@.products =~= old(self)@.products.insert(product_id, Product {
                is_active: false,
                ..old(self)@.products[product_id]
            }));
        }
        Ok(())
    }

    pub fn get_product(&self, product_id: u32) -> (r: Result<Product, Error>)
        ensures
            r is Err <==> !self@.products.contains_key(product_id),
            r is Err ==> r->Err_0 == Error::ProductNotFound,
            r is Ok ==> r->Ok_0.same(self@.products[product_id]),
    {
        match self.products.get(&product_id) {
            Some(p) => Ok(p.duplicate()),
            None => Err(Error::ProductNotFound),
        }
    }

    /// Create a drought/flood product settled from satellite rainfall
    /// (millimetres × 10) observed in `region`; returns its id.
    pub fn create_crop_product(
        &mut self,
        admin: u64,
        name: Vec<u8>,
        premium: i128,
        coverage_amount: i128,
        satellite_oracle: u64,
        region: Vec<u8>,
        rainfall_threshold: i128,
        trigger_direction: TriggerDirection,
        term_secs: u64,
        max_observation_age: u64,
    ) -> (r: Result<u32, Error>)
        ensures
            r == (if old(self)@.crop_product_checks(admin, name@.len(), region@.len(), premium, coverage_amount,
                rainfall_threshold, term_secs, max_observation_age) is Err {
                Err(old(self)@.crop_product_checks(admin, name@.len(), region@.len(), premium, coverage_amount,
                    rainfall_threshold, term_secs, max_observation_age)->Err_0)
            } else {
                Ok((old(self)@.product_count + 1) as u32)
            }),
            r is Err ==> final(self)@ == old(self)@,
            r is Ok ==> final(self)@ == (InsuranceView {
                products: old(self)@.products.insert(r->Ok_0, final(self)@.products[r->Ok_0]),
                crop_terms: old(self)@.crop_terms.insert(r->Ok_0, CropTerms { region, max_observation_age }),
                product_count: r->Ok_0,
                ..old(self)@
            }),
            r is Ok ==> ({
                let p = final(self)@.products[r->Ok_0];
                &&& p.name@ == name@
                &&& p.premium == premium
                &&& p.coverage_amount == coverage_amount
                &&& p.oracle == satellite_oracle
                &&& p.parameter_key@ == sat_rain_key()
                &&& p.trigger_threshold == rainfall_threshold
                &&& p.trigger_direction == trigger_direction
                &&& p.term_secs == term_secs
                &&& p.is_active
            }),
            old(self)@.reserve_consistent() ==> final(self)@.reserve_consistent(),
    {
        self.assert_admin(admin)?;
        if name.len() == 0 || region.len() == 0 {
            return Err(Error::EmptyName);
        }
        if premium <= 0 {
            return Err(Error::ZeroPremium);
        }
        if coverage_amount <= 0 {
            return Err(Error::ZeroCoverage);
        }
        if rainfall_threshold < 0 || term_secs == 0 || max_observation_age == 0
            || max_observation_age > MAX_CROP_OBSERVATION_AGE_SECS {
            return Err(Error::InvalidConfig);
        }
        let id = match self.product_count.checked_add(1) {
            Some(i) => i,
            None => return Err(Error::Overflow),
        };
        let key: Vec<u8> = vec![83u8, 65u8, 84u8, 95u8, 82u8, 65u8, 73u8, 78u8];
        proof {
            assert(key@ =~= sat_rain_key());
        }
        let product = Product {
            name,
            premium,
            coverage_amount,
            oracle: satellite_oracle,
            parameter_key: key,
            trigger_threshold: rainfall_threshold,
            trigger_direction,
            term_secs,
            is_active: true,
        };
        self.products.insert(id, product);
        self.crop_terms.insert(id, CropTerms { region, max_observation_age });
        self.product_count = id;
        Ok(id)
    }

    pub fn product_count(&self) -> (r: u32)
        ensures
            r == self@.product_count,
    {
        self.product_count
    }

    /// Buy a policy on a legacy product at `now`; returns its id.
    pub fn buy_policy(&mut self, holder: u64, product_id: u32, now: u64) -> (r: Result<u32, Error>)
        ensures
            r == old(self)@.buy_policy_outcome(product_id, now),
            r is Err ==> final(self)@ == old(self)@,
            r is Ok ==> final(self)@ == (InsuranceView {
                policies: old(self)@.policies.insert(r->Ok_0, old(self)@.new_policy(product_id, holder, now)),
                policy_count: r->Ok_0,
                ..old(self)@
            }),
            old(self)@.reserve_consistent() ==> final(self)@.reserve_consistent(),
    {
        self.assert_initialized()?;
        let product = match self.products.get(&product_id) {
            Some(p) => p,
            None => return Err(Error::ProductNotFound),
        };
        if !product.is_active {
            return Err(Error::ProductInactive);
        }
        if self.crop_terms.contains_key(&product_id) {
            return Err(Error::SatelliteDataRequired);
        }
        let id = match self.policy_count.checked_add(1) {
            Some(i) => i,
            None => return Err(Error::Overflow),
        };
        let expires_at = match now.checked_add(product.term_secs) {
            Some(e) => e,
            None => return Err(Error::Overflow),
        };
        let policy = Policy {
            product_id,
            holder,
            premium_paid: product.premium,
            coverage_amount: product.coverage_amount,
            purchased_at: now,
            expires_at,
            status: PolicyStatus::Active,
            trigger_value: None,
            payout_amount: None,
        };
        self.policies.insert(id, policy);
        self.policy_count = id;
        proof {
            let o = old(self)@;
            let n = self@;
            if o.reserve_consistent() {
                assert(!o.is_funded(id));
                assert forall|k: u32| 1 <= k <= o.policy_count implies
                    reserved_for(o.policies, o.funded, k) == reserved_for(n.policies, n.funded, k) by {}
                lemma_reserved_sum_update(o.policies, o.funded, n.policies, n.funded, o.policy_count as nat, 0);
            }
        }
        Ok(id)
    }

    pub fn get_policy(&self, policy_id: u32) -> (r: Result<Policy, Error>)
        ensures
            r == (if self@.policies.contains_key(policy_id) {
                Ok(self@.policies[policy_id])
            } else {
                Err(Error::PolicyNotFound)
            }),
    {
        match self.policies.get(&policy_id) {
            Some(p) => Ok(*p),
            None => Err(Error::PolicyNotFound),
        }
    }

    pub fn policy_count(&self) -> (r: u32)
        ensures
            r == self@.policy_count,
    {
        self.policy_count
    }

    /// Buy a funded crop policy at `now`, reserving its full coverage; the
    /// host takes the premium from `holder`, and `balance` is the contract's
    /// settlement-token balance once the premium is received. Returns the
    /// policy id.
    pub fn buy_crop_policy(&mut self, holder: u64, product_id: u32, now: u64, balance: i128) -> (r: Result<u32, Error>)
        ensures
            r == old(self)@.buy_crop_policy_outcome(product_id, now, balance),
            r is Err ==> final(self)@ == old(self)@,
            r is Ok ==> final(self)@ == (InsuranceView {
                policies: old(self)@.policies.insert(r->Ok_0, old(self)@.new_policy(product_id, holder, now)),
                funded: old(self)@.funded.insert(r->Ok_0, true),
                total_reserved: (old(self)@.total_reserved + old(self)@.products[product_id].coverage_amount) as i128,
                policy_count: r->Ok_0,
                ..old(self)@
            }),
            r is Ok ==> balance >= final(self)@.total_reserved,
            old(self)@.reserve_consistent() ==> final(self)@.reserve_consistent(),
    {
        self.assert_initialized()?;
        if !self.crop_terms.contains_key(&product_id) {
            return Err(Error::SatelliteDataRequired);
        }
        let product = match self.products.get(&product_id) {
            Some(p) => p,
            None => return Err(Error::ProductNotFound),
        };
        if !product.is_active {
            return Err(Error::ProductInactive);
        }
        if self.reserve_config.is_none() {
            return Err(Error::ReserveNotConfigured);
        }
        let expires_at = match now.checked_add(product.term_secs) {
            Some(e) => e,
            None => return Err(Error::Overflow),
        };
        let id = match self.policy_count.checked_add(1) {
            Some(i) => i,
            None => return Err(Error::Overflow),
        };
        let new_reserved = match self.total_reserved.checked_add(product.coverage_amount) {
            Some(t) => t,
            None => return Err(Error::Overflow),
        };
        if balance < new_reserved {
            return Err(Error::InsufficientReserve);
        }
        let policy = Policy {
            product_id,
            holder,
            premium_paid: product.premium,
            coverage_amount: product.coverage_amount,
            purchased_at: now,
            expires_at,
            status: PolicyStatus::Active,
            trigger_value: None,
            payout_amount: None,
        };
        self.policies.insert(id, policy);
        self.funded.insert(id, true);
        self.total_reserved = new_reserved;
        self.policy_count = id;
        proof {
            let o = old(self)@;
            let n = self@;
            if o.reserve_consistent() {
                assert(!o.is_funded(id));
                assert forall|k: u32| 1 <= k <= o.policy_count implies
                    reserved_for(o.policies, o.funded, k) == reserved_for(n.policies, n.funded, k) by {}
                lemma_reserved_sum_update(o.policies, o.funded, n.policies, n.funded, o.policy_count as nat, 0);
                assert(reserved_for(n.policies, n.funded, id) == o.products[product_id].coverage_amount);
            }
        }
        Ok(id)
    }

    /// Settle a legacy policy from the latest reading of its product's
    /// parameter at `now`: when the reading is fresh and breaches the
    /// trigger, the policy is paid its full coverage. Anyone may call it.
    pub fn process_claim(&mut self, policy_id: u32, now: u64) -> (r: Result<i128, Error>)
        ensures
            r == old(self)@.claim_outcome(policy_id, now),
            r is Err ==> final(self)@ == old(self)@,
            r is Ok ==> final(self)@ == (InsuranceView {
                policies: old(self)@.policies.insert(policy_id, Policy {
                    status: PolicyStatus::Claimed,
                    trigger_value: Some(old(self)@.claim_reading(policy_id)->Some_0.value),
                    payout_amount: Some(r->Ok_0),
                    ..old(self)@.policies[policy_id]
                }),
                ..old(self)@
            }),
            old(self)@.reserve_consistent() ==> final(self)@.reserve_consistent(),
    {
        self.assert_initialized()?;
        let policy = match self.policies.get(&policy_id) {
            Some(p) => *p,
            None => return Err(Error::PolicyNotFound),
        };
        if policy.status != PolicyStatus::Active {
            if policy.status == PolicyStatus::Claimed {
                return Err(Error::PolicyAlreadyClaimed);
            }
            return Err(Error::PolicyNotActive);
        }
        if now > policy.expires_at {
            return Err(Error::PolicyExpired);
        }
        let product = match self.products.get(&policy.product_id) {
            Some(p) => p,
            None => return Err(Error::ProductNotFound),
        };
        if self.crop_terms.contains_key(&policy.product_id) {
            return Err(Error::SatelliteDataRequired);
        }
        let reading = match self.get_reading(product.oracle, &product.parameter_key) {
            Some(rd) => rd,
            None => return Err(Error::OracleDataStale),
        };
        if now.saturating_sub(reading.timestamp) > MAX_ORACLE_STALENESS_SECS {
            return Err(Error::OracleDataStale);
        }
        if !triggered(product.trigger_direction, reading.value, product.trigger_threshold) {
            return Err(Error::TriggerNotMet);
        }
        let payout = policy.coverage_amount;
        let claimed = Policy {
            status: PolicyStatus::Claimed,
            trigger_value: Some(reading.value),
            payout_amount: Some(payout),
            ..policy
        };
        self.policies.insert(policy_id, claimed);
        proof {
            let o = old(self)@;
            let n = self@;
            if o.reserve_consistent() {
                assert(!o.is_funded(policy_id));
                assert forall|k: u32| 1 <= k <= o.policy_count && k != policy_id implies
                    reserved_for(o.policies, o.funded, k) == reserved_for(n.policies, n.funded, k) by {}
                lemma_reserved_sum_update(o.policies, o.funded, n.policies, n.funded, o.policy_count as nat, policy_id);
            }
        }
        Ok(payout)
    }

    /// Settle a funded crop policy at `now` from the satellite observation
    /// `reading` that the weather oracle published. The host passes the
    /// observation that the product's oracle (`get_product(..).oracle`)
    /// publishes under the data id the caller asked for; a verified satellite
    /// observation of the policy's region, taken during the policy's life
    /// and recently enough, that breaches the rainfall trigger pays the full
    /// coverage out of the reserve. The host pays the returned amount to the
    /// holder. Anyone may call it.
    pub fn process_satellite_claim(&mut self, policy_id: u32, reading: &SatelliteWeatherData, now: u64) -> (r: Result<i128, Error>)
        ensures
            r == old(self)@.satellite_claim_outcome(policy_id, *reading, now),
            r is Err ==> final(self)@ == old(self)@,
            r is Ok ==> final(self)@ == (InsuranceView {
                policies: old(self)@.policies.insert(policy_id, Policy {
                    status: PolicyStatus::Claimed,
                    trigger_value: Some(reading.precipitation as i128),
                    payout_amount: Some(r->Ok_0),
                    ..old(self)@.policies[policy_id]
                }),
                funded: old(self)@.funded.insert(policy_id, false),
                total_reserved: (old(self)@.total_reserved - r->Ok_0) as i128,
                ..old(self)@
            }),
            old(self)@.reserve_consistent() ==> final(self)@.reserve_consistent(),
    {
        self.assert_initialized()?;
        let policy = match self.policies.get(&policy_id) {
            Some(p) => *p,
            None => return Err(Error::PolicyNotFound),
        };
        if policy.status != PolicyStatus::Active {
            if policy.status == PolicyStatus::Claimed {
                return Err(Error::PolicyAlreadyClaimed);
            }
            return Err(Error::PolicyNotActive);
        }
        if !self.is_policy_funded(policy_id) {
            return Err(Error::PolicyNotFunded);
        }
        if now > policy.expires_at {
            return Err(Error::PolicyExpired);
        }
        let product = match self.products.get(&policy.product_id) {
            Some(p) => p,
            None => return Err(Error::ProductNotFound),
        };
        let terms = match self.crop_terms.get(&policy.product_id) {
            Some(t) => t,
            None => return Err(Error::SatelliteDataRequired),
        };
        if (reading.status != WeatherDataStatus::Verified && reading.status != WeatherDataStatus::Finalized)
            || reading.source_type != DataSourceType::Satellite || reading.confirmations == 0 {
            return Err(Error::InvalidOracleData);
        }
        if !bytes_equal(&reading.location, &terms.region) {
            return Err(Error::WrongRegion);
        }
        if reading.timestamp < policy.purchased_at || reading.timestamp > now
            || reading.timestamp > policy.expires_at
            || now.saturating_sub(reading.timestamp) > terms.max_observation_age {
            return Err(Error::InvalidObservation);
        }
        let rainfall = reading.precipitation as i128;
        if !triggered(product.trigger_direction, rainfall, product.trigger_threshold) {
            return Err(Error::TriggerNotMet);
        }
        let coverage = policy.coverage_amount;
        if coverage < 0 || coverage > self.total_reserved {
            return Err(Error::Overflow);
        }
        if self.reserve_config.is_none() {
            return Err(Error::ReserveNotConfigured);
        }
        let claimed = Policy {
            status: PolicyStatus::Claimed,
            trigger_value: Some(rainfall),
            payout_amount: Some(coverage),
            ..policy
        };
        self.policies.insert(policy_id, claimed);
        self.total_reserved = self.total_reserved - coverage;
        self.funded.insert(policy_id, false);
        proof {
            let o = old(self)@;
            let n = self@;
            if o.reserve_consistent() {
                assert forall|k: u32| 1 <= k <= o.policy_count && k != policy_id implies
                    reserved_for(o.policies, o.funded, k) == reserved_for(n.policies, n.funded, k) by {}
                lemma_reserved_sum_update(o.policies, o.funded, n.policies, n.funded, o.policy_count as nat, policy_id);
            }
        }
        Ok(coverage)
    }

    /// Expire an active policy whose term has passed at `now`, releasing
    /// its reserved coverage if it is funded.
    pub fn expire_policy(&mut self, policy_id: u32, now: u64) -> (r: Result<(), Error>)
        ensures
            r == old(self)@.expire_outcome(policy_id, now),
            r is Err ==> final(self)@ == old(self)@,
            r is Ok ==> final(self)@ == (InsuranceView {
                policies: old(self)@.policies.insert(policy_id, Policy {
                    status: PolicyStatus::Expired,
                    ..old(self)@.policies[policy_id]
                }),
                funded: if old(self)@.is_funded(policy_id) {
                    old(self)@.funded.insert(policy_id, false)
                } else {
                    old(self)@.funded
                },
                total_reserved: if old(self)@.is_funded(policy_id) {
                    (old(self)@.total_reserved - old(self)@.policies[policy_id].coverage_amount) as i128
                } else {
                    old(self)@.total_reserved
                },
                ..old(self)@
            }),
            old(self)@.reserve_consistent() ==> final(self)@.reserve_consistent(),
    {
        self.assert_initialized()?;
        let policy = match self.policies.get(&policy_id) {
            Some(p) => *p,
            None => return Err(Error::PolicyNotFound),
        };
        if policy.status != PolicyStatus::Active {
            return Err(Error::PolicyNotActive);
        }
        if now <= policy.expires_at {
            return Err(Error::PolicyExpired);
        }
        let funded = self.is_policy_funded(policy_id);
        if funded && (policy.coverage_amount < 0 || policy.coverage_amount > self.total_reserved) {
            return Err(Error::Overflow);
        }
        self.policies.insert(policy_id, Policy { status: PolicyStatus::Expired, ..policy });
        if funded {
            self.total_reserved = self.total_reserved - policy.coverage_amount;
            self.funded.insert(policy_id, false);
        }
        proof {
            let o = old(self)@;
            let n = self@;
            if o.reserve_consistent() {
                assert forall|k: u32| 1 <= k <= o.policy_count && k != policy_id implies
                    reserved_for(o.policies, o.funded, k) == reserved_for(n.policies, n.funded, k) by {}
                lemma_reserved_sum_update(o.policies, o.funded, n.policies, n.funded, o.policy_count as nat, policy_id);
            }
        }
        Ok(())
    }

    pub fn get_admin(&self) -> (r: Result<u64, Error>)
        ensures
            r == (match self@.admin {
                Some(a) => Ok(a),
                None => Err(Error::NotInitialized),
            }),
    {
        match self.admin {
            Some(a) => Ok(a),
            None => Err(Error::NotInitialized),
        }
    }

    pub fn is_oracle(&self, oracle: u64) -> (r: bool)
        ensures
            r == self@.is_oracle(oracle),
    {
        self.is_oracle_of(oracle)
    }

    pub fn is_initialized(&self) -> (r: bool)
        ensures
            r == self@.admin is Some,
    {
        self.admin.is_some()
    }

    pub fn get_crop_terms(&self, product_id: u32) -> (r: Result<CropTerms, Error>)
        ensures
            r is Err <==> !self@.crop_terms.contains_key(product_id),
            r is Err ==> r->Err_0 == Error::SatelliteDataRequired,
            r is Ok ==> r->Ok_0.same(self@.crop_terms[product_id]),
    {
        match self.crop_terms.get(&product_id) {
            Some(t) => Ok(t.duplicate()),
            None => Err(Error::SatelliteDataRequired),
        }
    }

    pub fn get_reserve_config(&self) -> (r: Result<ReserveConfig, Error>)
        ensures
            r == (match self@.reserve_config {
                Some(c) => Ok(c),
                None => Err(Error::ReserveNotConfigured),
            }),
    {
        match self.reserve_config {
            Some(c) => Ok(c),
            None => Err(Error::ReserveNotConfigured),
        }
    }

    pub fn get_total_reserved(&self) -> (r: i128)
        ensures
            r == self@.total_reserved,
    {
        self.total_reserved
    }

    pub fn is_policy_funded(&self, policy_id: u32) -> (r: bool)
        ensures
            r == self@.is_funded(policy_id),
    {
        match self.funded.get(&policy_id) {
            Some(f) => *f,
            None => false,
        }
    }

    /// Set the settlement token of the claims reserve; it can be set once.
    pub fn configure_reserve(&mut self, admin: u64, settlement_token: u64) -> (r: Result<(), Error>)
        ensures
            r == (if old(self)@.assert_admin(admin) is Err {
                old(self)@.assert_admin(admin)
            } else if old(self)@.reserve_config is Some {
                Err(Error::ReserveAlreadyConfigured)
            } else {
                Ok(())
            }),
            r is Err ==> final(self)@ == old(self)@,
            r is Ok ==> final(self)@ == (InsuranceView {
                reserve_config: Some(ReserveConfig { settlement_token }),
                total_reserved: 0,
                ..old(self)@
            }),
            old(self)@.reserve_consistent() ==> final(self)@.reserve_consistent(),
    {
        self.assert_admin(admin)?;
        if self.reserve_config.is_some() {
            return Err(Error::ReserveAlreadyConfigured);
        }
        proof {
            if old(self)@.reserve_consistent() {
                let s = old(self)@;
                assert forall|id: u32| 1 <= id <= s.policy_count implies
                    reserved_for(s.policies, s.funded, id) == reserved_for(s.policies, Map::<u32, bool>::empty(), id) by {
                    assert(!s.is_funded(id));
                }
                lemma_reserved_sum_update(s.policies, s.funded, s.policies, Map::<u32, bool>::empty(), s.policy_count as nat, 0);
                lemma_reserved_sum_zero(s.policies, s.policy_count as nat);
            }
        }
        self.reserve_config = Some(ReserveConfig { settlement_token });
        self.total_reserved = 0;
        Ok(())
    }

    /// Anyone may add settlement tokens to the reserve; the host moves
    /// `amount` from `funder` to the contract.
    pub fn fund_reserve(&self, funder: u64, amount: i128) -> (r: Result<(), Error>)
        ensures
            r == (if self@.admin is None {
                Err(Error::NotInitialized)
            } else if amount <= 0 {
                Err(Error::InvalidConfig)
            } else if self@.reserve_config is None {
                Err(Error::ReserveNotConfigured)
            } else {
                Ok(())
            }),
    {
        self.assert_initialized()?;
        if amount <= 0 {
            return Err(Error::InvalidConfig);
        }
        if self.reserve_config.is_none() {
            return Err(Error::ReserveNotConfigured);
        }
        Ok(())
    }

    /// The admin withdraws reserve funds not committed to funded policies.
    /// `balance` is the contract's settlement-token balance; on success the
    /// host pays `amount` to `admin`.
    pub fn withdraw_excess_reserve(&self, admin: u64, amount: i128, balance: i128) -> (r: Result<(), Error>)
        ensures
            r == (if self@.assert_admin(admin) is Err {
                self@.assert_admin(admin)
            } else if amount <= 0 {
                Err(Error::InvalidConfig)
            } else if self@.reserve_config is None {
                Err(Error::ReserveNotConfigured)
            } else if !fits_i128(balance - self@.total_reserved) {
                Err(Error::Overflow)
            } else if amount > balance - self@.total_reserved {
                Err(Error::InsufficientReserve)
            } else {
                Ok(())
            }),
            r is Ok ==> balance - amount >= self@.total_reserved,
    {
        self.assert_admin(admin)?;
        if amount <= 0 {
            return Err(Error::InvalidConfig);
        }
        if self.reserve_config.is_none() {
            return Err(Error::ReserveNotConfigured);
        }
        let available = match balance.checked_sub(self.total_reserved) {
            Some(a) => a,
            None => return Err(Error::Overflow),
        };
        if amount > available {
            return Err(Error::InsufficientReserve);
        }
        Ok(())
    }
}

} // verus!
