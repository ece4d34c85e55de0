//! Two oracle contracts for insurance:
//!
//! - `InsuranceOracle` collects risk data from up to 20 admin-approved
//!   sources, behind a circuit breaker the admin can trip.
//! - `InsuranceOracleAggregator` takes price reports from authorised
//!   reporters and answers with the median of the reports that are not
//!   stale.
//!
//! Accounts are numbers and text is UTF-8 bytes; the host verifies
//! signatures and passes the ledger time as `now`.
use std::collections::HashMap;
use vstd::prelude::*;
use vstd::relations::{sorted_by, total_ordering};

use crate::bytes::copy_bytes;
use crate::fixed::{fits_i128, tdiv};

verus! {

broadcast use vstd::std_specs::hash::group_hash_axioms;

/// The most data sources the risk oracle accepts.
pub const MAX_SOURCES: usize = 20;
pub const MAX_RISK_TYPE_LEN: usize = 64;
pub const MAX_METADATA_LEN: usize = 256;

#[derive(Copy, Clone, Debug, PartialEq, Eq, Structural)]
pub enum Error {
    Unauthorized,
    InvalidInput,
    NotFound,
    CapExceeded,
    CircuitOpen,
}

/// A risk observation from a data source.
#[derive(Debug)]
pub struct RiskData {
    pub source: u64,
    pub risk_type: Vec<u8>,
    pub value: i128,
    pub confidence: u32,
    pub timestamp: u64,
    pub metadata: Vec<u8>,
}

impl RiskData {
    /// Field-by-field equality, comparing text by its bytes.
    pub open spec fn same(self, other: RiskData) -> bool {
        &&& self.source == other.source
        &&& self.risk_type@ == other.risk_type@
        &&& self.value == other.value
        &&& self.confidence == other.confidence
        &&& self.timestamp == other.timestamp
        &&& self.metadata@ == other.metadata@
    }

    pub fn duplicate(&self) -> (r: RiskData)
        ensures
            r.same(*self),
    {
        RiskData {
            source: self.source,
            risk_type: copy_bytes(&self.risk_type),
            value: self.value,
            confidence: self.confidence,
            timestamp: self.timestamp,
            metadata: copy_bytes(&self.metadata),
        }
    }
}

/// The records of `s` with a timestamp in `from..=to`, in order.
pub open spec fn in_window(s: Seq<RiskData>, from: u64, to: u64) -> Seq<RiskData>
    decreases s.len(),
{
    if s.len() == 0 {
        Seq::empty()
    } else if from <= s.last().timestamp <= to {
        in_window(s.drop_last(), from, to).push(s.last())
    } else {
        in_window(s.drop_last(), from, to)
    }
}

/// `s` without any occurrence of `x`, in order.
pub open spec fn without(s: Seq<u64>, x: u64) -> Seq<u64>
    decreases s.len(),
{
    if s.len() == 0 {
        Seq::empty()
    } else if s.last() != x {
        without(s.drop_last(), x).push(s.last())
    } else {
        without(s.drop_last(), x)
    }
}

/// A copy of `s` without any occurrence of `x`.
fn remove_all(s: &Vec<u64>, x: u64) -> (r: Vec<u64>)
    ensures
        r@ == without(s@, x),
        r@.len() <= s@.len(),
{
    let mut r: Vec<u64> = Vec::new();
    let mut i: usize = 0;
    while i < s.len()
        invariant
            i <= s.len(),
            r@ == without(s@.take(i as int), x),
            r@.len() <= i,
        decreases s.len() - i,
    {
        proof {
            assert(s@.take(i + 1).drop_last() =~= s@.take(i as int));
        }
        if s[i] != x {
            r.push(s[i]);
        }
        i = i + 1;
    }
    proof {
        assert(s@.take(s.len() as int) =~= s@);
    }
    r
}

fn list_contains(s: &Vec<u64>, x: u64) -> (r: bool)
    ensures
        r == s@.contains(x),
{
    let mut i: usize = 0;
    while i < s.len()
        invariant
            i <= s.len(),
            forall|j: int| 0 <= j < i ==> s@[j] != x,
        decreases s.len() - i,
    {
        if s[i] == x {
            return true;
        }
        i = i + 1;
    }
    false
}

/// The abstract contents of the risk oracle's storage.
pub struct RiskOracleView {
    pub admin: Option<u64>,
    pub threshold: u32,
    pub sources: Seq<u64>,
    pub circuit_breaker: bool,
    pub risk_data: Seq<RiskData>,
}

/// The risk oracle's storage.
pub struct InsuranceOracle {
    pub admin: Option<u64>,
    pub threshold: u32,
    pub sources: Vec<u64>,
    pub circuit_breaker: bool,
    pub risk_data: Vec<RiskData>,
}

impl View for InsuranceOracle {
    type V = RiskOracleView;

    open spec fn view(&self) -> RiskOracleView {
        RiskOracleView {
            admin: self.admin,
            threshold: self.threshold,
            sources: self.sources@,
            circuit_breaker: self.circuit_breaker,
            risk_data: self.risk_data@,
        }
    }
}

impl RiskOracleView {
    pub open spec fn assert_admin(self, admin: u64) -> Result<(), Error> {
        match self.admin {
            None => Err(Error::Unauthorized),
            Some(a) => if a != admin { Err(Error::Unauthorized) } else { Ok(()) },
        }
    }
}

impl InsuranceOracle {
    /// A contract with empty storage.
    pub fn new() -> (r: Self)
        ensures
            r@.admin is None,
            r@.threshold == 3,
            r@.sources == Seq::<u64>::empty(),
            !r@.circuit_breaker,
            r@.risk_data == Seq::<RiskData>::empty(),
    {
        InsuranceOracle {
            admin: None,
            threshold: 3,
            sources: Vec::new(),
            circuit_breaker: false,
            risk_data: Vec::new(),
        }
    }

    pub fn initialize(&mut self, admin: u64) -> (r: Result<(), Error>)
        ensures
            r == (if old(self)@.admin is Some { Err(Error::CapExceeded) } else { Ok(()) }),
            r is Err ==> final(self)@ == old(self)@,
            r is Ok ==> final(self)@ == (RiskOracleView {
                admin: Some(admin),
                threshold: 3,
                sources: Seq::empty(),
                circuit_breaker: false,
                ..old(self)@
            }),
    {
        if self.admin.is_some() {
            return Err(Error::CapExceeded);
        }
        self.admin = Some(admin);
        self.threshold = 3;
        self.sources = Vec::new();
        self.circuit_breaker = false;
        Ok(())
    }

    fn assert_admin(&self, admin: u64) -> (r: Result<(), Error>)
        ensures
            r == self@.assert_admin(admin),
    {
        match self.admin {
            None => Err(Error::Unauthorized),
            Some(a) => if a != admin { Err(Error::Unauthorized) } else { Ok(()) },
        }
    }

    /// An approved source submits a risk observation.
    pub fn submit_risk_data(&mut self, data: RiskData) -> (r: Result<(), Error>)
        ensures
            r == (if old(self)@.admin is None {
                Err(Error::NotFound)
            } else if !old(self)@.sources.contains(data.source) {
                Err(Error::Unauthorized)
            } else if data.confidence > 100 {
                Err(Error::InvalidInput)
            } else if old(self)@.circuit_breaker {
                Err(Error::CircuitOpen)
            } else if data.risk_type@.len() > MAX_RISK_TYPE_LEN || data.metadata@.len() > MAX_METADATA_LEN {
                Err(Error::InvalidInput)
            } else {
                Ok(())
            }),
            r is Err ==> final(self)@ == old(self)@,
            r is Ok ==> final(self)@ == (RiskOracleView {
                risk_data: old(self)@.risk_data.push(data),
                ..old(self)@
            }),
    {
        if self.admin.is_none() {
            return Err(Error::NotFound);
        }
        if !list_contains(&self.sources, data.source) {
            return Err(Error::Unauthorized);
        }
        if data.confidence > 100 {
            return Err(Error::InvalidInput);
        }
        if self.circuit_breaker {
            return Err(Error::CircuitOpen);
        }
        if data.risk_type.len() > MAX_RISK_TYPE_LEN {
            return Err(Error::InvalidInput);
        }
        if data.metadata.len() > MAX_METADATA_LEN {
            return Err(Error::InvalidInput);
        }
        self.risk_data.push(data);
        Ok(())
    }

    /// Every risk observation, in submission order; the risk type is not
    /// used to select them.
    pub fn get_risk_data(&self, risk_type: &Vec<u8>) -> (r: Result<Vec<RiskData>, Error>)
        ensures
            r is Err <==> self@.admin is None,
            r is Err ==> r->Err_0 == Error::NotFound,
            r is Ok ==> r->Ok_0@.len() == self@.risk_data.len()
                && forall|i: int| 0 <= i < self@.risk_data.len() ==> #[trigger] r->Ok_0@[i].same(self@.risk_data[i]),
    {
        if self.admin.is_none() {
            return Err(Error::NotFound);
        }
        let mut out: Vec<RiskData> = Vec::new();
        let mut i: usize = 0;
        while i < self.risk_data.len()
            invariant
                i <= self.risk_data.len(),
                out@.len() == i,
                forall|j: int| 0 <= j < i ==> #[trigger] out@[j].same(self.risk_data@[j]),
            decreases self.risk_data.len() - i,
        {
            out.push(self.risk_data[i].duplicate());
            i = i + 1;
        }
        Ok(out)
    }

    /// The risk observations timestamped in `from..=to`, in submission
    /// order; the risk type is not used to select them.
    pub fn get_historical_claims(&self, risk_type: &Vec<u8>, from: u64, to: u64) -> (r: Result<Vec<RiskData>, Error>)
        ensures
            r is Err <==> self@.admin is None,
            r is Err ==> r->Err_0 == Error::NotFound,
            r is Ok ==> r->Ok_0@.len() == in_window(self@.risk_data, from, to).len()
                && forall|i: int| 0 <= i < r->Ok_0@.len()
                    ==> #[trigger] r->Ok_0@[i].same(in_window(self@.risk_data, from, to)[i]),
    {
        if self.admin.is_none() {
            return Err(Error::NotFound);
        }
        let mut out: Vec<RiskData> = Vec::new();
        let mut i: usize = 0;
        while i < self.risk_data.len()
            invariant
                i <= self.risk_data.len(),
                out@.len() == in_window(self.risk_data@.take(i as int), from, to).len(),
                forall|j: int| 0 <= j < out@.len()
                    ==> #[trigger] out@[j].same(in_window(self.risk_data@.take(i as int), from, to)[j]),
            decreases self.risk_data.len() - i,
        {
            proof {
                assert(self.risk_data@.take(i + 1).drop_last() =~= self.risk_data@.take(i as int));
            }
            let d = &self.risk_data[i];
            if d.timestamp >= from && d.timestamp <= to {
                out.push(d.duplicate());
            }
            i = i + 1;
        }
        proof {
            assert(self.risk_data@.take(self.risk_data.len() as int) =~= self.risk_data@);
        }
        Ok(out)
    }

    /// The admin approves a source (at most 20; approving one twice does
    /// nothing).
    pub fn add_data_source(&mut self, admin: u64, source: u64) -> (r: Result<(), Error>)
        ensures
            r == (if old(self)@.assert_admin(admin) is Err {
                old(self)@.assert_admin(admin)
            } else if old(self)@.sources.contains(source) {
                Ok(())
            } else if old(self)@.sources.len() >= MAX_SOURCES {
                Err(Error::CapExceeded)
            } else {
                Ok(())
            }),
            r is Err || old(self)@.sources.contains(source) ==> final(self)@ == old(self)@,
            r is Ok && !old(self)@.sources.contains(source) ==> final(self)@ == (RiskOracleView {
                sources: old(self)@.sources.push(source),
                ..old(self)@
            }),
    {
        self.assert_admin(admin)?;
        if list_contains(&self.sources, source) {
            return Ok(());
        }
        if self.sources.len() >= MAX_SOURCES {
            return Err(Error::CapExceeded);
        }
        self.sources.push(source);
        Ok(())
    }

    /// The admin withdraws a source's approval.
    pub fn remove_data_source(&mut self, admin: u64, source: u64) -> (r: Result<(), Error>)
        ensures
            r == old(self)@.assert_admin(admin),
            r is Err ==> final(self)@ == old(self)@,
            r is Ok ==> final(self)@ == (RiskOracleView {
                sources: without(old(self)@.sources, source),
                ..old(self)@
            }),
    {
        self.assert_admin(admin)?;
        self.sources = remove_all(&self.sources, source);
        Ok(())
    }

    pub fn set_verification_threshold(&mut self, admin: u64, threshold: u32) -> (r: Result<(), Error>)
        ensures
            r == (if old(self)@.assert_admin(admin) is Err {
                old(self)@.assert_admin(admin)
            } else if threshold == 0 {
                Err(Error::InvalidInput)
            } else {
                Ok(())
            }),
            r is Err ==> final(self)@ == old(self)@,
            r is Ok ==> final(self)@ == (RiskOracleView { threshold, ..old(self)@ }),
    {
        self.assert_admin(admin)?;
        if threshold == 0 {
            return Err(Error::InvalidInput);
        }
        self.threshold = threshold;
        Ok(())
    }

    /// The admin stops all submissions.
    pub fn activate_circuit_breaker(&mut self, admin: u64) -> (r: Result<(), Error>)
        ensures
            r == old(self)@.assert_admin(admin),
            r is Err ==> final(self)@ == old(self)@,
            r is Ok ==> final(self)@ == (RiskOracleView { circuit_breaker: true, ..old(self)@ }),
    {
        self.assert_admin(admin)?;
        self.circuit_breaker = true;
        Ok(())
    }

    /// The admin allows submissions again.
    pub fn deactivate_circuit_breaker(&mut self, admin: u64) -> (r: Result<(), Error>)
        ensures
            r == old(self)@.assert_admin(admin),
            r is Err ==> final(self)@ == old(self)@,
            r is Ok ==> final(self)@ == (RiskOracleView { circuit_breaker: false, ..old(self)@ }),
    {
        self.assert_admin(admin)?;
        self.circuit_breaker = false;
        Ok(())
    }

    pub fn get_admin(&self) -> (r: Result<u64, Error>)
        ensures
            r == (match self@.admin {
                Some(a) => Ok(a),
                None => Err(Error::Unauthorized),
            }),
    {
        match self.admin {
            Some(a) => Ok(a),
            None => Err(Error::Unauthorized),
        }
    }

    pub fn get_threshold_fn(&self) -> (r: Result<u32, Error>)
        ensures
            r == (if self@.admin is None { Err(Error::NotFound) } else { Ok(self@.threshold) }),
    {
        if self.admin.is_none() {
            return Err(Error::NotFound);
        }
        Ok(self.threshold)
    }

    pub fn get_sources_fn(&self) -> (r: Result<Vec<u64>, Error>)
        ensures
            r is Err <==> self@.admin is None,
            r is Err ==> r->Err_0 == Error::NotFound,
            r is Ok ==> r->Ok_0@ == self@.sources,
    {
        if self.admin.is_none() {
            return Err(Error::NotFound);
        }
        Ok(remove_all_copy(&self.sources))
    }
}

fn remove_all_copy(s: &Vec<u64>) -> (r: Vec<u64>)
    ensures
        r@ == s@,
{
    let mut r: Vec<u64> = Vec::new();
    let mut i: usize = 0;
    while i < s.len()
        invariant
            i <= s.len(),
            r@ == s@.take(i as int),
        decreases s.len() - i,
    {
        r.push(s[i]);
        i = i + 1;
        assert(r@ =~= s@.take(i as int));
    }
    assert(s@.take(s.len() as int) =~= s@);
    r
}

#[derive(Copy, Clone, Debug, PartialEq, Eq, Structural)]
pub enum OracleError {
    NotAuthorized,
    AlreadyInitialized,
    ReporterNotFound,
    NoValidPriceFeeds,
    StalePriceFeed,
    InsufficientReporters,
    InvalidPrice,
}

/// A reporter's latest price and when it was reported.
#[derive(Copy, Clone, Debug, PartialEq, Eq, Structural)]
pub struct PriceData {
    pub price: i128,
    pub timestamp: u64,
}

/// The order prices are sorted in.
pub open spec fn price_leq() -> spec_fn(i128, i128) -> bool {
    |a: i128, b: i128| a <= b
}

/// The middle of the sorted prices: the middle one for an odd count, else
/// the mean of the two middle ones, rounded toward zero.
pub open spec fn median_of(prices: Seq<i128>) -> int {
    let s = prices.sort_by(price_leq());
    let n = s.len() as int;
    if n % 2 == 1 {
        s[n / 2] as int
    } else {
        tdiv(s[n / 2 - 1] + s[n / 2], 2)
    }
}

/// The sum of the two middle prices, for an even count, fits an `i128`.
pub open spec fn median_fits(prices: Seq<i128>) -> bool {
    let s = prices.sort_by(price_leq());
    let n = s.len() as int;
    n % 2 == 0 ==> fits_i128(s[n / 2 - 1] + s[n / 2])
}

proof fn lemma_price_leq_total()
    ensures
        total_ordering(price_leq()),
{
    assert(vstd::relations::reflexive(price_leq()));
    assert(vstd::relations::transitive(price_leq()));
    assert(vstd::relations::antisymmetric(price_leq()));
    assert(vstd::relations::strongly_connected(price_leq()));
}

/// Sort `v` ascending by insertion.
fn insertion_sort(v: &mut Vec<i128>)
    ensures
        final(v)@.to_multiset() == old(v)@.to_multiset(),
        sorted_by(final(v)@, price_leq()),
{
    broadcast use vstd::seq_lib::group_to_multiset_ensures;
    let n = v.len();
    if n == 0 {
        return;
    }
    let mut i: usize = 1;
    while i < n
        invariant
            1 <= i <= n,
            n == v.len(),
            v@.to_multiset() == old(v)@.to_multiset(),
            forall|a: int, b: int| 0 <= a < b < i ==> v@[a] <= v@[b],
        decreases n - i,
    {
        let mut j: usize = i;
        while j > 0 && v[j - 1] > v[j]
            invariant
                0 <= j <= i < n,
                n == v.len(),
                v@.to_multiset() == old(v)@.to_multiset(),
                forall|a: int, b: int| 0 <= a < b <= i && b != j ==> v@[a] <= v@[b],
                forall|a: int, b: int| 0 <= a < j && j < b <= i ==> v@[a] <= v@[b],
            decreases j,
        {
            let x = v[j - 1];
            let y = v[j];
            let ghost before = v@;
            v.set(j - 1, y);
            v.set(j, x);
            proof {
                assert(v@ =~= before.update(j - 1, y).update(j as int, x));
                vstd::seq_lib::to_multiset_update(before, j - 1, y);
                vstd::seq_lib::to_multiset_update(before.update(j - 1, y), j as int, x);
                assert(before[j - 1] == x && before[j as int] == y);
                assert(before.contains(x) && before.contains(y));
                vstd::seq_lib::to_multiset_contains(before, x);
                vstd::seq_lib::to_multiset_contains(before, y);
                assert(v@.to_multiset() =~= before.to_multiset()) by {
                    broadcast use vstd::multiset::group_multiset_axioms;
                }
            }
            j = j - 1;
        }
        i = i + 1;
    }
}

/// The median of non-empty `prices`.
pub fn median(prices: Vec<i128>) -> (r: i128)
    requires
        prices@.len() > 0,
        median_fits(prices@),
    ensures
        r == median_of(prices@),
{
    let ghost input = prices@;
    let mut sorted = prices;
    insertion_sort(&mut sorted);
    proof {
        broadcast use vstd::seq_lib::group_to_multiset_ensures;
        lemma_price_leq_total();
        assert(sorted@.to_multiset().len() == input.to_multiset().len());
        input.lemma_sort_by_ensures(price_leq());
        vstd::seq_lib::lemma_sorted_unique(sorted@, input.sort_by(price_leq()), price_leq());
    }
    let len = sorted.len();
    if len % 2 == 1 {
        sorted[len / 2]
    } else {
        let mid1 = sorted[len / 2 - 1];
        let mid2 = sorted[len / 2];
        crate::fixed::div_trunc(mid1 + mid2, 2)
    }
}

/// The prices reported by `reporters`, in list order, that are at most
/// `staleness` seconds old at `now`.
pub open spec fn fresh_prices(reporters: Seq<u64>, reports: Map<u64, PriceData>, now: u64, staleness: u64) -> Seq<i128>
    decreases reporters.len(),
{
    if reporters.len() == 0 {
        Seq::empty()
    } else {
        let rest = fresh_prices(reporters.drop_last(), reports, now, staleness);
        let r = reporters.last();
        if reports.contains_key(r) && (if now >= reports[r].timestamp { now - reports[r].timestamp } else { 0 }) <= staleness {
            rest.push(reports[r].price)
        } else {
            rest
        }
    }
}

/// The abstract contents of the aggregator's storage.
pub struct AggregatorView {
    pub admin: Option<u64>,
    pub staleness_threshold: Option<u64>,
    pub reporters: Map<u64, bool>,
    pub reporters_list: Option<Seq<u64>>,
    pub reports: Map<u64, PriceData>,
}

/// The aggregator's storage.
pub struct InsuranceOracleAggregator {
    pub admin: Option<u64>,
    pub staleness_threshold: Option<u64>,
    pub reporters: HashMap<u64, bool>,
    pub reporters_list: Option<Vec<u64>>,
    pub reports: HashMap<u64, PriceData>,
}

impl View for InsuranceOracleAggregator {
    type V = AggregatorView;

    open spec fn view(&self) -> AggregatorView {
        AggregatorView {
            admin: self.admin,
            staleness_threshold: self.staleness_threshold,
            reporters: self.reporters@,
            reporters_list: match self.reporters_list {
                Some(l) => Some(l@),
                None => None,
            },
            reports: self.reports@,
        }
    }
}

impl AggregatorView {
    /// The prices a median is taken over at `now`.
    pub open spec fn valid_prices(self, now: u64) -> Seq<i128> {
        let staleness = match self.staleness_threshold { Some(t) => t, None => 300 };
        fresh_prices(self.reporters_list->Some_0, self.reports, now, staleness)
    }
}

impl InsuranceOracleAggregator {
    /// An aggregator with empty storage.
    pub fn new() -> (r: Self)
        ensures
            r@.admin is None,
            r@.staleness_threshold is None,
            r@.reporters == Map::<u64, bool>::empty(),
            r@.reporters_list is None,
            r@.reports == Map::<u64, PriceData>::empty(),
    {
        InsuranceOracleAggregator {
            admin: None,
            staleness_threshold: None,
            reporters: HashMap::new(),
            reporters_list: None,
            reports: HashMap::new(),
        }
    }

    /// Set the admin and the window, in seconds, within which a report
    /// counts.
    pub fn aggregator_initialize(&mut self, admin: u64, staleness_threshold_secs: u64) -> (r: Result<(), OracleError>)
        ensures
            r == (if old(self)@.admin is Some { Err(OracleError::AlreadyInitialized) } else { Ok(()) }),
            r is Err ==> final(self)@ == old(self)@,
            r is Ok ==> final(self)@ == (AggregatorView {
                admin: Some(admin),
                staleness_threshold: Some(staleness_threshold_secs),
                reporters_list: Some(Seq::empty()),
                ..old(self)@
            }),
    {
        if self.admin.is_some() {
            return Err(OracleError::AlreadyInitialized);
        }
        self.admin = Some(admin);
        self.staleness_threshold = Some(staleness_threshold_secs);
        self.reporters_list = Some(Vec::new());
        Ok(())
    }

    /// The admin grants or revokes a reporter.
    pub fn set_reporter_status(&mut self, reporter: u64, authorized: bool) -> (r: Result<(), OracleError>)
        ensures
            r == (if old(self)@.admin is None { Err(OracleError::NotAuthorized) } else { Ok(()) }),
            r is Err ==> final(self)@ == old(self)@,
            r is Ok ==> {
                let list = match old(self)@.reporters_list { Some(l) => l, None => Seq::<u64>::empty() };
                final(self)@ == (if authorized {
                    if old(self)@.reporters.contains_key(reporter) {
                        AggregatorView { reporters_list: Some(list), ..old(self)@ }
                    } else {
                        AggregatorView {
                            reporters: old(self)@.reporters.insert(reporter, true),
                            reporters_list: Some(list.push(reporter)),
                            ..old(self)@
                        }
                    }
                } else {
                    AggregatorView {
                        reporters: old(self)@.reporters.remove(reporter),
                        reporters_list: Some(without(list, reporter)),
                        ..old(self)@
                    }
                })
            },
    {
        if self.admin.is_none() {
            return Err(OracleError::NotAuthorized);
        }
        let mut list = match self.reporters_list.take() {
            Some(l) => l,
            None => Vec::new(),
        };
        if authorized {
            if !self.reporters.contains_key(&reporter) {
                self.reporters.insert(reporter, true);
                list.push(reporter);
            }
        } else {
            self.reporters.remove(&reporter);
            list = remove_all(&list, reporter);
        }
        self.reporters_list = Some(list);
        Ok(())
    }

    /// An authorised reporter submits a price at `now`.
    pub fn submit_price(&mut self, reporter: u64, price: i128, now: u64) -> (r: Result<(), OracleError>)
        ensures
            r == (if !(old(self)@.reporters.contains_key(reporter) && old(self)@.reporters[reporter]) {
                Err(OracleError::NotAuthorized)
            } else if price <= 0 {
                Err(OracleError::InvalidPrice)
            } else {
                Ok(())
            }),
            r is Err ==> final(self)@ == old(self)@,
            r is Ok ==> final(self)@ == (AggregatorView {
                reports: old(self)@.reports.insert(reporter, PriceData { price, timestamp: now }),
                ..old(self)@
            }),
    {
        let is_reporter = match self.reporters.get(&reporter) {
            Some(b) => *b,
            None => false,
        };
        if !is_reporter {
            return Err(OracleError::NotAuthorized);
        }
        if price <= 0 {
            return Err(OracleError::InvalidPrice);
        }
        self.reports.insert(reporter, PriceData { price, timestamp: now });
        Ok(())
    }

    /// The median of the listed reporters' prices that are not stale at
    /// `now`.
    pub fn get_median_price(&self, now: u64) -> (r: Result<i128, OracleError>)
        requires
            self@.reporters_list is Some && self@.valid_prices(now).len() > 0
                ==> median_fits(self@.valid_prices(now)),
        ensures
            r == (if self@.reporters_list is None {
                Err(OracleError::InsufficientReporters)
            } else if self@.valid_prices(now).len() == 0 {
                Err(OracleError::NoValidPriceFeeds)
            } else {
                Ok(median_of(self@.valid_prices(now)) as i128)
            }),
    {
        let list = match &self.reporters_list {
            Some(l) => l,
            None => return Err(OracleError::InsufficientReporters),
        };
        let staleness = match self.staleness_threshold {
            Some(t) => t,
            None => 300,
        };
        let mut prices: Vec<i128> = Vec::new();
        let mut i: usize = 0;
        while i < list.len()
            invariant
                i <= list.len(),
                prices@ == fresh_prices(list@.take(i as int), self.reports@, now, staleness),
            decreases list.len() - i,
        {
            proof {
                assert(list@.take(i + 1).drop_last() =~= list@.take(i as int));
            }
            match self.reports.get(&list[i]) {
                Some(report) => {
                    if now.saturating_sub(report.timestamp) <= staleness {
                        prices.push(report.price);
                    }
                },
                None => {},
            }
            i = i + 1;
        }
        proof {
            assert(list@.take(list.len() as int) =~= list@);
        }
        if prices.len() == 0 {
            return Err(OracleError::NoValidPriceFeeds);
        }
        Ok(median(prices))
    }
}

} // verus!
