//! Recurring billing: a subscriber authorizes a merchant to pull a fixed
//! allowance once per period until an end time; the subscriber may cancel.
//!
//! Accounts are numbers; the host authenticates the callers and passes the
//! ledger time as `now`. The contract aborts on a refused call, so each
//! operation requires the conditions under which it completes;
//! `get_subscription` lets a caller test them first.
use std::collections::HashMap;
use vstd::prelude::*;

verus! {

broadcast use vstd::std_specs::hash::group_hash_axioms;

#[derive(Copy, Clone, Debug, PartialEq, Eq, Structural)]
pub struct Subscription {
    pub subscriber: u64,
    pub merchant: u64,
    pub allowance_per_period: i128,
    /// In seconds.
    pub period_duration: u64,
    pub next_billing_time: u64,
    pub end_time: u64,
    pub active: bool,
}

/// The storage key of the `(subscriber, merchant)` pair.
pub open spec fn sub_key(subscriber: u64, merchant: u64) -> u128 {
    (subscriber * 0x1_0000_0000_0000_0000 + merchant) as u128
}

fn make_key(subscriber: u64, merchant: u64) -> (r: u128)
    ensures
        r == sub_key(subscriber, merchant),
{
    assert(subscriber * 0x1_0000_0000_0000_0000 + merchant <= u128::MAX) by (nonlinear_arith)
        requires subscriber <= u64::MAX, merchant <= u64::MAX;
    (subscriber as u128) * 0x1_0000_0000_0000_0000 + (merchant as u128)
}

pub struct SubscriptionBillingContract {
    pub subscriptions: HashMap<u128, Subscription>,
}

impl View for SubscriptionBillingContract {
    type V = Map<u128, Subscription>;

    open spec fn view(&self) -> Map<u128, Subscription> {
        self.subscriptions@
    }
}

/// The subscription of `subscriber` to `merchant`, if any.
pub open spec fn sub_of(m: Map<u128, Subscription>, subscriber: u64, merchant: u64) -> Option<Subscription> {
    if m.contains_key(sub_key(subscriber, merchant)) { Some(m[sub_key(subscriber, merchant)]) } else { None }
}

/// Whether `merchant` may pull from `subscriber` at `now`: the subscription
/// exists, is active, is due and has not ended.
pub open spec fn pull_ready(m: Map<u128, Subscription>, merchant: u64, subscriber: u64, now: u64) -> bool {
    match sub_of(m, subscriber, merchant) {
        None => false,
        Some(s) => s.active && now >= s.next_billing_time && now <= s.end_time
            && s.next_billing_time + s.period_duration <= u64::MAX,
    }
}

/// Every subscription is filed under its own pair and has a positive
/// allowance.
pub open spec fn subscriptions_wf(m: Map<u128, Subscription>) -> bool {
    forall|k: u128| #[trigger] m.contains_key(k) ==> {
        &&& k == sub_key(m[k].subscriber, m[k].merchant)
        &&& m[k].allowance_per_period > 0
    }
}

impl SubscriptionBillingContract {
    pub fn new() -> (r: Self)
        ensures
            r@ == Map::<u128, Subscription>::empty(),
            subscriptions_wf(r@),
    {
        SubscriptionBillingContract { subscriptions: HashMap::new() }
    }

    /// Starts (or restarts) `subscriber`'s subscription to `merchant` at
    /// `now`: the first payment is due at once, the last by `now + duration`.
    pub fn subscribe(
        &mut self,
        subscriber: u64,
        merchant: u64,
        allowance_per_period: i128,
        period_duration: u64,
        duration: u64,
        now: u64,
    )
        requires
            allowance_per_period > 0,
            now + duration <= u64::MAX,
        ensures
            final(self)@ == old(self)@.insert(sub_key(subscriber, merchant), Subscription {
                subscriber,
                merchant,
                allowance_per_period,
                period_duration,
                next_billing_time: now,
                end_time: (now + duration) as u64,
                active: true,
            }),
            subscriptions_wf(old(self)@) ==> subscriptions_wf(final(self)@),
    {
        let key = make_key(subscriber, merchant);
        let sub = Subscription {
            subscriber,
            merchant,
            allowance_per_period,
            period_duration,
            next_billing_time: now,
            end_time: now + duration,
            active: true,
        };
        self.subscriptions.insert(key, sub);
    }

    /// Takes one period's payment at `now` and moves the next billing time
    /// one period on; returns the allowance pulled.
    pub fn pull_payment(&mut self, merchant: u64, subscriber: u64, now: u64) -> (r: i128)
        requires
            pull_ready(old(self)@, merchant, subscriber, now),
        ensures
            ({
                let s = old(self)@[sub_key(subscriber, merchant)];
                &&& r == s.allowance_per_period
                &&& final(self)@ == old(self)@.insert(sub_key(subscriber, merchant), Subscription {
                    next_billing_time: (s.next_billing_time + s.period_duration) as u64,
                    ..s
                })
            }),
            subscriptions_wf(old(self)@) ==> subscriptions_wf(final(self)@),
    {
        let key = make_key(subscriber, merchant);
        let mut sub = *self.subscriptions.get(&key).unwrap();
        sub.next_billing_time = sub.next_billing_time + sub.period_duration;
        self.subscriptions.insert(key, sub);
        sub.allowance_per_period
    }

    /// Stops the subscription; no payment can be pulled until the
    /// subscriber subscribes again.
    pub fn cancel_subscription(&mut self, subscriber: u64, merchant: u64)
        requires
            sub_of(old(self)@, subscriber, merchant) is Some,
        ensures
            final(self)@ == old(self)@.insert(sub_key(subscriber, merchant), Subscription {
                active: false,
                ..old(self)@[sub_key(subscriber, merchant)]
            }),
            forall|now: u64| !pull_ready(final(self)@, merchant, subscriber, now),
            subscriptions_wf(old(self)@) ==> subscriptions_wf(final(self)@),
    {
        let key = make_key(subscriber, merchant);
        let mut sub = *self.subscriptions.get(&key).unwrap();
        sub.active = false;
        self.subscriptions.insert(key, sub);
    }

    /// The subscription of `subscriber` to `merchant`, if any.
    pub fn get_subscription(&self, subscriber: u64, merchant: u64) -> (r: Option<Subscription>)
        ensures
            r == sub_of(self@, subscriber, merchant),
    {
        let key = make_key(subscriber, merchant);
        match self.subscriptions.get(&key) {
            Some(s) => Some(*s),
            None => None,
        }
    }
}

} // verus!
