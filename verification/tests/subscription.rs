use stellar_contracts::subscription::SubscriptionBillingContract;

const SUBSCRIBER: u64 = 1;
const MERCHANT: u64 = 2;

#[test]
fn subscription_pulls_once_per_period_until_the_end() {
    let mut c = SubscriptionBillingContract::new();
    c.subscribe(SUBSCRIBER, MERCHANT, 500, 60, 180, 1_000);
    let s = c.get_subscription(SUBSCRIBER, MERCHANT).unwrap();
    assert_eq!(s.next_billing_time, 1_000);
    assert_eq!(s.end_time, 1_180);
    assert!(s.active);

    assert_eq!(c.pull_payment(MERCHANT, SUBSCRIBER, 1_000), 500);
    let s = c.get_subscription(SUBSCRIBER, MERCHANT).unwrap();
    assert_eq!(s.next_billing_time, 1_060);
    // The next pull is not due before 1_060.
    assert!(1_030 < s.next_billing_time);
    assert_eq!(c.pull_payment(MERCHANT, SUBSCRIBER, 1_060), 500);
    assert_eq!(c.get_subscription(SUBSCRIBER, MERCHANT).unwrap().next_billing_time, 1_120);
}

#[test]
fn subscription_cancel_stops_pulls() {
    let mut c = SubscriptionBillingContract::new();
    assert_eq!(c.get_subscription(SUBSCRIBER, MERCHANT), None);
    c.subscribe(SUBSCRIBER, MERCHANT, 500, 60, 180, 1_000);
    c.cancel_subscription(SUBSCRIBER, MERCHANT);
    let s = c.get_subscription(SUBSCRIBER, MERCHANT).unwrap();
    assert!(!s.active);
    assert_eq!(s.next_billing_time, 1_000);
    // Subscribing again starts afresh.
    c.subscribe(SUBSCRIBER, MERCHANT, 700, 30, 60, 2_000);
    let s = c.get_subscription(SUBSCRIBER, MERCHANT).unwrap();
    assert!(s.active);
    assert_eq!(s.allowance_per_period, 700);
    assert_eq!(c.get_subscription(MERCHANT, SUBSCRIBER), None);
}
