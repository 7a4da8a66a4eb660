use certstore::analytics;
use certstore::billing::{Account, Billing, Usage};
use certstore::principal::Principal;

fn principal(bytes: &[u8]) -> Principal {
    Principal::try_from_slice(bytes).unwrap()
}

#[test]
fn billing_health_is_ok() {
    assert_eq!(Billing::new().health(), "ok");
}

#[test]
fn usage_adds_up_per_user() {
    let mut billing = Billing::new();
    assert_eq!(billing.usage(&principal(&[1])), None);
    billing.record_usage(principal(&[1]), 1, 20, 300);
    billing.record_usage(principal(&[2]), 5, 5, 5);
    billing.record_usage(principal(&[1]), 2, 30, 400);
    assert_eq!(
        billing.usage(&principal(&[1])),
        Some(Usage { user: principal(&[1]), requests: 3, egress_bytes: 50, ingress_bytes: 700 })
    );
    assert_eq!(
        billing.usage(&principal(&[2])),
        Some(Usage { user: principal(&[2]), requests: 5, egress_bytes: 5, ingress_bytes: 5 })
    );
    assert_eq!(billing.account(&principal(&[1])), None);
}

#[test]
fn usage_can_reach_the_largest_count() {
    let mut billing = Billing::new();
    billing.record_usage(principal(&[1]), u64::MAX - 1, 0, 0);
    billing.record_usage(principal(&[1]), 1, 0, 0);
    assert_eq!(billing.usage(&principal(&[1])).unwrap().requests, u64::MAX);
}

#[test]
fn recharge_opens_a_standard_account_and_adds_credits() {
    let mut billing = Billing::new();
    billing.recharge(principal(&[1]), 1_000);
    billing.recharge(principal(&[1]), 234);
    assert_eq!(
        billing.account(&principal(&[1])),
        Some(Account { user: principal(&[1]), credits_nanos: 1_234, plan: "standard".to_string() })
    );
    assert_eq!(billing.account(&principal(&[2])), None);
    assert_eq!(billing.usage(&principal(&[1])), None);
}

#[test]
fn analytics_reports_nothing_yet() {
    let user = principal(&[1]);
    assert_eq!(analytics::health(), "ok");
    analytics::ingest(vec![1, 2, 3]);
    assert_eq!(analytics::rps(&user, 0, 10, 1), vec![]);
    assert_eq!(analytics::bandwidth(&user, 0, 10, 1), vec![]);
    assert_eq!(analytics::heatmap(&user, 0, 10), vec![]);
    assert_eq!(analytics::hit_ratio(&user, 0, 10, 1), vec![]);
}
