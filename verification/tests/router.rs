use certstore::principal::Principal;
use certstore::records::{FileRecord, Replica};
use certstore::router::Router;

fn principal(bytes: &[u8]) -> Principal {
    Principal::try_from_slice(bytes).unwrap()
}

fn record(replicas: &[(&[u8], &str)]) -> FileRecord {
    FileRecord {
        file_id: "f1".to_string(),
        owner: principal(&[1]),
        replicas: replicas
            .iter()
            .map(|(canister, region)| Replica {
                canister: principal(canister),
                region: region.to_string(),
            })
            .collect(),
        merkle_root: vec![],
        allowed: vec![],
        created_ns: 0,
    }
}

fn configured() -> Router {
    let mut router = Router::new();
    router.set_registry(principal(&[9]));
    router
}

const A: &[u8] = &[0xA];
const B: &[u8] = &[0xB];
const C: &[u8] = &[0xC];

#[test]
fn router_health_is_ok() {
    assert_eq!(Router::new().health(), "ok");
}

#[test]
fn route_puts_the_hinted_region_first_and_keeps_the_order_within() {
    let held = record(&[(A, "eu"), (B, "us"), (C, "eu")]);
    let route = configured().route_for(Some(&held), Some("eu"));
    assert_eq!(route, vec![principal(A), principal(C), principal(B)]);
}

#[test]
fn route_for_another_region_moves_its_replicas_forward() {
    let held = record(&[(A, "eu"), (B, "us"), (C, "eu")]);
    let route = configured().route_for(Some(&held), Some("us"));
    assert_eq!(route, vec![principal(B), principal(A), principal(C)]);
}

#[test]
fn route_without_hint_is_the_stored_order() {
    let held = record(&[(A, "eu"), (B, "us"), (C, "eu")]);
    let route = configured().route_for(Some(&held), None);
    assert_eq!(route, vec![principal(A), principal(B), principal(C)]);
}

#[test]
fn route_with_a_hint_that_matches_nothing_is_the_stored_order() {
    let held = record(&[(A, "eu"), (B, "us"), (C, "eu")]);
    let route = configured().route_for(Some(&held), Some("ap"));
    assert_eq!(route, vec![principal(A), principal(B), principal(C)]);
}

#[test]
fn route_is_empty_without_registry() {
    let held = record(&[(A, "eu")]);
    assert_eq!(Router::new().route_for(Some(&held), Some("eu")), vec![]);
}

#[test]
fn route_is_empty_without_record() {
    assert_eq!(configured().route_for(None, Some("eu")), vec![]);
    assert_eq!(configured().route_for(Some(&record(&[])), None), vec![]);
}

#[test]
fn router_asks_the_configured_registry() {
    assert_eq!(Router::new().registry_query("f1"), None);
    let query = configured().registry_query("f1").unwrap();
    assert_eq!(query.registry, principal(&[9]));
    assert_eq!(query.file_id, "f1");
}
