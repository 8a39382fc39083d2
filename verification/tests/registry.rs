use oauthmux::{
    ClientAuth, Instance, InstanceKey, InstanceMap, InstanceResolver, ProviderSnapshot, Registry,
    ResolveError, ResourceKind, SecretString, UpstreamSpec, Url,
};
use std::sync::Arc;

fn instance(key: &str) -> Arc<Instance> {
    Arc::new(Instance {
        key: InstanceKey::new(key).unwrap(),
        upstream: UpstreamSpec {
            issuer_url: Url::parse("https://issuer.example").unwrap(),
            authorization_endpoint: None,
            token_endpoint: None,
            jwks_uri: None,
            client_id: "id".into(),
            client_secret: SecretString::new("secret"),
            scopes: vec![],
            allowed_scopes: None,
        },
        client_auth: ClientAuth::Public,
        allowed_redirect_origins: vec![],
        default_redirect_uri: None,
    })
}

fn with_instances(keys: &[&str]) -> ProviderSnapshot {
    let mut snapshot = ProviderSnapshot::default();
    for key in keys {
        snapshot.instances.insert(InstanceKey::new(key).unwrap(), instance(key));
    }
    snapshot
}

#[test]
fn earlier_provider_wins_collision() {
    let key = InstanceKey::new("same").unwrap();
    let a = instance("same");
    let mut first = ProviderSnapshot::default();
    first.instances.insert(key.clone(), a.clone());
    let mut second = ProviderSnapshot::default();
    second.instances.insert(key.clone(), instance("same"));
    let merged = Registry::merge_ordered(&[("first", &first), ("second", &second)]);
    assert!(Arc::ptr_eq(merged.get(&key).unwrap(), &a));
}

#[test]
fn merging_keeps_every_key_and_reports_collisions() {
    let first = with_instances(&["a", "b"]);
    let second = with_instances(&["b", "c"]);
    let third = with_instances(&["c", "a", "d"]);
    let (merged, collisions) = ProviderSnapshot::merge_ordered(&[
        ("first", &first),
        ("second", &second),
        ("third", &third),
    ]);
    assert_eq!(merged.instances.len(), 4);
    for key in ["a", "b", "c", "d"] {
        assert!(merged.instances.contains_key(&InstanceKey::new(key).unwrap()));
    }
    let found: Vec<(String, String)> = collisions
        .iter()
        .map(|collision| (collision.provider.clone(), collision.key.as_str().to_string()))
        .collect();
    assert_eq!(
        found,
        vec![
            ("second".to_string(), "b".to_string()),
            ("third".to_string(), "c".to_string()),
            ("third".to_string(), "a".to_string()),
        ],
    );
    assert!(collisions.iter().all(|collision| collision.kind == ResourceKind::Instance));
}

#[test]
fn merging_nothing_gives_nothing() {
    let (merged, collisions) = ProviderSnapshot::merge_ordered(&[]);
    assert_eq!(merged.instances.len(), 0);
    assert!(collisions.is_empty());
}

#[test]
fn a_registry_is_replaced_as_a_whole() {
    let mut registry = Registry::default();
    let key = InstanceKey::new("a").unwrap();
    assert!(matches!(registry.resolve(&key), Ok(None)));
    registry.replace(with_instances(&["a"]).instances);
    let before = registry.snapshot();
    assert!(matches!(registry.resolve(&key), Ok(Some(_))));
    registry.replace(with_instances(&["b"]).instances);
    assert!(matches!(registry.resolve(&key), Ok(None)));
    assert!(before.contains_key(&key));
    assert!(!registry.snapshot().contains_key(&key));
}

#[test]
fn maps_resolve_their_own_keys() {
    let mut map = InstanceMap::new();
    let two = InstanceKey::new("my-app/google").unwrap();
    map.insert(two.clone(), instance("my-app/google"));
    let found = map.resolve(&two).unwrap().unwrap();
    assert_eq!(found.key.as_str(), "my-app/google");
    assert!(map.resolve(&InstanceKey::new("google").unwrap()).unwrap().is_none());
}

#[test]
fn inserting_again_replaces_the_value() {
    let mut map = InstanceMap::new();
    let key = InstanceKey::new("a").unwrap();
    let first = instance("a");
    let second = instance("a");
    map.insert(key.clone(), first.clone());
    map.insert(InstanceKey::new("b").unwrap(), instance("b"));
    map.insert(key.clone(), second.clone());
    assert_eq!(map.len(), 2);
    assert!(Arc::ptr_eq(map.get(&key).unwrap(), &second));
    assert_eq!(map.entry(0).0.as_str(), "a");
    assert_eq!(map.entry(1).0.as_str(), "b");
    let copy = map.clone();
    assert!(Arc::ptr_eq(copy.get(&key).unwrap(), &second));
}

#[test]
fn cold_start_keeps_snapshot_after_provider_stops() {
    let mut registry = Registry::default();
    {
        let provider = with_instances(&["lambda"]);
        registry.replace(Registry::merge_ordered(&[("cold-start-test", &provider)]));
    }
    assert!(registry.snapshot().contains_key(&InstanceKey::new("lambda").unwrap()));
}

#[test]
fn resolve_errors_say_so() {
    assert_eq!(
        ResolveError("down".to_string()).message(),
        "instance resolution failed: down",
    );
}
