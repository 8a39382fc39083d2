use oauthmux::polling::{refresh_due, refreshed};
use oauthmux::{
    Action, ClientAuth, ConfigError, Duration, Instance, InstanceKey, Poller, ProviderSnapshot,
    SecretString, UpstreamSpec, Url, WhenUnheard,
};
use std::sync::Arc;

fn snapshot(key: &str) -> ProviderSnapshot {
    let mut snapshot = ProviderSnapshot::default();
    snapshot.instances.insert(
        InstanceKey::new(key).unwrap(),
        Arc::new(Instance {
            key: InstanceKey::new(key).unwrap(),
            upstream: UpstreamSpec {
                issuer_url: Url::parse("https://issuer.example").unwrap(),
                authorization_endpoint: None,
                token_endpoint: None,
                jwks_uri: None,
                client_id: "id".into(),
                client_secret: SecretString::new("secret"),
                scopes: vec![],
                allowed_scopes: None,
            },
            client_auth: ClientAuth::Public,
            allowed_redirect_origins: vec![],
            default_redirect_uri: None,
        }),
    );
    snapshot
}

fn holds(snapshot: &ProviderSnapshot, key: &str) -> bool {
    snapshot.instances.contains_key(&InstanceKey::new(key).unwrap())
}

fn broken() -> Result<ProviderSnapshot, ConfigError> {
    Err(ConfigError::msg("broken".to_string()))
}

#[test]
fn the_last_good_snapshot_stays_in_place() {
    let mut poller = Poller::new(WhenUnheard::Finish);
    let mut served: Option<ProviderSnapshot> = None;
    for load in [Ok(snapshot("one")), broken(), Ok(snapshot("two")), broken(), broken()] {
        match poller.loaded(load) {
            Action::Publish(snapshot) => {
                served = Some(snapshot);
                assert!(matches!(poller.published(true), Action::Wait));
            }
            Action::Report(error) => assert_eq!(error.message(), "broken"),
            _ => panic!("the provider has to go on"),
        }
    }
    assert!(holds(&served.unwrap(), "two"));
}

#[test]
fn a_failed_first_load_stops_the_provider() {
    for unheard in [WhenUnheard::Finish, WhenUnheard::FailAtFirst] {
        let poller = Poller::new(unheard);
        assert!(matches!(poller.loaded(broken()), Action::Fail(error) if error.message() == "broken"));
    }
}

#[test]
fn providers_stop_when_nobody_listens() {
    let mut file = Poller::new(WhenUnheard::FailAtFirst);
    assert!(matches!(
        file.published(false),
        Action::Fail(error) if error.message() == "registry receiver closed"
    ));
    let mut file = Poller::new(WhenUnheard::FailAtFirst);
    assert!(matches!(file.published(true), Action::Wait));
    assert!(matches!(file.published(false), Action::Finish));
    let mut ssm = Poller::new(WhenUnheard::Finish);
    assert!(matches!(ssm.published(false), Action::Finish));
}

#[test]
fn configuration_is_refreshed_once_it_is_old_enough() {
    let at = Duration::from_secs;
    assert!(!refresh_due(at(100), at(159), at(60)));
    assert!(refresh_due(at(100), at(160), at(60)));
    assert!(!refresh_due(at(100), at(50), at(60)));
}

#[test]
fn a_failed_refresh_keeps_the_snapshot() {
    let (kept, problem) = refreshed(snapshot("old"), broken());
    assert!(holds(&kept, "old"));
    assert_eq!(problem.unwrap().message(), "broken");
    let (new, problem) = refreshed(snapshot("old"), Ok(snapshot("new")));
    assert!(holds(&new, "new") && !holds(&new, "old"));
    assert!(problem.is_none());
}
