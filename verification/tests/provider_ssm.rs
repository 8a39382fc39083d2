use oauthmux::provider_ssm::{check_web_url, DEFAULT_POLL_SECONDS, DEFAULT_PREFIX};
use oauthmux::ssm_scan::SkipReason;
use oauthmux::{
    parse_instance, ClientAuth, ClientJwks, ConfigError, Duration, InstanceKey, JsonValue,
    Parameter, ParameterPage, RawClientAuth, RawInstance, ReadParameter, ScanStep, SsmProvider,
    SsmScan, Url,
};
use serde_yaml::Value;
use std::collections::VecDeque;
use std::sync::{Arc, Mutex};

struct MockClient(Mutex<VecDeque<ParameterPage>>);

impl MockClient {
    fn get_parameters_by_path(
        &self,
        _: &str,
        _: Option<String>,
    ) -> Result<ParameterPage, ConfigError> {
        self.0
            .lock()
            .unwrap()
            .pop_front()
            .ok_or_else(|| ConfigError::msg("unexpected call".to_string()))
    }
}

fn document() -> String {
    r#"
issuer_url: https://issuer.example
authorization_endpoint: https://issuer.example/auth
token_endpoint: https://issuer.example/token
client_id: upstream
client_secret: secret
scopes: [openid]
allowed_redirect_origins: [https://app.example]
default_redirect_uri: https://app.example/callback
client_auth:
  mode: public
"#
    .into()
}

fn text(value: &Value, field: &str) -> Option<String> {
    value.get(field).and_then(Value::as_str).map(str::to_string)
}

fn list(value: &Value, field: &str) -> Vec<String> {
    match value.get(field).and_then(Value::as_sequence) {
        Some(items) => items.iter().filter_map(Value::as_str).map(str::to_string).collect(),
        None => vec![],
    }
}

fn read(document: &str) -> Result<RawInstance, ConfigError> {
    let value: Value = serde_yaml::from_str(document)
        .map_err(|error| ConfigError::msg(error.to_string()))?;
    Ok(RawInstance {
        issuer_url: text(&value, "issuer_url").unwrap(),
        authorization_endpoint: text(&value, "authorization_endpoint"),
        token_endpoint: text(&value, "token_endpoint"),
        jwks_uri: text(&value, "jwks_uri"),
        client_id: text(&value, "client_id").unwrap(),
        client_secret: text(&value, "client_secret").unwrap(),
        client_secret_file: text(&value, "client_secret_file"),
        scopes: list(&value, "scopes"),
        allowed_redirect_origins: list(&value, "allowed_redirect_origins"),
        default_redirect_uri: text(&value, "default_redirect_uri"),
        client_auth: RawClientAuth::Public,
    })
}

fn scan_all(provider: &SsmProvider<MockClient>) -> (oauthmux::ProviderSnapshot, Vec<(String, bool)>) {
    let mut scan = SsmScan::new(provider.prefix());
    let mut token = None;
    loop {
        let page = provider.client().get_parameters_by_path(provider.prefix(), token).unwrap();
        let parameters = page
            .parameters
            .into_iter()
            .map(|parameter| ReadParameter {
                document: read(&parameter.value),
                name: parameter.name,
            })
            .collect();
        match scan.take_page(parameters, page.next_token) {
            ScanStep::NextPage { token: next, rest } => {
                scan = rest;
                token = Some(next);
            }
            ScanStep::Done { snapshot, skipped } => {
                let skipped = skipped
                    .into_iter()
                    .map(|skip| (skip.parameter, matches!(skip.reason, SkipReason::OutsidePrefix)))
                    .collect();
                return (snapshot, skipped);
            }
        }
    }
}

fn parameter(name: &str, value: &str) -> Parameter {
    Parameter { name: name.to_string(), value: value.to_string() }
}

fn provider(pages: Vec<ParameterPage>) -> SsmProvider<MockClient> {
    let client = Arc::new(MockClient(Mutex::new(VecDeque::from(pages))));
    SsmProvider::new(client, "/oauthmux/instances/", Duration::from_secs(60)).unwrap()
}

fn messages(name: &str, raw: RawInstance) -> Vec<String> {
    parse_instance(name, Ok(raw)).err().unwrap().messages().clone()
}

#[test]
fn paginates_and_skips_only_malformed_instance() {
    let client = Arc::new(MockClient(Mutex::new(VecDeque::from([
        ParameterPage {
            parameters: vec![Parameter {
                name: "/oauthmux/instances/good".into(),
                value: document(),
            }],
            next_token: Some("next".into()),
        },
        ParameterPage {
            parameters: vec![
                Parameter {
                    name: "/oauthmux/instances/bad".into(),
                    value: "not: [yaml".into(),
                },
                Parameter {
                    name: "/oauthmux/instances/good-two".into(),
                    value: document(),
                },
            ],
            next_token: None,
        },
    ]))));
    let provider =
        SsmProvider::new(client, "/oauthmux/instances/", Duration::from_secs(60)).unwrap();
    let (snapshot, skipped) = scan_all(&provider);
    assert_eq!(snapshot.instances.len(), 2);
    assert_eq!(skipped, vec![("/oauthmux/instances/bad".to_string(), false)]);
}

#[test]
fn rejects_file_secret_and_invalid_prefix() {
    let with_file = document().replace(
        "client_secret: secret",
        "client_secret: secret\nclient_secret_file: /secret",
    );
    assert!(parse_instance("bad", read(&with_file))
        .err()
        .unwrap()
        .message()
        .contains("client_secret_file"));
    let client = Arc::new(MockClient(Mutex::new(VecDeque::new())));
    assert!(SsmProvider::new(client, "missing-slashes", Duration::from_secs(1)).is_err());
    let client = Arc::new(MockClient(Mutex::new(VecDeque::new())));
    assert!(SsmProvider::new(client, DEFAULT_PREFIX, Duration::from_secs(0)).is_err());
}

#[test]
fn settings_are_checked_and_kept() {
    let make = |prefix: &str, secs: u64| {
        SsmProvider::new(Arc::new(7_u8), prefix, Duration::from_secs(secs))
    };
    for bad in ["", "a", "/a", "a/", "oauthmux/"] {
        assert_eq!(
            make(bad, 0).err().unwrap().message(),
            "SSM prefix must start and end with '/'",
        );
    }
    assert_eq!(
        make("/", 0).err().unwrap().message(),
        "SSM poll interval must be greater than zero",
    );
    let provider = make(DEFAULT_PREFIX, DEFAULT_POLL_SECONDS).unwrap();
    assert_eq!(provider.prefix(), "/oauthmux/instances/");
    assert_eq!(provider.poll_interval(), Duration::from_secs(60));
    assert_eq!(**provider.client(), 7);
    assert_eq!(provider.name(), "ssm");
    assert_eq!(make("/", 1).unwrap().prefix(), "/");
}

#[test]
fn parameters_outside_the_prefix_are_left_out() {
    let (snapshot, skipped) = scan_all(&provider(vec![ParameterPage {
        parameters: vec![
            parameter("/oauthmux/instances/", &document()),
            parameter("/elsewhere/google", &document()),
            parameter("/oauthmux/instances/google", &document()),
            parameter("/oauthmux/instances/a/b", &document()),
        ],
        next_token: None,
    }]));
    assert_eq!(snapshot.instances.len(), 1);
    let google = snapshot.instances.get(&InstanceKey::new("google").unwrap()).unwrap();
    assert_eq!(google.key.as_str(), "google");
    assert!(google.validate().is_ok());
    assert_eq!(
        skipped,
        vec![
            ("/oauthmux/instances/".to_string(), true),
            ("/elsewhere/google".to_string(), true),
            ("/oauthmux/instances/a/b".to_string(), false),
        ],
    );
}

#[test]
fn a_malformed_parameter_changes_nothing_else() {
    let page = |values: Vec<(&str, String)>| ParameterPage {
        parameters: values
            .iter()
            .map(|(name, value)| parameter(&format!("/oauthmux/instances/{name}"), value))
            .collect(),
        next_token: None,
    };
    let bad = document().replace("https://issuer.example\n", "nonsense\n");
    let (with, skipped) = scan_all(&provider(vec![page(vec![
        ("a", document()),
        ("b", bad),
        ("c", document()),
    ])]));
    let (without, none) = scan_all(&provider(vec![page(vec![
        ("a", document()),
        ("c", document()),
    ])]));
    assert_eq!(with.instances.len(), without.instances.len());
    for key in ["a", "c"] {
        let key = InstanceKey::new(key).unwrap();
        assert!(with.instances.contains_key(&key) && without.instances.contains_key(&key));
    }
    assert_eq!(skipped.len(), 1);
    assert!(none.is_empty());
}

#[test]
fn an_empty_store_gives_an_empty_snapshot() {
    let (snapshot, skipped) = scan_all(&provider(vec![ParameterPage::default()]));
    assert_eq!(snapshot.instances.len(), 0);
    assert!(skipped.is_empty());
}

#[test]
fn instances_carry_their_document() {
    let instance = parse_instance("google", read(&document())).unwrap();
    assert_eq!(instance.key.as_str(), "google");
    assert_eq!(instance.upstream.issuer_url.text, "https://issuer.example/");
    assert_eq!(
        instance.upstream.authorization_endpoint.as_ref().unwrap().path,
        "/auth",
    );
    assert_eq!(instance.upstream.token_endpoint.as_ref().unwrap().path, "/token");
    assert!(instance.upstream.jwks_uri.is_none());
    assert_eq!(instance.upstream.client_id, "upstream");
    assert_eq!(instance.upstream.client_secret.expose(), "secret");
    assert_eq!(instance.upstream.scopes, vec!["openid".to_string()]);
    assert!(instance.upstream.allowed_scopes.is_none());
    assert!(matches!(instance.client_auth, ClientAuth::Public));
    assert!(instance.redirect_allowed(&Url::parse("https://app.example/other").unwrap()));
    assert_eq!(instance.default_redirect_uri.as_ref().unwrap().path, "/callback");
}

#[test]
fn document_problems_are_named_in_order() {
    let raw = || read(&document()).unwrap();
    assert_eq!(
        *parse_instance("a/b", Err(ConfigError::msg("x".into()))).err().unwrap().messages(),
        vec!["key: SSM-provider instance keys must be one path segment".to_string()],
    );
    assert_eq!(
        *parse_instance("a", Err(ConfigError::msg("x".into()))).err().unwrap().messages(),
        vec!["parse YAML/JSON".to_string(), "x".to_string()],
    );
    let mut bad = raw();
    bad.client_secret_file = Some("/secret".into());
    assert_eq!(
        messages("a b", bad),
        vec!["client_secret_file is not supported by the SSM provider".to_string()],
    );
    assert_eq!(
        messages("a b", raw()),
        vec!["key: must contain non-empty URL-safe path segments".to_string()],
    );
    let mut bad = raw();
    bad.allowed_redirect_origins.push("https://a.example/x".into());
    assert_eq!(
        messages("a", bad),
        vec![
            "allowed_redirect_origins".to_string(),
            "must contain only scheme, host, and optional port".to_string(),
        ],
    );
    let mut bad = raw();
    bad.issuer_url = "ftp://a.example".into();
    assert_eq!(messages("a", bad), vec!["issuer_url: must use http or https".to_string()]);
    let mut bad = raw();
    bad.jwks_uri = Some("nonsense".into());
    assert_eq!(
        messages("a", bad),
        vec!["jwks_uri".to_string(), "relative URL without a base".to_string()],
    );
    let mut bad = raw();
    bad.default_redirect_uri = Some("https://evil.example/cb".into());
    assert_eq!(
        messages("a", bad),
        vec!["default_redirect_uri origin is not allowed".to_string()],
    );
    let mut bad = raw();
    bad.client_secret = String::new();
    assert_eq!(messages("a", bad), vec!["client_secret must not be empty".to_string()]);
    assert!(check_web_url("f", Err("why".into())).is_err());
}

#[test]
fn client_authentication_comes_from_the_document() {
    let with = |client_auth: RawClientAuth| {
        let mut raw = read(&document()).unwrap();
        raw.client_auth = client_auth;
        parse_instance("a", Ok(raw))
    };
    let instance = with(RawClientAuth::ClientSecret {
        client_id: "app".into(),
        client_secret: "shared".into(),
    })
    .unwrap();
    let ClientAuth::ClientSecret { client_id, client_secret } = &instance.client_auth else {
        panic!("expected a client secret");
    };
    assert_eq!((client_id.as_str(), client_secret.expose()), ("app", "shared"));
    let instance = with(RawClientAuth::PrivateKeyJwt {
        client_id: "app".into(),
        jwks: JsonValue::String("https://a.example/jwks".into()),
    })
    .unwrap();
    assert!(matches!(
        &instance.client_auth,
        ClientAuth::PrivateKeyJwt { jwks: ClientJwks::Url(url), .. } if url.path == "/jwks"
    ));
    let error = with(RawClientAuth::PrivateKeyJwt {
        client_id: "app".into(),
        jwks: JsonValue::String("nonsense".into()),
    })
    .err()
    .unwrap();
    assert_eq!(
        *error.messages(),
        vec!["client_auth.jwks URL".to_string(), "relative URL without a base".to_string()],
    );
    assert!(with(RawClientAuth::PrivateKeyJwt {
        client_id: "app".into(),
        jwks: JsonValue::Object(vec![]),
    })
    .is_err());
}
