use oauthmux::compile::{check_url, parse_url};
use oauthmux::{
    compile_resources, start_compilation, ApiVersion, ClientAuth, ClientAuthentication,
    ClientJwks, CompileStep, ConfigError, InlineSecret, JsonValue, Metadata, OAuthClient,
    RedirectPolicy, ReferencedSecret, RelayResource, RelayResourceSpec, ResourceDocument,
    ResourceKey, ResourceReference, ScopePolicy, SecretRequest, SecretResolver, SecretSource,
    SecretString, SecretValue, UpstreamEndpoints, UpstreamResource, UpstreamResourceSpec, Url,
};
use std::sync::Mutex;

struct MockSecrets {
    calls: Mutex<Vec<SecretSource>>,
}

impl SecretResolver for MockSecrets {
    fn resolve_value(&self, value: &str) -> Result<SecretString, ConfigError> {
        Ok(SecretString::new(value))
    }

    fn resolve_source(&self, source: &SecretSource) -> Result<SecretString, ConfigError> {
        self.calls.lock().unwrap().push(source.clone());
        Ok(SecretString::new("resolved"))
    }
}

struct NoSecrets;

impl SecretResolver for NoSecrets {
    fn resolve_value(&self, _: &str) -> Result<SecretString, ConfigError> {
        Err(ConfigError::msg("no values".to_string()))
    }

    fn resolve_source(&self, _: &SecretSource) -> Result<SecretString, ConfigError> {
        Err(ConfigError::msg("no sources".to_string()))
    }
}

fn mock() -> MockSecrets {
    MockSecrets { calls: Mutex::new(vec![]) }
}

fn inline(value: &str) -> SecretValue {
    SecretValue::Value(InlineSecret { value: value.to_string() })
}

fn env(name: &str) -> SecretValue {
    SecretValue::ValueFrom(ReferencedSecret {
        value_from: SecretSource::Env { name: name.to_string() },
    })
}

fn upstream(name: &str, secret: SecretValue) -> UpstreamResource {
    UpstreamResource {
        api_version: ApiVersion::V1Alpha1,
        metadata: Metadata { name: name.to_string() },
        spec: UpstreamResourceSpec {
            issuer_url: "https://issuer.example".into(),
            endpoints: UpstreamEndpoints::default(),
            oauth_client: OAuthClient { client_id: "client".into(), client_secret: secret },
        },
    }
}

fn relay(name: &str, upstream: &str) -> RelayResource {
    RelayResource {
        api_version: ApiVersion::V1Alpha1,
        metadata: Metadata { name: name.to_string() },
        spec: RelayResourceSpec {
            upstream_ref: ResourceReference { name: upstream.to_string() },
            scopes: ScopePolicy::default(),
            client_authentication: ClientAuthentication::UpstreamClient,
            redirect_policy: RedirectPolicy::default(),
        },
    }
}

fn documents(secret: SecretValue) -> Vec<ResourceDocument> {
    vec![
        ResourceDocument::Upstream(upstream("google", secret)),
        ResourceDocument::Relay(relay("cognito", "google")),
    ]
}

fn refusal(documents: Vec<ResourceDocument>) -> Vec<String> {
    compile_resources(documents, &mock()).err().unwrap().messages().clone()
}

fn refused_upstream(resource: UpstreamResource) -> Vec<String> {
    refusal(vec![ResourceDocument::Upstream(resource)])
}

fn refused_relay(resource: RelayResource) -> Vec<String> {
    refusal(vec![
        ResourceDocument::Upstream(upstream("google", inline("secret"))),
        ResourceDocument::Relay(resource),
    ])
}

#[test]
fn compiles_references_and_resolves_secret_source() {
    let source = SecretSource::Env { name: "GOOGLE_SECRET".into() };
    let secrets = MockSecrets { calls: Mutex::new(vec![]) };
    let snapshot = compile_resources(
        documents(SecretValue::ValueFrom(ReferencedSecret { value_from: source.clone() })),
        &secrets,
    )
    .unwrap();
    assert_eq!(snapshot.upstreams.len(), 1);
    assert_eq!(snapshot.relays.len(), 1);
    assert_eq!(*secrets.calls.lock().unwrap(), vec![source]);
}

#[test]
fn resolves_and_deduplicates_relay_client_secret_references() {
    let source = SecretSource::SsmParameter { name: "/oauthmux/secrets/shared".into() };
    let mut resources = documents(SecretValue::ValueFrom(ReferencedSecret {
        value_from: source.clone(),
    }));
    let ResourceDocument::Relay(relay) = &mut resources[1] else {
        unreachable!();
    };
    relay.spec.client_authentication = ClientAuthentication::ClientSecret {
        client_id: "downstream".into(),
        client_secret: SecretValue::ValueFrom(ReferencedSecret { value_from: source.clone() }),
    };
    let secrets = MockSecrets { calls: Mutex::new(vec![]) };

    let snapshot = compile_resources(resources, &secrets).unwrap();
    let relay = snapshot.relays.entry(0).1;
    let ClientAuth::ClientSecret { client_secret, .. } = &relay.client_auth else {
        panic!("expected relay client secret authentication");
    };
    assert_eq!(client_secret.expose(), "resolved");
    assert_eq!(*secrets.calls.lock().unwrap(), vec![source]);
}

#[test]
fn rejects_missing_reference() {
    let secrets = MockSecrets { calls: Mutex::new(vec![]) };
    let mut resources = documents(SecretValue::Value(InlineSecret { value: "inline".into() }));
    resources.remove(0);
    let error = compile_resources(resources, &secrets).err().unwrap();
    assert!(error.message().contains("does not exist"));
    assert_eq!(
        error.message(),
        "Relay/cognito spec.upstreamRef: Upstream/google does not exist",
    );
}

#[test]
fn a_compiled_snapshot_holds_every_document() {
    let mut first = upstream("google", inline("one"));
    first.spec.endpoints = UpstreamEndpoints {
        authorization: Some("https://issuer.example/auth".into()),
        token: Some("https://issuer.example/token".into()),
        jwks: Some("https://issuer.example/jwks".into()),
    };
    let mut second = relay("app", "github");
    second.spec.scopes = ScopePolicy {
        default: vec!["openid".into()],
        allowed: Some(vec!["openid".into(), "email".into()]),
    };
    second.spec.redirect_policy = RedirectPolicy {
        allowed_origins: vec!["https://app.example".into()],
        default_redirect_uri: Some("https://app.example/cb".into()),
    };
    let snapshot = compile_resources(
        vec![
            ResourceDocument::Relay(second),
            ResourceDocument::Upstream(first),
            ResourceDocument::Upstream(upstream("github", env("B"))),
            ResourceDocument::Relay(relay("other", "google")),
        ],
        &mock(),
    )
    .unwrap();
    assert_eq!(snapshot.instances.len(), 0);
    assert_eq!(snapshot.upstreams.len(), 2);
    assert_eq!(snapshot.relays.len(), 2);
    let google = snapshot.upstreams.get(&ResourceKey::new("google").unwrap()).unwrap();
    assert_eq!(google.client_id, "client");
    assert_eq!(google.client_secret.expose(), "one");
    assert_eq!(google.issuer_url.text, "https://issuer.example/");
    assert_eq!(
        google.token_endpoint.as_ref().unwrap().text,
        "https://issuer.example/token",
    );
    assert!(google.validate().is_ok());
    let app = snapshot.relays.get(&ResourceKey::new("app").unwrap()).unwrap();
    assert_eq!(app.upstream.as_str(), "github");
    assert_eq!(app.scopes, vec!["openid".to_string()]);
    assert!(app.redirect_allowed(&Url::parse("https://app.example/cb").unwrap()));
    assert!(app.validate().is_ok());
    assert!(snapshot.validate().is_ok());
}

#[test]
fn sources_are_asked_for_once_and_values_every_time() {
    let secrets = mock();
    compile_resources(
        vec![
            ResourceDocument::Upstream(upstream("a", env("SHARED"))),
            ResourceDocument::Upstream(upstream("b", env("OTHER"))),
            ResourceDocument::Upstream(upstream("c", env("SHARED"))),
            ResourceDocument::Upstream(upstream("d", inline("value"))),
        ],
        &secrets,
    )
    .unwrap();
    assert_eq!(
        *secrets.calls.lock().unwrap(),
        vec![
            SecretSource::Env { name: "SHARED".into() },
            SecretSource::Env { name: "OTHER".into() },
        ],
    );
}

#[test]
fn every_source_and_no_other_is_asked_for() {
    let secrets = mock();
    let mut first = relay("r", "a");
    first.spec.client_authentication = ClientAuthentication::ClientSecret {
        client_id: "id".into(),
        client_secret: env("RELAY"),
    };
    let mut second = relay("s", "a");
    second.spec.client_authentication = ClientAuthentication::ClientSecret {
        client_id: "id".into(),
        client_secret: env("SHARED"),
    };
    let documents = || vec![
        ResourceDocument::Relay(relay("t", "a")),
        ResourceDocument::Upstream(upstream("a", env("SHARED"))),
        ResourceDocument::Upstream(upstream("b", inline("value"))),
    ];
    let mut all = documents();
    all.insert(0, ResourceDocument::Relay(first));
    all.push(ResourceDocument::Relay(second));
    compile_resources(all, &secrets).unwrap();
    let expected = vec![
        SecretSource::Env { name: "SHARED".into() },
        SecretSource::Env { name: "RELAY".into() },
    ];
    assert_eq!(*secrets.calls.lock().unwrap(), expected);
    // A later compilation asks again.
    compile_resources(documents(), &secrets).unwrap();
    assert_eq!(secrets.calls.lock().unwrap().len(), 3);
}

#[test]
fn the_order_of_documents_decides_nothing() {
    let make = |order: &[usize]| {
        let mut made: Vec<ResourceDocument> = Vec::new();
        for index in order {
            made.push(match index {
                0 => ResourceDocument::Upstream(upstream("google", env("A"))),
                1 => ResourceDocument::Upstream(upstream("github", inline("b"))),
                2 => ResourceDocument::Relay(relay("one", "google")),
                _ => ResourceDocument::Relay(relay("two", "github")),
            });
        }
        compile_resources(made, &mock())
    };
    for order in [[0, 1, 2, 3], [3, 2, 1, 0], [2, 0, 3, 1]] {
        let snapshot = make(&order).unwrap();
        assert_eq!((snapshot.upstreams.len(), snapshot.relays.len()), (2, 2));
        let google = snapshot.upstreams.get(&ResourceKey::new("google").unwrap()).unwrap();
        assert_eq!(google.client_secret.expose(), "resolved");
        let two = snapshot.relays.get(&ResourceKey::new("two").unwrap()).unwrap();
        assert_eq!(two.upstream.as_str(), "github");
    }
    for order in [[0, 2, 3], [3, 2, 0], [2, 3, 0]] {
        assert!(make(&order).is_err());
    }
}

#[test]
fn sources_differ_by_kind_and_key() {
    let manager = |key: Option<&str>| SecretSource::SecretsManager {
        secret_id: "id".into(),
        json_key: key.map(str::to_string),
    };
    let sources = [
        SecretSource::Env { name: "id".into() },
        SecretSource::File { path: "id".into() },
        SecretSource::SsmParameter { name: "id".into() },
        manager(None),
        manager(Some("a")),
        manager(Some("b")),
    ];
    for (i, a) in sources.iter().enumerate() {
        for (j, b) in sources.iter().enumerate() {
            assert_eq!(a.same_as(b), i == j);
        }
    }
}

#[test]
fn a_compilation_can_be_driven_step_by_step() {
    let CompileStep::Ask { request, rest } = start_compilation(vec![
        ResourceDocument::Upstream(upstream("a", env("A"))),
        ResourceDocument::Upstream(upstream("b", inline("b"))),
    ]) else {
        panic!("expected a request");
    };
    let SecretRequest::Source(source) = request else {
        panic!("expected a source");
    };
    assert_eq!(source, SecretSource::Env { name: "A".into() });
    let CompileStep::Ask { request, rest } = rest.supply(Ok(SecretString::new("from-a"))) else {
        panic!("expected a second request");
    };
    let SecretRequest::Value(value) = request else {
        panic!("expected a value");
    };
    assert_eq!(value, "b");
    let CompileStep::Done(Ok(snapshot)) = rest.supply(Ok(SecretString::new("given"))) else {
        panic!("expected a snapshot");
    };
    let a = snapshot.upstreams.get(&ResourceKey::new("a").unwrap()).unwrap();
    let b = snapshot.upstreams.get(&ResourceKey::new("b").unwrap()).unwrap();
    assert_eq!(a.client_secret.expose(), "from-a");
    assert_eq!(b.client_secret.expose(), "given");
}

#[test]
fn nothing_is_asked_for_without_documents() {
    let CompileStep::Done(Ok(snapshot)) = start_compilation(vec![]) else {
        panic!("expected a snapshot");
    };
    assert_eq!(snapshot.upstreams.len() + snapshot.relays.len(), 0);
}

#[test]
fn a_missing_secret_refuses_the_configuration() {
    let error = compile_resources(documents(env("X")), &NoSecrets).err().unwrap();
    assert_eq!(error.messages().last().unwrap(), "no sources");
    assert!(error.message().contains("Upstream/google"));
    let error = compile_resources(documents(inline("x")), &NoSecrets).err().unwrap();
    assert_eq!(error.messages().last().unwrap(), "no values");
}

#[test]
fn duplicate_documents_are_refused_before_any_secret() {
    let secrets = mock();
    let error = compile_resources(
        vec![
            ResourceDocument::Upstream(upstream("google", env("A"))),
            ResourceDocument::Relay(relay("google", "google")),
            ResourceDocument::Upstream(upstream("google", env("B"))),
        ],
        &secrets,
    )
    .err()
    .unwrap();
    assert!(error.message().contains("Upstream/google"));
    assert!(secrets.calls.lock().unwrap().is_empty());
}

#[test]
fn names_are_one_segment() {
    assert_eq!(
        refused_upstream(upstream("a/b", inline("x"))),
        vec!["Upstream/a/b: metadata.name must be one path segment".to_string()],
    );
    assert_eq!(
        refused_upstream(upstream("a b", inline("x"))),
        vec![
            "Upstream/a b: metadata.name must contain non-empty URL-safe path segments".to_string(),
        ],
    );
    assert_eq!(
        refused_relay(relay("", "google")),
        vec!["Relay/: metadata.name must contain non-empty URL-safe path segments".to_string()],
    );
}

#[test]
fn url_fields_name_resource_and_field() {
    let mut bad = upstream("google", inline("x"));
    bad.spec.issuer_url = "nonsense".into();
    assert_eq!(
        refused_upstream(bad),
        vec![
            "Upstream/google spec.issuerUrl".to_string(),
            "relative URL without a base".to_string(),
        ],
    );
    let mut bad = upstream("google", inline("x"));
    bad.spec.issuer_url = "ftp://issuer.example".into();
    assert_eq!(
        refused_upstream(bad),
        vec!["Upstream/google spec.issuerUrl: must be an absolute http(s) URL".to_string()],
    );
    let mut bad = upstream("google", inline("x"));
    bad.spec.endpoints.token = Some("ftp://a.example".into());
    assert_eq!(
        refused_upstream(bad),
        vec!["Upstream/google spec.endpoints.token: must be an absolute http(s) URL".to_string()],
    );
    let mut bad = relay("r", "google");
    bad.spec.redirect_policy.default_redirect_uri = Some("mailto:a@b.example".into());
    assert_eq!(
        refused_relay(bad),
        vec![
            "Relay/r spec.redirectPolicy.defaultRedirectUri: must be an absolute http(s) URL"
                .to_string(),
        ],
    );
    assert_eq!(parse_url("f", "https://a.example").unwrap().path, "/");
    assert_eq!(check_url("f", Err("why".into())).err().unwrap().messages().len(), 2);
}

#[test]
fn validation_problems_name_the_resource() {
    assert_eq!(
        refused_upstream(upstream("google", inline(""))),
        vec!["Upstream/google".to_string(), "client_secret must not be empty".to_string()],
    );
    let mut bad = relay("r", "google");
    bad.spec.scopes.default = vec!["a b".into()];
    assert_eq!(
        refused_relay(bad),
        vec![
            "Relay/r".to_string(),
            "scopes.default must contain valid RFC 6749 scope tokens".to_string(),
        ],
    );
    let mut bad = relay("r", "google");
    bad.spec.redirect_policy.allowed_origins = vec!["https://a.example/path".into()];
    assert_eq!(
        refused_relay(bad),
        vec![
            "Relay/r spec.redirectPolicy.allowedOrigins".to_string(),
            "must contain only scheme, host, and optional port".to_string(),
        ],
    );
}

#[test]
fn key_sets_are_inline_or_behind_a_url() {
    let compile = |jwks: JsonValue| {
        let mut resource = relay("r", "google");
        resource.spec.client_authentication = ClientAuthentication::PrivateKeyJwt {
            client_id: "id".into(),
            jwks,
        };
        compile_resources(
            vec![
                ResourceDocument::Upstream(upstream("google", inline("x"))),
                ResourceDocument::Relay(resource),
            ],
            &mock(),
        )
    };
    let snapshot = compile(JsonValue::String("https://a.example/jwks".into())).unwrap();
    let ClientAuth::PrivateKeyJwt { jwks: ClientJwks::Url(url), .. } =
        &snapshot.relays.entry(0).1.client_auth else {
        panic!("expected a URL");
    };
    assert_eq!(url.path, "/jwks");
    let keys = JsonValue::Object(vec![(
        "keys".to_string(),
        JsonValue::Array(vec![JsonValue::Number("1".into())]),
    )]);
    assert!(compile(keys).is_ok());
    assert_eq!(
        *compile(JsonValue::String("nonsense".into())).err().unwrap().messages(),
        vec![
            "Relay/r spec.clientAuthentication.jwks URL".to_string(),
            "relative URL without a base".to_string(),
        ],
    );
    assert_eq!(
        *compile(JsonValue::Null).err().unwrap().messages(),
        vec![
            "Relay/r".to_string(),
            "clientAuthentication.jwks must contain a non-empty keys array".to_string(),
        ],
    );
}

#[test]
fn documents_tell_kind_and_name() {
    let documents = documents(inline("x"));
    assert_eq!(documents[0].kind(), "Upstream");
    assert_eq!(documents[0].name(), "google");
    assert_eq!(documents[1].kind(), "Relay");
    assert_eq!(documents[1].name(), "cognito");
}

#[test]
fn secret_values_are_given_or_referenced() {
    let given = inline("x");
    assert_eq!(given.value(), Some("x"));
    assert!(given.value_from().is_none());
    let referenced = env("X");
    assert_eq!(referenced.value(), None);
    assert_eq!(referenced.value_from(), Some(&SecretSource::Env { name: "X".into() }));
}
