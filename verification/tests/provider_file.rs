use oauthmux::provider_file::{
    resource_directory, secret_from, secret_lookup, SecretLookup, DEFAULT_PATH, DEFAULT_POLL_SECONDS,
};
use oauthmux::{
    ApiVersion, ClientAuthentication, ConfigError, Duration, FileProvider, FileSecretResolver,
    InlineSecret, LocalSecrets, Metadata, OAuthClient, ProviderSnapshot, RedirectPolicy,
    ReferencedSecret, RelayResource, RelayResourceSpec, ResourceDocument, ResourceReference,
    ScopePolicy, SecretResolver, SecretSource, SecretValue, UpstreamEndpoints, UpstreamResource,
    UpstreamResourceSpec,
};
use std::collections::HashMap;
use std::path::Path;
use std::sync::Mutex;

#[derive(Default)]
struct MockLocalSecrets {
    environment: HashMap<String, String>,
    files: HashMap<String, String>,
    calls: Mutex<Vec<String>>,
}

impl LocalSecrets for MockLocalSecrets {
    fn environment(&self, name: &str) -> Result<String, ConfigError> {
        self.calls.lock().unwrap().push(format!("env:{name}"));
        self.environment
            .get(name)
            .cloned()
            .ok_or_else(|| ConfigError::msg("missing environment variable".to_string()))
    }

    fn file(&self, path: &str) -> Result<String, ConfigError> {
        self.calls.lock().unwrap().push(format!("file:{path}"));
        self.files
            .get(path)
            .cloned()
            .ok_or_else(|| ConfigError::msg("missing secret file".to_string()))
    }
}

fn referenced(source: SecretSource) -> SecretValue {
    SecretValue::ValueFrom(ReferencedSecret { value_from: source })
}

fn documents(secret: SecretValue) -> Vec<ResourceDocument> {
    vec![
        ResourceDocument::Upstream(UpstreamResource {
            api_version: ApiVersion::V1Alpha1,
            metadata: Metadata { name: "google".into() },
            spec: UpstreamResourceSpec {
                issuer_url: "https://issuer.example".into(),
                endpoints: UpstreamEndpoints::default(),
                oauth_client: OAuthClient { client_id: "upstream".into(), client_secret: secret },
            },
        }),
        ResourceDocument::Relay(RelayResource {
            api_version: ApiVersion::V1Alpha1,
            metadata: Metadata { name: "cognito-google".into() },
            spec: RelayResourceSpec {
                upstream_ref: ResourceReference { name: "google".into() },
                scopes: ScopePolicy::default(),
                client_authentication: ClientAuthentication::UpstreamClient,
                redirect_policy: RedirectPolicy {
                    allowed_origins: vec!["https://app.example".into()],
                    default_redirect_uri: None,
                },
            },
        }),
    ]
}

fn load_with(
    secret: SecretValue,
    secrets: &MockLocalSecrets,
) -> Result<ProviderSnapshot, ConfigError> {
    let provider = FileProvider::new("/tmp/resources/config.yaml", Duration::from_secs(1)).unwrap();
    provider.load(documents(secret), secrets)
}

#[test]
fn resolves_inline_environment_and_relative_file_secrets() {
    let inline = load_with(
        SecretValue::Value(InlineSecret { value: "inline".into() }),
        &MockLocalSecrets::default(),
    )
    .unwrap();
    assert_eq!(inline.upstreams.entry(0).1.client_secret.expose(), "inline");

    let environment = MockLocalSecrets {
        environment: HashMap::from([("GOOGLE_SECRET".into(), "from-env".into())]),
        ..Default::default()
    };
    let snapshot = load_with(
        referenced(SecretSource::Env { name: "GOOGLE_SECRET".into() }),
        &environment,
    )
    .unwrap();
    assert_eq!(snapshot.upstreams.entry(0).1.client_secret.expose(), "from-env");
    assert_eq!(environment.calls.lock().unwrap().as_slice(), ["env:GOOGLE_SECRET"]);

    let base = resource_directory("/tmp/resources/config.yaml");
    let secret_path = format!("{base}/relative-secret");
    let files = MockLocalSecrets {
        files: HashMap::from([(secret_path.clone(), "from-file\n".into())]),
        ..Default::default()
    };
    let snapshot = load_with(
        referenced(SecretSource::File { path: "relative-secret".into() }),
        &files,
    )
    .unwrap();
    assert_eq!(snapshot.upstreams.entry(0).1.client_secret.expose(), "from-file");
    assert!(files.calls.lock().unwrap()[0].ends_with("relative-secret"));
    assert_eq!(
        files.calls.lock().unwrap().as_slice(),
        ["file:/tmp/resources/relative-secret"],
    );
}

#[test]
fn relative_paths_start_from_the_base() {
    let secrets = MockLocalSecrets {
        files: HashMap::from([
            ("/etc/oauthmux/relative-secret".into(), "from-file\n".into()),
            ("/run/secret".into(), "absolute".into()),
            ("beside".into(), "no base".into()),
        ]),
        ..Default::default()
    };
    let find = |base: &str, path: &str| {
        let resolver = FileSecretResolver { base, secrets: &secrets };
        resolver
            .resolve_source(&SecretSource::File { path: path.into() })
            .map(|secret| secret.expose().to_string())
            .map_err(|error| error.message().to_string())
    };
    assert_eq!(find("/etc/oauthmux", "relative-secret").unwrap(), "from-file");
    assert_eq!(find("/etc/oauthmux/", "relative-secret").unwrap(), "from-file");
    assert_eq!(find("/etc/oauthmux", "/run/secret").unwrap(), "absolute");
    assert_eq!(find("", "beside").unwrap(), "no base");
    assert_eq!(find("/elsewhere", "relative-secret").err().unwrap(), "missing secret file");
}

#[test]
fn paths_are_split_and_joined_like_the_standard_library_does() {
    for path in [
        "/etc/oauthmux/config.yaml", "config.yaml", "./config.yaml", "a/b", "/config.yaml", "/", "",
        "//", "a//b", "a/b/", "../x/y", "a/./b", "dir/./c", "a/.", "a/b/.", "./a/./b", "/./a",
        "/././a//./b/./", ".", "./", "./.", "..", "../", "a/..", ".a", ".a/b", "a/.b", "a./b", "..a/b",
        "///a", "././a", "a/././", "/.", "/..", "\u{e9}/\u{fc}",
    ] {
        let expected = Path::new(path).parent().unwrap_or_else(|| Path::new("."));
        assert_eq!(resource_directory(path), expected.to_str().unwrap(), "{path}");
        for secret in ["secret", "./s/secret", "../secret", "/run/secret", ""] {
            let joined = expected.join(secret);
            let source = SecretSource::File { path: secret.to_string() };
            assert!(matches!(
                secret_lookup(&resource_directory(path), &source),
                Ok(SecretLookup::File(found)) if found == joined.to_str().unwrap()
            ));
        }
    }
}

#[test]
fn rejects_aws_secret_sources() {
    for source in [
        SecretSource::SsmParameter { name: "/secret".into() },
        SecretSource::SecretsManager {
            secret_id: "oauthmux/google".into(),
            json_key: Some("clientSecret".into()),
        },
    ] {
        let secrets = MockLocalSecrets::default();
        let error = load_with(referenced(source), &secrets).err().unwrap();
        assert!(error.message().contains("Upstream/google"));
        assert_eq!(
            error.messages().last().unwrap(),
            "AWS secret sources are not supported by the File provider",
        );
        assert!(secrets.calls.lock().unwrap().is_empty());
    }
}

#[test]
fn rejects_zero_poll_interval() {
    assert!(FileProvider::new("config.yaml", Duration::from_secs(0)).is_err());
}

#[test]
fn a_zero_poll_interval_is_named() {
    let error = FileProvider::new("config.yaml", Duration::from_millis(0)).err().unwrap();
    assert_eq!(error.message(), "file provider poll interval must be greater than zero");
}

#[test]
fn providers_keep_their_settings() {
    let provider = FileProvider::new("config.yaml", Duration::from_secs(5)).unwrap();
    assert_eq!(provider.path(), "config.yaml");
    assert_eq!(provider.poll_interval(), Duration::from_secs(5));
    assert_eq!(provider.name(), "file");
    let provider = FileProvider::default();
    assert_eq!(provider.path(), "/etc/oauthmux/config.yaml");
    assert_eq!(provider.path(), DEFAULT_PATH);
    assert_eq!(provider.poll_interval(), Duration::from_secs(30));
    assert_eq!(DEFAULT_POLL_SECONDS, 30);
}

#[test]
fn line_ends_do_not_belong_to_looked_up_secrets() {
    let taken = |text: &str| secret_from(Ok(text.to_string())).unwrap().expose().to_string();
    assert_eq!(taken("secret"), "secret");
    assert_eq!(taken("secret\r\n\n"), "secret");
    assert_eq!(taken("\nse\ncret \n"), "\nse\ncret ");
    assert_eq!(taken("\n"), "");
    let secrets = MockLocalSecrets::default();
    let resolver = FileSecretResolver { base: "", secrets: &secrets };
    assert_eq!(resolver.resolve_value("inline\n").unwrap().expose(), "inline\n");
}

#[test]
fn missing_local_secrets_are_reported() {
    let secrets = MockLocalSecrets::default();
    let error = load_with(referenced(SecretSource::Env { name: "X".into() }), &secrets)
        .err()
        .unwrap();
    assert_eq!(error.messages().last().unwrap(), "missing environment variable");
    let error = load_with(referenced(SecretSource::File { path: "x".into() }), &secrets)
        .err()
        .unwrap();
    assert_eq!(error.messages().last().unwrap(), "missing secret file");
    assert_eq!(secrets.calls.lock().unwrap().as_slice(), ["env:X", "file:/tmp/resources/x"]);
}

#[test]
fn lookups_follow_the_source() {
    assert!(matches!(
        secret_lookup("/base", &SecretSource::Env { name: "X".into() }),
        Ok(SecretLookup::Environment(name)) if name == "X"
    ));
    assert!(matches!(
        secret_lookup("/base", &SecretSource::File { path: "/run/x".into() }),
        Ok(SecretLookup::File(path)) if path == "/run/x"
    ));
}
