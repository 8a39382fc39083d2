use oauthmux::model::valid_scope_token;
use oauthmux::{
    ClientAuth, ClientJwks, Instance, InstanceKey, JsonValue, Origin, Relay, ResourceKey,
    SecretString, Upstream, UpstreamSpec, Url,
};

fn url(text: &str) -> Url {
    Url::parse(text).unwrap()
}

fn relay() -> Relay {
    Relay {
        key: ResourceKey::new("google").unwrap(),
        upstream: ResourceKey::new("google").unwrap(),
        client_auth: ClientAuth::Public,
        scopes: vec![],
        allowed_scopes: None,
        allowed_redirect_origins: vec![],
        default_redirect_uri: None,
    }
}

fn upstream() -> Upstream {
    Upstream {
        key: ResourceKey::new("google").unwrap(),
        issuer_url: url("https://issuer.example"),
        authorization_endpoint: None,
        token_endpoint: None,
        jwks_uri: None,
        client_id: "client".to_string(),
        client_secret: SecretString::new("secret"),
    }
}

fn instance() -> Instance {
    Instance {
        key: InstanceKey::new("google").unwrap(),
        upstream: UpstreamSpec {
            issuer_url: url("https://issuer.example"),
            authorization_endpoint: None,
            token_endpoint: None,
            jwks_uri: None,
            client_id: "client".to_string(),
            client_secret: SecretString::new("secret"),
            scopes: vec![],
            allowed_scopes: None,
        },
        client_auth: ClientAuth::Public,
        allowed_redirect_origins: vec![],
        default_redirect_uri: None,
    }
}

fn strings(list: &[&str]) -> Vec<String> {
    list.iter().map(|text| text.to_string()).collect()
}

#[test]
fn redirects_require_exact_origin_or_http_loopback() {
    let origin = Origin::parse("https://app.example.com").unwrap();
    let mut relay = Relay {
        key: ResourceKey::new("google").unwrap(),
        upstream: ResourceKey::new("google").unwrap(),
        client_auth: ClientAuth::Public,
        scopes: vec![],
        allowed_scopes: None,
        allowed_redirect_origins: vec![origin],
        default_redirect_uri: None,
    };
    assert!(relay.redirect_allowed(&Url::parse("https://app.example.com/cb").unwrap()));
    assert!(relay.redirect_allowed(&Url::parse("http://localhost:5173/cb").unwrap()));
    for bad in [
        "https://app.example.com.evil.test/cb",
        "https://app.example.com@evil.test/cb",
        "http://app.example.com/cb",
        "javascript://localhost/x",
        "http://localhost.evil.test/cb",
        "https://user@app.example.com/cb",
        "https://app.example.com/cb#fragment",
    ] {
        assert!(!relay.redirect_allowed(&Url::parse(bad).unwrap()), "{bad}");
    }
    relay.default_redirect_uri = Some(Url::parse("https://evil.test/cb").unwrap());
    assert!(relay.validate().is_err());
}

#[test]
fn loopback_is_allowed_whatever_the_origins() {
    let relay = relay();
    assert!(relay.redirect_allowed(&url("http://127.0.0.1:9999/cb")));
    assert!(relay.redirect_allowed(&url("http://localhost/cb?x=1")));
    assert!(relay.redirect_allowed(&url("http://[::1]:5173/cb")));
    assert!(relay.redirect_allowed(&url("http://[0:0:0:0:0:0:0:1]/cb")));
    assert!(!relay.redirect_allowed(&url("https://[::1]/cb")));
    assert!(!relay.redirect_allowed(&url("http://[::2]/cb")));
    assert!(!relay.redirect_allowed(&url("https://localhost/cb")));
    assert!(!relay.redirect_allowed(&url("http://127.0.0.2/cb")));
    assert!(!relay.redirect_allowed(&url("http://user:pw@localhost/cb")));
}

#[test]
fn allowing_further_origins_keeps_earlier_targets() {
    let mut relay = relay();
    relay.allowed_redirect_origins = vec![Origin::parse("https://a.example").unwrap()];
    assert!(relay.redirect_allowed(&url("https://a.example/x")));
    assert!(!relay.redirect_allowed(&url("https://b.example/x")));
    relay.allowed_redirect_origins.insert(0, Origin::parse("https://b.example").unwrap());
    assert!(relay.redirect_allowed(&url("https://a.example/x")));
    assert!(relay.redirect_allowed(&url("https://b.example/x")));
}

#[test]
fn origins_are_told_apart_by_port() {
    let mut relay = relay();
    relay.allowed_redirect_origins = vec![Origin::parse("https://a.example:8443").unwrap()];
    assert!(relay.redirect_allowed(&url("https://a.example:8443/x")));
    assert!(!relay.redirect_allowed(&url("https://a.example/x")));
    relay.allowed_redirect_origins = vec![Origin::parse("https://a.example:443").unwrap()];
    assert!(relay.redirect_allowed(&url("https://a.example/x")));
}

#[test]
fn an_origin_matches_itself_and_trailing_dots() {
    let origin = Origin::parse("https://APP.example.com").unwrap();
    assert!(origin.matches(origin.url()));
    assert!(origin.matches(&url("https://app.example.com./path")));
    assert!(!origin.matches(&url("https://other.example.com/")));
    assert_eq!(origin.url().host, Some("app.example.com".to_string()));
    assert!(origin.clone() == origin);
}

#[test]
fn origins_have_scheme_host_and_port_only() {
    assert_eq!(Origin::parse("ftp://a.example").err().unwrap(), "must be an http(s) origin");
    assert_eq!(Origin::parse("mailto:a@b.example").err().unwrap(), "must be an http(s) origin");
    for extra in ["https://a.example/x", "https://a.example?q", "https://a.example#f"] {
        assert_eq!(
            Origin::parse(extra).err().unwrap(),
            "must contain only scheme, host, and optional port",
        );
    }
    for user in ["https://u@a.example", "https://:p@a.example"] {
        assert_eq!(Origin::parse(user).err().unwrap(), "must not contain user information");
    }
    assert_eq!(Origin::parse("nonsense").err().unwrap(), "relative URL without a base");
}

#[test]
fn the_default_redirect_of_a_valid_relay_is_allowed() {
    let mut relay = relay();
    relay.default_redirect_uri = Some(url("https://app.example/cb"));
    assert_eq!(relay.validate().err().unwrap(), "default_redirect_uri origin is not allowed");
    relay.allowed_redirect_origins = vec![Origin::parse("https://app.example").unwrap()];
    assert!(relay.validate().is_ok());
    assert!(relay.redirect_allowed(&url("https://app.example/cb")));
}

#[test]
fn the_default_redirect_of_a_valid_instance_is_allowed() {
    let mut instance = instance();
    instance.default_redirect_uri = Some(url("https://app.example/cb"));
    assert_eq!(instance.validate().err().unwrap(), "default_redirect_uri origin is not allowed");
    instance.allowed_redirect_origins = vec![Origin::parse("https://app.example").unwrap()];
    assert!(instance.validate().is_ok());
    assert!(instance.redirect_allowed(&url("https://app.example/cb")));
    assert!(!instance.redirect_allowed(&url("https://evil.example/cb")));
}

#[test]
fn scope_tokens_follow_the_grammar() {
    for good in ["openid", "!", "#", "[", "]", "~", "read:user", "https://a.example/scope"] {
        assert!(valid_scope_token(good), "{good}");
    }
    for bad in ["", " ", "a b", "\"", "\\", "\u{7f}", "\u{1f}", "\u{e9}"] {
        assert!(!valid_scope_token(bad), "{bad}");
    }
}

#[test]
fn scopes_are_distinct_tokens_within_the_allowed() {
    let mut relay = relay();
    relay.scopes = strings(&["openid", "email"]);
    assert!(relay.validate().is_ok());
    relay.allowed_scopes = Some(strings(&["email", "profile", "openid"]));
    assert!(relay.validate().is_ok());

    relay.allowed_scopes = Some(strings(&["openid"]));
    assert_eq!(
        relay.validate().err().unwrap(),
        "scopes.default must be contained in scopes.allowed",
    );
    relay.allowed_scopes = Some(strings(&["openid", "openid"]));
    assert_eq!(relay.validate().err().unwrap(), "scopes.allowed must not contain duplicates");
    relay.allowed_scopes = Some(strings(&["openid", "e mail"]));
    assert_eq!(
        relay.validate().err().unwrap(),
        "scopes.allowed must contain valid RFC 6749 scope tokens",
    );
    relay.scopes = strings(&["openid", "openid"]);
    assert_eq!(relay.validate().err().unwrap(), "scopes.default must not contain duplicates");
    relay.scopes = strings(&["openid", ""]);
    assert_eq!(
        relay.validate().err().unwrap(),
        "scopes.default must contain valid RFC 6749 scope tokens",
    );
}

#[test]
fn upstreams_need_endpoints_and_credentials() {
    assert!(upstream().validate().is_ok());

    let mut bad = upstream();
    bad.issuer_url = url("mailto:a@b.example");
    assert_eq!(bad.validate().err().unwrap(), "issuer_url must be an absolute http(s) URL");
    let mut bad = upstream();
    bad.authorization_endpoint = Some(url("ftp://a.example"));
    assert_eq!(
        bad.validate().err().unwrap(),
        "authorization_endpoint must be an absolute http(s) URL",
    );
    let mut bad = upstream();
    bad.token_endpoint = Some(url("ftp://a.example"));
    assert_eq!(bad.validate().err().unwrap(), "token_endpoint must be an absolute http(s) URL");
    let mut bad = upstream();
    bad.jwks_uri = Some(url("data:x"));
    assert_eq!(bad.validate().err().unwrap(), "jwks_uri must be an absolute http(s) URL");
    let mut bad = upstream();
    bad.client_id = String::new();
    assert_eq!(bad.validate().err().unwrap(), "client_id must not be empty");
    let mut bad = upstream();
    bad.client_secret = SecretString::new("");
    assert_eq!(bad.validate().err().unwrap(), "client_secret must not be empty");

    let mut bad = instance();
    bad.upstream.client_secret = SecretString::default();
    bad.default_redirect_uri = Some(url("https://evil.example/cb"));
    assert_eq!(bad.validate().err().unwrap(), "client_secret must not be empty");
}

#[test]
fn client_authentication_is_complete() {
    let mut relay = relay();
    relay.client_auth = ClientAuth::UpstreamClient;
    assert!(relay.validate().is_ok());

    let credentials = |id: &str, secret: &str| ClientAuth::ClientSecret {
        client_id: id.to_string(),
        client_secret: SecretString::new(secret),
    };
    relay.client_auth = credentials("id", "secret");
    assert!(relay.validate().is_ok());
    for (id, secret) in [("", "secret"), ("id", "")] {
        relay.client_auth = credentials(id, secret);
        assert_eq!(
            relay.validate().err().unwrap(),
            "clientAuthentication credentials must not be empty",
        );
    }

    let assertion = |id: &str, jwks: ClientJwks| ClientAuth::PrivateKeyJwt {
        client_id: id.to_string(),
        jwks,
    };
    let keys = |value: JsonValue| ClientJwks::Inline(
        JsonValue::Object(vec![("keys".to_string(), value)]),
    );
    relay.client_auth = assertion("id", ClientJwks::Url(url("https://a.example/jwks")));
    assert!(relay.validate().is_ok());
    relay.client_auth = assertion("id", keys(JsonValue::Array(vec![JsonValue::Null])));
    assert!(relay.validate().is_ok());
    relay.client_auth = assertion("", keys(JsonValue::Array(vec![JsonValue::Null])));
    assert_eq!(
        relay.validate().err().unwrap(),
        "clientAuthentication.clientId must not be empty",
    );
    relay.client_auth = assertion("id", ClientJwks::Url(url("ftp://a.example/jwks")));
    assert_eq!(
        relay.validate().err().unwrap(),
        "clientAuthentication.jwks must be an absolute http(s) URL",
    );
    for bad in [
        keys(JsonValue::Array(vec![])),
        keys(JsonValue::Bool(true)),
        ClientJwks::Inline(JsonValue::Array(vec![])),
        ClientJwks::Inline(JsonValue::Object(vec![])),
    ] {
        relay.client_auth = assertion("id", bad);
        assert_eq!(
            relay.validate().err().unwrap(),
            "clientAuthentication.jwks must contain a non-empty keys array",
        );
    }
}

#[test]
fn resource_keys_are_url_safe_segments() {
    for good in ["google", "my-app/oauth_google", "a.b", "A/1/_"] {
        assert_eq!(ResourceKey::new(good).unwrap().as_str(), good);
        assert_eq!(good.parse::<ResourceKey>().unwrap().as_str(), good);
    }
    for bad in ["", "/", "/a", "a/", "a//b", "a b", "a?b", "\u{e9}"] {
        assert_eq!(
            ResourceKey::new(bad).err().unwrap(),
            "must contain non-empty URL-safe path segments",
        );
        assert!(bad.parse::<ResourceKey>().is_err());
    }
}

#[test]
fn secrets_are_exposed_on_request_only() {
    let secret = SecretString::new("hunter2");
    assert_eq!(secret.expose(), "hunter2");
    assert_eq!(secret.redacted(), "SecretString([REDACTED])");
    assert_eq!(secret.clone().expose(), "hunter2");
    assert_eq!(SecretString::default().expose(), "");
}

#[test]
fn urls_are_split_into_their_parts() {
    let parsed = url("HTTPS://user:pw@Example.COM/path?q=1#frag");
    assert_eq!(parsed.text, "https://user:pw@example.com/path?q=1#frag");
    assert_eq!(parsed.scheme, "https");
    assert_eq!(parsed.host, Some("example.com".to_string()));
    assert_eq!(parsed.port, Some(443));
    assert_eq!(parsed.path, "/path");
    assert_eq!(parsed.query, Some("q=1".to_string()));
    assert_eq!(parsed.fragment, Some("frag".to_string()));
    assert_eq!(parsed.username, "user");
    assert_eq!(parsed.password, Some("pw".to_string()));
    assert!(parsed.clone() == parsed);
    assert_eq!(Url::parse("http://").err().unwrap(), "empty host");
    assert_eq!(url("mailto:a@b.example").host, None);
}

#[test]
fn copies_are_equal_and_independent() {
    let mut first = relay();
    first.scopes = strings(&["openid"]);
    first.allowed_scopes = Some(strings(&["openid", "email"]));
    first.allowed_redirect_origins = vec![Origin::parse("https://app.example").unwrap()];
    first.default_redirect_uri = Some(url("https://app.example/cb"));
    first.client_auth = ClientAuth::PrivateKeyJwt {
        client_id: "id".to_string(),
        jwks: ClientJwks::Inline(JsonValue::Object(vec![(
            "keys".to_string(),
            JsonValue::Array(vec![JsonValue::Number("1".to_string()), JsonValue::Bool(true)]),
        )])),
    };
    let copy = first.clone();
    first.scopes.clear();
    assert_eq!(copy.scopes, strings(&["openid"]));
    assert_eq!(copy.allowed_scopes, first.allowed_scopes);
    assert!(copy.allowed_redirect_origins == first.allowed_redirect_origins);
    assert!(copy.default_redirect_uri == first.default_redirect_uri);
    let ClientAuth::PrivateKeyJwt { jwks: ClientJwks::Inline(value), .. } = &copy.client_auth else {
        panic!("expected inline keys");
    };
    assert!(value.has_keys());
    assert_eq!(*value, value.clone());
    assert!(copy.validate().is_ok());

    let copy = upstream().clone();
    assert_eq!(copy.client_secret.expose(), "secret");
    assert!(copy.issuer_url == upstream().issuer_url);
    let copy = instance().clone();
    assert_eq!(copy.key.as_str(), "google");
    assert_eq!(copy.upstream.clone().client_id, "client");
    assert!(matches!(copy.client_auth, ClientAuth::Public));
}
