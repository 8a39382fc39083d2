//! Resource documents: what configuration says before it is checked and compiled.

use crate::error::ConfigError;
use crate::json::JsonValue;
use crate::key::{
    key_problem, key_refusal, keys_without_slash_are_one_segment, one_segment, valid_key,
    ResourceKey, SecretString,
};
use crate::text::{contains_char, join2, join4, optional_text, same_optional_text, same_text};
use vstd::prelude::*;

verus! {

/// The version of the document format.
pub const API_VERSION: &'static str = "oauthmux.dev/v1alpha1";

/// One document of a configuration.
pub enum ResourceDocument {
    Upstream(UpstreamResource),
    Relay(RelayResource),
}

/// An external OAuth client.
pub struct UpstreamResource {
    pub api_version: ApiVersion,
    pub metadata: Metadata,
    pub spec: UpstreamResourceSpec,
}

/// A downstream relay of an upstream.
pub struct RelayResource {
    pub api_version: ApiVersion,
    pub metadata: Metadata,
    pub spec: RelayResourceSpec,
}

/// The versions of the document format.
pub enum ApiVersion {
    V1Alpha1,
}

pub struct Metadata {
    pub name: String,
}

pub struct UpstreamResourceSpec {
    pub issuer_url: String,
    pub endpoints: UpstreamEndpoints,
    pub oauth_client: OAuthClient,
}

/// Provider endpoints that are given rather than discovered.
pub struct UpstreamEndpoints {
    pub authorization: Option<String>,
    pub token: Option<String>,
    pub jwks: Option<String>,
}

impl Default for UpstreamEndpoints {
    fn default() -> (endpoints: UpstreamEndpoints)
        ensures
            endpoints.authorization is None,
            endpoints.token is None,
            endpoints.jwks is None,
    {
        UpstreamEndpoints { authorization: None, token: None, jwks: None }
    }
}

pub struct OAuthClient {
    pub client_id: String,
    pub client_secret: SecretValue,
}

pub struct RelayResourceSpec {
    pub upstream_ref: ResourceReference,
    pub scopes: ScopePolicy,
    pub client_authentication: ClientAuthentication,
    pub redirect_policy: RedirectPolicy,
}

pub struct ResourceReference {
    pub name: String,
}

/// Scopes asked for by default and, optionally, the only ones allowed.
pub struct ScopePolicy {
    pub default: Vec<String>,
    pub allowed: Option<Vec<String>>,
}

impl Default for ScopePolicy {
    fn default() -> (policy: ScopePolicy)
        ensures
            policy.default@.len() == 0,
            policy.allowed is None,
    {
        ScopePolicy { default: Vec::new(), allowed: None }
    }
}

/// Where a relay may send a browser.
pub struct RedirectPolicy {
    pub allowed_origins: Vec<String>,
    pub default_redirect_uri: Option<String>,
}

impl Default for RedirectPolicy {
    fn default() -> (policy: RedirectPolicy)
        ensures
            policy.allowed_origins@.len() == 0,
            policy.default_redirect_uri is None,
    {
        RedirectPolicy { allowed_origins: Vec::new(), default_redirect_uri: None }
    }
}

pub enum ClientAuthentication {
    UpstreamClient,
    Public,
    ClientSecret { client_id: String, client_secret: SecretValue },
    /// `jwks` is a key set, or the text of a URL that leads to one.
    PrivateKeyJwt { client_id: String, jwks: JsonValue },
}

/// A secret, or where to find it.
pub enum SecretValue {
    Value(InlineSecret),
    ValueFrom(ReferencedSecret),
}

pub struct InlineSecret {
    pub value: String,
}

pub struct ReferencedSecret {
    pub value_from: SecretSource,
}

/// Places where secrets are kept.
#[derive(Debug, Eq, Hash, PartialEq)]
pub enum SecretSource {
    Env { name: String },
    File { path: String },
    SsmParameter { name: String },
    SecretsManager { secret_id: String, json_key: Option<String> },
}

/// The mathematical content of a [`SecretSource`].
pub enum SecretSourceView {
    Env { name: Seq<char> },
    File { path: Seq<char> },
    SsmParameter { name: Seq<char> },
    SecretsManager { secret_id: Seq<char>, json_key: Option<Seq<char>> },
}

impl View for SecretSource {
    type V = SecretSourceView;

    open spec fn view(&self) -> SecretSourceView {
        match *self {
            SecretSource::Env { name } => SecretSourceView::Env { name: name@ },
            SecretSource::File { path } => SecretSourceView::File { path: path@ },
            SecretSource::SsmParameter { name } => SecretSourceView::SsmParameter { name: name@ },
            SecretSource::SecretsManager { secret_id, json_key } => SecretSourceView::SecretsManager {
                secret_id: secret_id@,
                json_key: optional_text(json_key),
            },
        }
    }
}

impl SecretSource {
    /// Whether both are the same place.
    pub fn same_as(&self, other: &SecretSource) -> (same: bool)
        ensures
            same == (self@ == other@),
    {
        match (self, other) {
            (SecretSource::Env { name: a }, SecretSource::Env { name: b }) => same_text(
                a.as_str(),
                b.as_str(),
            ),
            (SecretSource::File { path: a }, SecretSource::File { path: b }) => same_text(
                a.as_str(),
                b.as_str(),
            ),
            (
                SecretSource::SsmParameter { name: a },
                SecretSource::SsmParameter { name: b },
            ) => same_text(a.as_str(), b.as_str()),
            (
                SecretSource::SecretsManager { secret_id: a, json_key: a_key },
                SecretSource::SecretsManager { secret_id: b, json_key: b_key },
            ) => same_text(a.as_str(), b.as_str()) && same_optional_text(a_key, b_key),
            _ => false,
        }
    }
}

impl Clone for SecretSource {
    fn clone(&self) -> (copy: SecretSource)
        ensures
            copy@ == self@,
    {
        match self {
            SecretSource::Env { name } => SecretSource::Env { name: name.clone() },
            SecretSource::File { path } => SecretSource::File { path: path.clone() },
            SecretSource::SsmParameter { name } => SecretSource::SsmParameter {
                name: name.clone(),
            },
            SecretSource::SecretsManager { secret_id, json_key } => SecretSource::SecretsManager {
                secret_id: secret_id.clone(),
                json_key: json_key.clone(),
            },
        }
    }
}

impl SecretValue {
    /// The secret, if it is given in place.
    pub fn value(&self) -> (value: Option<&str>)
        ensures
            match value {
                Some(value) => *self matches SecretValue::Value(secret) && secret.value@ == value@,
                None => *self is ValueFrom,
            },
    {
        match self {
            SecretValue::Value(secret) => Some(secret.value.as_str()),
            SecretValue::ValueFrom(_) => None,
        }
    }

    /// Where the secret is kept, if it is not given in place.
    pub fn value_from(&self) -> (source: Option<&SecretSource>)
        ensures
            match source {
                Some(source) => *self matches SecretValue::ValueFrom(secret) && secret.value_from
                    == *source,
                None => *self is Value,
            },
    {
        match self {
            SecretValue::Value(_) => None,
            SecretValue::ValueFrom(secret) => Some(&secret.value_from),
        }
    }
}

/// The kind of a document.
pub open spec fn document_kind(document: ResourceDocument) -> Seq<char> {
    match document {
        ResourceDocument::Upstream(_) => "Upstream"@,
        ResourceDocument::Relay(_) => "Relay"@,
    }
}

/// The name of a document.
pub open spec fn document_name(document: ResourceDocument) -> Seq<char> {
    match document {
        ResourceDocument::Upstream(resource) => resource.metadata.name@,
        ResourceDocument::Relay(resource) => resource.metadata.name@,
    }
}

impl ResourceDocument {
    pub fn kind(&self) -> (kind: &'static str)
        ensures
            kind@ == document_kind(*self),
    {
        match self {
            ResourceDocument::Upstream(_) => "Upstream",
            ResourceDocument::Relay(_) => "Relay",
        }
    }

    pub fn name(&self) -> (name: &str)
        ensures
            name@ == document_name(*self),
    {
        match self {
            ResourceDocument::Upstream(resource) => resource.metadata.name.as_str(),
            ResourceDocument::Relay(resource) => resource.metadata.name.as_str(),
        }
    }
}

/// What finds the values of secrets. A host may bring its own.
pub trait SecretResolver {
    /// The secret for a value that is given in place.
    fn resolve_value(&self, value: &str) -> Result<SecretString, ConfigError>;

    /// The secret that is kept at `source`.
    fn resolve_source(&self, source: &SecretSource) -> Result<SecretString, ConfigError>;
}

/// What keeps `value` from naming a resource: a name is a key of one segment.
pub open spec fn name_problem(kind: Seq<char>, value: Seq<char>) -> Option<Seq<Seq<char>>> {
    if value.contains('/') {
        Some(seq![kind + "/"@ + value + ": metadata.name must be one path segment"@])
    } else if !valid_key(value) {
        Some(seq![kind + "/"@ + value + (": metadata.name "@ + key_problem())])
    } else {
        None
    }
}

/// Takes `value` as the name of a resource of the given kind.
pub fn resource_key(kind: &str, value: &str) -> (key: Result<ResourceKey, ConfigError>)
    ensures
        match key {
            Ok(key) => name_problem(kind@, value@) is None && key@ == value@,
            Err(error) => name_problem(kind@, value@) == Some(error@),
        },
        key is Ok <==> one_segment(value@),
{
    proof {
        names_are_one_segment(kind@, value@);
    }
    if contains_char(value, '/') {
        return Err(
            ConfigError::msg(join4(kind, "/", value, ": metadata.name must be one path segment")),
        );
    }
    match ResourceKey::new(value) {
        Ok(key) => Ok(key),
        Err(problem) => {
            let reason: String = join2(": metadata.name ", problem.as_str());
            Err(ConfigError::msg(join4(kind, "/", value, reason.as_str())))
        },
    }
}

// ---------------------------------------------------------------------------------------------
// Laws
// ---------------------------------------------------------------------------------------------

/// A name is accepted exactly when it is one segment. One with a slash is refused for that, any
/// other for its characters, in words that start with kind and name.
pub proof fn names_are_one_segment(kind: Seq<char>, value: Seq<char>)
    ensures
        name_problem(kind, value) is None <==> one_segment(value),
        value.contains('/') ==> name_problem(kind, value) == Some(
            seq![kind + "/"@ + value + ": metadata.name must be one path segment"@],
        ),
        !value.contains('/') && !one_segment(value) ==> name_problem(kind, value) == Some(
            seq![
                kind + "/"@ + value + (": metadata.name "@
                    + "must contain non-empty URL-safe path segments"@),
            ],
        ),
{
    keys_without_slash_are_one_segment(value);
    key_refusal();
}

/// Kind and name of a document are those of its resource.
pub proof fn documents_are_known_by_kind_and_name(
    upstream: UpstreamResource,
    relay: RelayResource,
)
    ensures
        document_kind(ResourceDocument::Upstream(upstream)) == "Upstream"@,
        document_kind(ResourceDocument::Relay(relay)) == "Relay"@,
        document_name(ResourceDocument::Upstream(upstream)) == upstream.metadata.name@,
        document_name(ResourceDocument::Relay(relay)) == relay.metadata.name@,
{
}

/// A source is known by its kind and all of its fields.
pub proof fn sources_are_kind_and_fields(a: String, b: String)
    ensures
        (SecretSource::Env { name: a })@ == (SecretSourceView::Env { name: a@ }),
        (SecretSource::File { path: a })@ == (SecretSourceView::File { path: a@ }),
        (SecretSource::SsmParameter { name: a })@ == (SecretSourceView::SsmParameter { name: a@ }),
        (SecretSource::SecretsManager { secret_id: a, json_key: None })@
            == (SecretSourceView::SecretsManager { secret_id: a@, json_key: None }),
        (SecretSource::SecretsManager { secret_id: a, json_key: Some(b) })@
            == (SecretSourceView::SecretsManager { secret_id: a@, json_key: Some(b@) }),
{
}

} // verus!
