//! Instances from AWS SSM parameters: provider settings, and the document of one instance.

use crate::address::{optional_parts, parse_outcome, parsed_url, web_scheme, Url, UrlParts};
use crate::compile::{origin_list, parse_origins};
use crate::duration::Duration;
use crate::error::ConfigError;
use crate::instance::{
    instance_problem, Instance, InstanceKey, InstanceView, UpstreamSpec, UpstreamSpecView,
};
use crate::instance_laws::{
    instance_in_order, instances_are_what_documents_state, states_instance,
};
use crate::json::JsonValue;
use crate::key::{key_problem, one_segment, valid_key, SecretString};
use crate::model::{ClientAuth, ClientAuthView, ClientJwks, ClientJwksView, Origin};
use crate::text::{chars_of, contains_char, join2, optional_text, texts};
use std::sync::Arc;
use vstd::prelude::*;

verus! {

/// The path under which parameters are looked for unless configured otherwise.
pub const DEFAULT_PREFIX: &'static str = "/oauthmux/instances/";

/// Seconds between two scans unless configured otherwise.
pub const DEFAULT_POLL_SECONDS: u64 = 60;

// ---------------------------------------------------------------------------------------------
// Settings
// ---------------------------------------------------------------------------------------------

/// Whether `prefix` starts and ends with a slash.
pub open spec fn path_prefix(prefix: Seq<char>) -> bool {
    prefix.len() > 0 && prefix[0] == '/' && prefix.last() == '/'
}

/// What is wrong with the settings of a provider.
pub open spec fn settings_problem(prefix: Seq<char>, poll_interval: nat) -> Option<Seq<char>> {
    if !path_prefix(prefix) {
        Some("SSM prefix must start and end with '/'"@)
    } else if poll_interval == 0 {
        Some("SSM poll interval must be greater than zero"@)
    } else {
        None
    }
}

/// The settings of a provider that reads instances from the parameters under one path.
pub struct SsmProvider<C> {
    client: Arc<C>,
    prefix: String,
    poll_interval: Duration,
}

impl<C> SsmProvider<C> {
    #[verifier::type_invariant]
    closed spec fn well_formed(self) -> bool {
        settings_problem(self.prefix@, self.poll_interval@) is None
    }

    /// The path under which parameters are looked for.
    pub closed spec fn prefix_text(self) -> Seq<char> {
        self.prefix@
    }

    /// The time between two scans, in nanoseconds.
    pub closed spec fn interval(self) -> nat {
        self.poll_interval@
    }

    /// What talks to the parameter store.
    pub closed spec fn connection(self) -> C {
        *self.client
    }

    /// A provider for the parameters under `prefix`, which are scanned once per `poll_interval`.
    pub fn new(client: Arc<C>, prefix: &str, poll_interval: Duration) -> (provider: Result<
        SsmProvider<C>,
        ConfigError,
    >)
        ensures
            match provider {
                Ok(provider) => {
                    &&& settings_problem(prefix@, poll_interval@) is None
                    &&& provider.prefix_text() == prefix@
                    &&& provider.interval() == poll_interval@
                    &&& provider.connection() == *client
                },
                Err(error) => settings_problem(prefix@, poll_interval@) is Some && error@
                    == seq![settings_problem(prefix@, poll_interval@)->0],
            },
    {
        let chars: Vec<char> = chars_of(prefix);
        if chars.len() == 0 || chars[0] != '/' || chars[chars.len() - 1] != '/' {
            return Err(ConfigError::msg("SSM prefix must start and end with '/'".to_owned()));
        }
        if poll_interval.is_zero() {
            return Err(ConfigError::msg("SSM poll interval must be greater than zero".to_owned()));
        }
        Ok(SsmProvider { client, prefix: prefix.to_owned(), poll_interval })
    }

    pub fn client(&self) -> (client: &Arc<C>)
        ensures
            **client == self.connection(),
    {
        &self.client
    }

    /// The path under which parameters are looked for, which starts and ends with a slash.
    pub fn prefix(&self) -> (prefix: &str)
        ensures
            prefix@ == self.prefix_text(),
            path_prefix(prefix@),
    {
        proof {
            use_type_invariant(self);
        }
        self.prefix.as_str()
    }

    /// The time between two scans, which is never zero.
    pub fn poll_interval(&self) -> (interval: Duration)
        ensures
            interval@ == self.interval(),
            interval@ > 0,
    {
        proof {
            use_type_invariant(self);
        }
        self.poll_interval
    }

    /// The name of the provider.
    pub fn name(&self) -> (name: &'static str)
        ensures
            name@ == "ssm"@,
    {
        "ssm"
    }
}

// ---------------------------------------------------------------------------------------------
// The document of an instance
// ---------------------------------------------------------------------------------------------

/// The document of one instance, field by field.
pub struct RawInstance {
    pub issuer_url: String,
    pub authorization_endpoint: Option<String>,
    pub token_endpoint: Option<String>,
    pub jwks_uri: Option<String>,
    pub client_id: String,
    pub client_secret: String,
    pub client_secret_file: Option<String>,
    pub scopes: Vec<String>,
    pub allowed_redirect_origins: Vec<String>,
    pub default_redirect_uri: Option<String>,
    pub client_auth: RawClientAuth,
}

/// The client authentication in the document of an instance.
pub enum RawClientAuth {
    Public,
    ClientSecret { client_id: String, client_secret: String },
    /// `jwks` is a key set, or the text of a URL that leads to one.
    PrivateKeyJwt { client_id: String, jwks: JsonValue },
}

/// The URL in a field, given what parsing its text came to, or the messages of its refusal.
pub open spec fn checked_web_url(field: Seq<char>, parsed: Result<UrlParts, Seq<char>>) -> Result<
    UrlParts,
    Seq<Seq<char>>,
> {
    match parsed {
        Err(message) => Err(seq![field, message]),
        Ok(url) => if web_scheme(url) {
            Ok(url)
        } else {
            Err(seq![field + ": must use http or https"@])
        },
    }
}

/// The URL in a field, or the messages of its refusal.
pub open spec fn web_url_field(field: Seq<char>, text: Seq<char>) -> Result<
    UrlParts,
    Seq<Seq<char>>,
> {
    checked_web_url(field, parsed_url(text))
}

/// The URL in an optional field, or the messages of its refusal.
pub open spec fn optional_web_url_field(field: Seq<char>, text: Option<Seq<char>>) -> Result<
    Option<UrlParts>,
    Seq<Seq<char>>,
> {
    match text {
        None => Ok(None),
        Some(text) => match web_url_field(field, text) {
            Ok(url) => Ok(Some(url)),
            Err(error) => Err(error),
        },
    }
}

/// The client authentication that a document describes.
pub open spec fn raw_client_auth(auth: RawClientAuth) -> Result<ClientAuthView, Seq<Seq<char>>> {
    match auth {
        RawClientAuth::Public => Ok(ClientAuthView::Public),
        RawClientAuth::ClientSecret { client_id, client_secret } => Ok(
            ClientAuthView::ClientSecret {
                client_id: client_id@,
                client_secret: client_secret@,
            },
        ),
        RawClientAuth::PrivateKeyJwt { client_id, jwks } => match jwks {
            JsonValue::String(text) => match parsed_url(text@) {
                Ok(url) => Ok(
                    ClientAuthView::PrivateKeyJwt {
                        client_id: client_id@,
                        jwks: ClientJwksView::Url(url),
                    },
                ),
                Err(message) => Err(seq!["client_auth.jwks URL"@, message]),
            },
            _ => Ok(
                ClientAuthView::PrivateKeyJwt {
                    client_id: client_id@,
                    jwks: ClientJwksView::Inline(jwks@),
                },
            ),
        },
    }
}

/// The upstream side that a document describes.
pub open spec fn raw_upstream(raw: RawInstance) -> Result<UpstreamSpecView, Seq<Seq<char>>> {
    match web_url_field("issuer_url"@, raw.issuer_url@) {
        Err(error) => Err(error),
        Ok(issuer_url) => match optional_web_url_field(
            "authorization_endpoint"@,
            optional_text(raw.authorization_endpoint),
        ) {
            Err(error) => Err(error),
            Ok(authorization_endpoint) => match optional_web_url_field(
                "token_endpoint"@,
                optional_text(raw.token_endpoint),
            ) {
                Err(error) => Err(error),
                Ok(token_endpoint) => match optional_web_url_field(
                    "jwks_uri"@,
                    optional_text(raw.jwks_uri),
                ) {
                    Err(error) => Err(error),
                    Ok(jwks_uri) => Ok(
                        UpstreamSpecView {
                            issuer_url,
                            authorization_endpoint,
                            token_endpoint,
                            jwks_uri,
                            client_id: raw.client_id@,
                            client_secret: raw.client_secret@,
                            scopes: texts(raw.scopes@),
                            allowed_scopes: None,
                        },
                    ),
                },
            },
        },
    }
}

/// The instance that a document describes under the name `name`.
pub open spec fn raw_instance(name: Seq<char>, raw: RawInstance) -> Result<
    InstanceView,
    Seq<Seq<char>>,
> {
    if raw.client_secret_file is Some {
        Err(seq!["client_secret_file is not supported by the SSM provider"@])
    } else if !valid_key(name) {
        Err(seq!["key: "@ + key_problem()])
    } else {
        match origin_list(texts(raw.allowed_redirect_origins@)) {
            Err(message) => Err(seq!["allowed_redirect_origins"@, message]),
            Ok(allowed_redirect_origins) => match raw_client_auth(raw.client_auth) {
                Err(error) => Err(error),
                Ok(client_auth) => match raw_upstream(raw) {
                    Err(error) => Err(error),
                    Ok(upstream) => match optional_web_url_field(
                        "default_redirect_uri"@,
                        optional_text(raw.default_redirect_uri),
                    ) {
                        Err(error) => Err(error),
                        Ok(default_redirect_uri) => {
                            let instance = InstanceView {
                                key: name,
                                upstream,
                                client_auth,
                                allowed_redirect_origins,
                                default_redirect_uri,
                            };
                            match instance_problem(instance) {
                                Some(problem) => Err(seq![problem]),
                                None => Ok(instance),
                            }
                        },
                    },
                },
            },
        }
    }
}

/// What reading a document came to: its fields, or the messages of the failure.
pub open spec fn document_of(document: Result<RawInstance, ConfigError>) -> Result<
    RawInstance,
    Seq<Seq<char>>,
> {
    match document {
        Ok(raw) => Ok(raw),
        Err(error) => Err(error@),
    }
}

/// The instance of the parameter called `name`, given what reading its document came to.
pub open spec fn instance_of(
    name: Seq<char>,
    document: Result<RawInstance, Seq<Seq<char>>>,
) -> Result<InstanceView, Seq<Seq<char>>> {
    if name.contains('/') {
        Err(seq!["key: SSM-provider instance keys must be one path segment"@])
    } else {
        match document {
            Err(error) => Err(seq!["parse YAML/JSON"@] + error),
            Ok(raw) => raw_instance(name, raw),
        }
    }
}

/// Accepts the URL of a field if its scheme is http or https.
pub fn check_web_url(field: &str, parsed: Result<Url, String>) -> (url: Result<Url, ConfigError>)
    ensures
        match url {
            Ok(url) => checked_web_url(field@, parse_outcome(parsed)) == Ok::<
                UrlParts,
                Seq<Seq<char>>,
            >(url@),
            Err(error) => checked_web_url(field@, parse_outcome(parsed)) == Err::<
                UrlParts,
                Seq<Seq<char>>,
            >(error@),
        },
{
    match parsed {
        Ok(url) => {
            if url.has_web_scheme() {
                Ok(url)
            } else {
                Err(ConfigError::msg(join2(field, ": must use http or https")))
            }
        },
        Err(message) => {
            let error = ConfigError::msg(message).context(field.to_owned());
            assert(error@ =~= seq![field@, message@]);
            Err(error)
        },
    }
}

fn parse_web_url(field: &str, value: &str) -> (url: Result<Url, ConfigError>)
    ensures
        match url {
            Ok(url) => web_url_field(field@, value@) == Ok::<UrlParts, Seq<Seq<char>>>(url@),
            Err(error) => web_url_field(field@, value@) == Err::<UrlParts, Seq<Seq<char>>>(error@),
        },
{
    check_web_url(field, Url::parse(value))
}

fn parse_optional_web_url(field: &str, value: &Option<String>) -> (url: Result<
    Option<Url>,
    ConfigError,
>)
    ensures
        match url {
            Ok(url) => optional_web_url_field(field@, optional_text(*value)) == Ok::<
                Option<UrlParts>,
                Seq<Seq<char>>,
            >(optional_parts(url)),
            Err(error) => optional_web_url_field(field@, optional_text(*value)) == Err::<
                Option<UrlParts>,
                Seq<Seq<char>>,
            >(error@),
        },
{
    match value {
        None => Ok(None),
        Some(value) => match parse_web_url(field, value.as_str()) {
            Ok(url) => Ok(Some(url)),
            Err(error) => Err(error),
        },
    }
}

fn build_client_auth(auth: RawClientAuth) -> (built: Result<ClientAuth, ConfigError>)
    ensures
        match built {
            Ok(built) => raw_client_auth(auth) == Ok::<ClientAuthView, Seq<Seq<char>>>(built@),
            Err(error) => raw_client_auth(auth) == Err::<ClientAuthView, Seq<Seq<char>>>(error@),
        },
{
    match auth {
        RawClientAuth::Public => Ok(ClientAuth::Public),
        RawClientAuth::ClientSecret { client_id, client_secret } => Ok(
            ClientAuth::ClientSecret {
                client_id,
                client_secret: SecretString::new(client_secret.as_str()),
            },
        ),
        RawClientAuth::PrivateKeyJwt { client_id, jwks } => match jwks {
            JsonValue::String(text) => match Url::parse(text.as_str()) {
                Ok(url) => Ok(ClientAuth::PrivateKeyJwt { client_id, jwks: ClientJwks::Url(url) }),
                Err(message) => {
                    let error = ConfigError::msg(message).context(
                        "client_auth.jwks URL".to_owned(),
                    );
                    assert(error@ =~= seq!["client_auth.jwks URL"@, message@]);
                    Err(error)
                },
            },
            other => Ok(ClientAuth::PrivateKeyJwt { client_id, jwks: ClientJwks::Inline(other) }),
        },
    }
}

fn build_instance(name: &str, raw: RawInstance) -> (instance: Result<Instance, ConfigError>)
    ensures
        match instance {
            Ok(instance) => raw_instance(name@, raw) == Ok::<InstanceView, Seq<Seq<char>>>(
                instance@,
            ),
            Err(error) => raw_instance(name@, raw) == Err::<InstanceView, Seq<Seq<char>>>(error@),
        },
{
    if raw.client_secret_file.is_some() {
        return Err(
            ConfigError::msg("client_secret_file is not supported by the SSM provider".to_owned()),
        );
    }
    let key: InstanceKey = match InstanceKey::new(name) {
        Ok(key) => key,
        Err(problem) => return Err(ConfigError::msg(join2("key: ", problem.as_str()))),
    };
    let allowed_redirect_origins: Vec<Origin> = match parse_origins(&raw.allowed_redirect_origins) {
        Ok(origins) => origins,
        Err(message) => {
            let error = ConfigError::msg(message).context("allowed_redirect_origins".to_owned());
            assert(error@ =~= seq!["allowed_redirect_origins"@, message@]);
            return Err(error);
        },
    };
    let client_auth: ClientAuth = build_client_auth(raw.client_auth)?;
    let issuer_url: Url = parse_web_url("issuer_url", raw.issuer_url.as_str())?;
    let authorization_endpoint: Option<Url> = parse_optional_web_url(
        "authorization_endpoint",
        &raw.authorization_endpoint,
    )?;
    let token_endpoint: Option<Url> = parse_optional_web_url(
        "token_endpoint",
        &raw.token_endpoint,
    )?;
    let jwks_uri: Option<Url> = parse_optional_web_url("jwks_uri", &raw.jwks_uri)?;
    let default_redirect_uri: Option<Url> = parse_optional_web_url(
        "default_redirect_uri",
        &raw.default_redirect_uri,
    )?;
    let upstream = UpstreamSpec {
        issuer_url,
        authorization_endpoint,
        token_endpoint,
        jwks_uri,
        client_id: raw.client_id,
        client_secret: SecretString::new(raw.client_secret.as_str()),
        scopes: raw.scopes,
        allowed_scopes: None,
    };
    let instance = Instance {
        key,
        upstream,
        client_auth,
        allowed_redirect_origins,
        default_redirect_uri,
    };
    match instance.validate() {
        Ok(()) => Ok(instance),
        Err(problem) => Err(ConfigError::msg(problem)),
    }
}

/// Makes the instance of the parameter called `name` below the prefix, given what reading its
/// document came to.
pub fn parse_instance(name: &str, document: Result<RawInstance, ConfigError>) -> (instance: Result<
    Instance,
    ConfigError,
>)
    ensures
        match instance {
            Ok(instance) => instance_of(name@, document_of(document)) == Ok::<
                InstanceView,
                Seq<Seq<char>>,
            >(instance@),
            Err(error) => instance_of(name@, document_of(document)) == Err::<
                InstanceView,
                Seq<Seq<char>>,
            >(error@),
        },
        instance matches Ok(instance) ==> {
            &&& one_segment(name@)
            &&& instance@.key == name@
            &&& document matches Ok(raw) && raw.client_secret_file is None && states_instance(
                raw,
                instance@,
            )
            &&& instance_in_order(instance@)
        },
{
    proof {
        if document is Ok {
            let raw = document->Ok_0;
            if let Ok(view) = instance_of(name@, Ok(raw)) {
                instances_are_what_documents_state(name@, raw, view);
            }
        }
    }
    if contains_char(name, '/') {
        return Err(
            ConfigError::msg("key: SSM-provider instance keys must be one path segment".to_owned()),
        );
    }
    match document {
        Ok(raw) => build_instance(name, raw),
        Err(error) => Err(error.context("parse YAML/JSON".to_owned())),
    }
}

} // verus!
