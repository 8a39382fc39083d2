//! Compiling resource documents into a snapshot.
//!
//! Documents are processed in order, upstreams before relays. Secrets are looked up on the way,
//! by whoever drives the compilation: [`Compilation`] stops at each secret that is still unknown,
//! says what it needs, and goes on once it is supplied.

use crate::address::{absolute_web_url, optional_parts, parse_outcome, parsed_url, Url, UrlParts};
use crate::config::{
    document_kind, document_name, name_problem, resource_key, ClientAuthentication, RelayResource,
    ResourceDocument, SecretResolver, SecretSource, SecretSourceView, SecretValue,
    UpstreamResource,
};
use crate::document_laws::{compiled_snapshots_state_their_documents, document_stands};
use crate::error::ConfigError;
use crate::json::JsonValue;
use crate::key::{ResourceKey, SecretString};
use crate::meaning_laws::{origin_lists_by_their_texts, states_origins};
use crate::model::{
    optional_texts, origin_parts, parsed_origin, relay_problem, upstream_problem, ClientAuth,
    ClientAuthView, ClientJwks, ClientJwksView, Origin, Relay, RelayView, Upstream, UpstreamView,
};
use crate::registry::{reference_problem, ProviderSnapshot, SnapshotView};
use crate::text::{join2, join3, join4, optional_text, same_text, texts};
use std::sync::Arc;
use vstd::prelude::*;

verus! {

// ---------------------------------------------------------------------------------------------
// What documents mean
// ---------------------------------------------------------------------------------------------

/// The URL in a field, given what parsing its text came to, or the messages of its refusal.
pub open spec fn checked_url(field: Seq<char>, parsed: Result<UrlParts, Seq<char>>) -> Result<
    UrlParts,
    Seq<Seq<char>>,
> {
    match parsed {
        Err(message) => Err(seq![field, message]),
        Ok(url) => if absolute_web_url(url) {
            Ok(url)
        } else {
            Err(seq![field + ": must be an absolute http(s) URL"@])
        },
    }
}

/// The URL in a field, or the messages of its refusal.
pub open spec fn url_field(field: Seq<char>, text: Seq<char>) -> Result<UrlParts, Seq<Seq<char>>> {
    checked_url(field, parsed_url(text))
}

/// The URL in an optional field, or the messages of its refusal.
pub open spec fn optional_url_field(field: Seq<char>, text: Option<Seq<char>>) -> Result<
    Option<UrlParts>,
    Seq<Seq<char>>,
> {
    match text {
        None => Ok(None),
        Some(text) => match url_field(field, text) {
            Ok(url) => Ok(Some(url)),
            Err(error) => Err(error),
        },
    }
}

/// The origins that texts stand for, or what is said of the first that stands for none.
pub open spec fn origin_list(list: Seq<Seq<char>>) -> Result<Seq<UrlParts>, Seq<char>>
    decreases list.len(),
{
    if list.len() == 0 {
        Ok(Seq::empty())
    } else {
        match origin_list(list.drop_last()) {
            Err(message) => Err(message),
            Ok(origins) => match parsed_origin(list.last()) {
                Err(message) => Err(message),
                Ok(origin) => Ok(origins.push(origin)),
            },
        }
    }
}

/// A field of an upstream document, as errors name it: after the resource.
pub open spec fn upstream_field(name: Seq<char>, field: Seq<char>) -> Seq<char> {
    "Upstream/"@ + name + field
}

/// A field of a relay document, as errors name it: after the resource.
pub open spec fn relay_field(name: Seq<char>, field: Seq<char>) -> Seq<char> {
    "Relay/"@ + name + field
}

/// The upstream that a document describes, given its client secret.
pub open spec fn upstream_of(resource: UpstreamResource, secret: Seq<char>) -> Result<
    UpstreamView,
    Seq<Seq<char>>,
> {
    let spec = resource.spec;
    let name = resource.metadata.name@;
    match url_field(upstream_field(name, " spec.issuerUrl"@), spec.issuer_url@) {
        Err(error) => Err(error),
        Ok(issuer_url) => match optional_url_field(
            upstream_field(name, " spec.endpoints.authorization"@),
            optional_text(spec.endpoints.authorization),
        ) {
            Err(error) => Err(error),
            Ok(authorization_endpoint) => match optional_url_field(
                upstream_field(name, " spec.endpoints.token"@),
                optional_text(spec.endpoints.token),
            ) {
                Err(error) => Err(error),
                Ok(token_endpoint) => match optional_url_field(
                    upstream_field(name, " spec.endpoints.jwks"@),
                    optional_text(spec.endpoints.jwks),
                ) {
                    Err(error) => Err(error),
                    Ok(jwks_uri) => {
                        let upstream = UpstreamView {
                            key: name,
                            issuer_url,
                            authorization_endpoint,
                            token_endpoint,
                            jwks_uri,
                            client_id: spec.oauth_client.client_id@,
                            client_secret: secret,
                        };
                        match upstream_problem(upstream) {
                            Some(problem) => Err(seq!["Upstream/"@ + name, problem]),
                            None => Ok(upstream),
                        }
                    },
                },
            },
        },
    }
}

/// The key set that the relay document called `name` refers to.
pub open spec fn jwks_of(name: Seq<char>, value: JsonValue) -> Result<ClientJwksView, Seq<Seq<char>>> {
    match value {
        JsonValue::String(text) => match parsed_url(text@) {
            Ok(url) => Ok(ClientJwksView::Url(url)),
            Err(message) => Err(
                seq![relay_field(name, " spec.clientAuthentication.jwks URL"@), message],
            ),
        },
        _ => Ok(ClientJwksView::Inline(value@)),
    }
}

/// The client authentication that the relay document called `name` describes; `secret` is the
/// client secret of the variant that has one.
pub open spec fn client_auth_of(
    name: Seq<char>,
    authentication: ClientAuthentication,
    secret: Option<Seq<char>>,
) -> Result<ClientAuthView, Seq<Seq<char>>> {
    match authentication {
        ClientAuthentication::UpstreamClient => Ok(ClientAuthView::UpstreamClient),
        ClientAuthentication::Public => Ok(ClientAuthView::Public),
        ClientAuthentication::ClientSecret { client_id, client_secret } => Ok(
            ClientAuthView::ClientSecret { client_id: client_id@, client_secret: secret->0 },
        ),
        ClientAuthentication::PrivateKeyJwt { client_id, jwks } => match jwks_of(name, jwks) {
            Ok(jwks) => Ok(ClientAuthView::PrivateKeyJwt { client_id: client_id@, jwks }),
            Err(error) => Err(error),
        },
    }
}

/// The relay that a document describes, given the client secret if it has one.
pub open spec fn relay_of(resource: RelayResource, secret: Option<Seq<char>>) -> Result<
    RelayView,
    Seq<Seq<char>>,
> {
    let spec = resource.spec;
    let name = resource.metadata.name@;
    match client_auth_of(name, spec.client_authentication, secret) {
        Err(error) => Err(error),
        Ok(client_auth) => match origin_list(texts(spec.redirect_policy.allowed_origins@)) {
            Err(message) => Err(
                seq![relay_field(name, " spec.redirectPolicy.allowedOrigins"@), message],
            ),
            Ok(allowed_redirect_origins) => match optional_url_field(
                relay_field(name, " spec.redirectPolicy.defaultRedirectUri"@),
                optional_text(spec.redirect_policy.default_redirect_uri),
            ) {
                Err(error) => Err(error),
                Ok(default_redirect_uri) => {
                    let relay = RelayView {
                        key: name,
                        upstream: spec.upstream_ref.name@,
                        client_auth,
                        scopes: texts(spec.scopes.default@),
                        allowed_scopes: optional_texts(spec.scopes.allowed),
                        allowed_redirect_origins,
                        default_redirect_uri,
                    };
                    match relay_problem(relay) {
                        Some(problem) => Err(seq!["Relay/"@ + name, problem]),
                        None => Ok(relay),
                    }
                },
            },
        },
    }
}

/// The client secret that a relay document asks for.
pub open spec fn relay_secret(resource: RelayResource) -> Option<SecretValue> {
    match resource.spec.client_authentication {
        ClientAuthentication::ClientSecret { client_id, client_secret } => Some(client_secret),
        _ => None,
    }
}

/// Accepts the URL of a field if it is an absolute http(s) URL.
pub fn check_url(field: &str, parsed: Result<Url, String>) -> (url: Result<Url, ConfigError>)
    ensures
        match url {
            Ok(url) => checked_url(field@, parse_outcome(parsed)) == Ok::<
                UrlParts,
                Seq<Seq<char>>,
            >(url@),
            Err(error) => checked_url(field@, parse_outcome(parsed)) == Err::<
                UrlParts,
                Seq<Seq<char>>,
            >(error@),
        },
{
    match parsed {
        Ok(url) => {
            if url.is_absolute_web_url() {
                Ok(url)
            } else {
                Err(ConfigError::msg(join2(field, ": must be an absolute http(s) URL")))
            }
        },
        Err(message) => {
            let error = ConfigError::msg(message).context(field.to_owned());
            assert(error@ =~= seq![field@, message@]);
            Err(error)
        },
    }
}

/// Reads a field that holds a URL.
pub fn parse_url(field: &str, value: &str) -> (url: Result<Url, ConfigError>)
    ensures
        match url {
            Ok(url) => url_field(field@, value@) == Ok::<UrlParts, Seq<Seq<char>>>(url@),
            Err(error) => url_field(field@, value@) == Err::<UrlParts, Seq<Seq<char>>>(error@),
        },
{
    check_url(field, Url::parse(value))
}

/// Reads an optional field that holds a URL.
pub fn parse_optional_url(field: &str, value: &Option<String>) -> (url: Result<
    Option<Url>,
    ConfigError,
>)
    ensures
        match url {
            Ok(url) => optional_url_field(field@, optional_text(*value)) == Ok::<
                Option<UrlParts>,
                Seq<Seq<char>>,
            >(optional_parts(url)),
            Err(error) => optional_url_field(field@, optional_text(*value)) == Err::<
                Option<UrlParts>,
                Seq<Seq<char>>,
            >(error@),
        },
{
    match value {
        None => Ok(None),
        Some(value) => match parse_url(field, value.as_str()) {
            Ok(url) => Ok(Some(url)),
            Err(error) => Err(error),
        },
    }
}

/// Reads a list of origins; the error is that of the first text that is none.
pub fn parse_origins(list: &Vec<String>) -> (origins: Result<Vec<Origin>, String>)
    ensures
        match origins {
            Ok(origins) => origin_list(texts(list@)) == Ok::<Seq<UrlParts>, Seq<char>>(
                origin_parts(origins@),
            ),
            Err(message) => origin_list(texts(list@)) == Err::<Seq<UrlParts>, Seq<char>>(message@),
        },
        origins matches Ok(origins) ==> states_origins(list@, origin_parts(origins@)),
{
    let ghost all = texts(list@);
    let mut origins: Vec<Origin> = Vec::new();
    assert(all.take(0) =~= Seq::<Seq<char>>::empty());
    assert(origin_parts(origins@) =~= Seq::<UrlParts>::empty());
    for i in 0..list.len()
        invariant
            all == texts(list@),
            origin_list(all.take(i as int)) == Ok::<Seq<UrlParts>, Seq<char>>(
                origin_parts(origins@),
            ),
    {
        proof {
            assert(all.take(i + 1).drop_last() =~= all.take(i as int));
            assert(all.take(i + 1).last() == list@[i as int]@);
        }
        match Origin::parse(list[i].as_str()) {
            Ok(origin) => {
                let ghost before = origins@;
                origins.push(origin);
                assert(origin_parts(origins@) =~= origin_parts(before).push(origin@));
            },
            Err(message) => {
                proof {
                    lemma_origin_list_prefix(all, i + 1);
                }
                return Err(message);
            },
        }
    }
    assert(all.take(list@.len() as int) =~= all);
    proof {
        origin_lists_by_their_texts(list@, origin_parts(origins@), 0);
    }
    Ok(origins)
}

/// The error of a prefix is the error of the list.
proof fn lemma_origin_list_prefix(list: Seq<Seq<char>>, n: int)
    requires
        0 <= n <= list.len(),
        origin_list(list.take(n)) is Err,
    ensures
        origin_list(list) == origin_list(list.take(n)),
    decreases list.len() - n,
{
    if n == list.len() {
        assert(list.take(n) =~= list);
    } else {
        assert(list.take(n + 1).drop_last() =~= list.take(n));
        lemma_origin_list_prefix(list, n + 1);
    }
}

fn build_upstream(key: ResourceKey, resource: UpstreamResource, secret: SecretString) -> (upstream:
    Result<Upstream, ConfigError>)
    requires
        key@ == resource.metadata.name@,
    ensures
        match upstream {
            Ok(upstream) => upstream_of(resource, secret@) == Ok::<UpstreamView, Seq<Seq<char>>>(
                upstream@,
            ),
            Err(error) => upstream_of(resource, secret@) == Err::<UpstreamView, Seq<Seq<char>>>(
                error@,
            ),
        },
{
    let issuer_url: Url = parse_url(
        join3("Upstream/", key.as_str(), " spec.issuerUrl").as_str(),
        resource.spec.issuer_url.as_str(),
    )?;
    let authorization_endpoint: Option<Url> = parse_optional_url(
        join3("Upstream/", key.as_str(), " spec.endpoints.authorization").as_str(),
        &resource.spec.endpoints.authorization,
    )?;
    let token_endpoint: Option<Url> = parse_optional_url(
        join3("Upstream/", key.as_str(), " spec.endpoints.token").as_str(),
        &resource.spec.endpoints.token,
    )?;
    let jwks_uri: Option<Url> = parse_optional_url(
        join3("Upstream/", key.as_str(), " spec.endpoints.jwks").as_str(),
        &resource.spec.endpoints.jwks,
    )?;
    let upstream = Upstream {
        key,
        issuer_url,
        authorization_endpoint,
        token_endpoint,
        jwks_uri,
        client_id: resource.spec.oauth_client.client_id,
        client_secret: secret,
    };
    match upstream.validate() {
        Ok(()) => Ok(upstream),
        Err(problem) => {
            let error = ConfigError::msg(problem).context(
                join2("Upstream/", upstream.key.as_str()),
            );
            assert(error@ =~= seq!["Upstream/"@ + resource.metadata.name@, problem@]);
            Err(error)
        },
    }
}

fn build_client_auth(
    name: &str,
    authentication: ClientAuthentication,
    secret: Option<SecretString>,
) -> (auth: Result<ClientAuth, ConfigError>)
    requires
        authentication is ClientSecret ==> secret is Some,
    ensures
        match auth {
            Ok(auth) => client_auth_of(name@, authentication, secret_text(secret)) == Ok::<
                ClientAuthView,
                Seq<Seq<char>>,
            >(auth@),
            Err(error) => client_auth_of(name@, authentication, secret_text(secret)) == Err::<
                ClientAuthView,
                Seq<Seq<char>>,
            >(error@),
        },
{
    match authentication {
        ClientAuthentication::UpstreamClient => Ok(ClientAuth::UpstreamClient),
        ClientAuthentication::Public => Ok(ClientAuth::Public),
        ClientAuthentication::ClientSecret { client_id, client_secret } => Ok(
            ClientAuth::ClientSecret { client_id, client_secret: secret.unwrap() },
        ),
        ClientAuthentication::PrivateKeyJwt { client_id, jwks } => match jwks {
            JsonValue::String(text) => match Url::parse(text.as_str()) {
                Ok(url) => Ok(ClientAuth::PrivateKeyJwt { client_id, jwks: ClientJwks::Url(url) }),
                Err(message) => {
                    let error = ConfigError::msg(message).context(
                        join3("Relay/", name, " spec.clientAuthentication.jwks URL"),
                    );
                    assert(error@ =~= seq![
                        relay_field(name@, " spec.clientAuthentication.jwks URL"@),
                        message@,
                    ]);
                    Err(error)
                },
            },
            other => Ok(ClientAuth::PrivateKeyJwt { client_id, jwks: ClientJwks::Inline(other) }),
        },
    }
}

/// The text of an optional secret.
pub open spec fn secret_text(secret: Option<SecretString>) -> Option<Seq<char>> {
    match secret {
        Some(secret) => Some(secret@),
        None => None,
    }
}

fn build_relay(
    key: ResourceKey,
    upstream: ResourceKey,
    resource: RelayResource,
    secret: Option<SecretString>,
) -> (relay: Result<Relay, ConfigError>)
    requires
        key@ == resource.metadata.name@,
        upstream@ == resource.spec.upstream_ref.name@,
        relay_secret(resource) is Some ==> secret is Some,
    ensures
        match relay {
            Ok(relay) => relay_of(resource, secret_text(secret)) == Ok::<RelayView, Seq<Seq<char>>>(
                relay@,
            ),
            Err(error) => relay_of(resource, secret_text(secret)) == Err::<
                RelayView,
                Seq<Seq<char>>,
            >(error@),
        },
{
    let client_auth: ClientAuth = build_client_auth(
        key.as_str(),
        resource.spec.client_authentication,
        secret,
    )?;
    let allowed_redirect_origins: Vec<Origin> = match parse_origins(
        &resource.spec.redirect_policy.allowed_origins,
    ) {
        Ok(origins) => origins,
        Err(message) => {
            let error = ConfigError::msg(message).context(
                join3("Relay/", key.as_str(), " spec.redirectPolicy.allowedOrigins"),
            );
            assert(error@ =~= seq![
                relay_field(key@, " spec.redirectPolicy.allowedOrigins"@),
                message@,
            ]);
            return Err(error);
        },
    };
    let default_redirect_uri: Option<Url> = parse_optional_url(
        join3("Relay/", key.as_str(), " spec.redirectPolicy.defaultRedirectUri").as_str(),
        &resource.spec.redirect_policy.default_redirect_uri,
    )?;
    let relay = Relay {
        key,
        upstream,
        client_auth,
        scopes: resource.spec.scopes.default,
        allowed_scopes: resource.spec.scopes.allowed,
        allowed_redirect_origins,
        default_redirect_uri,
    };
    match relay.validate() {
        Ok(()) => Ok(relay),
        Err(problem) => {
            let error = ConfigError::msg(problem).context(join2("Relay/", relay.key.as_str()));
            assert(error@ =~= seq!["Relay/"@ + resource.metadata.name@, problem@]);
            Err(error)
        },
    }
}

// ---------------------------------------------------------------------------------------------
// The course of a compilation
// ---------------------------------------------------------------------------------------------

/// A secret that a compilation needs.
pub enum SecretRequest {
    /// The secret for a value given in place.
    Value(String),
    /// The secret kept at a source.
    Source(SecretSource),
}

/// The mathematical content of a [`SecretRequest`].
pub enum RequestView {
    Value(Seq<char>),
    Source(SecretSourceView),
}

impl View for SecretRequest {
    type V = RequestView;

    open spec fn view(&self) -> RequestView {
        match *self {
            SecretRequest::Value(value) => RequestView::Value(value@),
            SecretRequest::Source(source) => RequestView::Source(source@),
        }
    }
}

/// What is answered to a request: a secret, or the messages of a failure.
pub type Reply = Result<Seq<char>, Seq<Seq<char>>>;

/// The content of an answer.
pub open spec fn reply_of(answer: Result<SecretString, ConfigError>) -> Reply {
    match answer {
        Ok(secret) => Ok(secret@),
        Err(error) => Err(error@),
    }
}

/// The content of a compilation's result.
pub open spec fn compiled(result: Result<ProviderSnapshot, ConfigError>) -> Result<
    SnapshotView,
    Seq<Seq<char>>,
> {
    match result {
        Ok(snapshot) => Ok(snapshot@),
        Err(error) => Err(error@),
    }
}

/// How far a compilation gets: to a request that is still open, or to its end.
pub enum Progress {
    Ask(RequestView),
    Done(Result<SnapshotView, Seq<Seq<char>>>),
}

/// The state of a compilation: documents still to process, and what came of the others.
pub struct Draft {
    pub upstream_documents: Seq<UpstreamResource>,
    pub relay_documents: Seq<RelayResource>,
    pub upstreams: Map<Seq<char>, UpstreamView>,
    pub relays: Map<Seq<char>, RelayView>,
    pub relay_keys: Seq<Seq<char>>,
    pub secrets: Map<SecretSourceView, Seq<char>>,
}

/// What there is of a secret: nothing yet, a failure, or its text.
pub enum Finding {
    Open(RequestView),
    Failed(Seq<Seq<char>>),
    Found {
        secret: Seq<char>,
        /// The secrets known by source from here on.
        secrets: Map<SecretSourceView, Seq<char>>,
        /// The replies left over.
        replies: Seq<Reply>,
    },
}

/// The request for a secret.
pub open spec fn request_of(value: SecretValue) -> RequestView {
    match value {
        SecretValue::Value(secret) => RequestView::Value(secret.value@),
        SecretValue::ValueFrom(secret) => RequestView::Source(secret.value_from@),
    }
}

/// The secrets known by source, once `secret` has come in answer to a request.
pub open spec fn remember(
    secrets: Map<SecretSourceView, Seq<char>>,
    request: RequestView,
    secret: Seq<char>,
) -> Map<SecretSourceView, Seq<char>> {
    match request {
        RequestView::Value(_) => secrets,
        RequestView::Source(source) => secrets.insert(source, secret),
    }
}

/// Whether a request needs no reply, since its source is already known.
pub open spec fn known(secrets: Map<SecretSourceView, Seq<char>>, request: RequestView) -> bool {
    request matches RequestView::Source(source) && secrets.contains_key(source)
}

/// Finds a secret among the known ones or, failing that, in the next reply.
pub open spec fn find_secret(
    request: RequestView,
    secrets: Map<SecretSourceView, Seq<char>>,
    replies: Seq<Reply>,
) -> Finding {
    if known(secrets, request) {
        Finding::Found { secret: secrets[request->Source_0], secrets, replies }
    } else if replies.len() == 0 {
        Finding::Open(request)
    } else {
        match replies[0] {
            Err(error) => Finding::Failed(error),
            Ok(secret) => Finding::Found {
                secret,
                secrets: remember(secrets, request, secret),
                replies: replies.drop_first(),
            },
        }
    }
}

/// The context of a failure to find an upstream's client secret.
pub open spec fn upstream_secret_context(name: Seq<char>) -> Seq<char> {
    upstream_field(name, " spec.oauthClient.clientSecret"@)
}

/// The context of a failure to find a relay's client secret.
pub open spec fn relay_secret_context(name: Seq<char>) -> Seq<char> {
    relay_field(name, " spec.clientAuthentication.clientSecret"@)
}

/// The draft without its first upstream document, which became `upstream`.
pub open spec fn with_upstream(
    draft: Draft,
    upstream: UpstreamView,
    secrets: Map<SecretSourceView, Seq<char>>,
) -> Draft {
    Draft {
        upstream_documents: draft.upstream_documents.drop_first(),
        upstreams: draft.upstreams.insert(
            draft.upstream_documents[0].metadata.name@,
            upstream,
        ),
        secrets,
        ..draft
    }
}

/// The draft without its first relay document, which became `relay`.
pub open spec fn with_relay(
    draft: Draft,
    relay: RelayView,
    secrets: Map<SecretSourceView, Seq<char>>,
) -> Draft {
    let name = draft.relay_documents[0].metadata.name@;
    Draft {
        relay_documents: draft.relay_documents.drop_first(),
        relays: draft.relays.insert(name, relay),
        relay_keys: if draft.relays.contains_key(name) {
            draft.relay_keys
        } else {
            draft.relay_keys.push(name)
        },
        secrets,
        ..draft
    }
}

/// What is wrong with the names in a relay document: its own, then that of its upstream.
pub open spec fn relay_name_problem(resource: RelayResource) -> Option<Seq<Seq<char>>> {
    match name_problem("Relay"@, resource.metadata.name@) {
        Some(error) => Some(error),
        None => name_problem("Upstream"@, resource.spec.upstream_ref.name@),
    }
}

/// How far a draft gets with `replies` to its requests, in order. Upstreams come first, then
/// relays, then the check of the references between them; the first failure ends it.
pub open spec fn progress(draft: Draft, replies: Seq<Reply>) -> Progress
    decreases draft.upstream_documents.len() + draft.relay_documents.len(),
{
    if draft.upstream_documents.len() > 0 {
        let resource = draft.upstream_documents[0];
        let name = resource.metadata.name@;
        match name_problem("Upstream"@, name) {
            Some(error) => Progress::Done(Err(error)),
            None => match find_secret(
                request_of(resource.spec.oauth_client.client_secret),
                draft.secrets,
                replies,
            ) {
                Finding::Open(request) => Progress::Ask(request),
                Finding::Failed(error) => Progress::Done(
                    Err(seq![upstream_secret_context(name)] + error),
                ),
                Finding::Found { secret, secrets, replies } => match upstream_of(resource, secret) {
                    Err(error) => Progress::Done(Err(error)),
                    Ok(upstream) => progress(with_upstream(draft, upstream, secrets), replies),
                },
            },
        }
    } else if draft.relay_documents.len() > 0 {
        let resource = draft.relay_documents[0];
        let name = resource.metadata.name@;
        match relay_name_problem(resource) {
            Some(error) => Progress::Done(Err(error)),
            None => match relay_secret(resource) {
                None => match relay_of(resource, None) {
                    Err(error) => Progress::Done(Err(error)),
                    Ok(relay) => progress(with_relay(draft, relay, draft.secrets), replies),
                },
                Some(value) => match find_secret(request_of(value), draft.secrets, replies) {
                    Finding::Open(request) => Progress::Ask(request),
                    Finding::Failed(error) => Progress::Done(
                        Err(seq![relay_secret_context(name)] + error),
                    ),
                    Finding::Found { secret, secrets, replies } => match relay_of(
                        resource,
                        Some(secret),
                    ) {
                        Err(error) => Progress::Done(Err(error)),
                        Ok(relay) => progress(with_relay(draft, relay, secrets), replies),
                    },
                },
            },
        }
    } else {
        match reference_problem(draft.relay_keys, draft.relays, draft.upstreams) {
            Some(problem) => Progress::Done(Err(seq![problem])),
            None => Progress::Done(
                Ok(
                    SnapshotView {
                        instances: Map::empty(),
                        upstreams: draft.upstreams,
                        relays: draft.relays,
                    },
                ),
            ),
        }
    }
}

/// Whether two documents have the same kind and name.
pub open spec fn same_identity(a: ResourceDocument, b: ResourceDocument) -> bool {
    (a is Upstream <==> b is Upstream) && document_name(a) == document_name(b)
}

/// The first document that repeats the kind and name of an earlier one.
pub open spec fn first_duplicate(documents: Seq<ResourceDocument>) -> Option<ResourceDocument>
    decreases documents.len(),
{
    if documents.len() == 0 {
        None
    } else {
        let earlier = documents.drop_last();
        match first_duplicate(earlier) {
            Some(document) => Some(document),
            None => if exists|i: int|
                0 <= i < earlier.len() && same_identity(#[trigger] earlier[i], documents.last()) {
                Some(documents.last())
            } else {
                None
            },
        }
    }
}

/// The upstream documents among `documents`, in order.
pub open spec fn upstream_documents(documents: Seq<ResourceDocument>) -> Seq<UpstreamResource>
    decreases documents.len(),
{
    if documents.len() == 0 {
        Seq::empty()
    } else {
        match documents.last() {
            ResourceDocument::Upstream(resource) => upstream_documents(documents.drop_last()).push(
                resource,
            ),
            ResourceDocument::Relay(_) => upstream_documents(documents.drop_last()),
        }
    }
}

/// The relay documents among `documents`, in order.
pub open spec fn relay_documents(documents: Seq<ResourceDocument>) -> Seq<RelayResource>
    decreases documents.len(),
{
    if documents.len() == 0 {
        Seq::empty()
    } else {
        match documents.last() {
            ResourceDocument::Upstream(_) => relay_documents(documents.drop_last()),
            ResourceDocument::Relay(resource) => relay_documents(documents.drop_last()).push(
                resource,
            ),
        }
    }
}

/// The draft that a compilation starts from.
pub open spec fn first_draft(documents: Seq<ResourceDocument>) -> Draft {
    Draft {
        upstream_documents: upstream_documents(documents),
        relay_documents: relay_documents(documents),
        upstreams: Map::empty(),
        relays: Map::empty(),
        relay_keys: Seq::empty(),
        secrets: Map::empty(),
    }
}

/// How far the compilation of `documents` gets with `replies` to its requests.
pub open spec fn compilation(documents: Seq<ResourceDocument>, replies: Seq<Reply>) -> Progress {
    match first_duplicate(documents) {
        Some(document) => Progress::Done(
            Err(
                seq!["duplicate "@ + document_kind(document) + "/"@ + document_name(document)],
            ),
        ),
        None => progress(first_draft(documents), replies),
    }
}

// ---------------------------------------------------------------------------------------------
// Running a compilation
// ---------------------------------------------------------------------------------------------

/// The secrets known by source; a later entry stands for its source.
spec fn secret_map(entries: Seq<(SecretSource, SecretString)>) -> Map<SecretSourceView, Seq<char>>
    decreases entries.len(),
{
    if entries.len() == 0 {
        Map::empty()
    } else {
        secret_map(entries.drop_last()).insert(entries.last().0@, entries.last().1@)
    }
}

struct Work {
    upstream_documents: Vec<UpstreamResource>,
    relay_documents: Vec<RelayResource>,
    snapshot: ProviderSnapshot,
    secrets: Vec<(SecretSource, SecretString)>,
}

impl Work {
    spec fn draft(self) -> Draft {
        Draft {
            upstream_documents: self.upstream_documents@,
            relay_documents: self.relay_documents@,
            upstreams: self.snapshot.upstreams@,
            relays: self.snapshot.relays@,
            relay_keys: self.snapshot.relays.keys(),
            secrets: secret_map(self.secrets@),
        }
    }

    spec fn well_formed(self) -> bool {
        self.snapshot.instances@ == Map::<Seq<char>, crate::instance::InstanceView>::empty()
    }

    spec fn remaining(self) -> nat {
        self.upstream_documents@.len() + self.relay_documents@.len()
    }

    /// The request of the document at hand, if it has one.
    spec fn pending(self) -> Option<RequestView> {
        if self.upstream_documents@.len() > 0 {
            Some(request_of(self.upstream_documents@[0].spec.oauth_client.client_secret))
        } else if self.relay_documents@.len() > 0 {
            match relay_secret(self.relay_documents@[0]) {
                Some(value) => Some(request_of(value)),
                None => None,
            }
        } else {
            None
        }
    }

    /// The names in the document at hand are in order.
    spec fn named(self) -> bool {
        if self.upstream_documents@.len() > 0 {
            name_problem("Upstream"@, self.upstream_documents@[0].metadata.name@) is None
        } else {
            self.relay_documents@.len() > 0 ==> relay_name_problem(self.relay_documents@[0]) is None
        }
    }

    fn known_secret(&self, source: &SecretSource) -> (secret: Option<SecretString>)
        ensures
            match secret {
                Some(secret) => secret_map(self.secrets@).contains_key(source@) && secret_map(
                    self.secrets@,
                )[source@] == secret@,
                None => !secret_map(self.secrets@).contains_key(source@),
            },
    {
        let ghost entries = self.secrets@;
        let ghost all = secret_map(entries);
        let mut i: usize = self.secrets.len();
        assert(entries.take(i as int) =~= entries);
        while i > 0
            invariant
                entries == self.secrets@,
                all == secret_map(entries),
                i <= entries.len(),
                all.contains_key(source@) <==> secret_map(entries.take(i as int)).contains_key(
                    source@,
                ),
                all.contains_key(source@) ==> all[source@] == secret_map(
                    entries.take(i as int),
                )[source@],
            decreases i,
        {
            i = i - 1;
            assert(entries.take(i + 1).drop_last() =~= entries.take(i as int));
            assert(entries.take(i + 1).last() == entries[i as int]);
            if self.secrets[i].0.same_as(source) {
                return Some(self.secrets[i].1.clone());
            }
        }
        assert(entries.take(0) =~= Seq::empty());
        None
    }

    /// Processes the upstream document at hand, whose secret has been found.
    fn take_upstream(self, key: ResourceKey, secret: SecretString) -> (rest: Result<
        Work,
        ConfigError,
    >)
        requires
            self.well_formed(),
            self.upstream_documents@.len() > 0,
            key@ == self.upstream_documents@[0].metadata.name@,
        ensures
            match rest {
                Ok(rest) => {
                    &&& rest.well_formed()
                    &&& rest.remaining() == self.remaining() - 1
                    &&& upstream_of(self.upstream_documents@[0], secret@) matches Ok(upstream)
                    &&& rest.draft() == with_upstream(self.draft(), upstream, self.draft().secrets)
                },
                Err(error) => upstream_of(self.upstream_documents@[0], secret@) == Err::<
                    UpstreamView,
                    Seq<Seq<char>>,
                >(error@),
            },
    {
        let mut rest: Work = self;
        let resource: UpstreamResource = rest.upstream_documents.remove(0);
        assert(rest.upstream_documents@ =~= self.upstream_documents@.drop_first());
        let upstream: Upstream = build_upstream(key.clone(), resource, secret)?;
        rest.snapshot.upstreams.insert(key, Arc::new(upstream));
        Ok(rest)
    }

    /// Processes the relay document at hand, whose secret, if it has one, has been found.
    fn take_relay(
        self,
        key: ResourceKey,
        upstream: ResourceKey,
        secret: Option<SecretString>,
    ) -> (rest: Result<Work, ConfigError>)
        requires
            self.well_formed(),
            self.relay_documents@.len() > 0,
            key@ == self.relay_documents@[0].metadata.name@,
            upstream@ == self.relay_documents@[0].spec.upstream_ref.name@,
            relay_secret(self.relay_documents@[0]) is Some ==> secret is Some,
        ensures
            match rest {
                Ok(rest) => {
                    &&& rest.well_formed()
                    &&& rest.remaining() == self.remaining() - 1
                    &&& relay_of(self.relay_documents@[0], secret_text(secret)) matches Ok(relay)
                    &&& rest.draft() == with_relay(self.draft(), relay, self.draft().secrets)
                },
                Err(error) => relay_of(self.relay_documents@[0], secret_text(secret)) == Err::<
                    RelayView,
                    Seq<Seq<char>>,
                >(error@),
            },
    {
        let mut rest: Work = self;
        let resource: RelayResource = rest.relay_documents.remove(0);
        assert(rest.relay_documents@ =~= self.relay_documents@.drop_first());
        let relay: Relay = build_relay(key.clone(), upstream, resource, secret)?;
        rest.snapshot.relays.insert(key, Arc::new(relay));
        Ok(rest)
    }
}

/// A compilation that waits for a secret.
pub struct Compilation {
    work: Work,
}

/// What a compilation has come to.
pub enum CompileStep {
    /// It needs a secret to go on.
    Ask { request: SecretRequest, rest: Compilation },
    /// It has ended.
    Done(Result<ProviderSnapshot, ConfigError>),
}

impl Compilation {
    /// The state that the compilation waits in.
    pub closed spec fn draft(self) -> Draft {
        self.work.draft()
    }

    /// It waits for a reply that it cannot go on without.
    #[verifier::type_invariant]
    closed spec fn waiting(self) -> bool {
        &&& self.work.well_formed()
        &&& self.work.named()
        &&& self.work.pending() is Some
        &&& !known(self.work.draft().secrets, self.work.pending()->0)
    }
}

/// The number of documents that a draft has still to process.
pub open spec fn remaining(draft: Draft) -> nat {
    draft.upstream_documents.len() + draft.relay_documents.len()
}

impl CompileStep {
    /// How far the compilation gets from here with `replies`.
    pub open spec fn outcome(self, replies: Seq<Reply>) -> Progress {
        match self {
            CompileStep::Ask { request, rest } => progress(rest.draft(), replies),
            CompileStep::Done(result) => Progress::Done(compiled(result)),
        }
    }

    /// Where a secret is asked for, it is the one that the compilation cannot go on without.
    pub open spec fn well_formed(self) -> bool {
        match self {
            CompileStep::Ask { request, rest } => progress(rest.draft(), Seq::empty())
                == Progress::Ask(request@),
            CompileStep::Done(_) => true,
        }
    }
}

/// What is at hand of a secret.
enum Lookup {
    Known(SecretString),
    Unknown(SecretRequest),
}

impl Work {
    fn look_up(&self, value: &SecretValue) -> (found: Lookup)
        ensures
            match found {
                Lookup::Known(secret) => {
                    &&& known(self.draft().secrets, request_of(*value))
                    &&& self.draft().secrets[request_of(*value)->Source_0] == secret@
                },
                Lookup::Unknown(request) => {
                    &&& !known(self.draft().secrets, request_of(*value))
                    &&& request@ == request_of(*value)
                },
            },
    {
        match value {
            SecretValue::Value(secret) => Lookup::Unknown(
                SecretRequest::Value(secret.value.clone()),
            ),
            SecretValue::ValueFrom(secret) => match self.known_secret(&secret.value_from) {
                Some(secret) => Lookup::Known(secret),
                None => Lookup::Unknown(SecretRequest::Source(secret.value_from.clone())),
            },
        }
    }

    /// Processes documents until one needs a secret that is not known, or to the end.
    fn run(self) -> (step: CompileStep)
        requires
            self.well_formed(),
        ensures
            step.well_formed(),
            forall|replies: Seq<Reply>| #[trigger]
                step.outcome(replies) == progress(self.draft(), replies),
            step matches CompileStep::Ask { request, rest } ==> remaining(rest.draft())
                <= self.remaining(),
    {
        let mut work: Work = self;
        while work.upstream_documents.len() > 0
            invariant
                work.well_formed(),
                work.remaining() <= self.remaining(),
                forall|replies: Seq<Reply>| #[trigger]
                    progress(work.draft(), replies) == progress(self.draft(), replies),
            decreases work.upstream_documents@.len(),
        {
            let ghost before = work.draft();
            let key: ResourceKey = match resource_key(
                "Upstream",
                work.upstream_documents[0].metadata.name.as_str(),
            ) {
                Ok(key) => key,
                Err(error) => {
                    let step = CompileStep::Done(Err(error));
                    assert forall|replies: Seq<Reply>| #[trigger] step.outcome(replies) == progress(
                        self.draft(),
                        replies,
                    ) by {
                        assert(progress(before, replies) == progress(self.draft(), replies));
                    }
                    return step;
                },
            };
            match work.look_up(&work.upstream_documents[0].spec.oauth_client.client_secret) {
                Lookup::Unknown(request) => {
                    let rest = Compilation { work };
                    return CompileStep::Ask { request, rest };
                },
                Lookup::Known(secret) => match work.take_upstream(key, secret) {
                    Ok(rest) => {
                        assert forall|replies: Seq<Reply>| #[trigger]
                            progress(rest.draft(), replies) == progress(self.draft(), replies) by {
                            assert(progress(before, replies) == progress(self.draft(), replies));
                        }
                        work = rest;
                    },
                    Err(error) => {
                        let step = CompileStep::Done(Err(error));
                        assert forall|replies: Seq<Reply>| #[trigger]
                            step.outcome(replies) == progress(self.draft(), replies) by {
                            assert(progress(before, replies) == progress(self.draft(), replies));
                        }
                        return step;
                    },
                },
            }
        }
        work.run_relays()
    }

    /// Processes relay documents until one needs a secret that is not known, or to the end.
    fn run_relays(self) -> (step: CompileStep)
        requires
            self.well_formed(),
            self.upstream_documents@.len() == 0,
        ensures
            step.well_formed(),
            forall|replies: Seq<Reply>| #[trigger]
                step.outcome(replies) == progress(self.draft(), replies),
            step matches CompileStep::Ask { request, rest } ==> remaining(rest.draft())
                <= self.remaining(),
    {
        let mut work: Work = self;
        while work.relay_documents.len() > 0
            invariant
                work.well_formed(),
                work.upstream_documents@.len() == 0,
                work.remaining() <= self.remaining(),
                forall|replies: Seq<Reply>| #[trigger]
                    progress(work.draft(), replies) == progress(self.draft(), replies),
            decreases work.relay_documents@.len(),
        {
            let ghost before = work.draft();
            let (key, upstream): (ResourceKey, ResourceKey) = match relay_keys(
                &work.relay_documents[0],
            ) {
                Ok(keys) => keys,
                Err(error) => {
                    let step = CompileStep::Done(Err(error));
                    assert forall|replies: Seq<Reply>| #[trigger] step.outcome(replies) == progress(
                        self.draft(),
                        replies,
                    ) by {
                        assert(progress(before, replies) == progress(self.draft(), replies));
                    }
                    return step;
                },
            };
            let secret: Option<SecretString> = match &work.relay_documents[0].spec.client_authentication {
                ClientAuthentication::ClientSecret { client_id, client_secret } => match work.look_up(
                    client_secret,
                ) {
                    Lookup::Known(secret) => Some(secret),
                    Lookup::Unknown(request) => {
                        let rest = Compilation { work };
                        return CompileStep::Ask { request, rest };
                    },
                },
                _ => None,
            };
            match work.take_relay(key, upstream, secret) {
                Ok(rest) => {
                    assert forall|replies: Seq<Reply>| #[trigger]
                        progress(rest.draft(), replies) == progress(self.draft(), replies) by {
                        assert(progress(before, replies) == progress(self.draft(), replies));
                    }
                    work = rest;
                },
                Err(error) => {
                    let step = CompileStep::Done(Err(error));
                    assert forall|replies: Seq<Reply>| #[trigger] step.outcome(replies) == progress(
                        self.draft(),
                        replies,
                    ) by {
                        assert(progress(before, replies) == progress(self.draft(), replies));
                    }
                    return step;
                },
            }
        }
        let ghost last = work.draft();
        let step = match work.snapshot.validate() {
            Ok(()) => CompileStep::Done(Ok(work.snapshot)),
            Err(problem) => CompileStep::Done(Err(ConfigError::msg(problem))),
        };
        assert forall|replies: Seq<Reply>| #[trigger] step.outcome(replies) == progress(
            self.draft(),
            replies,
        ) by {
            assert(progress(last, replies) == progress(self.draft(), replies));
        }
        step
    }
}

/// The keys in a relay document: its own and that of its upstream.
fn relay_keys(resource: &RelayResource) -> (keys: Result<(ResourceKey, ResourceKey), ConfigError>)
    ensures
        match keys {
            Ok((key, upstream)) => {
                &&& relay_name_problem(*resource) is None
                &&& key@ == resource.metadata.name@
                &&& upstream@ == resource.spec.upstream_ref.name@
            },
            Err(error) => relay_name_problem(*resource) == Some(error@),
        },
{
    let key: ResourceKey = resource_key("Relay", resource.metadata.name.as_str())?;
    let upstream: ResourceKey = resource_key(
        "Upstream",
        resource.spec.upstream_ref.name.as_str(),
    )?;
    Ok((key, upstream))
}

impl Work {
    /// Keeps a secret, so that its source is not asked for again.
    fn keep(&mut self, source: SecretSource, secret: SecretString)
        requires
            old(self).well_formed(),
        ensures
            final(self).well_formed(),
            final(self).upstream_documents == old(self).upstream_documents,
            final(self).relay_documents == old(self).relay_documents,
            final(self).draft() == (Draft {
                secrets: old(self).draft().secrets.insert(source@, secret@),
                ..old(self).draft()
            }),
    {
        let ghost before = self.secrets@;
        self.secrets.push((source, secret));
        assert(self.secrets@.drop_last() =~= before);
    }
}

impl Compilation {
    /// Goes on with the answer to the request, to the next request or to the end.
    pub fn supply(self, answer: Result<SecretString, ConfigError>) -> (step: CompileStep)
        ensures
            step.well_formed(),
            forall|replies: Seq<Reply>| #[trigger]
                step.outcome(replies) == progress(
                    self.draft(),
                    seq![reply_of(answer)] + replies,
                ),
            step matches CompileStep::Ask { request, rest } ==> remaining(rest.draft()) < remaining(
                self.draft(),
            ),
    {
        proof {
            use_type_invariant(&self);
        }
        let ghost draft = self.draft();
        let ghost reply = reply_of(answer);
        proof {
            assert forall|replies: Seq<Reply>| #[trigger]
                (seq![reply] + replies).drop_first() == replies by {
                assert((seq![reply] + replies).drop_first() =~= replies);
            }
        }
        let mut work: Work = self.work;
        let next: Result<Work, ConfigError> = if work.upstream_documents.len() > 0 {
            work.supply_upstream(answer)
        } else {
            work.supply_relay(answer)
        };
        match next {
            Ok(rest) => {
                let step = rest.run();
                assert forall|replies: Seq<Reply>| #[trigger] step.outcome(replies) == progress(
                    draft,
                    seq![reply] + replies,
                ) by {
                    assert((seq![reply] + replies).drop_first() == replies);
                }
                step
            },
            Err(error) => {
                let step = CompileStep::Done(Err(error));
                assert forall|replies: Seq<Reply>| #[trigger] step.outcome(replies) == progress(
                    draft,
                    seq![reply] + replies,
                ) by {
                    assert((seq![reply] + replies).drop_first() == replies);
                }
                step
            },
        }
    }
}

impl Work {
    fn supply_upstream(self, answer: Result<SecretString, ConfigError>) -> (next: Result<
        Work,
        ConfigError,
    >)
        requires
            self.well_formed(),
            self.named(),
            self.upstream_documents@.len() > 0,
            !known(self.draft().secrets, self.pending()->0),
        ensures
            ({
                let resource = self.upstream_documents@[0];
                match reply_of(answer) {
                    Err(cause) => next matches Err(error) && error@ == seq![
                        upstream_secret_context(resource.metadata.name@),
                    ] + cause,
                    Ok(secret) => match upstream_of(resource, secret) {
                        Err(cause) => next matches Err(error) && error@ == cause,
                        Ok(upstream) => {
                            &&& next matches Ok(rest)
                            &&& rest.well_formed()
                            &&& rest.remaining() == self.remaining() - 1
                            &&& rest.draft() == with_upstream(
                                self.draft(),
                                upstream,
                                remember(self.draft().secrets, self.pending()->0, secret),
                            )
                        },
                    },
                }
            }),
    {
        let mut work: Work = self;
        let key: ResourceKey = match resource_key(
            "Upstream",
            work.upstream_documents[0].metadata.name.as_str(),
        ) {
            Ok(key) => key,
            Err(error) => {
                return Err(error);
            },
        };
        match answer {
            Err(error) => Err(
                error.context(join3("Upstream/", key.as_str(), " spec.oauthClient.clientSecret")),
            ),
            Ok(secret) => {
                match &work.upstream_documents[0].spec.oauth_client.client_secret {
                    SecretValue::Value(_) => {},
                    SecretValue::ValueFrom(reference) => {
                        let source: SecretSource = reference.value_from.clone();
                        work.keep(source, secret.clone());
                    },
                }
                work.take_upstream(key, secret)
            },
        }
    }

    fn supply_relay(self, answer: Result<SecretString, ConfigError>) -> (next: Result<
        Work,
        ConfigError,
    >)
        requires
            self.well_formed(),
            self.named(),
            self.upstream_documents@.len() == 0,
            self.pending() is Some,
            !known(self.draft().secrets, self.pending()->0),
        ensures
            ({
                let resource = self.relay_documents@[0];
                match reply_of(answer) {
                    Err(cause) => next matches Err(error) && error@ == seq![
                        relay_secret_context(resource.metadata.name@),
                    ] + cause,
                    Ok(secret) => match relay_of(resource, Some(secret)) {
                        Err(cause) => next matches Err(error) && error@ == cause,
                        Ok(relay) => {
                            &&& next matches Ok(rest)
                            &&& rest.well_formed()
                            &&& rest.remaining() == self.remaining() - 1
                            &&& rest.draft() == with_relay(
                                self.draft(),
                                relay,
                                remember(self.draft().secrets, self.pending()->0, secret),
                            )
                        },
                    },
                }
            }),
    {
        let mut work: Work = self;
        let (key, upstream): (ResourceKey, ResourceKey) = match relay_keys(
            &work.relay_documents[0],
        ) {
            Ok(keys) => keys,
            Err(error) => {
                return Err(error);
            },
        };
        match answer {
            Err(error) => Err(
                error.context(
                    join3("Relay/", key.as_str(), " spec.clientAuthentication.clientSecret"),
                ),
            ),
            Ok(secret) => {
                match &work.relay_documents[0].spec.client_authentication {
                    ClientAuthentication::ClientSecret {
                        client_id,
                        client_secret: SecretValue::ValueFrom(reference),
                    } => {
                        let source: SecretSource = reference.value_from.clone();
                        work.keep(source, secret.clone());
                    },
                    _ => {},
                }
                work.take_relay(key, upstream, Some(secret))
            },
        }
    }
}

fn names_upstream(resources: &Vec<UpstreamResource>, name: &str) -> (found: bool)
    ensures
        found == exists|i: int|
            0 <= i < resources@.len() && (#[trigger] resources@[i]).metadata.name@ == name@,
{
    for i in 0..resources.len()
        invariant
            forall|j: int| 0 <= j < i ==> (#[trigger] resources@[j]).metadata.name@ != name@,
    {
        if same_text(resources[i].metadata.name.as_str(), name) {
            return true;
        }
    }
    false
}

fn names_relay(resources: &Vec<RelayResource>, name: &str) -> (found: bool)
    ensures
        found == exists|i: int|
            0 <= i < resources@.len() && (#[trigger] resources@[i]).metadata.name@ == name@,
{
    for i in 0..resources.len()
        invariant
            forall|j: int| 0 <= j < i ==> (#[trigger] resources@[j]).metadata.name@ != name@,
    {
        if same_text(resources[i].metadata.name.as_str(), name) {
            return true;
        }
    }
    false
}

/// A kind and name occurs among documents exactly when the name occurs among those of the kind.
proof fn lemma_names_by_kind(documents: Seq<ResourceDocument>, document: ResourceDocument)
    ensures
        (exists|i: int|
            0 <= i < documents.len() && same_identity(#[trigger] documents[i], document)) <==> (
        match document {
            ResourceDocument::Upstream(_) => exists|i: int|
                0 <= i < upstream_documents(documents).len() && (#[trigger] upstream_documents(
                    documents,
                )[i]).metadata.name@ == document_name(document),
            ResourceDocument::Relay(_) => exists|i: int|
                0 <= i < relay_documents(documents).len() && (#[trigger] relay_documents(
                    documents,
                )[i]).metadata.name@ == document_name(document),
        }),
    decreases documents.len(),
{
    if documents.len() > 0 {
        let earlier = documents.drop_last();
        lemma_names_by_kind(earlier, document);
        let upstreams = upstream_documents(documents);
        let relays = relay_documents(documents);
        if exists|i: int| 0 <= i < documents.len() && same_identity(#[trigger] documents[i], document) {
            let i = choose|i: int|
                0 <= i < documents.len() && same_identity(#[trigger] documents[i], document);
            if i < earlier.len() {
                assert(same_identity(earlier[i], document));
                match document {
                    ResourceDocument::Upstream(_) => {
                        let j = choose|j: int|
                            0 <= j < upstream_documents(earlier).len() && (
                            #[trigger] upstream_documents(earlier)[j]).metadata.name@
                                == document_name(document);
                        assert(upstreams[j] == upstream_documents(earlier)[j]);
                    },
                    ResourceDocument::Relay(_) => {
                        let j = choose|j: int|
                            0 <= j < relay_documents(earlier).len() && (#[trigger] relay_documents(
                                earlier,
                            )[j]).metadata.name@ == document_name(document);
                        assert(relays[j] == relay_documents(earlier)[j]);
                    },
                }
            } else {
                match document {
                    ResourceDocument::Upstream(_) => {
                        assert(upstreams[upstreams.len() - 1].metadata.name@ == document_name(
                            document,
                        ));
                    },
                    ResourceDocument::Relay(_) => {
                        assert(relays[relays.len() - 1].metadata.name@ == document_name(document));
                    },
                }
            }
        }
        match document {
            ResourceDocument::Upstream(_) => {
                if exists|j: int|
                    0 <= j < upstreams.len() && (#[trigger] upstreams[j]).metadata.name@
                        == document_name(document) {
                    let j = choose|j: int|
                        0 <= j < upstreams.len() && (#[trigger] upstreams[j]).metadata.name@
                            == document_name(document);
                    if j < upstream_documents(earlier).len() {
                        assert(upstream_documents(earlier)[j] == upstreams[j]);
                        let i = choose|i: int|
                            0 <= i < earlier.len() && same_identity(#[trigger] earlier[i], document);
                        assert(same_identity(documents[i], document));
                    } else {
                        assert(same_identity(documents[documents.len() - 1], document));
                    }
                }
            },
            ResourceDocument::Relay(_) => {
                if exists|j: int|
                    0 <= j < relays.len() && (#[trigger] relays[j]).metadata.name@ == document_name(
                        document,
                    ) {
                    let j = choose|j: int|
                        0 <= j < relays.len() && (#[trigger] relays[j]).metadata.name@
                            == document_name(document);
                    if j < relay_documents(earlier).len() {
                        assert(relay_documents(earlier)[j] == relays[j]);
                        let i = choose|i: int|
                            0 <= i < earlier.len() && same_identity(#[trigger] earlier[i], document);
                        assert(same_identity(documents[i], document));
                    } else {
                        assert(same_identity(documents[documents.len() - 1], document));
                    }
                }
            },
        }
    }
}

/// Starts compiling `documents`: goes on to the first request, or to the end.
pub fn start_compilation(documents: Vec<ResourceDocument>) -> (step: CompileStep)
    ensures
        step.well_formed(),
        forall|replies: Seq<Reply>| #[trigger]
            step.outcome(replies) == compilation(documents@, replies),
        step matches CompileStep::Ask { request, rest } ==> remaining(rest.draft())
            <= documents@.len(),
{
    let mut upstreams: Vec<UpstreamResource> = Vec::new();
    let mut relays: Vec<RelayResource> = Vec::new();
    let ghost all = documents@;
    assert(all.take(0) =~= Seq::<ResourceDocument>::empty());
    for document in it: documents
        invariant
            it.seq() == all,
            first_duplicate(all.take(it.index() as int)) is None,
            upstreams@ == upstream_documents(all.take(it.index() as int)),
            relays@ == relay_documents(all.take(it.index() as int)),
            upstreams@.len() + relays@.len() == it.index(),
    {
        let ghost n = it.index() as int;
        proof {
            assert(all.take(n + 1).drop_last() =~= all.take(n));
            assert(all.take(n + 1).last() == document);
            lemma_names_by_kind(all.take(n), document);
        }
        let duplicate: bool = match &document {
            ResourceDocument::Upstream(_) => names_upstream(&upstreams, document.name()),
            ResourceDocument::Relay(_) => names_relay(&relays, document.name()),
        };
        if duplicate {
            proof {
                lemma_duplicate_prefix(all, n + 1);
            }
            let error = ConfigError::msg(
                join4("duplicate ", document.kind(), "/", document.name()),
            );
            return CompileStep::Done(Err(error));
        }
        match document {
            ResourceDocument::Upstream(resource) => {
                upstreams.push(resource);
            },
            ResourceDocument::Relay(resource) => {
                relays.push(resource);
            },
        }
    }
    assert(all.take(all.len() as int) =~= all);
    let work = Work {
        upstream_documents: upstreams,
        relay_documents: relays,
        snapshot: ProviderSnapshot::new(),
        secrets: Vec::new(),
    };
    assert(work.draft() == first_draft(all));
    work.run()
}

/// A duplicate in a prefix is the first of all.
proof fn lemma_duplicate_prefix(documents: Seq<ResourceDocument>, n: int)
    requires
        0 <= n <= documents.len(),
        first_duplicate(documents.take(n)) is Some,
    ensures
        first_duplicate(documents) == first_duplicate(documents.take(n)),
    decreases documents.len() - n,
{
    if n == documents.len() {
        assert(documents.take(n) =~= documents);
    } else {
        assert(documents.take(n + 1).drop_last() =~= documents.take(n));
        lemma_duplicate_prefix(documents, n + 1);
    }
}

/// Whether `reply` is what the resolver may answer to `request`.
pub open spec fn answers<R: SecretResolver>(secrets: &R, request: RequestView, reply: Reply) -> bool {
    match request {
        RequestView::Value(value) => exists|text: &str, answer: Result<SecretString, ConfigError>|
            text@ == value && #[trigger] call_ensures(R::resolve_value, (secrets, text), answer)
                && reply_of(answer) == reply,
        RequestView::Source(source) => exists|
            place: &SecretSource,
            answer: Result<SecretString, ConfigError>,
        |
            place@ == source && #[trigger] call_ensures(R::resolve_source, (secrets, place), answer)
                && reply_of(answer) == reply,
    }
}

/// Whether reply `i` is the resolver's answer to the request that the compilation makes after the
/// replies before it.
pub open spec fn answered_at<R: SecretResolver>(
    documents: Seq<ResourceDocument>,
    secrets: &R,
    replies: Seq<Reply>,
    i: int,
) -> bool {
    match compilation(documents, replies.take(i)) {
        Progress::Ask(request) => answers(secrets, request, replies[i]),
        Progress::Done(_) => false,
    }
}

/// Whether every one of `replies` is the resolver's answer to the request made at its point.
pub open spec fn answered<R: SecretResolver>(
    documents: Seq<ResourceDocument>,
    secrets: &R,
    replies: Seq<Reply>,
) -> bool {
    forall|i: int|
        0 <= i < replies.len() ==> #[trigger] answered_at(documents, secrets, replies, i)
}

/// Compiles `documents` with the secrets of `secrets`. Whatever the resolver answers, the result is
/// what its answers to the requests of [`compilation`] lead to, and a snapshot has for every document
/// the resource that it states. How often the resolver is called for one answer is not stated.
pub fn compile_resources<R: SecretResolver>(
    documents: Vec<ResourceDocument>,
    secrets: &R,
) -> (result: Result<ProviderSnapshot, ConfigError>)
    ensures
        exists|replies: Seq<Reply>| #[trigger]
            answered(documents@, secrets, replies) && compilation(documents@, replies)
                == Progress::Done(compiled(result)),
        result matches Ok(snapshot) ==> forall|i: int|
            0 <= i < documents@.len() ==> document_stands(snapshot@, #[trigger] documents@[i]),
{
    let ghost all = documents@;
    let mut step: CompileStep = start_compilation(documents);
    let ghost mut replies: Seq<Reply> = Seq::empty();
    assert forall|more: Seq<Reply>| #[trigger] step.outcome(more) == compilation(
        all,
        replies + more,
    ) by {
        assert(replies + more =~= more);
    }
    loop
        invariant
            all == documents@,
            step.well_formed(),
            answered(all, secrets, replies),
            forall|more: Seq<Reply>| #[trigger]
                step.outcome(more) == compilation(all, replies + more),
        decreases
                match step {
                    CompileStep::Ask { request, rest } => remaining(rest.draft()) + 1,
                    CompileStep::Done(_) => 0,
                },
    {
        match step {
            CompileStep::Done(result) => {
                proof {
                    assert(step.outcome(Seq::empty()) == compilation(
                        all,
                        replies + Seq::<Reply>::empty(),
                    ));
                    assert(replies + Seq::<Reply>::empty() =~= replies);
                    if result is Ok {
                        compiled_snapshots_state_their_documents(all, replies, result->Ok_0@);
                    }
                }
                return result;
            },
            CompileStep::Ask { request, rest } => {
                let ghost draft = rest.draft();
                proof {
                    assert(step.outcome(Seq::empty()) == compilation(
                        all,
                        replies + Seq::<Reply>::empty(),
                    ));
                    assert(replies + Seq::<Reply>::empty() =~= replies);
                    assert(compilation(all, replies) == Progress::Ask(request@));
                }
                let answer: Result<SecretString, ConfigError> = match &request {
                    SecretRequest::Value(value) => secrets.resolve_value(value.as_str()),
                    SecretRequest::Source(source) => secrets.resolve_source(source),
                };
                let ghost reply = reply_of(answer);
                let ghost before = step;
                assert(answers(secrets, request@, reply));
                let next: CompileStep = rest.supply(answer);
                proof {
                    let extended = replies.push(reply);
                    assert forall|i: int| 0 <= i < extended.len() implies #[trigger] answered_at(
                        all,
                        secrets,
                        extended,
                        i,
                    ) by {
                        if i < replies.len() {
                            assert(answered_at(all, secrets, replies, i));
                            assert(extended.take(i) =~= replies.take(i));
                        } else {
                            assert(extended.take(i) =~= replies);
                        }
                    }
                    assert forall|more: Seq<Reply>| #[trigger] next.outcome(more) == compilation(
                        all,
                        extended + more,
                    ) by {
                        assert(before.outcome(seq![reply] + more) == compilation(
                            all,
                            replies + (seq![reply] + more),
                        ));
                        assert(replies + (seq![reply] + more) =~= extended + more);
                    }
                    replies = extended;
                }
                step = next;
            },
        }
    }
}

} // verus!
