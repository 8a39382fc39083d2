//! What resource documents mean, field by field, and what compiled snapshots hold of them.

use crate::address::{parsed_url, UrlParts};
use crate::compile::{
    answered, answered_at, answers, compilation, compiled, first_duplicate, optional_url_field,
    origin_list, progress, relay_of, relay_secret, reply_of, request_of, same_identity,
    upstream_of, url_field, Compilation, CompileStep, Progress, Reply, RequestView, SecretRequest,
};
use crate::compile_laws::{compiled_snapshots_are_complete_and_valid, has_upstream};
use crate::config::{
    document_name, names_are_one_segment, ClientAuthentication, InlineSecret, ReferencedSecret,
    RelayResource, ResourceDocument, SecretResolver, SecretSource, SecretValue, UpstreamResource,
};
use crate::content_laws::{
    documents_are_carried_out, documents_get_their_own_answers, fine_by, has_resource_by,
    has_resource_of, lemma_fine_documents, relay_by, relay_refusal, replies_by, secret_of_relay,
    upstream_by, upstream_refusal,
};
use crate::error::ConfigError;
use crate::json::JsonValue;
use crate::key::{one_segment, SecretString};
use crate::meaning_laws::{
    key_sets_by_their_documents, origin_lists_by_their_texts, states_jwks, states_origins,
    states_url,
};
use crate::model::{relay_problem, upstream_problem, ClientAuthView, RelayView, UpstreamView};
use crate::policy_laws::{
    client_auth_in_order, default_in_order, endpoint_in_order, relays_are_judged_by_their_fields,
    scopes_in_order, upstreams_are_judged_by_their_fields,
};
use crate::registry::{ProviderSnapshot, SnapshotView};
use crate::text::{optional_text, texts};
use vstd::prelude::*;

verus! {

// ---------------------------------------------------------------------------------------------
// One document
// ---------------------------------------------------------------------------------------------

/// Whether every field of an upstream but its secret is what a document states.
pub open spec fn states_upstream(resource: UpstreamResource, upstream: UpstreamView) -> bool {
    &&& upstream.key == resource.metadata.name@
    &&& parsed_url(resource.spec.issuer_url@) == Ok::<UrlParts, Seq<char>>(upstream.issuer_url)
    &&& states_url(resource.spec.endpoints.authorization, upstream.authorization_endpoint)
    &&& states_url(resource.spec.endpoints.token, upstream.token_endpoint)
    &&& states_url(resource.spec.endpoints.jwks, upstream.jwks_uri)
    &&& upstream.client_id == resource.spec.oauth_client.client_id@
}

/// Whether the fields of an upstream are in order.
pub open spec fn upstream_in_order(upstream: UpstreamView) -> bool {
    &&& endpoint_in_order(Some(upstream.issuer_url))
    &&& endpoint_in_order(upstream.authorization_endpoint)
    &&& endpoint_in_order(upstream.token_endpoint)
    &&& endpoint_in_order(upstream.jwks_uri)
    &&& upstream.client_id.len() > 0
    &&& upstream.client_secret.len() > 0
}

/// Whether client authentication is, but for its secret, what a document states.
pub open spec fn states_auth(stated: ClientAuthentication, auth: ClientAuthView) -> bool {
    match stated {
        ClientAuthentication::UpstreamClient => auth == ClientAuthView::UpstreamClient,
        ClientAuthentication::Public => auth == ClientAuthView::Public,
        ClientAuthentication::ClientSecret { client_id, client_secret } => auth
            matches ClientAuthView::ClientSecret { client_id: id, client_secret: secret } && id
            == client_id@,
        ClientAuthentication::PrivateKeyJwt { client_id, jwks } => auth
            matches ClientAuthView::PrivateKeyJwt { client_id: id, jwks: keys } && id == client_id@
            && states_jwks(jwks, keys),
    }
}

/// Whether every field of a relay but its secret is what a document states.
pub open spec fn states_relay(resource: RelayResource, relay: RelayView) -> bool {
    &&& relay.key == resource.metadata.name@
    &&& relay.upstream == resource.spec.upstream_ref.name@
    &&& states_auth(resource.spec.client_authentication, relay.client_auth)
    &&& relay.scopes == resource.spec.scopes.default@.map_values(|scope: String| scope@)
    &&& match resource.spec.scopes.allowed {
        Some(allowed) => relay.allowed_scopes == Some(allowed@.map_values(|scope: String| scope@)),
        None => relay.allowed_scopes is None,
    }
    &&& states_origins(
        resource.spec.redirect_policy.allowed_origins@,
        relay.allowed_redirect_origins,
    )
    &&& states_url(resource.spec.redirect_policy.default_redirect_uri, relay.default_redirect_uri)
}

/// Whether the fields of a relay are in order.
pub open spec fn relay_in_order(relay: RelayView) -> bool {
    &&& scopes_in_order(relay.scopes, relay.allowed_scopes)
    &&& default_in_order(relay.allowed_redirect_origins, relay.default_redirect_uri)
    &&& client_auth_in_order(relay.client_auth)
}

/// A document has an upstream exactly when its fields, taken at their word, are in order. The
/// upstream is then what the document states, with the secret that was found for it.
pub proof fn upstreams_are_what_documents_state(
    resource: UpstreamResource,
    secret: Seq<char>,
    upstream: UpstreamView,
)
    ensures
        upstream_of(resource, secret) == Ok::<UpstreamView, Seq<Seq<char>>>(upstream)
            <==> states_upstream(resource, upstream) && upstream.client_secret == secret
            && upstream_in_order(upstream),
{
    upstreams_are_judged_by_their_fields(upstream);
}

/// Whether `secret` is the secret of a relay, which has one only if it authenticates with one.
pub open spec fn relay_has_secret(relay: RelayView, secret: Option<Seq<char>>) -> bool {
    relay.client_auth matches ClientAuthView::ClientSecret { client_id, client_secret } ==> secret
        == Some(client_secret)
}

/// A document has a relay exactly when its fields, taken at their word, are in order. The relay is
/// then what the document states, with the secret, if it needs one, that was found for it.
pub proof fn relays_are_what_documents_state(
    resource: RelayResource,
    secret: Option<Seq<char>>,
    relay: RelayView,
)
    requires
        resource.spec.client_authentication is ClientSecret ==> secret is Some,
    ensures
        relay_of(resource, secret) == Ok::<RelayView, Seq<Seq<char>>>(relay) <==> states_relay(
            resource,
            relay,
        ) && relay_has_secret(relay, secret) && relay_in_order(relay),
{
    relays_are_judged_by_their_fields(relay);
    origin_lists_by_their_texts(
        resource.spec.redirect_policy.allowed_origins@,
        relay.allowed_redirect_origins,
        0,
    );
    if let ClientAuthentication::PrivateKeyJwt { client_id, jwks } =
        resource.spec.client_authentication {
        if let ClientAuthView::PrivateKeyJwt { client_id: id, jwks: keys } = relay.client_auth {
            key_sets_by_their_documents(resource.metadata.name@, jwks, keys);
        }
    }
}

/// What an upstream document is refused for: the first of its URLs that is none, then what
/// validation finds, each behind kind and name of the resource.
pub proof fn refused_upstreams_say_why(
    resource: UpstreamResource,
    secret: Seq<char>,
    upstream: UpstreamView,
)
    ensures
        ({
            let result = upstream_of(resource, secret);
            let name = resource.metadata.name@;
            let endpoints = resource.spec.endpoints;
            let issuer = url_field(
                "Upstream/"@ + name + " spec.issuerUrl"@,
                resource.spec.issuer_url@,
            );
            let authorization = optional_url_field(
                "Upstream/"@ + name + " spec.endpoints.authorization"@,
                optional_text(endpoints.authorization),
            );
            let token = optional_url_field(
                "Upstream/"@ + name + " spec.endpoints.token"@,
                optional_text(endpoints.token),
            );
            let jwks = optional_url_field(
                "Upstream/"@ + name + " spec.endpoints.jwks"@,
                optional_text(endpoints.jwks),
            );
            &&& issuer matches Err(error) ==> result == Err::<UpstreamView, Seq<Seq<char>>>(error)
            &&& issuer is Ok ==> (authorization matches Err(error) ==> result == Err::<
                UpstreamView,
                Seq<Seq<char>>,
            >(error))
            &&& issuer is Ok && authorization is Ok ==> (token matches Err(error) ==> result == Err::<
                UpstreamView,
                Seq<Seq<char>>,
            >(error))
            &&& issuer is Ok && authorization is Ok && token is Ok ==> (jwks matches Err(error)
                ==> result == Err::<UpstreamView, Seq<Seq<char>>>(error))
            &&& issuer is Ok && authorization is Ok && token is Ok && jwks is Ok && states_upstream(
                resource,
                upstream,
            ) && upstream.client_secret == secret ==> (upstream_problem(upstream) matches Some(
                problem,
            ) ==> result == Err::<UpstreamView, Seq<Seq<char>>>(
                seq!["Upstream/"@ + name, problem],
            ))
        }),
{
}

/// What a relay document is refused for: its key set, the first of its redirect origins that is
/// none, its default redirect, then what validation finds, each behind kind and name of the
/// resource.
pub proof fn refused_relays_say_why(
    resource: RelayResource,
    secret: Option<Seq<char>>,
    relay: RelayView,
)
    requires
        resource.spec.client_authentication is ClientSecret ==> secret is Some,
    ensures
        ({
            let result = relay_of(resource, secret);
            let name = resource.metadata.name@;
            let authentication = resource.spec.client_authentication;
            let policy = resource.spec.redirect_policy;
            let default = optional_url_field(
                "Relay/"@ + name + " spec.redirectPolicy.defaultRedirectUri"@,
                optional_text(policy.default_redirect_uri),
            );
            let known = states_auth(authentication, relay.client_auth) && relay_has_secret(
                relay,
                secret,
            );
            let placed = known && states_origins(
                policy.allowed_origins@,
                relay.allowed_redirect_origins,
            );
            &&& authentication matches ClientAuthentication::PrivateKeyJwt { client_id, jwks }
                ==> (jwks matches JsonValue::String(text) ==> (parsed_url(text@) matches Err(message)
                ==> result == Err::<RelayView, Seq<Seq<char>>>(
                seq!["Relay/"@ + name + " spec.clientAuthentication.jwks URL"@, message],
            )))
            &&& known ==> (origin_list(texts(policy.allowed_origins@)) matches Err(message)
                ==> result == Err::<RelayView, Seq<Seq<char>>>(
                seq!["Relay/"@ + name + " spec.redirectPolicy.allowedOrigins"@, message],
            ))
            &&& placed ==> (default matches Err(error) ==> result == Err::<
                RelayView,
                Seq<Seq<char>>,
            >(error))
            &&& placed && default is Ok && states_relay(resource, relay) ==> (relay_problem(relay)
                matches Some(problem) ==> result == Err::<RelayView, Seq<Seq<char>>>(
                seq!["Relay/"@ + name, problem],
            ))
        }),
{
    origin_lists_by_their_texts(
        resource.spec.redirect_policy.allowed_origins@,
        relay.allowed_redirect_origins,
        0,
    );
    if let ClientAuthentication::PrivateKeyJwt { client_id, jwks } =
        resource.spec.client_authentication {
        if let ClientAuthView::PrivateKeyJwt { client_id: id, jwks: keys } = relay.client_auth {
            key_sets_by_their_documents(resource.metadata.name@, jwks, keys);
        }
    }
}

// ---------------------------------------------------------------------------------------------
// Requests
// ---------------------------------------------------------------------------------------------

/// The request for a secret is for the value given in place, or for the source that is named. A
/// relay asks for a secret only if its applications authenticate with one.
pub proof fn requests_are_for_values_and_sources(
    value: String,
    source: SecretSource,
    secret: SecretValue,
    client_id: String,
    resource: RelayResource,
)
    ensures
        request_of(SecretValue::Value(InlineSecret { value })) == RequestView::Value(value@),
        request_of(SecretValue::ValueFrom(ReferencedSecret { value_from: source }))
            == RequestView::Source(source@),
        resource.spec.client_authentication == (ClientAuthentication::ClientSecret {
            client_id,
            client_secret: secret,
        }) ==> relay_secret(resource) == Some(secret),
        !(resource.spec.client_authentication is ClientSecret) ==> relay_secret(resource) is None,
{
}

/// What is read of requests, answers and results is what they hold.
pub proof fn compilation_views_are_contents(
    value: String,
    source: SecretSource,
    secret: SecretString,
    error: ConfigError,
    snapshot: ProviderSnapshot,
)
    ensures
        SecretRequest::Value(value)@ == RequestView::Value(value@),
        SecretRequest::Source(source)@ == RequestView::Source(source@),
        reply_of(Ok(secret)) == Ok::<Seq<char>, Seq<Seq<char>>>(secret@),
        reply_of(Err(error)) == Err::<Seq<char>, Seq<Seq<char>>>(error@),
        compiled(Ok(snapshot)) == Ok::<SnapshotView, Seq<Seq<char>>>(snapshot@),
        compiled(Err(error)) == Err::<SnapshotView, Seq<Seq<char>>>(error@),
        snapshot@.instances == snapshot.instances@,
        snapshot@.upstreams == snapshot.upstreams@,
        snapshot@.relays == snapshot.relays@,
{
}

/// Whether `lookup` answers the request for a secret with `text`.
pub open spec fn answered_with(
    lookup: spec_fn(RequestView) -> Reply,
    secret: SecretValue,
    text: Seq<char>,
) -> bool {
    match secret {
        SecretValue::Value(inline) => lookup(RequestView::Value(inline.value@)) == Ok::<
            Seq<char>,
            Seq<Seq<char>>,
        >(text),
        SecretValue::ValueFrom(reference) => lookup(RequestView::Source(reference.value_from@))
            == Ok::<Seq<char>, Seq<Seq<char>>>(text),
    }
}

// ---------------------------------------------------------------------------------------------
// Snapshots
// ---------------------------------------------------------------------------------------------

/// Whether a snapshot has the resource that a document states, in good order.
pub open spec fn document_stands(snapshot: SnapshotView, document: ResourceDocument) -> bool {
    match document {
        ResourceDocument::Upstream(resource) => {
            let name = resource.metadata.name@;
            &&& snapshot.upstreams.contains_key(name)
            &&& states_upstream(resource, snapshot.upstreams[name])
            &&& upstream_in_order(snapshot.upstreams[name])
        },
        ResourceDocument::Relay(resource) => {
            let name = resource.metadata.name@;
            &&& snapshot.relays.contains_key(name)
            &&& states_relay(resource, snapshot.relays[name])
            &&& relay_in_order(snapshot.relays[name])
            &&& snapshot.upstreams.contains_key(resource.spec.upstream_ref.name@)
        },
    }
}

/// Whether one of the documents is of an upstream called `name`.
pub open spec fn states_upstream_named(documents: Seq<ResourceDocument>, name: Seq<char>) -> bool {
    exists|i: int|
        0 <= i < documents.len() && (match #[trigger] documents[i] {
            ResourceDocument::Upstream(resource) => resource.metadata.name@ == name,
            _ => false,
        })
}

/// Whether one of the documents is of a relay called `name`.
pub open spec fn states_relay_named(documents: Seq<ResourceDocument>, name: Seq<char>) -> bool {
    exists|i: int|
        0 <= i < documents.len() && (match #[trigger] documents[i] {
            ResourceDocument::Relay(resource) => resource.metadata.name@ == name,
            _ => false,
        })
}

/// A snapshot that compiles has for every document the resource that it states, and no others.
pub proof fn compiled_snapshots_state_their_documents(
    documents: Seq<ResourceDocument>,
    replies: Seq<Reply>,
    snapshot: SnapshotView,
)
    requires
        compilation(documents, replies) == Progress::Done(Ok(snapshot)),
    ensures
        forall|i: int|
            0 <= i < documents.len() ==> document_stands(snapshot, #[trigger] documents[i]),
        forall|key: Seq<char>| #[trigger]
            snapshot.upstreams.contains_key(key) ==> states_upstream_named(documents, key),
        forall|key: Seq<char>| #[trigger]
            snapshot.relays.contains_key(key) ==> states_relay_named(documents, key),
        forall|key: Seq<char>| !(#[trigger] snapshot.instances.contains_key(key)),
{
    compiled_snapshots_are_complete_and_valid(documents, replies, snapshot);
    let secrets = documents_are_carried_out(documents, replies, snapshot);
    assert forall|i: int| 0 <= i < documents.len() implies document_stands(
        snapshot,
        #[trigger] documents[i],
    ) by {
        assert(has_resource_of(snapshot, documents[i], secrets));
        match documents[i] {
            ResourceDocument::Upstream(resource) => {
                let upstream = snapshot.upstreams[resource.metadata.name@];
                upstreams_are_what_documents_state(resource, upstream.client_secret, upstream);
            },
            ResourceDocument::Relay(resource) => {
                let relay = snapshot.relays[resource.metadata.name@];
                relays_are_judged_by_their_fields(relay);
                let secret = secret_of_relay(relay);
                if resource.spec.client_authentication is ClientSecret {
                    assert(relay.client_auth is ClientSecret);
                }
                relays_are_what_documents_state(resource, secret, relay);
            },
        }
    }
    assert forall|key: Seq<char>| #[trigger] snapshot.upstreams.contains_key(
        key,
    ) implies states_upstream_named(documents, key) by {
        let i = choose|i: int|
            0 <= i < documents.len() && (#[trigger] documents[i]) is Upstream && document_name(
                documents[i],
            ) == key;
        assert(documents[i] is Upstream);
    }
    assert forall|key: Seq<char>| #[trigger] snapshot.relays.contains_key(
        key,
    ) implies states_relay_named(documents, key) by {
        let i = choose|i: int|
            0 <= i < documents.len() && (#[trigger] documents[i]) is Relay && document_name(
                documents[i],
            ) == key;
        assert(documents[i] is Relay);
    }
    assert forall|key: Seq<char>| !(#[trigger] snapshot.instances.contains_key(key)) by {
        assert(!snapshot.instances.dom().contains(key));
    }
}

/// The URLs of a compiled upstream are those of the fields of the same meaning in its document, each
/// as the outside parser reads its text, and absent exactly where the field is.
pub proof fn compiled_upstreams_have_the_urls_of_their_documents(
    documents: Seq<ResourceDocument>,
    replies: Seq<Reply>,
    snapshot: SnapshotView,
    i: int,
    resource: UpstreamResource,
)
    requires
        compilation(documents, replies) == Progress::Done(Ok(snapshot)),
        0 <= i < documents.len(),
        documents[i] == ResourceDocument::Upstream(resource),
    ensures
        snapshot.upstreams.contains_key(resource.metadata.name@),
        ({
            let upstream = snapshot.upstreams[resource.metadata.name@];
            let endpoints = resource.spec.endpoints;
            &&& parsed_url(resource.spec.issuer_url@) == Ok::<UrlParts, Seq<char>>(
                upstream.issuer_url,
            )
            &&& endpoints.authorization is None <==> upstream.authorization_endpoint is None
            &&& endpoints.authorization matches Some(text) ==> parsed_url(text@) == Ok::<
                UrlParts,
                Seq<char>,
            >(upstream.authorization_endpoint->0)
            &&& endpoints.token is None <==> upstream.token_endpoint is None
            &&& endpoints.token matches Some(text) ==> parsed_url(text@) == Ok::<
                UrlParts,
                Seq<char>,
            >(upstream.token_endpoint->0)
            &&& endpoints.jwks is None <==> upstream.jwks_uri is None
            &&& endpoints.jwks matches Some(text) ==> parsed_url(text@) == Ok::<
                UrlParts,
                Seq<char>,
            >(upstream.jwks_uri->0)
        }),
{
    compiled_snapshots_state_their_documents(documents, replies, snapshot);
    assert(document_stands(snapshot, documents[i]));
}

/// With one answer per request, the secrets of a compiled snapshot are the answers to the requests
/// that the documents make.
pub proof fn compiled_secrets_are_the_answers(
    documents: Seq<ResourceDocument>,
    replies: Seq<Reply>,
    lookup: spec_fn(RequestView) -> Reply,
    snapshot: SnapshotView,
    i: int,
)
    requires
        replies_by(documents, replies, lookup),
        compilation(documents, replies) == Progress::Done(Ok(snapshot)),
        0 <= i < documents.len(),
    ensures
        documents[i] matches ResourceDocument::Upstream(resource) ==> answered_with(
            lookup,
            resource.spec.oauth_client.client_secret,
            snapshot.upstreams[resource.metadata.name@].client_secret,
        ),
        documents[i] matches ResourceDocument::Relay(resource) ==> (
        resource.spec.client_authentication matches ClientAuthentication::ClientSecret {
            client_id,
            client_secret,
        } ==> (snapshot.relays[resource.metadata.name@].client_auth
            matches ClientAuthView::ClientSecret { client_id: id, client_secret: secret }
            && answered_with(lookup, client_secret, secret))),
{
    documents_get_their_own_answers(documents, replies, lookup, snapshot);
    assert(has_resource_by(snapshot, documents[i], lookup));
    match documents[i] {
        ResourceDocument::Upstream(resource) => {
            let request = request_of(resource.spec.oauth_client.client_secret);
            let secret = lookup(request)->Ok_0;
            let upstream = snapshot.upstreams[resource.metadata.name@];
            upstreams_are_what_documents_state(resource, secret, upstream);
        },
        ResourceDocument::Relay(resource) => {
            if let Some(value) = relay_secret(resource) {
                let secret = lookup(request_of(value))->Ok_0;
                let relay = snapshot.relays[resource.metadata.name@];
                relays_are_what_documents_state(resource, Some(secret), relay);
            }
        },
    }
}

// ---------------------------------------------------------------------------------------------
// Acceptance
// ---------------------------------------------------------------------------------------------

/// Whether two documents are of one kind and name.
pub open spec fn same_resource(a: ResourceDocument, b: ResourceDocument) -> bool {
    match (a, b) {
        (ResourceDocument::Upstream(a), ResourceDocument::Upstream(b)) => a.metadata.name@
            == b.metadata.name@,
        (ResourceDocument::Relay(a), ResourceDocument::Relay(b)) => a.metadata.name@
            == b.metadata.name@,
        _ => false,
    }
}

/// Whether no two documents are of one kind and name.
pub open spec fn all_distinct(documents: Seq<ResourceDocument>) -> bool {
    forall|i: int, j: int|
        0 <= i < j < documents.len() ==> !same_resource(
            #[trigger] documents[i],
            #[trigger] documents[j],
        )
}

/// Whether an upstream document states an upstream in good order, given the answers to requests.
pub open spec fn acceptable_upstream(
    resource: UpstreamResource,
    lookup: spec_fn(RequestView) -> Reply,
    upstream: UpstreamView,
) -> bool {
    &&& one_segment(resource.metadata.name@)
    &&& states_upstream(resource, upstream)
    &&& answered_with(lookup, resource.spec.oauth_client.client_secret, upstream.client_secret)
    &&& upstream_in_order(upstream)
}

/// Whether a relay document states a relay in good order, given the answers to requests.
pub open spec fn acceptable_relay(
    resource: RelayResource,
    lookup: spec_fn(RequestView) -> Reply,
    relay: RelayView,
) -> bool {
    &&& one_segment(resource.metadata.name@)
    &&& one_segment(resource.spec.upstream_ref.name@)
    &&& states_relay(resource, relay)
    &&& match resource.spec.client_authentication {
        ClientAuthentication::ClientSecret { client_id, client_secret } => relay.client_auth
            matches ClientAuthView::ClientSecret { client_id: id, client_secret: secret }
            && answered_with(lookup, client_secret, secret),
        _ => true,
    }
    &&& relay_in_order(relay)
}

/// Whether a document among `documents` states a resource in good order, and a relay one whose
/// upstream has a document.
pub open spec fn acceptable(
    documents: Seq<ResourceDocument>,
    document: ResourceDocument,
    lookup: spec_fn(RequestView) -> Reply,
) -> bool {
    match document {
        ResourceDocument::Upstream(resource) => exists|upstream: UpstreamView| #[trigger]
            acceptable_upstream(resource, lookup, upstream),
        ResourceDocument::Relay(resource) => (exists|relay: RelayView| #[trigger]
            acceptable_relay(resource, lookup, relay)) && states_upstream_named(
            documents,
            resource.spec.upstream_ref.name@,
        ),
    }
}

proof fn lemma_upstream_by(
    resource: UpstreamResource,
    lookup: spec_fn(RequestView) -> Reply,
    upstream: UpstreamView,
)
    ensures
        upstream_by(resource, lookup) == Some(upstream) <==> acceptable_upstream(
            resource,
            lookup,
            upstream,
        ),
{
    names_are_one_segment("Upstream"@, resource.metadata.name@);
    let request = request_of(resource.spec.oauth_client.client_secret);
    if let Ok(secret) = lookup(request) {
        upstreams_are_what_documents_state(resource, secret, upstream);
    }
}

proof fn lemma_relay_by(
    resource: RelayResource,
    lookup: spec_fn(RequestView) -> Reply,
    relay: RelayView,
)
    ensures
        relay_by(resource, lookup) == Some(relay) <==> acceptable_relay(resource, lookup, relay),
{
    names_are_one_segment("Relay"@, resource.metadata.name@);
    names_are_one_segment("Upstream"@, resource.spec.upstream_ref.name@);
    match relay_secret(resource) {
        None => {
            relays_are_what_documents_state(resource, None, relay);
        },
        Some(value) => {
            if let Ok(secret) = lookup(request_of(value)) {
                relays_are_what_documents_state(resource, Some(secret), relay);
            }
        },
    }
}

proof fn lemma_acceptable(
    documents: Seq<ResourceDocument>,
    document: ResourceDocument,
    lookup: spec_fn(RequestView) -> Reply,
)
    ensures
        fine_by(documents, document, lookup) <==> acceptable(documents, document, lookup),
{
    match document {
        ResourceDocument::Upstream(resource) => {
            if let Some(upstream) = upstream_by(resource, lookup) {
                lemma_upstream_by(resource, lookup, upstream);
            }
            if acceptable(documents, document, lookup) {
                let upstream = choose|upstream: UpstreamView| #[trigger]
                    acceptable_upstream(resource, lookup, upstream);
                lemma_upstream_by(resource, lookup, upstream);
            }
        },
        ResourceDocument::Relay(resource) => {
            lemma_named(documents, resource.spec.upstream_ref.name@);
            if let Some(relay) = relay_by(resource, lookup) {
                lemma_relay_by(resource, lookup, relay);
            }
            if acceptable(documents, document, lookup) {
                let relay = choose|relay: RelayView| #[trigger]
                    acceptable_relay(resource, lookup, relay);
                lemma_relay_by(resource, lookup, relay);
            }
        },
    }
}

proof fn lemma_named(documents: Seq<ResourceDocument>, name: Seq<char>)
    ensures
        has_upstream(documents, name) <==> states_upstream_named(documents, name),
{
    if has_upstream(documents, name) {
        let i = choose|i: int|
            0 <= i < documents.len() && (#[trigger] documents[i]) is Upstream && document_name(
                documents[i],
            ) == name;
        assert(documents[i] is Upstream);
    }
    if states_upstream_named(documents, name) {
        let i = choose|i: int|
            0 <= i < documents.len() && (match #[trigger] documents[i] {
                ResourceDocument::Upstream(resource) => resource.metadata.name@ == name,
                _ => false,
            });
        assert(documents[i] is Upstream && document_name(documents[i]) == name);
    }
}

/// The first document of a kind and name that an earlier one has refuses the configuration, in words
/// that give its kind and name; without one there is no duplicate.
pub proof fn first_duplicate_decides(
    documents: Seq<ResourceDocument>,
    replies: Seq<Reply>,
    i: int,
    j: int,
)
    ensures
        all_distinct(documents) <==> first_duplicate(documents) is None,
        0 <= i < j < documents.len() && same_resource(documents[i], documents[j]) && all_distinct(
            documents.take(j),
        ) ==> compilation(documents, replies) == Progress::Done(
            Err(
                seq![
                    match documents[j] {
                        ResourceDocument::Upstream(resource) => "duplicate "@ + "Upstream"@ + "/"@
                            + resource.metadata.name@,
                        ResourceDocument::Relay(resource) => "duplicate "@ + "Relay"@ + "/"@
                            + resource.metadata.name@,
                    },
                ],
            ),
        ),
{
    lemma_distinct(documents);
    if 0 <= i < j < documents.len() && same_resource(documents[i], documents[j]) && all_distinct(
        documents.take(j),
    ) {
        lemma_duplicate_at(documents, i, j);
    }
}

proof fn lemma_distinct(documents: Seq<ResourceDocument>)
    ensures
        all_distinct(documents) <==> first_duplicate(documents) is None,
    decreases documents.len(),
{
    if documents.len() > 0 {
        let front = documents.drop_last();
        let last = documents.len() - 1;
        lemma_distinct(front);
        if first_duplicate(documents) is None {
            assert forall|i: int, j: int| 0 <= i < j < documents.len() implies !same_resource(
                #[trigger] documents[i],
                #[trigger] documents[j],
            ) by {
                if j < last {
                    assert(!same_resource(front[i], front[j]));
                } else {
                    assert(!same_identity(front[i], documents.last()));
                }
            }
        } else if all_distinct(documents) {
            assert forall|i: int, j: int| 0 <= i < j < front.len() implies !same_resource(
                #[trigger] front[i],
                #[trigger] front[j],
            ) by {
                assert(!same_resource(documents[i], documents[j]));
            }
            let i = choose|i: int|
                0 <= i < front.len() && same_identity(#[trigger] front[i], documents.last());
            assert(!same_resource(documents[i], documents[last]));
        }
    }
}

proof fn lemma_duplicate_at(documents: Seq<ResourceDocument>, i: int, j: int)
    requires
        0 <= i < j < documents.len(),
        same_resource(documents[i], documents[j]),
        all_distinct(documents.take(j)),
    ensures
        first_duplicate(documents) == Some(documents[j]),
    decreases documents.len(),
{
    let front = documents.drop_last();
    if j < front.len() {
        assert(front.take(j) =~= documents.take(j));
        lemma_duplicate_at(front, i, j);
    } else {
        assert(front =~= documents.take(j));
        lemma_distinct(front);
        assert(same_identity(front[i], documents.last()));
    }
}

/// With one answer per request, a configuration is accepted exactly when no two of its documents are
/// of one kind and name and every document states a resource in good order.
pub proof fn acceptable_documents_are_accepted(
    documents: Seq<ResourceDocument>,
    replies: Seq<Reply>,
    lookup: spec_fn(RequestView) -> Reply,
    result: Result<SnapshotView, Seq<Seq<char>>>,
)
    requires
        replies_by(documents, replies, lookup),
        compilation(documents, replies) == Progress::Done(result),
    ensures
        result is Ok <==> all_distinct(documents) && forall|i: int|
            0 <= i < documents.len() ==> acceptable(documents, #[trigger] documents[i], lookup),
{
    lemma_distinct(documents);
    if let Ok(snapshot) = result {
        documents_get_their_own_answers(documents, replies, lookup, snapshot);
        compiled_snapshots_state_their_documents(documents, replies, snapshot);
        assert forall|i: int| 0 <= i < documents.len() implies acceptable(
            documents,
            #[trigger] documents[i],
            lookup,
        ) by {
            assert(has_resource_by(snapshot, documents[i], lookup));
            assert(document_stands(snapshot, documents[i]));
            match documents[i] {
                ResourceDocument::Upstream(resource) => {
                    lemma_upstream_by(
                        resource,
                        lookup,
                        snapshot.upstreams[resource.metadata.name@],
                    );
                },
                ResourceDocument::Relay(resource) => {
                    lemma_relay_by(resource, lookup, snapshot.relays[resource.metadata.name@]);
                },
            }
        }
    }
    if all_distinct(documents) && forall|i: int|
        0 <= i < documents.len() ==> acceptable(documents, #[trigger] documents[i], lookup) {
        assert forall|i: int| 0 <= i < documents.len() implies fine_by(
            documents,
            #[trigger] documents[i],
            lookup,
        ) by {
            assert(acceptable(documents, documents[i], lookup));
            lemma_acceptable(documents, documents[i], lookup);
        }
        lemma_fine_documents(documents, replies, lookup);
    }
}

/// What is said of an upstream document that is refused: first of its name, then that its secret was
/// not found, with the reason behind, then of its contents.
pub proof fn refused_upstream_documents_say_why(
    resource: UpstreamResource,
    lookup: spec_fn(RequestView) -> Reply,
)
    ensures
        ({
            let name = resource.metadata.name@;
            let refusal = upstream_refusal(resource, lookup);
            let reply = match resource.spec.oauth_client.client_secret {
                SecretValue::Value(inline) => lookup(RequestView::Value(inline.value@)),
                SecretValue::ValueFrom(reference) => lookup(
                    RequestView::Source(reference.value_from@),
                ),
            };
            &&& name.contains('/') ==> refusal == seq![
                "Upstream"@ + "/"@ + name + ": metadata.name must be one path segment"@,
            ]
            &&& !name.contains('/') && !one_segment(name) ==> refusal == seq![
                "Upstream"@ + "/"@ + name + (": metadata.name "@
                    + "must contain non-empty URL-safe path segments"@),
            ]
            &&& one_segment(name) ==> (reply matches Err(error) ==> refusal == seq![
                "Upstream/"@ + name + " spec.oauthClient.clientSecret"@,
            ] + error)
            &&& one_segment(name) ==> (reply matches Ok(secret) ==> (upstream_of(resource, secret)
                matches Err(error) ==> refusal == error))
            &&& upstream_by(resource, lookup) is None <==> !exists|upstream: UpstreamView| #[trigger]
                acceptable_upstream(resource, lookup, upstream)
        }),
{
    names_are_one_segment("Upstream"@, resource.metadata.name@);
    lemma_acceptable(Seq::empty(), ResourceDocument::Upstream(resource), lookup);
}

/// What is said of a relay document that is refused: first of its name, then of that of its
/// upstream, then that its secret was not found, with the reason behind, then of its contents.
pub proof fn refused_relay_documents_say_why(
    resource: RelayResource,
    lookup: spec_fn(RequestView) -> Reply,
)
    ensures
        ({
            let name = resource.metadata.name@;
            let reference = resource.spec.upstream_ref.name@;
            let refusal = relay_refusal(resource, lookup);
            let named = one_segment(name) && one_segment(reference);
            &&& name.contains('/') ==> refusal == seq![
                "Relay"@ + "/"@ + name + ": metadata.name must be one path segment"@,
            ]
            &&& !name.contains('/') && !one_segment(name) ==> refusal == seq![
                "Relay"@ + "/"@ + name + (": metadata.name "@
                    + "must contain non-empty URL-safe path segments"@),
            ]
            &&& one_segment(name) && reference.contains('/') ==> refusal == seq![
                "Upstream"@ + "/"@ + reference + ": metadata.name must be one path segment"@,
            ]
            &&& one_segment(name) && !reference.contains('/') && !one_segment(reference) ==> refusal
                == seq![
                "Upstream"@ + "/"@ + reference + (": metadata.name "@
                    + "must contain non-empty URL-safe path segments"@),
            ]
            &&& named ==> (match resource.spec.client_authentication {
                ClientAuthentication::ClientSecret { client_id, client_secret } => {
                    let reply = match client_secret {
                        SecretValue::Value(inline) => lookup(RequestView::Value(inline.value@)),
                        SecretValue::ValueFrom(source) => lookup(
                            RequestView::Source(source.value_from@),
                        ),
                    };
                    &&& reply matches Err(error) ==> refusal == seq![
                        "Relay/"@ + name + " spec.clientAuthentication.clientSecret"@,
                    ] + error
                    &&& reply matches Ok(secret) ==> (relay_of(resource, Some(secret)) matches Err(
                        error,
                    ) ==> refusal == error)
                },
                _ => relay_of(resource, None) matches Err(error) ==> refusal == error,
            })
            &&& relay_by(resource, lookup) is None <==> !exists|relay: RelayView| #[trigger]
                acceptable_relay(resource, lookup, relay)
        }),
{
    names_are_one_segment("Relay"@, resource.metadata.name@);
    names_are_one_segment("Upstream"@, resource.spec.upstream_ref.name@);
    if let Some(relay) = relay_by(resource, lookup) {
        lemma_relay_by(resource, lookup, relay);
    }
    if exists|relay: RelayView| #[trigger] acceptable_relay(resource, lookup, relay) {
        let relay = choose|relay: RelayView| #[trigger] acceptable_relay(resource, lookup, relay);
        lemma_relay_by(resource, lookup, relay);
    }
}

// ---------------------------------------------------------------------------------------------
// Resolvers
// ---------------------------------------------------------------------------------------------

/// A resolver answers a request for a value by what it resolves that very value to, and a request
/// for a source by what it resolves that very source to.
pub proof fn answers_are_resolved<R: SecretResolver>(
    secrets: &R,
    value: &str,
    source: &SecretSource,
    answer: Result<SecretString, ConfigError>,
)
    ensures
        call_ensures(R::resolve_value, (secrets, value), answer) ==> answers(
            secrets,
            RequestView::Value(value@),
            match answer {
                Ok(secret) => Ok(secret@),
                Err(error) => Err(error@),
            },
        ),
        call_ensures(R::resolve_source, (secrets, source), answer) ==> answers(
            secrets,
            RequestView::Source(source@),
            match answer {
                Ok(secret) => Ok(secret@),
                Err(error) => Err(error@),
            },
        ),
        forall|reply: Reply| #[trigger]
            answers(secrets, RequestView::Value(value@), reply) ==> exists|
                asked: &str,
                answer: Result<SecretString, ConfigError>,
            |
                asked@ == value@ && #[trigger] call_ensures(
                    R::resolve_value,
                    (secrets, asked),
                    answer,
                ) && (match answer {
                    Ok(secret) => reply == Ok::<Seq<char>, Seq<Seq<char>>>(secret@),
                    Err(error) => reply == Err::<Seq<char>, Seq<Seq<char>>>(error@),
                }),
        forall|reply: Reply| #[trigger]
            answers(secrets, RequestView::Source(source@), reply) ==> exists|
                asked: &SecretSource,
                answer: Result<SecretString, ConfigError>,
            |
                asked@ == source@ && #[trigger] call_ensures(
                    R::resolve_source,
                    (secrets, asked),
                    answer,
                ) && (match answer {
                    Ok(secret) => reply == Ok::<Seq<char>, Seq<Seq<char>>>(secret@),
                    Err(error) => reply == Err::<Seq<char>, Seq<Seq<char>>>(error@),
                }),
{
}

/// The replies of a compilation are the answers to the requests that are open at their points, each
/// to its own.
pub proof fn replies_answer_their_requests<R: SecretResolver>(
    documents: Seq<ResourceDocument>,
    secrets: &R,
    replies: Seq<Reply>,
    i: int,
)
    requires
        answered(documents, secrets, replies),
        0 <= i < replies.len(),
    ensures
        compilation(documents, replies.take(i)) matches Progress::Ask(request) && answers(
            secrets,
            request,
            replies[i],
        ),
{
    assert(answered_at(documents, secrets, replies, i));
}

/// A step of a compilation leads where the rest of it leads; one that has ended stays where it is,
/// and one that asks cannot go on without the answer.
pub proof fn steps_lead_on(
    request: SecretRequest,
    rest: Compilation,
    result: Result<ProviderSnapshot, ConfigError>,
    replies: Seq<Reply>,
)
    ensures
        CompileStep::Done(result).outcome(replies) == Progress::Done(
            match result {
                Ok(snapshot) => Ok(snapshot@),
                Err(error) => Err(error@),
            },
        ),
        (CompileStep::Ask { request, rest }).outcome(replies) == progress(rest.draft(), replies),
        (CompileStep::Ask { request, rest }).well_formed() <==> progress(rest.draft(), Seq::empty())
            == Progress::Ask(request@),
{
}

} // verus!
