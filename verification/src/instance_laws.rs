//! What the document of an SSM parameter means, field by field, and why one is refused.

use crate::address::{parsed_url, UrlParts};
use crate::compile::origin_list;
use crate::error::ConfigError;
use crate::instance::{instance_problem, InstanceView, UpstreamSpecView};
use crate::json::JsonValue;
use crate::key::{key_refusal, keys_without_slash_are_one_segment, one_segment};
use crate::meaning_laws::{
    origin_lists_by_their_texts, states_jwks, states_origins, states_url,
    web_url_fields_by_their_texts,
};
use crate::model::ClientAuthView;
use crate::policy_laws::{
    client_auth_in_order, default_in_order, endpoint_in_order, instances_are_judged_by_their_fields,
    scopes_in_order,
};
use crate::provider_ssm::{
    document_of, instance_of, optional_web_url_field, path_prefix, raw_client_auth, raw_upstream,
    settings_problem, web_url_field, RawClientAuth, RawInstance, DEFAULT_POLL_SECONDS,
    DEFAULT_PREFIX,
};
use crate::text::{optional_text, texts};
use vstd::prelude::*;

verus! {

/// Whether client authentication is what a document states of it.
pub open spec fn states_raw_auth(raw: RawClientAuth, auth: ClientAuthView) -> bool {
    match raw {
        RawClientAuth::Public => auth == ClientAuthView::Public,
        RawClientAuth::ClientSecret { client_id, client_secret } => auth
            matches ClientAuthView::ClientSecret { client_id: id, client_secret: secret } && id
            == client_id@ && secret == client_secret@,
        RawClientAuth::PrivateKeyJwt { client_id, jwks } => auth
            matches ClientAuthView::PrivateKeyJwt { client_id: id, jwks: keys } && id == client_id@
            && states_jwks(jwks, keys),
    }
}

/// Whether every field of an instance is what its document states.
pub open spec fn states_instance(raw: RawInstance, instance: InstanceView) -> bool {
    &&& parsed_url(raw.issuer_url@) == Ok::<UrlParts, Seq<char>>(instance.upstream.issuer_url)
    &&& states_url(raw.authorization_endpoint, instance.upstream.authorization_endpoint)
    &&& states_url(raw.token_endpoint, instance.upstream.token_endpoint)
    &&& states_url(raw.jwks_uri, instance.upstream.jwks_uri)
    &&& instance.upstream.client_id == raw.client_id@
    &&& instance.upstream.client_secret == raw.client_secret@
    &&& instance.upstream.scopes == raw.scopes@.map_values(|scope: String| scope@)
    &&& instance.upstream.allowed_scopes is None
    &&& states_raw_auth(raw.client_auth, instance.client_auth)
    &&& states_origins(raw.allowed_redirect_origins@, instance.allowed_redirect_origins)
    &&& states_url(raw.default_redirect_uri, instance.default_redirect_uri)
}

/// Whether the fields of an instance are in order.
pub open spec fn instance_in_order(instance: InstanceView) -> bool {
    &&& endpoint_in_order(Some(instance.upstream.issuer_url))
    &&& endpoint_in_order(instance.upstream.authorization_endpoint)
    &&& endpoint_in_order(instance.upstream.token_endpoint)
    &&& endpoint_in_order(instance.upstream.jwks_uri)
    &&& instance.upstream.client_id.len() > 0
    &&& instance.upstream.client_secret.len() > 0
    &&& scopes_in_order(instance.upstream.scopes, instance.upstream.allowed_scopes)
    &&& default_in_order(instance.allowed_redirect_origins, instance.default_redirect_uri)
    &&& client_auth_in_order(instance.client_auth)
}

proof fn lemma_raw_auth(raw: RawClientAuth, auth: ClientAuthView)
    ensures
        raw_client_auth(raw) == Ok::<ClientAuthView, Seq<Seq<char>>>(auth) <==> states_raw_auth(
            raw,
            auth,
        ),
{
}

proof fn lemma_raw_upstream(raw: RawInstance, upstream: UpstreamSpecView)
    requires
        raw_upstream(raw) == Ok::<UpstreamSpecView, Seq<Seq<char>>>(upstream),
    ensures
        parsed_url(raw.issuer_url@) == Ok::<UrlParts, Seq<char>>(upstream.issuer_url),
        states_url(raw.authorization_endpoint, upstream.authorization_endpoint),
        states_url(raw.token_endpoint, upstream.token_endpoint),
        states_url(raw.jwks_uri, upstream.jwks_uri),
        upstream.client_id == raw.client_id@,
        upstream.client_secret == raw.client_secret@,
        upstream.scopes == raw.scopes@.map_values(|scope: String| scope@),
        upstream.allowed_scopes is None,
{
}

/// A parameter has an instance exactly when its name is one segment, its document reads well and
/// keeps no secret in a file, and the fields of the document, taken at their word, are in order. The
/// instance is then what the document states, under the name of the parameter.
pub proof fn instances_are_what_documents_state(
    name: Seq<char>,
    raw: RawInstance,
    instance: InstanceView,
)
    ensures
        instance_of(name, Ok(raw)) == Ok::<InstanceView, Seq<Seq<char>>>(instance) <==> {
            &&& one_segment(name)
            &&& raw.client_secret_file is None
            &&& instance.key == name
            &&& states_instance(raw, instance)
            &&& instance_in_order(instance)
        },
{
    keys_without_slash_are_one_segment(name);
    instances_are_judged_by_their_fields(instance);
    origin_lists_by_their_texts(
        raw.allowed_redirect_origins@,
        instance.allowed_redirect_origins,
        0,
    );
    lemma_raw_auth(raw.client_auth, instance.client_auth);
    if instance_of(name, Ok(raw)) == Ok::<InstanceView, Seq<Seq<char>>>(instance) {
        lemma_raw_upstream(raw, instance.upstream);
    }
    if states_instance(raw, instance) && instance_in_order(instance) {
        assert(web_url_field("issuer_url"@, raw.issuer_url@) == Ok::<UrlParts, Seq<Seq<char>>>(
            instance.upstream.issuer_url,
        ));
        assert(raw_upstream(raw) == Ok::<UpstreamSpecView, Seq<Seq<char>>>(instance.upstream));
    }
}

/// A parameter whose document could not be read is refused with the reason behind; a name of several
/// segments is refused before that.
pub proof fn unreadable_documents_are_refused(name: Seq<char>, error: Seq<Seq<char>>)
    ensures
        name.contains('/') ==> instance_of(name, Err(error)) == Err::<InstanceView, Seq<Seq<char>>>(
            seq!["key: SSM-provider instance keys must be one path segment"@],
        ),
        !name.contains('/') ==> instance_of(name, Err(error)) == Err::<
            InstanceView,
            Seq<Seq<char>>,
        >(seq!["parse YAML/JSON"@] + error),
{
}

/// What a document is refused for, up to its redirect origins and client authentication, in the
/// order in which these are looked at.
pub proof fn refused_instances_say_why(
    name: Seq<char>,
    raw: RawInstance,
    origins: Seq<UrlParts>,
    i: int,
)
    ensures
        ({
            let result = instance_of(name, Ok(raw));
            let list = raw.allowed_redirect_origins@;
            let one = !name.contains('/');
            let inline = one && raw.client_secret_file is None;
            let named = inline && one_segment(name);
            let placed = named && states_origins(list, origins);
            &&& !one ==> result == Err::<InstanceView, Seq<Seq<char>>>(
                seq!["key: SSM-provider instance keys must be one path segment"@],
            )
            &&& one && raw.client_secret_file is Some ==> result == Err::<
                InstanceView,
                Seq<Seq<char>>,
            >(seq!["client_secret_file is not supported by the SSM provider"@])
            &&& inline && !one_segment(name) ==> result == Err::<InstanceView, Seq<Seq<char>>>(
                seq!["key: "@ + "must contain non-empty URL-safe path segments"@],
            )
            &&& named ==> (origin_list(texts(list)) matches Err(message) ==> result == Err::<
                InstanceView,
                Seq<Seq<char>>,
            >(seq!["allowed_redirect_origins"@, message]))
            &&& placed ==> (raw.client_auth matches RawClientAuth::PrivateKeyJwt { client_id, jwks }
                ==> (jwks matches JsonValue::String(text) ==> (parsed_url(text@) matches Err(message)
                ==> result == Err::<InstanceView, Seq<Seq<char>>>(
                seq!["client_auth.jwks URL"@, message],
            ))))
        }),
{
    keys_without_slash_are_one_segment(name);
    key_refusal();
    origin_lists_by_their_texts(raw.allowed_redirect_origins@, origins, i);
}

/// What a document is refused for once its redirect origins and client authentication are in order:
/// the first of its URLs that is none, then what validation finds.
pub proof fn refused_urls_say_why(name: Seq<char>, raw: RawInstance, instance: InstanceView)
    requires
        one_segment(name),
        raw.client_secret_file is None,
        states_origins(raw.allowed_redirect_origins@, instance.allowed_redirect_origins),
        states_raw_auth(raw.client_auth, instance.client_auth),
    ensures
        ({
            let result = instance_of(name, Ok(raw));
            let issuer = web_url_field("issuer_url"@, raw.issuer_url@);
            let authorization = optional_web_url_field(
                "authorization_endpoint"@,
                optional_text(raw.authorization_endpoint),
            );
            let token = optional_web_url_field(
                "token_endpoint"@,
                optional_text(raw.token_endpoint),
            );
            let jwks = optional_web_url_field("jwks_uri"@, optional_text(raw.jwks_uri));
            let default = optional_web_url_field(
                "default_redirect_uri"@,
                optional_text(raw.default_redirect_uri),
            );
            &&& issuer matches Err(error) ==> result == Err::<InstanceView, Seq<Seq<char>>>(error)
            &&& issuer is Ok ==> (authorization matches Err(error) ==> result == Err::<
                InstanceView,
                Seq<Seq<char>>,
            >(error))
            &&& issuer is Ok && authorization is Ok ==> (token matches Err(error) ==> result == Err::<
                InstanceView,
                Seq<Seq<char>>,
            >(error))
            &&& issuer is Ok && authorization is Ok && token is Ok ==> (jwks matches Err(error)
                ==> result == Err::<InstanceView, Seq<Seq<char>>>(error))
            &&& issuer is Ok && authorization is Ok && token is Ok && jwks is Ok ==> (default
                matches Err(error) ==> result == Err::<InstanceView, Seq<Seq<char>>>(error))
            &&& issuer is Ok && authorization is Ok && token is Ok && jwks is Ok && default is Ok
                && instance.key == name && states_instance(raw, instance) ==> (instance_problem(
                instance,
            ) matches Some(problem) ==> result == Err::<InstanceView, Seq<Seq<char>>>(
                seq![problem],
            ))
        }),
{
    keys_without_slash_are_one_segment(name);
    origin_lists_by_their_texts(
        raw.allowed_redirect_origins@,
        instance.allowed_redirect_origins,
        0,
    );
    lemma_raw_auth(raw.client_auth, instance.client_auth);
    web_url_fields_by_their_texts("issuer_url"@, raw.issuer_url, None);
    if let Ok(upstream) = raw_upstream(raw) {
        lemma_raw_upstream(raw, upstream);
        if states_instance(raw, instance) {
            assert(upstream == instance.upstream);
        }
    }
}

/// The settings of a provider are in order when its prefix starts and ends with a slash and its
/// interval is not zero; what is wrong with the prefix is said first.
pub proof fn settings_are_prefix_and_interval(prefix: Seq<char>, poll_interval: nat)
    ensures
        ({
            let path = prefix.len() > 0 && prefix[0] as int == 0x2f && prefix[prefix.len() - 1] as int
                == 0x2f;
            &&& path_prefix(prefix) <==> path
            &&& settings_problem(prefix, poll_interval) is None <==> path && poll_interval > 0
            &&& !path ==> settings_problem(prefix, poll_interval) == Some(
                "SSM prefix must start and end with '/'"@,
            )
            &&& path && poll_interval == 0 ==> settings_problem(prefix, poll_interval) == Some(
                "SSM poll interval must be greater than zero"@,
            )
        }),
{
}

/// What reading a document came to is its fields or the messages of the failure.
pub proof fn read_documents_are_kept(raw: RawInstance, error: ConfigError)
    ensures
        document_of(Ok(raw)) == Ok::<RawInstance, Seq<Seq<char>>>(raw),
        document_of(Err(error)) == Err::<RawInstance, Seq<Seq<char>>>(error@),
{
}

/// Where parameters are looked for, and how often, unless configured otherwise.
pub proof fn default_settings()
    ensures
        DEFAULT_PREFIX@ == "/oauthmux/instances/"@,
        DEFAULT_POLL_SECONDS == 60,
        settings_problem(DEFAULT_PREFIX@, DEFAULT_POLL_SECONDS as nat * 1_000_000_000) is None,
{
    reveal_strlit("/oauthmux/instances/");
}

} // verus!
