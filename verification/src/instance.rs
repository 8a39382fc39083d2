//! Self-contained instances: one upstream client together with its downstream policy.

use crate::address::{copy_optional_url, optional_parts, Url, UrlParts};
use crate::instance_laws::instance_in_order;
use crate::key::{ResourceKey, SecretString};
use crate::model::{
    check_policy, check_provider, copy_optional_texts, copy_origins, optional_texts, origin_parts,
    permits_redirect, policy_problem, provider_problem, redirect_permitted, reports, ClientAuth,
    ClientAuthView, Origin,
};
use crate::policy_laws::{
    in_origin, instances_are_judged_by_their_fields, local_target, plain_web_target,
    redirects_by_origins,
};
use crate::text::{copy_texts, texts};
use vstd::prelude::*;

verus! {

/// The address of an instance.
pub type InstanceKey = ResourceKey;

/// The upstream side of an [`Instance`].
pub struct UpstreamSpec {
    pub issuer_url: Url,
    pub authorization_endpoint: Option<Url>,
    pub token_endpoint: Option<Url>,
    pub jwks_uri: Option<Url>,
    pub client_id: String,
    pub client_secret: SecretString,
    pub scopes: Vec<String>,
    pub allowed_scopes: Option<Vec<String>>,
}

/// One upstream client and the policy of the applications behind it.
pub struct Instance {
    pub key: InstanceKey,
    pub upstream: UpstreamSpec,
    pub client_auth: ClientAuth,
    pub allowed_redirect_origins: Vec<Origin>,
    pub default_redirect_uri: Option<Url>,
}

/// The mathematical content of an [`UpstreamSpec`].
pub struct UpstreamSpecView {
    pub issuer_url: UrlParts,
    pub authorization_endpoint: Option<UrlParts>,
    pub token_endpoint: Option<UrlParts>,
    pub jwks_uri: Option<UrlParts>,
    pub client_id: Seq<char>,
    pub client_secret: Seq<char>,
    pub scopes: Seq<Seq<char>>,
    pub allowed_scopes: Option<Seq<Seq<char>>>,
}

/// The mathematical content of an [`Instance`].
pub struct InstanceView {
    pub key: Seq<char>,
    pub upstream: UpstreamSpecView,
    pub client_auth: ClientAuthView,
    pub allowed_redirect_origins: Seq<UrlParts>,
    pub default_redirect_uri: Option<UrlParts>,
}

impl View for UpstreamSpec {
    type V = UpstreamSpecView;

    open spec fn view(&self) -> UpstreamSpecView {
        UpstreamSpecView {
            issuer_url: self.issuer_url@,
            authorization_endpoint: optional_parts(self.authorization_endpoint),
            token_endpoint: optional_parts(self.token_endpoint),
            jwks_uri: optional_parts(self.jwks_uri),
            client_id: self.client_id@,
            client_secret: self.client_secret@,
            scopes: texts(self.scopes@),
            allowed_scopes: optional_texts(self.allowed_scopes),
        }
    }
}

impl View for Instance {
    type V = InstanceView;

    open spec fn view(&self) -> InstanceView {
        InstanceView {
            key: self.key@,
            upstream: self.upstream@,
            client_auth: self.client_auth@,
            allowed_redirect_origins: origin_parts(self.allowed_redirect_origins@),
            default_redirect_uri: optional_parts(self.default_redirect_uri),
        }
    }
}

impl Clone for UpstreamSpec {
    fn clone(&self) -> (copy: UpstreamSpec)
        ensures
            copy@ == self@,
    {
        UpstreamSpec {
            issuer_url: self.issuer_url.clone(),
            authorization_endpoint: copy_optional_url(&self.authorization_endpoint),
            token_endpoint: copy_optional_url(&self.token_endpoint),
            jwks_uri: copy_optional_url(&self.jwks_uri),
            client_id: self.client_id.clone(),
            client_secret: self.client_secret.clone(),
            scopes: copy_texts(&self.scopes),
            allowed_scopes: copy_optional_texts(&self.allowed_scopes),
        }
    }
}

impl Clone for Instance {
    fn clone(&self) -> (copy: Instance)
        ensures
            copy@ == self@,
    {
        Instance {
            key: self.key.clone(),
            upstream: self.upstream.clone(),
            client_auth: self.client_auth.clone(),
            allowed_redirect_origins: copy_origins(&self.allowed_redirect_origins),
            default_redirect_uri: copy_optional_url(&self.default_redirect_uri),
        }
    }
}

/// What is wrong with an instance: first its upstream side, then its policy.
pub open spec fn instance_problem(instance: InstanceView) -> Option<Seq<char>> {
    match provider_problem(
        instance.upstream.issuer_url,
        instance.upstream.authorization_endpoint,
        instance.upstream.token_endpoint,
        instance.upstream.jwks_uri,
        instance.upstream.client_id,
        instance.upstream.client_secret,
    ) {
        Some(problem) => Some(problem),
        None => policy_problem(
            instance.upstream.scopes,
            instance.upstream.allowed_scopes,
            instance.allowed_redirect_origins,
            instance.default_redirect_uri,
            instance.client_auth,
        ),
    }
}

impl Instance {
    /// Whether the instance may send a browser to `redirect`.
    pub fn redirect_allowed(&self, redirect: &Url) -> (yes: bool)
        ensures
            yes == redirect_permitted(self@.allowed_redirect_origins, redirect@),
            yes == (plain_web_target(redirect@) && (local_target(redirect@) || exists|i: int|
                0 <= i < self.allowed_redirect_origins@.len() && in_origin(
                    (#[trigger] self.allowed_redirect_origins@[i])@,
                    redirect@,
                ))),
    {
        proof {
            redirects_by_origins(self.allowed_redirect_origins@, redirect@);
        }
        permits_redirect(&self.allowed_redirect_origins, redirect)
    }

    /// Checks endpoints, credentials, scopes, default redirect and client authentication.
    pub fn validate(&self) -> (result: Result<(), String>)
        ensures
            reports(result, instance_problem(self@)),
            result is Ok <==> instance_in_order(self@),
    {
        proof {
            instances_are_judged_by_their_fields(self@);
        }
        check_provider(
            &self.upstream.issuer_url,
            &self.upstream.authorization_endpoint,
            &self.upstream.token_endpoint,
            &self.upstream.jwks_uri,
            self.upstream.client_id.as_str(),
            &self.upstream.client_secret,
        )?;
        check_policy(
            &self.upstream.scopes,
            &self.upstream.allowed_scopes,
            &self.allowed_redirect_origins,
            &self.default_redirect_uri,
            &self.client_auth,
        )
    }
}

} // verus!
