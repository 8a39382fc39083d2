//! Upstream OAuth clients, the relays in front of them, and what makes either acceptable.

use crate::address::{
    absolute_web_url, copy_optional_url, optional_parts, parsed_url, same_origin, share_origin, Url,
    UrlParts,
};
use crate::document_laws::{relay_in_order, upstream_in_order};
use crate::json::{is_key_set, JsonValue, JsonView};
use crate::key::{ResourceKey, SecretString};
use crate::policy_laws::{
    in_origin, local_target, plain_web_target, printable_token, redirects_by_origins,
    relays_are_judged_by_their_fields, scope_tokens_are_printable,
    upstreams_are_judged_by_their_fields,
};
use crate::text::{chars_of, contains_text, copy_texts, join2, same_text, texts};
use vstd::prelude::*;

verus! {

/// Whether a check's result reports exactly `problem`: nothing when there is none, else its text.
pub open spec fn reports(result: Result<(), String>, problem: Option<Seq<char>>) -> bool {
    match result {
        Ok(()) => problem is None,
        Err(message) => problem == Some(message@),
    }
}

// ---------------------------------------------------------------------------------------------
// Origins
// ---------------------------------------------------------------------------------------------

/// What keeps a URL from being an origin: scheme, host and optional port, nothing else.
pub open spec fn origin_problem(url: UrlParts) -> Option<Seq<char>> {
    if !absolute_web_url(url) {
        Some("must be an http(s) origin"@)
    } else if url.path != "/"@ || url.query is Some || url.fragment is Some {
        Some("must contain only scheme, host, and optional port"@)
    } else if url.username.len() > 0 || url.password is Some {
        Some("must not contain user information"@)
    } else {
        None
    }
}

/// What a text means as an origin, or why it is none.
pub open spec fn parsed_origin(text: Seq<char>) -> Result<UrlParts, Seq<char>> {
    match parsed_url(text) {
        Err(message) => Err(message),
        Ok(url) => match origin_problem(url) {
            Some(problem) => Err(problem),
            None => Ok(url),
        },
    }
}

/// An origin that redirects may lead to.
#[derive(Debug, Eq, PartialEq)]
pub struct Origin(Url);

impl View for Origin {
    type V = UrlParts;

    closed spec fn view(&self) -> UrlParts {
        self.0@
    }
}

/// The contents of a list of origins.
pub open spec fn origin_parts(origins: Seq<Origin>) -> Seq<UrlParts> {
    origins.map_values(|origin: Origin| origin@)
}

impl Origin {
    #[verifier::type_invariant]
    closed spec fn well_formed(self) -> bool {
        origin_problem(self.0@) is None
    }

    /// Takes a parsed URL as an origin, if it is one.
    pub fn from_url(url: Url) -> (origin: Result<Origin, String>)
        ensures
            match origin {
                Ok(origin) => origin_problem(url@) is None && origin@ == url@,
                Err(message) => origin_problem(url@) == Some(message@),
            },
    {
        if !url.is_absolute_web_url() {
            return Err("must be an http(s) origin".to_owned());
        }
        if !same_text(url.path.as_str(), "/") || url.query.is_some() || url.fragment.is_some() {
            return Err("must contain only scheme, host, and optional port".to_owned());
        }
        if !url.username.as_str().is_empty() || url.password.is_some() {
            return Err("must not contain user information".to_owned());
        }
        Ok(Origin(url))
    }

    /// Parses `value` as an origin.
    pub fn parse(value: &str) -> (origin: Result<Origin, String>)
        ensures
            match origin {
                Ok(origin) => parsed_origin(value@) == Ok::<UrlParts, Seq<char>>(origin@),
                Err(message) => parsed_origin(value@) == Err::<UrlParts, Seq<char>>(message@),
            },
    {
        match Url::parse(value) {
            Ok(url) => Origin::from_url(url),
            Err(message) => Err(message),
        }
    }

    /// The URL of the origin: scheme, host and port alone.
    pub fn url(&self) -> (url: &Url)
        ensures
            url@ == self@,
            origin_problem(self@) is None,
    {
        proof {
            use_type_invariant(self);
        }
        &self.0
    }

    /// Whether `other` lies within this origin.
    pub fn matches(&self, other: &Url) -> (yes: bool)
        ensures
            yes == share_origin(self@, other@),
    {
        same_origin(&self.0, other)
    }
}

impl Clone for Origin {
    fn clone(&self) -> (copy: Origin)
        ensures
            copy@ == self@,
    {
        proof {
            use_type_invariant(self);
        }
        Origin(self.0.clone())
    }
}

pub(crate) fn copy_origins(origins: &Vec<Origin>) -> (copy: Vec<Origin>)
    ensures
        origin_parts(copy@) == origin_parts(origins@),
{
    let mut copy: Vec<Origin> = Vec::new();
    for i in 0..origins.len()
        invariant
            copy@.len() == i,
            forall|j: int| 0 <= j < i ==> (#[trigger] copy@[j])@ == origins@[j]@,
    {
        copy.push(origins[i].clone());
    }
    assert(origin_parts(copy@) =~= origin_parts(origins@));
    copy
}

// ---------------------------------------------------------------------------------------------
// Redirect policy
// ---------------------------------------------------------------------------------------------

/// Whether the URL leads to the local machine over plain http: by name, by its IPv4 address, or by
/// its IPv6 address, which a URL writes in brackets.
pub open spec fn loopback(url: UrlParts) -> bool {
    &&& url.scheme == "http"@
    &&& url.host == Some("localhost"@) || url.host == Some("127.0.0.1"@) || url.host == Some(
        "[::1]"@,
    )
}

/// Whether a redirect may lead to `url` when `origins` are allowed: an absolute http(s) URL
/// without fragment and user information, on the local machine or within an allowed origin.
pub open spec fn redirect_permitted(origins: Seq<UrlParts>, url: UrlParts) -> bool {
    &&& absolute_web_url(url)
    &&& url.fragment is None
    &&& url.username.len() == 0
    &&& url.password is None
    &&& loopback(url) || exists|i: int|
        0 <= i < origins.len() && share_origin(#[trigger] origins[i], url)
}

fn is_loopback(url: &Url) -> (yes: bool)
    ensures
        yes == loopback(url@),
{
    same_text(url.scheme.as_str(), "http") && match &url.host {
        Some(host) => same_text(host.as_str(), "localhost") || same_text(
            host.as_str(),
            "127.0.0.1",
        ) || same_text(host.as_str(), "[::1]"),
        None => false,
    }
}

pub(crate) fn permits_redirect(origins: &Vec<Origin>, redirect: &Url) -> (yes: bool)
    ensures
        yes == redirect_permitted(origin_parts(origins@), redirect@),
{
    if !redirect.is_absolute_web_url() || redirect.fragment.is_some()
        || !redirect.username.as_str().is_empty() || redirect.password.is_some() {
        return false;
    }
    is_loopback(redirect) || any_origin_matches(origins, redirect)
}

fn any_origin_matches(origins: &Vec<Origin>, url: &Url) -> (yes: bool)
    ensures
        yes == exists|i: int|
            0 <= i < origins@.len() && share_origin(#[trigger] origin_parts(origins@)[i], url@),
{
    for i in 0..origins.len()
        invariant
            forall|j: int|
                0 <= j < i ==> !share_origin(#[trigger] origin_parts(origins@)[j], url@),
    {
        assert(origin_parts(origins@)[i as int] == origins@[i as int]@);
        if origins[i].matches(url) {
            return true;
        }
    }
    false
}

// ---------------------------------------------------------------------------------------------
// Scopes
// ---------------------------------------------------------------------------------------------

/// Whether `c` may stand in an RFC 6749 scope token.
pub open spec fn scope_char(c: char) -> bool {
    c == '\x21' || '\x23' <= c <= '\x5b' || '\x5d' <= c <= '\x7e'
}

/// Whether `scope` is an RFC 6749 scope token.
pub open spec fn scope_token(scope: Seq<char>) -> bool {
    &&& scope.len() > 0
    &&& forall|i: int| 0 <= i < scope.len() ==> scope_char(#[trigger] scope[i])
}

/// What is wrong with the first entry of `scopes` that is no token or repeats an earlier one.
pub open spec fn scope_list_problem(
    scopes: Seq<Seq<char>>,
    invalid: Seq<char>,
    duplicate: Seq<char>,
) -> Option<Seq<char>>
    decreases scopes.len(),
{
    if scopes.len() == 0 {
        None
    } else {
        match scope_list_problem(scopes.drop_last(), invalid, duplicate) {
            Some(problem) => Some(problem),
            None => if !scope_token(scopes.last()) {
                Some(invalid)
            } else if scopes.drop_last().contains(scopes.last()) {
                Some(duplicate)
            } else {
                None
            },
        }
    }
}

/// Whether every entry of `scopes` is one of `allowed`.
pub open spec fn within(scopes: Seq<Seq<char>>, allowed: Seq<Seq<char>>) -> bool {
    forall|i: int| 0 <= i < scopes.len() ==> allowed.contains(#[trigger] scopes[i])
}

/// What is wrong with a pair of default scopes and, optionally, allowed scopes.
pub open spec fn scope_problem(
    scopes: Seq<Seq<char>>,
    allowed: Option<Seq<Seq<char>>>,
) -> Option<Seq<char>> {
    match scope_list_problem(
        scopes,
        "scopes.default must contain valid RFC 6749 scope tokens"@,
        "scopes.default must not contain duplicates"@,
    ) {
        Some(problem) => Some(problem),
        None => match allowed {
            None => None,
            Some(allowed) => match scope_list_problem(
                allowed,
                "scopes.allowed must contain valid RFC 6749 scope tokens"@,
                "scopes.allowed must not contain duplicates"@,
            ) {
                Some(problem) => Some(problem),
                None => if within(scopes, allowed) {
                    None
                } else {
                    Some("scopes.default must be contained in scopes.allowed"@)
                },
            },
        },
    }
}

/// The texts of an optional list of strings.
pub open spec fn optional_texts(list: Option<Vec<String>>) -> Option<Seq<Seq<char>>> {
    match list {
        Some(list) => Some(texts(list@)),
        None => None,
    }
}

pub(crate) fn copy_optional_texts(list: &Option<Vec<String>>) -> (copy: Option<Vec<String>>)
    ensures
        optional_texts(copy) == optional_texts(*list),
{
    match list {
        Some(list) => Some(copy_texts(list)),
        None => None,
    }
}

/// Whether `scope` is an RFC 6749 scope token.
pub fn valid_scope_token(scope: &str) -> (yes: bool)
    ensures
        yes == scope_token(scope@),
        yes == printable_token(scope@),
{
    proof {
        scope_tokens_are_printable(scope@);
    }
    let chars: Vec<char> = chars_of(scope);
    if chars.len() == 0 {
        return false;
    }
    for i in 0..chars.len()
        invariant
            chars@ == scope@,
            forall|j: int| 0 <= j < i ==> scope_char(#[trigger] scope@[j]),
    {
        let c: char = chars[i];
        if !(c == '\x21' || ('\x23' <= c && c <= '\x5b') || ('\x5d' <= c && c <= '\x7e')) {
            assert(!scope_char(scope@[i as int]));
            return false;
        }
    }
    true
}

fn check_scope_list(scopes: &Vec<String>, invalid: &str, duplicate: &str) -> (result: Result<
    (),
    String,
>)
    ensures
        reports(result, scope_list_problem(texts(scopes@), invalid@, duplicate@)),
{
    let ghost all = texts(scopes@);
    let mut seen: Vec<String> = Vec::new();
    for i in 0..scopes.len()
        invariant
            all == texts(scopes@),
            texts(seen@) == all.take(i as int),
            scope_list_problem(all.take(i as int), invalid@, duplicate@) is None,
    {
        proof {
            assert(all.take(i + 1).drop_last() =~= all.take(i as int));
            assert(all.take(i + 1).last() == scopes@[i as int]@);
        }
        if !valid_scope_token(scopes[i].as_str()) {
            proof {
                lemma_scope_problem_of_prefix(all, i + 1, invalid@, duplicate@);
            }
            return Err(invalid.to_owned());
        }
        if contains_text(&seen, scopes[i].as_str()) {
            proof {
                lemma_scope_problem_of_prefix(all, i + 1, invalid@, duplicate@);
            }
            return Err(duplicate.to_owned());
        }
        let ghost before = seen@;
        seen.push(scopes[i].clone());
        assert(texts(seen@) =~= texts(before).push(scopes@[i as int]@));
        assert(all.take(i + 1) =~= all.take(i as int).push(all[i as int]));
    }
    assert(all.take(scopes@.len() as int) =~= all);
    Ok(())
}

/// The problem of a prefix is the problem of the whole list.
proof fn lemma_scope_problem_of_prefix(
    scopes: Seq<Seq<char>>,
    n: int,
    invalid: Seq<char>,
    duplicate: Seq<char>,
)
    requires
        0 <= n <= scopes.len(),
        scope_list_problem(scopes.take(n), invalid, duplicate) is Some,
    ensures
        scope_list_problem(scopes, invalid, duplicate) == scope_list_problem(
            scopes.take(n),
            invalid,
            duplicate,
        ),
    decreases scopes.len() - n,
{
    if n == scopes.len() {
        assert(scopes.take(n) =~= scopes);
    } else {
        assert(scopes.take(n + 1).drop_last() =~= scopes.take(n));
        lemma_scope_problem_of_prefix(scopes, n + 1, invalid, duplicate);
    }
}

fn all_within(scopes: &Vec<String>, allowed: &Vec<String>) -> (yes: bool)
    ensures
        yes == within(texts(scopes@), texts(allowed@)),
{
    for i in 0..scopes.len()
        invariant
            forall|j: int| 0 <= j < i ==> texts(allowed@).contains(#[trigger] texts(scopes@)[j]),
    {
        if !contains_text(allowed, scopes[i].as_str()) {
            assert(!texts(allowed@).contains(texts(scopes@)[i as int]));
            return false;
        }
    }
    true
}

fn check_scopes(scopes: &Vec<String>, allowed: &Option<Vec<String>>) -> (result: Result<(), String>)
    ensures
        reports(result, scope_problem(texts(scopes@), optional_texts(*allowed))),
{
    check_scope_list(
        scopes,
        "scopes.default must contain valid RFC 6749 scope tokens",
        "scopes.default must not contain duplicates",
    )?;
    if let Some(allowed) = allowed {
        check_scope_list(
            allowed,
            "scopes.allowed must contain valid RFC 6749 scope tokens",
            "scopes.allowed must not contain duplicates",
        )?;
        if !all_within(scopes, allowed) {
            return Err("scopes.default must be contained in scopes.allowed".to_owned());
        }
    }
    Ok(())
}

// ---------------------------------------------------------------------------------------------
// Client authentication
// ---------------------------------------------------------------------------------------------

/// Where the public keys of a client come from.
#[derive(Debug)]
pub enum ClientJwks {
    Url(Url),
    Inline(JsonValue),
}

/// How an application authenticates to the token endpoint.
pub enum ClientAuth {
    /// With the credentials of the upstream client.
    UpstreamClient,
    /// Not at all: a public client, which has to use PKCE.
    Public,
    /// With a shared secret.
    ClientSecret { client_id: String, client_secret: SecretString },
    /// With a signed assertion.
    PrivateKeyJwt { client_id: String, jwks: ClientJwks },
}

/// The mathematical content of [`ClientJwks`].
pub enum ClientJwksView {
    Url(UrlParts),
    Inline(JsonView),
}

/// The mathematical content of [`ClientAuth`].
pub enum ClientAuthView {
    UpstreamClient,
    Public,
    ClientSecret { client_id: Seq<char>, client_secret: Seq<char> },
    PrivateKeyJwt { client_id: Seq<char>, jwks: ClientJwksView },
}

impl View for ClientJwks {
    type V = ClientJwksView;

    open spec fn view(&self) -> ClientJwksView {
        match *self {
            ClientJwks::Url(url) => ClientJwksView::Url(url@),
            ClientJwks::Inline(value) => ClientJwksView::Inline(value@),
        }
    }
}

impl View for ClientAuth {
    type V = ClientAuthView;

    open spec fn view(&self) -> ClientAuthView {
        match *self {
            ClientAuth::UpstreamClient => ClientAuthView::UpstreamClient,
            ClientAuth::Public => ClientAuthView::Public,
            ClientAuth::ClientSecret { client_id, client_secret } => ClientAuthView::ClientSecret {
                client_id: client_id@,
                client_secret: client_secret@,
            },
            ClientAuth::PrivateKeyJwt { client_id, jwks } => ClientAuthView::PrivateKeyJwt {
                client_id: client_id@,
                jwks: jwks@,
            },
        }
    }
}

impl Clone for ClientJwks {
    fn clone(&self) -> (copy: ClientJwks)
        ensures
            copy@ == self@,
    {
        match self {
            ClientJwks::Url(url) => ClientJwks::Url(url.clone()),
            ClientJwks::Inline(value) => ClientJwks::Inline(value.clone()),
        }
    }
}

impl Clone for ClientAuth {
    fn clone(&self) -> (copy: ClientAuth)
        ensures
            copy@ == self@,
    {
        match self {
            ClientAuth::UpstreamClient => ClientAuth::UpstreamClient,
            ClientAuth::Public => ClientAuth::Public,
            ClientAuth::ClientSecret { client_id, client_secret } => ClientAuth::ClientSecret {
                client_id: client_id.clone(),
                client_secret: client_secret.clone(),
            },
            ClientAuth::PrivateKeyJwt { client_id, jwks } => ClientAuth::PrivateKeyJwt {
                client_id: client_id.clone(),
                jwks: jwks.clone(),
            },
        }
    }
}

/// What is wrong with a way to authenticate.
pub open spec fn client_auth_problem(auth: ClientAuthView) -> Option<Seq<char>> {
    match auth {
        ClientAuthView::UpstreamClient => None,
        ClientAuthView::Public => None,
        ClientAuthView::ClientSecret { client_id, client_secret } => if client_id.len() == 0
            || client_secret.len() == 0 {
            Some("clientAuthentication credentials must not be empty"@)
        } else {
            None
        },
        ClientAuthView::PrivateKeyJwt { client_id, jwks } => if client_id.len() == 0 {
            Some("clientAuthentication.clientId must not be empty"@)
        } else {
            match jwks {
                ClientJwksView::Url(url) => if absolute_web_url(url) {
                    None
                } else {
                    Some("clientAuthentication.jwks must be an absolute http(s) URL"@)
                },
                ClientJwksView::Inline(value) => if is_key_set(value) {
                    None
                } else {
                    Some("clientAuthentication.jwks must contain a non-empty keys array"@)
                },
            }
        },
    }
}

fn check_client_auth(auth: &ClientAuth) -> (result: Result<(), String>)
    ensures
        reports(result, client_auth_problem(auth@)),
{
    match auth {
        ClientAuth::UpstreamClient => Ok(()),
        ClientAuth::Public => Ok(()),
        ClientAuth::ClientSecret { client_id, client_secret } => {
            if client_id.as_str().is_empty() || client_secret.expose().is_empty() {
                Err("clientAuthentication credentials must not be empty".to_owned())
            } else {
                Ok(())
            }
        },
        ClientAuth::PrivateKeyJwt { client_id, jwks } => {
            if client_id.as_str().is_empty() {
                return Err("clientAuthentication.clientId must not be empty".to_owned());
            }
            match jwks {
                ClientJwks::Url(url) => {
                    if url.is_absolute_web_url() {
                        Ok(())
                    } else {
                        Err(
                            "clientAuthentication.jwks must be an absolute http(s) URL".to_owned(),
                        )
                    }
                },
                ClientJwks::Inline(value) => {
                    if value.has_keys() {
                        Ok(())
                    } else {
                        Err(
                            "clientAuthentication.jwks must contain a non-empty keys array".to_owned(),
                        )
                    }
                },
            }
        },
    }
}

// ---------------------------------------------------------------------------------------------
// Upstreams
// ---------------------------------------------------------------------------------------------

/// An OAuth client at an external provider.
pub struct Upstream {
    pub key: ResourceKey,
    pub issuer_url: Url,
    pub authorization_endpoint: Option<Url>,
    pub token_endpoint: Option<Url>,
    pub jwks_uri: Option<Url>,
    pub client_id: String,
    pub client_secret: SecretString,
}

/// The mathematical content of an [`Upstream`].
pub struct UpstreamView {
    pub key: Seq<char>,
    pub issuer_url: UrlParts,
    pub authorization_endpoint: Option<UrlParts>,
    pub token_endpoint: Option<UrlParts>,
    pub jwks_uri: Option<UrlParts>,
    pub client_id: Seq<char>,
    pub client_secret: Seq<char>,
}

impl View for Upstream {
    type V = UpstreamView;

    open spec fn view(&self) -> UpstreamView {
        UpstreamView {
            key: self.key@,
            issuer_url: self.issuer_url@,
            authorization_endpoint: optional_parts(self.authorization_endpoint),
            token_endpoint: optional_parts(self.token_endpoint),
            jwks_uri: optional_parts(self.jwks_uri),
            client_id: self.client_id@,
            client_secret: self.client_secret@,
        }
    }
}

impl Clone for Upstream {
    fn clone(&self) -> (copy: Upstream)
        ensures
            copy@ == self@,
    {
        Upstream {
            key: self.key.clone(),
            issuer_url: self.issuer_url.clone(),
            authorization_endpoint: copy_optional_url(&self.authorization_endpoint),
            token_endpoint: copy_optional_url(&self.token_endpoint),
            jwks_uri: copy_optional_url(&self.jwks_uri),
            client_id: self.client_id.clone(),
            client_secret: self.client_secret.clone(),
        }
    }
}

/// Whether an optional endpoint is absent or an absolute http(s) URL.
pub open spec fn endpoint_fits(url: Option<UrlParts>) -> bool {
    url matches Some(url) ==> absolute_web_url(url)
}

/// What is wrong with the provider endpoints and credentials of a client.
pub open spec fn provider_problem(
    issuer_url: UrlParts,
    authorization_endpoint: Option<UrlParts>,
    token_endpoint: Option<UrlParts>,
    jwks_uri: Option<UrlParts>,
    client_id: Seq<char>,
    client_secret: Seq<char>,
) -> Option<Seq<char>> {
    if !absolute_web_url(issuer_url) {
        Some("issuer_url"@ + " must be an absolute http(s) URL"@)
    } else if !endpoint_fits(authorization_endpoint) {
        Some("authorization_endpoint"@ + " must be an absolute http(s) URL"@)
    } else if !endpoint_fits(token_endpoint) {
        Some("token_endpoint"@ + " must be an absolute http(s) URL"@)
    } else if !endpoint_fits(jwks_uri) {
        Some("jwks_uri"@ + " must be an absolute http(s) URL"@)
    } else if client_id.len() == 0 {
        Some("client_id must not be empty"@)
    } else if client_secret.len() == 0 {
        Some("client_secret must not be empty"@)
    } else {
        None
    }
}

/// What is wrong with an upstream.
pub open spec fn upstream_problem(upstream: UpstreamView) -> Option<Seq<char>> {
    provider_problem(
        upstream.issuer_url,
        upstream.authorization_endpoint,
        upstream.token_endpoint,
        upstream.jwks_uri,
        upstream.client_id,
        upstream.client_secret,
    )
}

fn fits_endpoint(url: &Option<Url>) -> (yes: bool)
    ensures
        yes == endpoint_fits(optional_parts(*url)),
{
    match url {
        Some(url) => url.is_absolute_web_url(),
        None => true,
    }
}

pub(crate) fn check_provider(
    issuer_url: &Url,
    authorization_endpoint: &Option<Url>,
    token_endpoint: &Option<Url>,
    jwks_uri: &Option<Url>,
    client_id: &str,
    client_secret: &SecretString,
) -> (result: Result<(), String>)
    ensures
        reports(
            result,
            provider_problem(
                issuer_url@,
                optional_parts(*authorization_endpoint),
                optional_parts(*token_endpoint),
                optional_parts(*jwks_uri),
                client_id@,
                client_secret@,
            ),
        ),
{
    if !issuer_url.is_absolute_web_url() {
        return Err(join2("issuer_url", " must be an absolute http(s) URL"));
    }
    if !fits_endpoint(authorization_endpoint) {
        return Err(join2("authorization_endpoint", " must be an absolute http(s) URL"));
    }
    if !fits_endpoint(token_endpoint) {
        return Err(join2("token_endpoint", " must be an absolute http(s) URL"));
    }
    if !fits_endpoint(jwks_uri) {
        return Err(join2("jwks_uri", " must be an absolute http(s) URL"));
    }
    if client_id.is_empty() {
        return Err("client_id must not be empty".to_owned());
    }
    if client_secret.expose().is_empty() {
        return Err("client_secret must not be empty".to_owned());
    }
    Ok(())
}

impl Upstream {
    /// Checks the endpoints and credentials.
    pub fn validate(&self) -> (result: Result<(), String>)
        ensures
            reports(result, upstream_problem(self@)),
            result is Ok <==> upstream_in_order(self@),
    {
        proof {
            upstreams_are_judged_by_their_fields(self@);
        }
        check_provider(
            &self.issuer_url,
            &self.authorization_endpoint,
            &self.token_endpoint,
            &self.jwks_uri,
            self.client_id.as_str(),
            &self.client_secret,
        )
    }
}

// ---------------------------------------------------------------------------------------------
// Relays
// ---------------------------------------------------------------------------------------------

/// A downstream face of an upstream: authentication, scopes and redirect policy.
pub struct Relay {
    pub key: ResourceKey,
    pub upstream: ResourceKey,
    pub client_auth: ClientAuth,
    pub scopes: Vec<String>,
    pub allowed_scopes: Option<Vec<String>>,
    pub allowed_redirect_origins: Vec<Origin>,
    pub default_redirect_uri: Option<Url>,
}

/// The mathematical content of a [`Relay`].
pub struct RelayView {
    pub key: Seq<char>,
    pub upstream: Seq<char>,
    pub client_auth: ClientAuthView,
    pub scopes: Seq<Seq<char>>,
    pub allowed_scopes: Option<Seq<Seq<char>>>,
    pub allowed_redirect_origins: Seq<UrlParts>,
    pub default_redirect_uri: Option<UrlParts>,
}

impl View for Relay {
    type V = RelayView;

    open spec fn view(&self) -> RelayView {
        RelayView {
            key: self.key@,
            upstream: self.upstream@,
            client_auth: self.client_auth@,
            scopes: texts(self.scopes@),
            allowed_scopes: optional_texts(self.allowed_scopes),
            allowed_redirect_origins: origin_parts(self.allowed_redirect_origins@),
            default_redirect_uri: optional_parts(self.default_redirect_uri),
        }
    }
}

impl Clone for Relay {
    fn clone(&self) -> (copy: Relay)
        ensures
            copy@ == self@,
    {
        Relay {
            key: self.key.clone(),
            upstream: self.upstream.clone(),
            client_auth: self.client_auth.clone(),
            scopes: copy_texts(&self.scopes),
            allowed_scopes: copy_optional_texts(&self.allowed_scopes),
            allowed_redirect_origins: copy_origins(&self.allowed_redirect_origins),
            default_redirect_uri: copy_optional_url(&self.default_redirect_uri),
        }
    }
}

/// What is wrong with the policy of a client: scopes, default redirect, authentication.
pub open spec fn policy_problem(
    scopes: Seq<Seq<char>>,
    allowed_scopes: Option<Seq<Seq<char>>>,
    origins: Seq<UrlParts>,
    default_redirect_uri: Option<UrlParts>,
    client_auth: ClientAuthView,
) -> Option<Seq<char>> {
    match scope_problem(scopes, allowed_scopes) {
        Some(problem) => Some(problem),
        None => if default_redirect_uri matches Some(url) && !redirect_permitted(origins, url) {
            Some("default_redirect_uri origin is not allowed"@)
        } else {
            client_auth_problem(client_auth)
        },
    }
}

/// What is wrong with a relay.
pub open spec fn relay_problem(relay: RelayView) -> Option<Seq<char>> {
    policy_problem(
        relay.scopes,
        relay.allowed_scopes,
        relay.allowed_redirect_origins,
        relay.default_redirect_uri,
        relay.client_auth,
    )
}

pub(crate) fn check_policy(
    scopes: &Vec<String>,
    allowed_scopes: &Option<Vec<String>>,
    origins: &Vec<Origin>,
    default_redirect_uri: &Option<Url>,
    client_auth: &ClientAuth,
) -> (result: Result<(), String>)
    ensures
        reports(
            result,
            policy_problem(
                texts(scopes@),
                optional_texts(*allowed_scopes),
                origin_parts(origins@),
                optional_parts(*default_redirect_uri),
                client_auth@,
            ),
        ),
{
    check_scopes(scopes, allowed_scopes)?;
    if let Some(default) = default_redirect_uri {
        if !permits_redirect(origins, default) {
            return Err("default_redirect_uri origin is not allowed".to_owned());
        }
    }
    check_client_auth(client_auth)
}

impl Relay {
    /// Whether the relay may send a browser to `redirect`.
    pub fn redirect_allowed(&self, redirect: &Url) -> (yes: bool)
        ensures
            yes == redirect_permitted(self@.allowed_redirect_origins, redirect@),
            yes == (plain_web_target(redirect@) && (local_target(redirect@) || exists|i: int|
                0 <= i < self.allowed_redirect_origins@.len() && in_origin(
                    (#[trigger] self.allowed_redirect_origins@[i])@,
                    redirect@,
                ))),
    {
        proof {
            redirects_by_origins(self.allowed_redirect_origins@, redirect@);
        }
        permits_redirect(&self.allowed_redirect_origins, redirect)
    }

    /// Checks scopes, default redirect and client authentication.
    pub fn validate(&self) -> (result: Result<(), String>)
        ensures
            reports(result, relay_problem(self@)),
            result is Ok <==> relay_in_order(self@),
    {
        proof {
            relays_are_judged_by_their_fields(self@);
        }
        check_policy(
            &self.scopes,
            &self.allowed_scopes,
            &self.allowed_redirect_origins,
            &self.default_redirect_uri,
            &self.client_auth,
        )
    }
}

} // verus!
