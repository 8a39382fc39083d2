//! What redirect and scope policies promise of every client.

use crate::address::{
    origins_are_scheme_host_and_port, parsed_url, same_name, share_origin, Url, UrlParts,
};
use crate::instance::{instance_problem, Instance, InstanceView};
use crate::json::{key_sets_have_keys, JsonValue, JsonView};
use crate::key::SecretString;
use crate::model::{
    client_auth_problem, loopback, origin_parts, origin_problem, parsed_origin, provider_problem,
    redirect_permitted, relay_problem, reports, scope_char, scope_list_problem, scope_problem,
    scope_token, upstream_problem, within, ClientAuth, ClientAuthView, ClientJwks, ClientJwksView,
    Origin, Relay, RelayView, Upstream, UpstreamView,
};
use vstd::prelude::*;

verus! {

// ---------------------------------------------------------------------------------------------
// Redirects
// ---------------------------------------------------------------------------------------------

/// The local machine is always a redirect target over http, whatever origins are allowed, as long
/// as the URL carries neither fragment nor user information.
pub proof fn loopback_redirects_are_always_allowed(origins: Seq<UrlParts>, url: UrlParts)
    requires
        loopback(url),
        url.fragment is None,
        url.username.len() == 0,
        url.password is None,
    ensures
        redirect_permitted(origins, url),
{
}

/// Away from the local machine only the allowed origins are redirect targets: an URL that shares
/// its origin with none of them is refused.
pub proof fn foreign_origins_are_refused(origins: Seq<UrlParts>, url: UrlParts)
    requires
        !loopback(url),
        forall|i: int| 0 <= i < origins.len() ==> !share_origin(#[trigger] origins[i], url),
    ensures
        !redirect_permitted(origins, url),
{
}

/// No redirect target carries a fragment or user information.
pub proof fn redirects_carry_no_fragment_or_user(origins: Seq<UrlParts>, url: UrlParts)
    requires
        url.fragment is Some || url.username.len() > 0 || url.password is Some,
    ensures
        !redirect_permitted(origins, url),
{
}

/// An allowed origin is itself a redirect target.
pub proof fn allowed_origins_admit_themselves(origins: Seq<UrlParts>, origin: UrlParts)
    requires
        origin_problem(origin) is None,
        origins.contains(origin),
    ensures
        redirect_permitted(origins, origin),
{
    let i = choose|i: int| 0 <= i < origins.len() && origins[i] == origin;
    assert(share_origin(origins[i], origin));
}

/// Allowing further origins takes no redirect target away.
pub proof fn further_origins_take_nothing_away(
    origins: Seq<UrlParts>,
    further: Seq<UrlParts>,
    url: UrlParts,
)
    requires
        redirect_permitted(origins, url),
    ensures
        redirect_permitted(origins + further, url),
        redirect_permitted(further + origins, url),
{
    if !loopback(url) {
        let i = choose|i: int|
            0 <= i < origins.len() && share_origin(#[trigger] origins[i], url);
        assert((origins + further)[i] == origins[i]);
        assert((further + origins)[further.len() + i] == origins[i]);
    }
}

/// The default redirect of a relay that passes validation is one of its redirect targets.
pub proof fn default_redirects_of_relays_are_allowed(relay: RelayView, url: UrlParts)
    requires
        relay_problem(relay) is None,
        relay.default_redirect_uri == Some(url),
    ensures
        redirect_permitted(relay.allowed_redirect_origins, url),
{
}

/// The default redirect of an instance that passes validation is one of its redirect targets.
pub proof fn default_redirects_of_instances_are_allowed(instance: InstanceView, url: UrlParts)
    requires
        instance_problem(instance) is None,
        instance.default_redirect_uri == Some(url),
    ensures
        redirect_permitted(instance.allowed_redirect_origins, url),
{
}

// ---------------------------------------------------------------------------------------------
// Scopes
// ---------------------------------------------------------------------------------------------

/// A list of distinct RFC 6749 scope tokens.
pub open spec fn scope_set(scopes: Seq<Seq<char>>) -> bool {
    &&& forall|i: int| 0 <= i < scopes.len() ==> scope_token(#[trigger] scopes[i])
    &&& scopes.no_duplicates()
}

proof fn lemma_scope_set(scopes: Seq<Seq<char>>, invalid: Seq<char>, duplicate: Seq<char>)
    ensures
        scope_list_problem(scopes, invalid, duplicate) is None <==> scope_set(scopes),
    decreases scopes.len(),
{
    if scopes.len() > 0 {
        let earlier = scopes.drop_last();
        let last = scopes.len() - 1;
        lemma_scope_set(earlier, invalid, duplicate);
        if scope_set(scopes) {
            assert forall|i: int| 0 <= i < earlier.len() implies scope_token(
                #[trigger] earlier[i],
            ) by {
                assert(scope_token(scopes[i]));
            }
            assert(scope_token(scopes[last]));
            assert(!earlier.contains(scopes.last()));
        }
        if scope_list_problem(scopes, invalid, duplicate) is None {
            assert forall|i: int, j: int|
                0 <= i < scopes.len() && 0 <= j < scopes.len() && i != j implies scopes[i]
                != scopes[j] by {
                if i < last && j < last {
                    assert(earlier[i] != earlier[j]);
                } else if i == last {
                    assert(earlier[j] != scopes.last());
                } else {
                    assert(earlier[i] != scopes.last());
                }
            }
            assert forall|i: int| 0 <= i < scopes.len() implies scope_token(
                #[trigger] scopes[i],
            ) by {
                if i < last {
                    assert(scope_token(earlier[i]));
                }
            }
        }
    }
}

/// Scopes are accepted exactly when the defaults are distinct tokens and, where allowed scopes are
/// given, these are distinct tokens too and hold every default.
pub proof fn accepted_scopes(scopes: Seq<Seq<char>>, allowed: Option<Seq<Seq<char>>>)
    ensures
        scope_problem(scopes, allowed) is None <==> scope_set(scopes) && (match allowed {
            None => true,
            Some(allowed) => scope_set(allowed) && within(scopes, allowed),
        }),
{
    lemma_scope_set(
        scopes,
        "scopes.default must contain valid RFC 6749 scope tokens"@,
        "scopes.default must not contain duplicates"@,
    );
    if let Some(allowed) = allowed {
        lemma_scope_set(
            allowed,
            "scopes.allowed must contain valid RFC 6749 scope tokens"@,
            "scopes.allowed must not contain duplicates"@,
        );
    }
}

// ---------------------------------------------------------------------------------------------
// Answers by fields
// ---------------------------------------------------------------------------------------------

/// Whether a URL is one that a browser may be sent to at all: http or https, with a host, without
/// fragment and user information.
pub open spec fn plain_web_target(url: UrlParts) -> bool {
    &&& url.scheme == "http"@ || url.scheme == "https"@
    &&& url.host is Some
    &&& url.fragment is None
    &&& url.username == Seq::<char>::empty()
    &&& url.password is None
}

/// Whether a URL leads to the local machine: http to one of its three names.
pub open spec fn local_target(url: UrlParts) -> bool {
    &&& url.scheme == "http"@
    &&& url.host matches Some(host) && (host == "localhost"@ || host == "127.0.0.1"@ || host
        == "[::1]"@)
}

/// Whether scheme, port and host of a URL are those of `origin`.
pub open spec fn in_origin(origin: UrlParts, url: UrlParts) -> bool {
    &&& origin.scheme == url.scheme
    &&& origin.port == url.port
    &&& origin.host matches Some(h) && url.host matches Some(k) && same_name(h, k)
}

/// A redirect is allowed exactly when its target is a plain web URL that leads to the local machine
/// or has scheme, host and port of one of the allowed origins.
pub proof fn redirects_are_decided_by_origin(origins: Seq<UrlParts>, url: UrlParts)
    ensures
        redirect_permitted(origins, url) <==> plain_web_target(url) && (local_target(url)
            || exists|i: int| 0 <= i < origins.len() && in_origin(#[trigger] origins[i], url)),
{
    assert(url.username.len() == 0 <==> url.username =~= Seq::<char>::empty());
    assert forall|i: int| 0 <= i < origins.len() && url.host is Some implies share_origin(
        #[trigger] origins[i],
        url,
    ) == in_origin(origins[i], url) by {
        origins_are_scheme_host_and_port(origins[i], url);
    }
    if redirect_permitted(origins, url) && !local_target(url) {
        let i = choose|i: int| 0 <= i < origins.len() && share_origin(#[trigger] origins[i], url);
        assert(in_origin(origins[i], url));
    }
    if plain_web_target(url) && exists|i: int|
        0 <= i < origins.len() && in_origin(#[trigger] origins[i], url) {
        let i = choose|i: int| 0 <= i < origins.len() && in_origin(#[trigger] origins[i], url);
        assert(share_origin(origins[i], url));
    }
}

/// The same for origins as a client holds them.
pub proof fn redirects_by_origins(origins: Seq<Origin>, url: UrlParts)
    ensures
        redirect_permitted(origin_parts(origins), url) <==> plain_web_target(url) && (local_target(url)
            || exists|i: int| 0 <= i < origins.len() && in_origin((#[trigger] origins[i])@, url)),
{
    let parts = origin_parts(origins);
    redirects_are_decided_by_origin(parts, url);
    if exists|i: int| 0 <= i < parts.len() && in_origin(#[trigger] parts[i], url) {
        let i = choose|i: int| 0 <= i < parts.len() && in_origin(#[trigger] parts[i], url);
        assert(in_origin(origins[i]@, url));
    }
    if exists|i: int| 0 <= i < origins.len() && in_origin((#[trigger] origins[i])@, url) {
        let i = choose|i: int| 0 <= i < origins.len() && in_origin((#[trigger] origins[i])@, url);
        assert(in_origin(parts[i], url));
    }
}

/// Whatever the path and query of a plain web URL are, a redirect to it is allowed when its scheme,
/// host and port are those of an allowed origin.
pub proof fn whole_origins_are_allowed(
    origins: Seq<UrlParts>,
    i: int,
    url: UrlParts,
    path: Seq<char>,
    query: Option<Seq<char>>,
    text: Seq<char>,
)
    requires
        0 <= i < origins.len(),
        plain_web_target(url),
        in_origin(origins[i], url),
    ensures
        redirect_permitted(origins, UrlParts { path, query, text, ..url }),
{
    let other = UrlParts { path, query, text, ..url };
    redirects_are_decided_by_origin(origins, other);
    assert(in_origin(origins[i], other));
}

/// Path and query of a target decide nothing: two URLs that differ in them alone are both allowed
/// or both refused.
pub proof fn path_and_query_decide_nothing(origins: Seq<UrlParts>, a: UrlParts, b: UrlParts)
    requires
        a.scheme == b.scheme,
        a.host == b.host,
        a.port == b.port,
        a.fragment == b.fragment,
        a.username == b.username,
        a.password == b.password,
    ensures
        redirect_permitted(origins, a) == redirect_permitted(origins, b),
{
    redirects_are_decided_by_origin(origins, a);
    redirects_are_decided_by_origin(origins, b);
    assert forall|i: int| 0 <= i < origins.len() implies in_origin(#[trigger] origins[i], a)
        == in_origin(origins[i], b) by {}
}

/// An origin is an http(s) URL with a host whose path is a single slash, without query, fragment
/// and user information; anything else is refused, in the words of the first thing that is wrong.
pub proof fn origins_have_nothing_but_scheme_host_and_port(url: UrlParts)
    ensures
        ({
            let web = (url.scheme == "http"@ || url.scheme == "https"@) && url.host is Some;
            let bare = url.path == "/"@ && url.query is None && url.fragment is None;
            let anonymous = url.username == Seq::<char>::empty() && url.password is None;
            &&& web && bare && anonymous <==> origin_problem(url) is None
            &&& !web ==> origin_problem(url) == Some("must be an http(s) origin"@)
            &&& web && !bare ==> origin_problem(url) == Some(
                "must contain only scheme, host, and optional port"@,
            )
            &&& web && bare && !anonymous ==> origin_problem(url) == Some(
                "must not contain user information"@,
            )
        }),
{
    assert(url.username.len() == 0 <==> url.username =~= Seq::<char>::empty());
}

/// The origin that a text stands for is the URL that it parses to; a text that does not parse is
/// refused in the words of the parser, a URL that is no origin in those of the origin check.
pub proof fn origins_are_parsed_urls(text: Seq<char>)
    ensures
        parsed_url(text) matches Err(message) ==> parsed_origin(text) == Err::<UrlParts, Seq<char>>(
            message,
        ),
        parsed_url(text) matches Ok(url) ==> {
            &&& origin_problem(url) is None ==> parsed_origin(text) == Ok::<UrlParts, Seq<char>>(url)
            &&& origin_problem(url) matches Some(problem) ==> parsed_origin(text) == Err::<
                UrlParts,
                Seq<char>,
            >(problem)
        },
{
}

/// Whether a text is an RFC 6749 scope token: printable ASCII characters other than space,
/// quotation mark and backslash, and at least one.
pub open spec fn printable_token(scope: Seq<char>) -> bool {
    &&& scope.len() > 0
    &&& forall|i: int|
        0 <= i < scope.len() ==> 0x20 < #[trigger] scope[i] as int && (scope[i] as int) < 0x7f
            && scope[i] as int != 0x22 && scope[i] as int != 0x5c
}

/// A scope is a token exactly when the codes of its characters say so.
pub proof fn scope_tokens_are_printable(scope: Seq<char>)
    ensures
        scope_token(scope) <==> printable_token(scope),
{
    assert forall|i: int| 0 <= i < scope.len() implies scope_char(#[trigger] scope[i]) == (0x20
        < scope[i] as int && (scope[i] as int) < 0x7f && scope[i] as int != 0x22 && scope[i] as int
        != 0x5c) by {}
    if scope_token(scope) {
        assert forall|i: int| 0 <= i < scope.len() implies 0x20 < #[trigger] scope[i] as int && (
        scope[i] as int) < 0x7f && scope[i] as int != 0x22 && scope[i] as int != 0x5c by {
            assert(scope_char(scope[i]));
        }
    }
}

/// Every text of ASCII letters and digits, dots, hyphens, underscores, colons and slashes is a
/// scope token, unless it is empty.
pub proof fn ordinary_names_are_scope_tokens(scope: Seq<char>)
    requires
        scope.len() > 0,
        forall|i: int|
            0 <= i < scope.len() ==> {
                let code = #[trigger] scope[i] as int;
                ||| 0x2d <= code <= 0x3a
                ||| 0x41 <= code <= 0x5a
                ||| code == 0x5f
                ||| 0x61 <= code <= 0x7a
            },
    ensures
        scope_token(scope),
{
    scope_tokens_are_printable(scope);
}

/// Whether the first `n` entries of a list are tokens, no two of them the same.
pub open spec fn tokens_up_to(scopes: Seq<Seq<char>>, n: int) -> bool {
    &&& forall|i: int| 0 <= i < n ==> printable_token(#[trigger] scopes[i])
    &&& forall|i: int, j: int| 0 <= i < j < n ==> #[trigger] scopes[i] != #[trigger] scopes[j]
}

/// Fewer entries of a list are tokens too, in the list and in its front.
proof fn lemma_tokens_of_front(scopes: Seq<Seq<char>>, n: int)
    requires
        0 <= n < scopes.len(),
        tokens_up_to(scopes, n),
    ensures
        tokens_up_to(scopes.drop_last(), n),
{
    let front = scopes.drop_last();
    assert forall|i: int| 0 <= i < n implies printable_token(#[trigger] front[i]) by {
        assert(printable_token(scopes[i]));
    }
    assert forall|i: int, j: int| 0 <= i < j < n implies #[trigger] front[i]
        != #[trigger] front[j] by {
        assert(scopes[i] != scopes[j]);
    }
}

/// A list of distinct tokens has no problem.
proof fn lemma_fine_list(scopes: Seq<Seq<char>>, invalid: Seq<char>, duplicate: Seq<char>)
    requires
        tokens_up_to(scopes, scopes.len() as int),
    ensures
        scope_list_problem(scopes, invalid, duplicate) is None,
    decreases scopes.len(),
{
    if scopes.len() > 0 {
        let front = scopes.drop_last();
        let last = scopes.len() - 1;
        assert(tokens_up_to(scopes, last));
        lemma_tokens_of_front(scopes, last);
        lemma_fine_list(front, invalid, duplicate);
        assert(printable_token(scopes[last]));
        scope_tokens_are_printable(scopes.last());
        if front.contains(scopes.last()) {
            let j = choose|j: int| 0 <= j < front.len() && front[j] == scopes.last();
            assert(scopes[j] != scopes[last]);
        }
    }
}

/// The first entry that is no token decides.
proof fn lemma_first_invalid(
    scopes: Seq<Seq<char>>,
    invalid: Seq<char>,
    duplicate: Seq<char>,
    i: int,
)
    requires
        0 <= i < scopes.len(),
        tokens_up_to(scopes, i),
        !printable_token(scopes[i]),
    ensures
        scope_list_problem(scopes, invalid, duplicate) == Some(invalid),
    decreases scopes.len(),
{
    let front = scopes.drop_last();
    lemma_tokens_of_front(scopes, i);
    if i < front.len() {
        lemma_first_invalid(front, invalid, duplicate, i);
    } else {
        lemma_fine_list(front, invalid, duplicate);
        scope_tokens_are_printable(scopes.last());
    }
}

/// The first entry that repeats another decides.
proof fn lemma_first_repeated(
    scopes: Seq<Seq<char>>,
    invalid: Seq<char>,
    duplicate: Seq<char>,
    j: int,
    i: int,
)
    requires
        0 <= j < i < scopes.len(),
        tokens_up_to(scopes, i),
        printable_token(scopes[i]),
        scopes[j] == scopes[i],
    ensures
        scope_list_problem(scopes, invalid, duplicate) == Some(duplicate),
    decreases scopes.len(),
{
    let front = scopes.drop_last();
    lemma_tokens_of_front(scopes, i);
    if i < front.len() {
        lemma_first_repeated(front, invalid, duplicate, j, i);
    } else {
        lemma_fine_list(front, invalid, duplicate);
        scope_tokens_are_printable(scopes.last());
        assert(front[j] == scopes.last());
    }
}

proof fn lemma_scope_list(scopes: Seq<Seq<char>>, invalid: Seq<char>, duplicate: Seq<char>)
    ensures
        tokens_up_to(scopes, scopes.len() as int) <==> scope_list_problem(
            scopes,
            invalid,
            duplicate,
        ) is None,
        forall|i: int|
            0 <= i < scopes.len() && tokens_up_to(scopes, i) && !printable_token(
                #[trigger] scopes[i],
            ) ==> scope_list_problem(scopes, invalid, duplicate) == Some(invalid),
        forall|i: int, j: int|
            0 <= j < i < scopes.len() && tokens_up_to(scopes, i) && printable_token(
                #[trigger] scopes[i],
            ) && #[trigger] scopes[j] == scopes[i] ==> scope_list_problem(
                scopes,
                invalid,
                duplicate,
            ) == Some(duplicate),
{
    if tokens_up_to(scopes, scopes.len() as int) {
        lemma_fine_list(scopes, invalid, duplicate);
    }
    lemma_listed(scopes, invalid, duplicate);
    assert forall|i: int|
        0 <= i < scopes.len() && tokens_up_to(scopes, i) && !printable_token(
            #[trigger] scopes[i],
        ) implies scope_list_problem(scopes, invalid, duplicate) == Some(invalid) by {
        lemma_first_invalid(scopes, invalid, duplicate, i);
    }
    assert forall|i: int, j: int|
        0 <= j < i < scopes.len() && tokens_up_to(scopes, i) && printable_token(
            #[trigger] scopes[i],
        ) && #[trigger] scopes[j] == scopes[i] implies scope_list_problem(
        scopes,
        invalid,
        duplicate,
    ) == Some(duplicate) by {
        lemma_first_repeated(scopes, invalid, duplicate, j, i);
    }
}

/// Whether scopes are in order: distinct tokens, and each of them one of the allowed scopes where
/// such are given, which are distinct tokens as well.
pub open spec fn scopes_in_order(scopes: Seq<Seq<char>>, allowed: Option<Seq<Seq<char>>>) -> bool {
    &&& tokens_up_to(scopes, scopes.len() as int)
    &&& allowed matches Some(allowed) ==> tokens_up_to(allowed, allowed.len() as int) && forall|
        i: int,
    |
        0 <= i < scopes.len() ==> exists|j: int|
            0 <= j < allowed.len() && #[trigger] allowed[j] == #[trigger] scopes[i]
}

/// Scopes are accepted when they are in order. Otherwise the first entry that is no token, or
/// repeats one, decides the words of the refusal, default scopes before allowed ones, and then a
/// default scope that is not allowed.
pub proof fn scopes_are_judged_in_order(scopes: Seq<Seq<char>>, allowed: Option<Seq<Seq<char>>>)
    ensures
        scope_problem(scopes, allowed) is None <==> scopes_in_order(scopes, allowed),
        forall|i: int|
            0 <= i < scopes.len() && tokens_up_to(scopes, i) && !printable_token(
                #[trigger] scopes[i],
            ) ==> scope_problem(scopes, allowed) == Some(
                "scopes.default must contain valid RFC 6749 scope tokens"@,
            ),
        forall|i: int, j: int|
            0 <= j < i < scopes.len() && tokens_up_to(scopes, i) && printable_token(
                #[trigger] scopes[i],
            ) && #[trigger] scopes[j] == scopes[i] ==> scope_problem(scopes, allowed) == Some(
                "scopes.default must not contain duplicates"@,
            ),
        tokens_up_to(scopes, scopes.len() as int) ==> (allowed matches Some(list) ==> {
            &&& forall|i: int|
                0 <= i < list.len() && tokens_up_to(list, i) && !printable_token(#[trigger] list[i])
                    ==> scope_problem(scopes, allowed) == Some(
                    "scopes.allowed must contain valid RFC 6749 scope tokens"@,
                )
            &&& forall|i: int, j: int|
                0 <= j < i < list.len() && tokens_up_to(list, i) && printable_token(
                    #[trigger] list[i],
                ) && #[trigger] list[j] == list[i] ==> scope_problem(scopes, allowed) == Some(
                    "scopes.allowed must not contain duplicates"@,
                )
            &&& tokens_up_to(list, list.len() as int) && !scopes_in_order(scopes, allowed)
                ==> scope_problem(scopes, allowed) == Some(
                "scopes.default must be contained in scopes.allowed"@,
            )
        }),
{
    let invalid = "scopes.default must contain valid RFC 6749 scope tokens"@;
    let duplicate = "scopes.default must not contain duplicates"@;
    lemma_scope_list(scopes, invalid, duplicate);
    if let Some(list) = allowed {
        let allowed_invalid = "scopes.allowed must contain valid RFC 6749 scope tokens"@;
        let allowed_duplicate = "scopes.allowed must not contain duplicates"@;
        lemma_scope_list(list, allowed_invalid, allowed_duplicate);
        assert(within(scopes, list) <==> forall|i: int|
            0 <= i < scopes.len() ==> exists|j: int|
                0 <= j < list.len() && #[trigger] list[j] == #[trigger] scopes[i]) by {
            if within(scopes, list) {
                assert forall|i: int| 0 <= i < scopes.len() implies exists|j: int|
                    0 <= j < list.len() && #[trigger] list[j] == #[trigger] scopes[i] by {
                    assert(list.contains(scopes[i]));
                    let j = choose|j: int| 0 <= j < list.len() && list[j] == scopes[i];
                    assert(list[j] == scopes[i]);
                }
            }
        }
    }
}

/// A list without a problem is one of distinct tokens.
proof fn lemma_listed(scopes: Seq<Seq<char>>, invalid: Seq<char>, duplicate: Seq<char>)
    ensures
        scope_list_problem(scopes, invalid, duplicate) is None ==> tokens_up_to(
            scopes,
            scopes.len() as int,
        ),
{
    lemma_scope_set(scopes, invalid, duplicate);
    if scope_set(scopes) {
        assert forall|i: int| 0 <= i < scopes.len() implies printable_token(
            #[trigger] scopes[i],
        ) by {
            assert(scope_token(scopes[i]));
            scope_tokens_are_printable(scopes[i]);
        }
    }
}

/// An endpoint is in order when it is absent or an http(s) URL with a host.
pub open spec fn endpoint_in_order(url: Option<UrlParts>) -> bool {
    url matches Some(url) ==> (url.scheme == "http"@ || url.scheme == "https"@) && url.host is Some
}

/// The provider side of a client is accepted when its issuer is an http(s) URL with a host, its
/// endpoints are absent or such URLs, and its credentials are not empty. Otherwise the first of
/// these that fails decides the words of the refusal.
pub proof fn providers_are_judged_in_order(
    issuer_url: UrlParts,
    authorization_endpoint: Option<UrlParts>,
    token_endpoint: Option<UrlParts>,
    jwks_uri: Option<UrlParts>,
    client_id: Seq<char>,
    client_secret: Seq<char>,
)
    ensures
        ({
            let problem = provider_problem(
                issuer_url,
                authorization_endpoint,
                token_endpoint,
                jwks_uri,
                client_id,
                client_secret,
            );
            let issuer = endpoint_in_order(Some(issuer_url));
            let authorization = endpoint_in_order(authorization_endpoint);
            let token = endpoint_in_order(token_endpoint);
            let jwks = endpoint_in_order(jwks_uri);
            &&& problem is None <==> issuer && authorization && token && jwks && client_id.len() > 0
                && client_secret.len() > 0
            &&& !issuer ==> problem == Some("issuer_url must be an absolute http(s) URL"@)
            &&& issuer && !authorization ==> problem == Some(
                "authorization_endpoint must be an absolute http(s) URL"@,
            )
            &&& issuer && authorization && !token ==> problem == Some(
                "token_endpoint must be an absolute http(s) URL"@,
            )
            &&& issuer && authorization && token && !jwks ==> problem == Some(
                "jwks_uri must be an absolute http(s) URL"@,
            )
            &&& issuer && authorization && token && jwks && client_id.len() == 0 ==> problem == Some(
                "client_id must not be empty"@,
            )
            &&& issuer && authorization && token && jwks && client_id.len() > 0
                && client_secret.len() == 0 ==> problem == Some("client_secret must not be empty"@)
        }),
{
    reveal_strlit(" must be an absolute http(s) URL");
    reveal_strlit("issuer_url");
    reveal_strlit("authorization_endpoint");
    reveal_strlit("token_endpoint");
    reveal_strlit("jwks_uri");
    reveal_strlit("issuer_url must be an absolute http(s) URL");
    reveal_strlit("authorization_endpoint must be an absolute http(s) URL");
    reveal_strlit("token_endpoint must be an absolute http(s) URL");
    reveal_strlit("jwks_uri must be an absolute http(s) URL");
    assert("issuer_url"@ + " must be an absolute http(s) URL"@
        =~= "issuer_url must be an absolute http(s) URL"@);
    assert("authorization_endpoint"@ + " must be an absolute http(s) URL"@
        =~= "authorization_endpoint must be an absolute http(s) URL"@);
    assert("token_endpoint"@ + " must be an absolute http(s) URL"@
        =~= "token_endpoint must be an absolute http(s) URL"@);
    assert("jwks_uri"@ + " must be an absolute http(s) URL"@
        =~= "jwks_uri must be an absolute http(s) URL"@);
}

/// Whether a JSON document is a key set: an object whose first member called `keys` is an array
/// with an element.
pub open spec fn holds_keys(value: JsonView) -> bool {
    value matches JsonView::Object(members) && exists|i: int| {
        &&& 0 <= i < members.len()
        &&& (#[trigger] members[i]).0 == "keys"@
        &&& forall|j: int| 0 <= j < i ==> (#[trigger] members[j]).0 != "keys"@
        &&& members[i].1 matches JsonView::Array(keys) && keys.len() > 0
    }
}

/// Client authentication is accepted when its credentials are not empty and its key set is an
/// http(s) URL with a host, or in place and holds keys.
pub proof fn client_authentication_is_judged_by_its_parts(
    client_id: Seq<char>,
    client_secret: Seq<char>,
    url: UrlParts,
    value: JsonView,
)
    ensures
        client_auth_problem(ClientAuthView::UpstreamClient) is None,
        client_auth_problem(ClientAuthView::Public) is None,
        client_auth_problem(ClientAuthView::ClientSecret { client_id, client_secret }) == (
        if client_id.len() > 0 && client_secret.len() > 0 {
            None
        } else {
            Some("clientAuthentication credentials must not be empty"@)
        }),
        client_auth_problem(
            ClientAuthView::PrivateKeyJwt { client_id, jwks: ClientJwksView::Url(url) },
        ) == (if client_id.len() == 0 {
            Some("clientAuthentication.clientId must not be empty"@)
        } else if endpoint_in_order(Some(url)) {
            None
        } else {
            Some("clientAuthentication.jwks must be an absolute http(s) URL"@)
        }),
        client_auth_problem(
            ClientAuthView::PrivateKeyJwt { client_id, jwks: ClientJwksView::Inline(value) },
        ) == (if client_id.len() == 0 {
            Some("clientAuthentication.clientId must not be empty"@)
        } else if holds_keys(value) {
            None
        } else {
            Some("clientAuthentication.jwks must contain a non-empty keys array"@)
        }),
{
    key_sets_have_keys(value);
}

/// Whether client authentication is in order.
pub open spec fn client_auth_in_order(auth: ClientAuthView) -> bool {
    match auth {
        ClientAuthView::UpstreamClient => true,
        ClientAuthView::Public => true,
        ClientAuthView::ClientSecret { client_id, client_secret } => client_id.len() > 0
            && client_secret.len() > 0,
        ClientAuthView::PrivateKeyJwt { client_id, jwks } => client_id.len() > 0 && match jwks {
            ClientJwksView::Url(url) => endpoint_in_order(Some(url)),
            ClientJwksView::Inline(value) => holds_keys(value),
        },
    }
}

/// Whether a default redirect is absent or a target that the origins allow.
pub open spec fn default_in_order(origins: Seq<UrlParts>, default: Option<UrlParts>) -> bool {
    default matches Some(url) ==> plain_web_target(url) && (local_target(url) || exists|i: int|
        0 <= i < origins.len() && in_origin(#[trigger] origins[i], url))
}

/// A relay is accepted exactly when its scopes, its default redirect and its client authentication
/// are in order. The first of these that is not decides the refusal.
pub proof fn relays_are_judged_by_their_fields(relay: RelayView)
    ensures
        ({
            let scopes = scopes_in_order(relay.scopes, relay.allowed_scopes);
            let default = default_in_order(
                relay.allowed_redirect_origins,
                relay.default_redirect_uri,
            );
            &&& relay_problem(relay) is None <==> scopes && default && client_auth_in_order(
                relay.client_auth,
            )
            &&& !scopes ==> relay_problem(relay) == scope_problem(
                relay.scopes,
                relay.allowed_scopes,
            )
            &&& scopes && !default ==> relay_problem(relay) == Some(
                "default_redirect_uri origin is not allowed"@,
            )
            &&& scopes && default ==> relay_problem(relay) == client_auth_problem(relay.client_auth)
        }),
{
    scopes_are_judged_in_order(relay.scopes, relay.allowed_scopes);
    if let Some(url) = relay.default_redirect_uri {
        redirects_are_decided_by_origin(relay.allowed_redirect_origins, url);
    }
    lemma_client_auth(relay.client_auth);
}

proof fn lemma_client_auth(auth: ClientAuthView)
    ensures
        client_auth_problem(auth) is None <==> client_auth_in_order(auth),
{
    if let ClientAuthView::PrivateKeyJwt { client_id, jwks: ClientJwksView::Inline(value) } = auth {
        key_sets_have_keys(value);
    }
}

/// An upstream is accepted exactly when its endpoints and credentials are in order.
pub proof fn upstreams_are_judged_by_their_fields(upstream: UpstreamView)
    ensures
        upstream_problem(upstream) is None <==> endpoint_in_order(Some(upstream.issuer_url))
            && endpoint_in_order(upstream.authorization_endpoint) && endpoint_in_order(
            upstream.token_endpoint,
        ) && endpoint_in_order(upstream.jwks_uri) && upstream.client_id.len() > 0
            && upstream.client_secret.len() > 0,
        upstream_problem(upstream) == provider_problem(
            upstream.issuer_url,
            upstream.authorization_endpoint,
            upstream.token_endpoint,
            upstream.jwks_uri,
            upstream.client_id,
            upstream.client_secret,
        ),
{
}

/// An instance is accepted exactly when its upstream side and its policy are; its upstream side is
/// judged first.
pub proof fn instances_are_judged_by_their_fields(instance: InstanceView)
    ensures
        ({
            let upstream = instance.upstream;
            let provider = endpoint_in_order(Some(upstream.issuer_url)) && endpoint_in_order(
                upstream.authorization_endpoint,
            ) && endpoint_in_order(upstream.token_endpoint) && endpoint_in_order(upstream.jwks_uri)
                && upstream.client_id.len() > 0 && upstream.client_secret.len() > 0;
            let scopes = scopes_in_order(upstream.scopes, upstream.allowed_scopes);
            let default = default_in_order(
                instance.allowed_redirect_origins,
                instance.default_redirect_uri,
            );
            &&& instance_problem(instance) is None <==> provider && scopes && default
                && client_auth_in_order(instance.client_auth)
            &&& !provider ==> instance_problem(instance) == provider_problem(
                upstream.issuer_url,
                upstream.authorization_endpoint,
                upstream.token_endpoint,
                upstream.jwks_uri,
                upstream.client_id,
                upstream.client_secret,
            )
            &&& provider && !scopes ==> instance_problem(instance) == scope_problem(
                upstream.scopes,
                upstream.allowed_scopes,
            )
            &&& provider && scopes && !default ==> instance_problem(instance) == Some(
                "default_redirect_uri origin is not allowed"@,
            )
            &&& provider && scopes && default ==> instance_problem(instance) == client_auth_problem(
                instance.client_auth,
            )
        }),
{
    scopes_are_judged_in_order(instance.upstream.scopes, instance.upstream.allowed_scopes);
    if let Some(url) = instance.default_redirect_uri {
        redirects_are_decided_by_origin(instance.allowed_redirect_origins, url);
    }
    lemma_client_auth(instance.client_auth);
}

// ---------------------------------------------------------------------------------------------
// Views
// ---------------------------------------------------------------------------------------------

/// A check reports its problem, and nothing when there is none.
pub proof fn reports_are_problems(message: String, problem: Option<Seq<char>>)
    ensures
        reports(Ok(()), problem) <==> problem is None,
        reports(Err(message), problem) <==> problem == Some(message@),
{
}

/// What validation reads of client authentication is what it holds.
pub proof fn client_auth_views_are_fields(
    client_id: String,
    client_secret: SecretString,
    jwks: ClientJwks,
    url: Url,
    value: JsonValue,
)
    ensures
        ClientAuth::UpstreamClient@ == ClientAuthView::UpstreamClient,
        ClientAuth::Public@ == ClientAuthView::Public,
        (ClientAuth::ClientSecret { client_id, client_secret })@ == (ClientAuthView::ClientSecret {
            client_id: client_id@,
            client_secret: client_secret@,
        }),
        (ClientAuth::PrivateKeyJwt { client_id, jwks })@ == (ClientAuthView::PrivateKeyJwt {
            client_id: client_id@,
            jwks: jwks@,
        }),
        ClientJwks::Url(url)@ == ClientJwksView::Url(url@),
        ClientJwks::Inline(value)@ == ClientJwksView::Inline(value@),
{
}

/// What validation reads of an upstream is what its fields hold.
pub proof fn upstream_views_are_fields(upstream: Upstream, url: Url)
    ensures
        upstream@.key == upstream.key@,
        upstream@.issuer_url == upstream.issuer_url@,
        upstream@.client_id == upstream.client_id@,
        upstream@.client_secret == upstream.client_secret@,
        upstream.authorization_endpoint == Some(url) ==> upstream@.authorization_endpoint == Some(
            url@,
        ),
        upstream.authorization_endpoint is None ==> upstream@.authorization_endpoint is None,
        upstream.token_endpoint == Some(url) ==> upstream@.token_endpoint == Some(url@),
        upstream.token_endpoint is None ==> upstream@.token_endpoint is None,
        upstream.jwks_uri == Some(url) ==> upstream@.jwks_uri == Some(url@),
        upstream.jwks_uri is None ==> upstream@.jwks_uri is None,
{
}

/// What validation reads of a relay is what its fields hold.
pub proof fn relay_views_are_fields(relay: Relay, list: Vec<String>, url: Url)
    ensures
        relay@.key == relay.key@,
        relay@.upstream == relay.upstream@,
        relay@.client_auth == relay.client_auth@,
        relay@.scopes == relay.scopes@.map_values(|scope: String| scope@),
        relay.allowed_scopes == Some(list) ==> relay@.allowed_scopes == Some(
            list@.map_values(|scope: String| scope@),
        ),
        relay.allowed_scopes is None ==> relay@.allowed_scopes is None,
        relay@.allowed_redirect_origins == relay.allowed_redirect_origins@.map_values(
            |origin: Origin| origin@,
        ),
        relay.default_redirect_uri == Some(url) ==> relay@.default_redirect_uri == Some(url@),
        relay.default_redirect_uri is None ==> relay@.default_redirect_uri is None,
{
}

/// What validation reads of an instance is what its fields hold.
pub proof fn instance_views_are_fields(instance: Instance, list: Vec<String>, url: Url)
    ensures
        instance@.key == instance.key@,
        instance@.client_auth == instance.client_auth@,
        instance@.allowed_redirect_origins == instance.allowed_redirect_origins@.map_values(
            |origin: Origin| origin@,
        ),
        instance.default_redirect_uri == Some(url) ==> instance@.default_redirect_uri == Some(url@),
        instance.default_redirect_uri is None ==> instance@.default_redirect_uri is None,
        instance@.upstream.issuer_url == instance.upstream.issuer_url@,
        instance@.upstream.client_id == instance.upstream.client_id@,
        instance@.upstream.client_secret == instance.upstream.client_secret@,
        instance@.upstream.scopes == instance.upstream.scopes@.map_values(|scope: String| scope@),
        instance.upstream.allowed_scopes == Some(list) ==> instance@.upstream.allowed_scopes == Some(
            list@.map_values(|scope: String| scope@),
        ),
        instance.upstream.allowed_scopes is None ==> instance@.upstream.allowed_scopes is None,
        instance.upstream.authorization_endpoint == Some(url)
            ==> instance@.upstream.authorization_endpoint == Some(url@),
        instance.upstream.authorization_endpoint is None
            ==> instance@.upstream.authorization_endpoint is None,
        instance.upstream.token_endpoint == Some(url) ==> instance@.upstream.token_endpoint == Some(
            url@,
        ),
        instance.upstream.token_endpoint is None ==> instance@.upstream.token_endpoint is None,
        instance.upstream.jwks_uri == Some(url) ==> instance@.upstream.jwks_uri == Some(url@),
        instance.upstream.jwks_uri is None ==> instance@.upstream.jwks_uri is None,
{
}

} // verus!
