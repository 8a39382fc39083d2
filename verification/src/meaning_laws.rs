//! What texts in configuration mean: URLs, origins and key sets, by the outside URL parser alone.

use crate::address::{parsed_url, UrlParts};
use crate::compile::{checked_url, jwks_of, optional_url_field, origin_list, url_field};
use crate::json::JsonValue;
use crate::model::{origin_problem, parsed_origin, ClientJwksView};
use crate::policy_laws::{
    origins_are_parsed_urls, origins_have_nothing_but_scheme_host_and_port,
};
use crate::provider_ssm::{checked_web_url, optional_web_url_field, web_url_field};
use crate::text::{optional_text, texts};
use vstd::prelude::*;

verus! {

/// Whether an optional text is that of an optional URL: both are absent, or the text parses to the
/// URL.
pub open spec fn states_url(text: Option<String>, url: Option<UrlParts>) -> bool {
    match (text, url) {
        (None, None) => true,
        (Some(text), Some(url)) => parsed_url(text@) == Ok::<UrlParts, Seq<char>>(url),
        _ => false,
    }
}

/// Whether a URL is an origin: http or https and a host, the path a single slash, and neither query,
/// fragment nor user information.
pub open spec fn bare_origin(url: UrlParts) -> bool {
    &&& url.scheme == "http"@ || url.scheme == "https"@
    &&& url.host is Some
    &&& url.path == "/"@
    &&& url.query is None
    &&& url.fragment is None
    &&& url.username == Seq::<char>::empty()
    &&& url.password is None
}

/// Whether a text parses to an origin.
pub open spec fn states_origin(text: Seq<char>, origin: UrlParts) -> bool {
    parsed_url(text) == Ok::<UrlParts, Seq<char>>(origin) && bare_origin(origin)
}

/// Whether texts are those of origins, one by one.
pub open spec fn states_origins(list: Seq<String>, origins: Seq<UrlParts>) -> bool {
    &&& list.len() == origins.len()
    &&& forall|i: int| 0 <= i < list.len() ==> states_origin(#[trigger] list[i]@, origins[i])
}

/// Whether a JSON document states a key set: a string is the URL that it parses to, anything else
/// the key set itself.
pub open spec fn states_jwks(value: JsonValue, jwks: ClientJwksView) -> bool {
    match value {
        JsonValue::String(text) => jwks matches ClientJwksView::Url(url) && parsed_url(text@) == Ok::<
            UrlParts,
            Seq<char>,
        >(url),
        _ => jwks == ClientJwksView::Inline(value@),
    }
}

/// A text is that of an origin exactly when it parses to a URL that is one.
pub proof fn origins_by_their_texts(text: Seq<char>, origin: UrlParts)
    ensures
        parsed_origin(text) == Ok::<UrlParts, Seq<char>>(origin) <==> states_origin(text, origin),
{
    origins_are_parsed_urls(text);
    if let Ok(url) = parsed_url(text) {
        origins_have_nothing_but_scheme_host_and_port(url);
    }
}

/// A list of texts is a list of origins exactly when each text is that of the origin at its place.
/// Otherwise the first text that is none decides what is said: the words of the parser, or those of
/// the origin check.
pub proof fn origin_lists_by_their_texts(list: Seq<String>, origins: Seq<UrlParts>, i: int)
    ensures
        origin_list(texts(list)) == Ok::<Seq<UrlParts>, Seq<char>>(origins) <==> states_origins(
            list,
            origins,
        ),
        0 <= i < list.len() && states_origins(list.take(i), origins) ==> {
            &&& parsed_url(list[i]@) matches Err(message) ==> origin_list(texts(list)) == Err::<
                Seq<UrlParts>,
                Seq<char>,
            >(message)
            &&& parsed_url(list[i]@) matches Ok(url) ==> (origin_problem(url) matches Some(problem)
                ==> origin_list(texts(list)) == Err::<Seq<UrlParts>, Seq<char>>(problem))
        },
    decreases list.len(),
{
    let all = texts(list);
    if list.len() == 0 {
        assert(states_origins(list, origins) ==> origins =~= Seq::<UrlParts>::empty());
    } else {
        let front = list.drop_last();
        let last = list.len() - 1;
        assert(all.drop_last() =~= texts(front));
        assert(all.last() == list[last]@);
        origins_are_parsed_urls(list[last]@);
        if states_origins(list, origins) {
            let before = origins.drop_last();
            assert forall|k: int| 0 <= k < front.len() implies states_origin(
                #[trigger] front[k]@,
                before[k],
            ) by {
                assert(states_origin(list[k]@, origins[k]));
            }
            origin_lists_by_their_texts(front, before, 0);
            assert(states_origin(list[last]@, origins[last]));
            origins_by_their_texts(list[last]@, origins[last]);
            assert(before.push(origins[last]) =~= origins);
        }
        if origin_list(all) == Ok::<Seq<UrlParts>, Seq<char>>(origins) {
            let before = origin_list(all.drop_last())->Ok_0;
            origin_lists_by_their_texts(front, before, 0);
            origins_by_their_texts(list[last]@, parsed_origin(all.last())->Ok_0);
            assert forall|k: int| 0 <= k < list.len() implies states_origin(
                #[trigger] list[k]@,
                origins[k],
            ) by {
                if k < last {
                    assert(states_origin(front[k]@, before[k]));
                }
            }
        }
        if 0 <= i < list.len() && states_origins(list.take(i), origins) {
            if i < last {
                assert(front.take(i) =~= list.take(i));
                origin_lists_by_their_texts(front, origins, i);
                assert(front[i] == list[i]);
            } else {
                assert(list.take(i) =~= front);
                origin_lists_by_their_texts(front, origins, 0);
            }
        }
    }
}

/// A field that has to hold an absolute http(s) URL holds the URL that its text parses to. A text
/// that does not parse is refused in the words of the parser, behind the name of the field.
pub proof fn url_fields_by_their_texts(field: Seq<char>, text: String, optional: Option<String>)
    ensures
        parsed_url(text@) matches Err(message) ==> url_field(field, text@) == Err::<
            UrlParts,
            Seq<Seq<char>>,
        >(seq![field, message]),
        parsed_url(text@) matches Ok(url) ==> url_field(field, text@) == (if (url.scheme == "http"@
            || url.scheme == "https"@) && url.host is Some {
            Ok::<UrlParts, Seq<Seq<char>>>(url)
        } else {
            Err::<UrlParts, Seq<Seq<char>>>(seq![field + ": must be an absolute http(s) URL"@])
        }),
        forall|parsed: Result<UrlParts, Seq<char>>|
            parsed == parsed_url(text@) ==> #[trigger] checked_url(field, parsed) == url_field(
                field,
                text@,
            ),
        optional is None ==> optional_url_field(field, optional_text(optional)) == Ok::<
            Option<UrlParts>,
            Seq<Seq<char>>,
        >(None),
        optional matches Some(text) ==> optional_url_field(field, optional_text(optional)) == (
        match url_field(field, text@) {
            Ok(url) => Ok::<Option<UrlParts>, Seq<Seq<char>>>(Some(url)),
            Err(error) => Err::<Option<UrlParts>, Seq<Seq<char>>>(error),
        }),
{
}

/// A field that has to hold an http(s) URL holds the URL that its text parses to. A text that does
/// not parse is refused in the words of the parser, behind the name of the field.
pub proof fn web_url_fields_by_their_texts(field: Seq<char>, text: String, optional: Option<String>)
    ensures
        parsed_url(text@) matches Err(message) ==> web_url_field(field, text@) == Err::<
            UrlParts,
            Seq<Seq<char>>,
        >(seq![field, message]),
        parsed_url(text@) matches Ok(url) ==> web_url_field(field, text@) == (if url.scheme
            == "http"@ || url.scheme == "https"@ {
            Ok::<UrlParts, Seq<Seq<char>>>(url)
        } else {
            Err::<UrlParts, Seq<Seq<char>>>(seq![field + ": must use http or https"@])
        }),
        forall|parsed: Result<UrlParts, Seq<char>>|
            parsed == parsed_url(text@) ==> #[trigger] checked_web_url(field, parsed)
                == web_url_field(field, text@),
        optional is None ==> optional_web_url_field(field, optional_text(optional)) == Ok::<
            Option<UrlParts>,
            Seq<Seq<char>>,
        >(None),
        optional matches Some(text) ==> optional_web_url_field(field, optional_text(optional)) == (
        match web_url_field(field, text@) {
            Ok(url) => Ok::<Option<UrlParts>, Seq<Seq<char>>>(Some(url)),
            Err(error) => Err::<Option<UrlParts>, Seq<Seq<char>>>(error),
        }),
{
}

/// The key set of a relay is the one that its document states; a string that is no URL is refused in
/// the words of the parser, behind the name of the field.
pub proof fn key_sets_by_their_documents(name: Seq<char>, value: JsonValue, jwks: ClientJwksView)
    ensures
        jwks_of(name, value) == Ok::<ClientJwksView, Seq<Seq<char>>>(jwks) <==> states_jwks(
            value,
            jwks,
        ),
        value matches JsonValue::String(text) ==> (parsed_url(text@) matches Err(message)
            ==> jwks_of(name, value) == Err::<ClientJwksView, Seq<Seq<char>>>(
            seq!["Relay/"@ + name + " spec.clientAuthentication.jwks URL"@, message],
        )),
{
}

} // verus!
