//! Which secrets a compilation asks for.

use crate::compile::{
    answered, answered_at, compilation, find_secret, first_draft, known, progress,
    relay_documents, relay_of, relay_secret, remaining, request_of, upstream_documents,
    upstream_of, with_relay, with_upstream, Draft, Progress, Reply, RequestView,
};
use crate::config::{
    ClientAuthentication, RelayResource, ResourceDocument, SecretResolver, SecretSourceView,
    UpstreamResource,
};
use crate::content_laws::{
    document_source, lemma_document_kept, lemma_relay_origin, lemma_upstream_origin, relay_source,
    upstream_source,
};
use crate::registry::SnapshotView;
use vstd::prelude::*;

verus! {

/// The requests for the secrets of documents, upstreams before relays: one per secret.
pub open spec fn uses(
    upstreams: Seq<UpstreamResource>,
    relays: Seq<RelayResource>,
) -> Seq<RequestView>
    decreases upstreams.len() + relays.len(),
{
    if upstreams.len() > 0 {
        seq![request_of(upstreams[0].spec.oauth_client.client_secret)] + uses(
            upstreams.drop_first(),
            relays,
        )
    } else if relays.len() > 0 {
        match relay_secret(relays[0]) {
            Some(value) => seq![request_of(value)] + uses(upstreams, relays.drop_first()),
            None => uses(upstreams, relays.drop_first()),
        }
    } else {
        Seq::empty()
    }
}

/// The uses of secrets in documents, in the order of their processing.
pub open spec fn secret_uses(documents: Seq<ResourceDocument>) -> Seq<RequestView> {
    uses(upstream_documents(documents), relay_documents(documents))
}

/// What is left of `requests` when a source is asked for at its first use only, and not at all if
/// it is one of `known_sources`. Values are asked for at every use.
pub open spec fn asked_for(
    requests: Seq<RequestView>,
    known_sources: Set<SecretSourceView>,
) -> Seq<RequestView>
    decreases requests.len(),
{
    if requests.len() == 0 {
        Seq::empty()
    } else {
        let rest = requests.drop_first();
        match requests[0] {
            RequestView::Value(_) => seq![requests[0]] + asked_for(rest, known_sources),
            RequestView::Source(source) => if known_sources.contains(source) {
                asked_for(rest, known_sources)
            } else {
                seq![requests[0]] + asked_for(rest, known_sources.insert(source))
            },
        }
    }
}

/// Whether every reply is to a request: none comes after the end.
pub open spec fn no_reply_is_left(documents: Seq<ResourceDocument>, replies: Seq<Reply>) -> bool {
    forall|i: int|
        0 <= i < replies.len() ==> (#[trigger] compilation(documents, replies.take(i))) is Ask
}

/// The answers of a resolver, as [`compile_resources`](crate::compile_resources) takes them, leave
/// none over.
pub proof fn answers_leave_no_reply<R: SecretResolver>(
    documents: Seq<ResourceDocument>,
    secrets: &R,
    replies: Seq<Reply>,
)
    requires
        answered(documents, secrets, replies),
    ensures
        no_reply_is_left(documents, replies),
{
    assert forall|i: int| 0 <= i < replies.len() implies (
    #[trigger] compilation(documents, replies.take(i))) is Ask by {
        assert(answered_at(documents, secrets, replies, i));
    }
}

/// The requests that `replies` are to.
pub open spec fn requests_made(documents: Seq<ResourceDocument>, replies: Seq<Reply>) -> Seq<
    RequestView,
> {
    Seq::new(replies.len(), |i: int| compilation(documents, replies.take(i))->Ask_0)
}

spec fn draft_requests(draft: Draft, replies: Seq<Reply>) -> Seq<RequestView> {
    Seq::new(replies.len(), |i: int| progress(draft, replies.take(i))->Ask_0)
}

/// One document on: the requests of a draft are its own and those of the next one.
proof fn lemma_one_use(
    draft: Draft,
    next: Draft,
    request: RequestView,
    replies: Seq<Reply>,
    later: Seq<RequestView>,
)
    requires
        find_secret(request, draft.secrets, replies) is Found,
        next.secrets == find_secret(request, draft.secrets, replies)->Found_secrets,
        known(draft.secrets, request) ==> forall|i: int|
            0 <= i <= replies.len() ==> #[trigger] progress(draft, replies.take(i)) == progress(
                next,
                replies.take(i),
            ),
        !known(draft.secrets, request) ==> {
            &&& progress(draft, replies.take(0)) == Progress::Ask(request)
            &&& forall|i: int|
                0 < i <= replies.len() ==> #[trigger] progress(draft, replies.take(i)) == progress(
                    next,
                    replies.take(i).drop_first(),
                )
        },
        draft_requests(next, find_secret(request, draft.secrets, replies)->Found_replies)
            == asked_for(later, next.secrets.dom()),
    ensures
        draft_requests(draft, replies) == asked_for(seq![request] + later, draft.secrets.dom()),
{
    let all = seq![request] + later;
    let made = draft_requests(draft, replies);
    assert(all.drop_first() =~= later);
    if known(draft.secrets, request) {
        assert(made =~= draft_requests(next, replies));
    } else {
        let rest = replies.drop_first();
        let then = draft_requests(next, rest);
        if let RequestView::Source(source) = request {
            assert(next.secrets.dom() =~= draft.secrets.dom().insert(source));
        }
        assert forall|i: int| 0 <= i < made.len() implies made[i] == (seq![request] + then)[i] by {
            if i > 0 {
                assert(replies.take(i).drop_first() =~= rest.take(i - 1));
            }
        }
        assert(made =~= seq![request] + then);
    }
}

proof fn lemma_requests(draft: Draft, replies: Seq<Reply>, snapshot: SnapshotView)
    requires
        progress(draft, replies) == Progress::Done(Ok(snapshot)),
        forall|i: int| 0 <= i < replies.len() ==> (#[trigger] progress(draft, replies.take(i))) is Ask,
    ensures
        draft_requests(draft, replies) == asked_for(
            uses(draft.upstream_documents, draft.relay_documents),
            draft.secrets.dom(),
        ),
    decreases remaining(draft),
{
    if draft.upstream_documents.len() > 0 {
        let resource = draft.upstream_documents[0];
        let request = request_of(resource.spec.oauth_client.client_secret);
        let found = find_secret(request, draft.secrets, replies);
        let upstream = upstream_of(resource, found->secret)->Ok_0;
        let next = with_upstream(draft, upstream, found->Found_secrets);
        let rest = found->Found_replies;
        assert forall|i: int| 0 <= i < rest.len() implies (
        #[trigger] progress(next, rest.take(i))) is Ask by {
            if known(draft.secrets, request) {
                assert(progress(draft, replies.take(i)) is Ask);
            } else {
                assert(progress(draft, replies.take(i + 1)) is Ask);
                assert(replies.take(i + 1).drop_first() =~= rest.take(i));
            }
        }
        lemma_requests(next, rest, snapshot);
        lemma_one_use(
            draft,
            next,
            request,
            replies,
            uses(next.upstream_documents, next.relay_documents),
        );
    } else if draft.relay_documents.len() > 0 {
        let resource = draft.relay_documents[0];
        match relay_secret(resource) {
            None => {
                let relay = relay_of(resource, None)->Ok_0;
                let next = with_relay(draft, relay, draft.secrets);
                assert forall|i: int| 0 <= i < replies.len() implies (
                #[trigger] progress(next, replies.take(i))) is Ask by {
                    assert(progress(draft, replies.take(i)) is Ask);
                }
                lemma_requests(next, replies, snapshot);
                assert(draft_requests(draft, replies) =~= draft_requests(next, replies));
            },
            Some(value) => {
                let request = request_of(value);
                let found = find_secret(request, draft.secrets, replies);
                let relay = relay_of(resource, Some(found->secret))->Ok_0;
                let next = with_relay(draft, relay, found->Found_secrets);
                let rest = found->Found_replies;
                assert forall|i: int| 0 <= i < rest.len() implies (
                #[trigger] progress(next, rest.take(i))) is Ask by {
                    if known(draft.secrets, request) {
                        assert(progress(draft, replies.take(i)) is Ask);
                    } else {
                        assert(progress(draft, replies.take(i + 1)) is Ask);
                        assert(replies.take(i + 1).drop_first() =~= rest.take(i));
                    }
                }
                lemma_requests(next, rest, snapshot);
                lemma_one_use(
                    draft,
                    next,
                    request,
                    replies,
                    uses(next.upstream_documents, next.relay_documents),
                );
            },
        }
    } else {
        if replies.len() > 0 {
            assert(progress(draft, replies.take(0)) is Ask);
        }
        assert(draft_requests(draft, replies) =~= Seq::<RequestView>::empty());
    }
}

/// A compilation that succeeds asks for the secrets of its documents in the order of their
/// processing: for every value at each of its uses, for every source at its first use, and for
/// nothing else.
pub proof fn requests_follow_the_documents(
    documents: Seq<ResourceDocument>,
    replies: Seq<Reply>,
    snapshot: SnapshotView,
)
    requires
        compilation(documents, replies) == Progress::Done(Ok(snapshot)),
        no_reply_is_left(documents, replies),
    ensures
        requests_made(documents, replies) == asked_for(secret_uses(documents), Set::empty()),
{
    let draft = first_draft(documents);
    assert forall|i: int| 0 <= i < replies.len() implies (
    #[trigger] progress(draft, replies.take(i))) is Ask by {
        assert(compilation(documents, replies.take(i)) is Ask);
    }
    lemma_requests(draft, replies, snapshot);
    assert(requests_made(documents, replies) =~= draft_requests(draft, replies));
    assert(draft.secrets.dom() =~= Set::<SecretSourceView>::empty());
}

proof fn lemma_front<A>(first: A, rest: Seq<A>, wanted: A)
    ensures
        (seq![first] + rest).contains(wanted) <==> first == wanted || rest.contains(wanted),
{
    let all = seq![first] + rest;
    assert(all[0] == first);
    if rest.contains(wanted) {
        let i = choose|i: int| 0 <= i < rest.len() && rest[i] == wanted;
        assert(all[i + 1] == wanted);
    }
    if all.contains(wanted) {
        let i = choose|i: int| 0 <= i < all.len() && all[i] == wanted;
        if i > 0 {
            assert(rest[i - 1] == wanted);
        }
    }
}

/// A source is asked for exactly when it is used and not known before.
proof fn lemma_sources_asked_for(
    requests: Seq<RequestView>,
    known_sources: Set<SecretSourceView>,
    source: SecretSourceView,
)
    ensures
        asked_for(requests, known_sources).contains(RequestView::Source(source)) <==> (
        requests.contains(RequestView::Source(source)) && !known_sources.contains(source)),
    decreases requests.len(),
{
    if requests.len() > 0 {
        let rest = requests.drop_first();
        let wanted = RequestView::Source(source);
        assert(requests =~= seq![requests[0]] + rest);
        lemma_front(requests[0], rest, wanted);
        match requests[0] {
            RequestView::Value(_) => {
                lemma_sources_asked_for(rest, known_sources, source);
                lemma_front(requests[0], asked_for(rest, known_sources), wanted);
            },
            RequestView::Source(first) => {
                if known_sources.contains(first) {
                    lemma_sources_asked_for(rest, known_sources, source);
                } else {
                    let more = known_sources.insert(first);
                    lemma_sources_asked_for(rest, more, source);
                    lemma_front(requests[0], asked_for(rest, more), wanted);
                }
            },
        }
    }
}

/// No source is asked for twice.
proof fn lemma_sources_differ(
    requests: Seq<RequestView>,
    known_sources: Set<SecretSourceView>,
    i: int,
    j: int,
)
    requires
        0 <= i < j < asked_for(requests, known_sources).len(),
        asked_for(requests, known_sources)[i] is Source,
    ensures
        asked_for(requests, known_sources)[i] != asked_for(requests, known_sources)[j],
    decreases requests.len(),
{
    let rest = requests.drop_first();
    match requests[0] {
        RequestView::Value(_) => {
            if i > 0 {
                lemma_sources_differ(rest, known_sources, i - 1, j - 1);
            }
        },
        RequestView::Source(first) => {
            if known_sources.contains(first) {
                lemma_sources_differ(rest, known_sources, i, j);
            } else {
                let more = known_sources.insert(first);
                let later = asked_for(rest, more);
                if i > 0 {
                    lemma_sources_differ(rest, more, i - 1, j - 1);
                } else {
                    lemma_sources_asked_for(rest, more, first);
                    assert(later[j - 1] == asked_for(requests, known_sources)[j]);
                    assert(later.contains(later[j - 1]));
                }
            }
        },
    }
}

/// The values among requests, in order.
pub open spec fn values_in(requests: Seq<RequestView>) -> Seq<Seq<char>>
    decreases requests.len(),
{
    if requests.len() == 0 {
        Seq::empty()
    } else {
        match requests[0] {
            RequestView::Value(value) => seq![value] + values_in(requests.drop_first()),
            RequestView::Source(_) => values_in(requests.drop_first()),
        }
    }
}

/// Every value is asked for at each of its uses.
proof fn lemma_values_asked_for(requests: Seq<RequestView>, known_sources: Set<SecretSourceView>)
    ensures
        values_in(asked_for(requests, known_sources)) == values_in(requests),
    decreases requests.len(),
{
    if requests.len() > 0 {
        let rest = requests.drop_first();
        let asked = asked_for(requests, known_sources);
        match requests[0] {
            RequestView::Value(_) => {
                lemma_values_asked_for(rest, known_sources);
                assert(asked.drop_first() =~= asked_for(rest, known_sources));
            },
            RequestView::Source(first) => {
                if known_sources.contains(first) {
                    lemma_values_asked_for(rest, known_sources);
                } else {
                    let more = known_sources.insert(first);
                    lemma_values_asked_for(rest, more);
                    assert(asked.drop_first() =~= asked_for(rest, more));
                }
            },
        }
    }
}

proof fn lemma_source_used(
    upstreams: Seq<UpstreamResource>,
    relays: Seq<RelayResource>,
    source: SecretSourceView,
)
    ensures
        uses(upstreams, relays).contains(RequestView::Source(source)) <==> ((exists|i: int|
            0 <= i < upstreams.len() && upstream_source(#[trigger] upstreams[i]) == Some(source))
            || (exists|i: int|
            0 <= i < relays.len() && relay_source(#[trigger] relays[i]) == Some(source))),
    decreases upstreams.len() + relays.len(),
{
    let wanted = RequestView::Source(source);
    if upstreams.len() > 0 {
        let rest = upstreams.drop_first();
        lemma_source_used(rest, relays, source);
        lemma_front(
            request_of(upstreams[0].spec.oauth_client.client_secret),
            uses(rest, relays),
            wanted,
        );
        if exists|i: int|
            0 <= i < rest.len() && upstream_source(#[trigger] rest[i]) == Some(source) {
            let i = choose|i: int|
                0 <= i < rest.len() && upstream_source(#[trigger] rest[i]) == Some(source);
            assert(upstream_source(upstreams[i + 1]) == Some(source));
        }
        if exists|i: int|
            0 <= i < upstreams.len() && upstream_source(#[trigger] upstreams[i]) == Some(source) {
            let i = choose|i: int|
                0 <= i < upstreams.len() && upstream_source(#[trigger] upstreams[i]) == Some(
                    source,
                );
            if i > 0 {
                assert(upstream_source(rest[i - 1]) == Some(source));
            }
        }
        if upstream_source(upstreams[0]) == Some(source) {
            assert(request_of(upstreams[0].spec.oauth_client.client_secret) == wanted);
        }
    } else if relays.len() > 0 {
        let rest = relays.drop_first();
        lemma_source_used(upstreams, rest, source);
        if let Some(value) = relay_secret(relays[0]) {
            lemma_front(request_of(value), uses(upstreams, rest), wanted);
        }
        if exists|i: int| 0 <= i < rest.len() && relay_source(#[trigger] rest[i]) == Some(source) {
            let i = choose|i: int|
                0 <= i < rest.len() && relay_source(#[trigger] rest[i]) == Some(source);
            assert(relay_source(relays[i + 1]) == Some(source));
        }
        if exists|i: int|
            0 <= i < relays.len() && relay_source(#[trigger] relays[i]) == Some(source) {
            let i = choose|i: int|
                0 <= i < relays.len() && relay_source(#[trigger] relays[i]) == Some(source);
            if i > 0 {
                assert(relay_source(rest[i - 1]) == Some(source));
            }
        }
    }
}

/// Whether some document's client secret is kept at `source`.
pub open spec fn refers_to(documents: Seq<ResourceDocument>, source: SecretSourceView) -> bool {
    exists|i: int|
        0 <= i < documents.len() && document_source(#[trigger] documents[i]) == Some(source)
}

proof fn lemma_documents_use(documents: Seq<ResourceDocument>, source: SecretSourceView)
    ensures
        secret_uses(documents).contains(RequestView::Source(source)) <==> refers_to(
            documents,
            source,
        ),
{
    let upstreams = upstream_documents(documents);
    let relays = relay_documents(documents);
    lemma_source_used(upstreams, relays, source);
    if refers_to(documents, source) {
        let i = choose|i: int|
            0 <= i < documents.len() && document_source(#[trigger] documents[i]) == Some(source);
        let at = lemma_document_kept(documents, i);
        match documents[i] {
            ResourceDocument::Upstream(_) => {
                assert(upstream_source(upstreams[at]) == Some(source));
            },
            ResourceDocument::Relay(_) => {
                assert(relay_source(relays[at]) == Some(source));
            },
        }
    }
    if exists|i: int|
        0 <= i < upstreams.len() && upstream_source(#[trigger] upstreams[i]) == Some(source) {
        let at = choose|i: int|
            0 <= i < upstreams.len() && upstream_source(#[trigger] upstreams[i]) == Some(source);
        let i = lemma_upstream_origin(documents, at);
        assert(document_source(documents[i]) == Some(source));
    }
    if exists|i: int| 0 <= i < relays.len() && relay_source(#[trigger] relays[i]) == Some(source) {
        let at = choose|i: int|
            0 <= i < relays.len() && relay_source(#[trigger] relays[i]) == Some(source);
        let i = lemma_relay_origin(documents, at);
        assert(document_source(documents[i]) == Some(source));
    }
}

/// A compilation that succeeds asks for exactly the sources that its documents refer to, once each,
/// and for every value given in place as often as it is given.
pub proof fn every_source_is_asked_for_once(
    documents: Seq<ResourceDocument>,
    replies: Seq<Reply>,
    snapshot: SnapshotView,
)
    requires
        compilation(documents, replies) == Progress::Done(Ok(snapshot)),
        no_reply_is_left(documents, replies),
    ensures
        forall|source: SecretSourceView|
            refers_to(documents, source) <==> exists|i: int|
                0 <= i < replies.len() && (#[trigger] requests_made(documents, replies)[i])
                    == RequestView::Source(source),
        forall|i: int, j: int|
            0 <= i < j < replies.len() && (#[trigger] requests_made(documents, replies)[i]) is Source
                ==> requests_made(documents, replies)[i] != #[trigger] requests_made(
                documents,
                replies,
            )[j],
        values_in(requests_made(documents, replies)) == values_in(secret_uses(documents)),
{
    let made = requests_made(documents, replies);
    let used = secret_uses(documents);
    requests_follow_the_documents(documents, replies, snapshot);
    lemma_values_asked_for(used, Set::empty());
    assert forall|source: SecretSourceView|
        refers_to(documents, source) <==> exists|i: int|
            0 <= i < replies.len() && (#[trigger] made[i]) == RequestView::Source(source) by {
        lemma_sources_asked_for(used, Set::empty(), source);
        lemma_documents_use(documents, source);
        if refers_to(documents, source) {
            let i = choose|i: int| 0 <= i < made.len() && made[i] == RequestView::Source(source);
            assert(made[i] == RequestView::Source(source));
        }
        if exists|i: int|
            0 <= i < replies.len() && (#[trigger] made[i]) == RequestView::Source(source) {
            assert(made.contains(RequestView::Source(source)));
        }
    }
    assert forall|i: int, j: int|
        0 <= i < j < replies.len() && (#[trigger] made[i]) is Source implies made[i]
        != #[trigger] made[j] by {
        lemma_sources_differ(used, Set::empty(), i, j);
    }
}

// ---------------------------------------------------------------------------------------------
// Uses, one by one
// ---------------------------------------------------------------------------------------------

proof fn lemma_uses_of_upstreams(upstreams: Seq<UpstreamResource>, relays: Seq<RelayResource>)
    ensures
        uses(upstreams, relays) == upstreams.map_values(
            |resource: UpstreamResource| request_of(resource.spec.oauth_client.client_secret),
        ) + uses(Seq::empty(), relays),
    decreases upstreams.len(),
{
    let asks = |resource: UpstreamResource| request_of(resource.spec.oauth_client.client_secret);
    if upstreams.len() > 0 {
        let rest = upstreams.drop_first();
        lemma_uses_of_upstreams(rest, relays);
        assert(upstreams.map_values(asks) =~= seq![asks(upstreams[0])] + rest.map_values(asks));
        assert(uses(upstreams, relays) =~= upstreams.map_values(asks) + uses(Seq::empty(), relays));
    } else {
        assert(upstreams =~= Seq::<UpstreamResource>::empty());
        assert(upstreams.map_values(asks) + uses(Seq::empty(), relays) =~= uses(upstreams, relays));
    }
}

proof fn lemma_uses_of_relays(first: Seq<RelayResource>, second: Seq<RelayResource>)
    ensures
        uses(Seq::empty(), first + second) == uses(Seq::empty(), first) + uses(
            Seq::empty(),
            second,
        ),
    decreases first.len(),
{
    let none = Seq::<UpstreamResource>::empty();
    if first.len() > 0 {
        let rest = first.drop_first();
        lemma_uses_of_relays(rest, second);
        assert((first + second).drop_first() =~= rest + second);
        assert((first + second)[0] == first[0]);
        assert(uses(none, first + second) =~= uses(none, first) + uses(none, second));
    } else {
        assert(first + second =~= second);
        assert(uses(none, first) + uses(none, second) =~= uses(none, second));
    }
}

/// Upstream documents use their secrets first, in their order, one each; then come the relay
/// documents, in their order, each with its secret if it has one.
pub proof fn secrets_are_used_in_order(
    upstreams: Seq<UpstreamResource>,
    relays: Seq<RelayResource>,
    next: RelayResource,
)
    ensures
        uses(upstreams, Seq::empty()) == upstreams.map_values(
            |resource: UpstreamResource| request_of(resource.spec.oauth_client.client_secret),
        ),
        next.spec.client_authentication matches ClientAuthentication::ClientSecret {
            client_id,
            client_secret,
        } ==> uses(upstreams, relays.push(next)) == uses(upstreams, relays).push(
            request_of(client_secret),
        ),
        !(next.spec.client_authentication is ClientSecret) ==> uses(upstreams, relays.push(next))
            == uses(upstreams, relays),
{
    let none = Seq::<UpstreamResource>::empty();
    let asks = |resource: UpstreamResource| request_of(resource.spec.oauth_client.client_secret);
    lemma_uses_of_upstreams(upstreams, Seq::empty());
    lemma_uses_of_upstreams(upstreams, relays);
    lemma_uses_of_upstreams(upstreams, relays.push(next));
    lemma_uses_of_relays(relays, seq![next]);
    assert(relays.push(next) =~= relays + seq![next]);
    assert(seq![next].drop_first() =~= Seq::<RelayResource>::empty());
    assert(uses(none, Seq::<RelayResource>::empty()) =~= Seq::<RequestView>::empty());
    assert(upstreams.map_values(asks) + Seq::<RequestView>::empty() =~= upstreams.map_values(asks));
    if let Some(value) = relay_secret(next) {
        assert(uses(none, seq![next]) =~= seq![request_of(value)]);
        assert(uses(upstreams, relays.push(next)) =~= uses(upstreams, relays).push(
            request_of(value),
        ));
    } else {
        assert(uses(none, seq![next]) =~= Seq::<RequestView>::empty());
        assert(uses(upstreams, relays.push(next)) =~= uses(upstreams, relays));
    }
}

/// Another use is asked for, after all others, if it is of a value, or of a source that is neither
/// known nor used before.
pub proof fn first_uses_are_asked_for(
    requests: Seq<RequestView>,
    known_sources: Set<SecretSourceView>,
    next: RequestView,
)
    ensures
        asked_for(Seq::<RequestView>::empty(), known_sources).len() == 0,
        (match next {
            RequestView::Value(_) => true,
            RequestView::Source(source) => !known_sources.contains(source) && !requests.contains(
                next,
            ),
        }) ==> asked_for(requests.push(next), known_sources) == asked_for(
            requests,
            known_sources,
        ).push(next),
        (match next {
            RequestView::Value(_) => false,
            RequestView::Source(source) => known_sources.contains(source) || requests.contains(next),
        }) ==> asked_for(requests.push(next), known_sources) == asked_for(requests, known_sources),
    decreases requests.len(),
{
    let all = requests.push(next);
    if requests.len() == 0 {
        assert(all.drop_first() =~= Seq::<RequestView>::empty());
        assert(requests =~= Seq::<RequestView>::empty());
        let none = Seq::<RequestView>::empty();
        assert(asked_for(none, known_sources) =~= none);
        if let RequestView::Source(source) = next {
            assert(asked_for(none, known_sources.insert(source)) =~= none);
        }
        assert(seq![next] + none =~= none.push(next));
    } else {
        let rest = requests.drop_first();
        assert(all.drop_first() =~= rest.push(next));
        assert(all[0] == requests[0]);
        assert(requests =~= seq![requests[0]] + rest);
        lemma_front(requests[0], rest, next);
        match requests[0] {
            RequestView::Value(_) => {
                first_uses_are_asked_for(rest, known_sources, next);
                assert(seq![requests[0]] + asked_for(rest, known_sources).push(next) =~= (
                seq![requests[0]] + asked_for(rest, known_sources)).push(next));
            },
            RequestView::Source(first) => {
                if known_sources.contains(first) {
                    first_uses_are_asked_for(rest, known_sources, next);
                } else {
                    let more = known_sources.insert(first);
                    first_uses_are_asked_for(rest, more, next);
                    assert(seq![requests[0]] + asked_for(rest, more).push(next) =~= (
                    seq![requests[0]] + asked_for(rest, more)).push(next));
                }
            },
        }
    }
}

} // verus!
