//! What a compiled snapshot holds, document by document, and that the order of documents does not
//! matter for it.

use crate::compile::{
    answered, answered_at, answers, compilation, find_secret, first_draft, first_duplicate, known,
    progress, relay_documents, relay_name_problem, relay_of, relay_secret, relay_secret_context,
    remaining, request_of, same_identity, upstream_documents, upstream_of, upstream_secret_context,
    with_relay, with_upstream, Draft, Finding, Progress, Reply, RequestView,
};
use crate::compile_laws::{
    compiled_snapshots_are_complete_and_valid, has_relay, has_upstream, lemma_document_names,
    names_relay, names_upstream,
};
use crate::config::{
    document_name, name_problem, RelayResource, ResourceDocument, SecretResolver, SecretSourceView,
    UpstreamResource,
};
use crate::model::{ClientAuthView, RelayView, UpstreamView};
use crate::registry::{first_dangling_relay_decides, references_resolve, SnapshotView};
use vstd::prelude::*;

verus! {

// ---------------------------------------------------------------------------------------------
// From documents to resources
// ---------------------------------------------------------------------------------------------

spec fn distinct_upstreams(documents: Seq<UpstreamResource>) -> bool {
    forall|i: int, j: int|
        0 <= i < j < documents.len() ==> (#[trigger] documents[i]).metadata.name@ != (
        #[trigger] documents[j]).metadata.name@
}

spec fn distinct_relays(documents: Seq<RelayResource>) -> bool {
    forall|i: int, j: int|
        0 <= i < j < documents.len() ==> (#[trigger] documents[i]).metadata.name@ != (
        #[trigger] documents[j]).metadata.name@
}

spec fn pending_upstream(draft: Draft, key: Seq<char>) -> bool {
    exists|i: int|
        0 <= i < draft.upstream_documents.len() && (
        #[trigger] draft.upstream_documents[i]).metadata.name@ == key
}

spec fn pending_relay(draft: Draft, key: Seq<char>) -> bool {
    exists|i: int|
        0 <= i < draft.relay_documents.len() && (#[trigger] draft.relay_documents[i]).metadata.name@
            == key
}

spec fn upstream_stands(
    snapshot: SnapshotView,
    resource: UpstreamResource,
    fits: spec_fn(UpstreamResource, UpstreamView) -> bool,
) -> bool {
    snapshot.upstreams.contains_key(resource.metadata.name@) && fits(
        resource,
        snapshot.upstreams[resource.metadata.name@],
    )
}

spec fn relay_stands(
    snapshot: SnapshotView,
    resource: RelayResource,
    fits: spec_fn(RelayResource, RelayView) -> bool,
) -> bool {
    snapshot.relays.contains_key(resource.metadata.name@) && fits(
        resource,
        snapshot.relays[resource.metadata.name@],
    )
}

/// What is in a draft stays in the snapshot, and what is pending gets there in a form that fits.
spec fn carried(
    draft: Draft,
    snapshot: SnapshotView,
    upstream_fits: spec_fn(UpstreamResource, UpstreamView) -> bool,
    relay_fits: spec_fn(RelayResource, RelayView) -> bool,
) -> bool {
    &&& forall|key: Seq<char>|
        #![trigger draft.upstreams.contains_key(key)]
        draft.upstreams.contains_key(key) && !pending_upstream(draft, key)
            ==> snapshot.upstreams.contains_key(key) && snapshot.upstreams[key]
            == draft.upstreams[key]
    &&& forall|key: Seq<char>|
        #![trigger draft.relays.contains_key(key)]
        draft.relays.contains_key(key) && !pending_relay(draft, key)
            ==> snapshot.relays.contains_key(key) && snapshot.relays[key] == draft.relays[key]
    &&& forall|i: int|
        0 <= i < draft.upstream_documents.len() ==> upstream_stands(
            snapshot,
            #[trigger] draft.upstream_documents[i],
            upstream_fits,
        )
    &&& forall|i: int|
        0 <= i < draft.relay_documents.len() ==> relay_stands(
            snapshot,
            #[trigger] draft.relay_documents[i],
            relay_fits,
        )
}

proof fn lemma_upstream_carried(
    draft: Draft,
    upstream: UpstreamView,
    secrets: Map<SecretSourceView, Seq<char>>,
    snapshot: SnapshotView,
    upstream_fits: spec_fn(UpstreamResource, UpstreamView) -> bool,
    relay_fits: spec_fn(RelayResource, RelayView) -> bool,
)
    requires
        draft.upstream_documents.len() > 0,
        distinct_upstreams(draft.upstream_documents),
        upstream_fits(draft.upstream_documents[0], upstream),
        carried(with_upstream(draft, upstream, secrets), snapshot, upstream_fits, relay_fits),
    ensures
        carried(draft, snapshot, upstream_fits, relay_fits),
{
    let next = with_upstream(draft, upstream, secrets);
    let first = draft.upstream_documents[0];
    let name = first.metadata.name@;
    assert(!pending_upstream(next, name)) by {
        if pending_upstream(next, name) {
            let i = choose|i: int|
                0 <= i < next.upstream_documents.len() && (
                #[trigger] next.upstream_documents[i]).metadata.name@ == name;
            assert(draft.upstream_documents[i + 1].metadata.name@ == name);
        }
    }
    assert(next.upstreams.contains_key(name));
    assert(snapshot.upstreams[name] == upstream);
    assert forall|i: int| 0 <= i < draft.upstream_documents.len() implies upstream_stands(
        snapshot,
        #[trigger] draft.upstream_documents[i],
        upstream_fits,
    ) by {
        if i > 0 {
            assert(next.upstream_documents[i - 1] == draft.upstream_documents[i]);
        }
    }
    assert forall|key: Seq<char>|
        #![trigger draft.upstreams.contains_key(key)]
        draft.upstreams.contains_key(key) && !pending_upstream(
            draft,
            key,
        ) implies snapshot.upstreams.contains_key(key) && snapshot.upstreams[key]
        == draft.upstreams[key] by {
        assert(key != name) by {
            assert(draft.upstream_documents[0].metadata.name@ == name);
        }
        if pending_upstream(next, key) {
            let i = choose|i: int|
                0 <= i < next.upstream_documents.len() && (
                #[trigger] next.upstream_documents[i]).metadata.name@ == key;
            assert(draft.upstream_documents[i + 1].metadata.name@ == key);
        }
        assert(next.upstreams.contains_key(key));
    }
    assert forall|key: Seq<char>|
        #![trigger draft.relays.contains_key(key)]
        draft.relays.contains_key(key) && !pending_relay(
            draft,
            key,
        ) implies snapshot.relays.contains_key(key) && snapshot.relays[key]
        == draft.relays[key] by {
        assert(!pending_relay(next, key));
        assert(next.relays.contains_key(key));
    }
}

proof fn lemma_relay_carried(
    draft: Draft,
    relay: RelayView,
    secrets: Map<SecretSourceView, Seq<char>>,
    snapshot: SnapshotView,
    upstream_fits: spec_fn(UpstreamResource, UpstreamView) -> bool,
    relay_fits: spec_fn(RelayResource, RelayView) -> bool,
)
    requires
        draft.upstream_documents.len() == 0,
        draft.relay_documents.len() > 0,
        distinct_relays(draft.relay_documents),
        relay_fits(draft.relay_documents[0], relay),
        carried(with_relay(draft, relay, secrets), snapshot, upstream_fits, relay_fits),
    ensures
        carried(draft, snapshot, upstream_fits, relay_fits),
{
    let next = with_relay(draft, relay, secrets);
    let first = draft.relay_documents[0];
    let name = first.metadata.name@;
    assert(!pending_relay(next, name)) by {
        if pending_relay(next, name) {
            let i = choose|i: int|
                0 <= i < next.relay_documents.len() && (
                #[trigger] next.relay_documents[i]).metadata.name@ == name;
            assert(draft.relay_documents[i + 1].metadata.name@ == name);
        }
    }
    assert(next.relays.contains_key(name));
    assert(snapshot.relays[name] == relay);
    assert forall|i: int| 0 <= i < draft.relay_documents.len() implies relay_stands(
        snapshot,
        #[trigger] draft.relay_documents[i],
        relay_fits,
    ) by {
        if i > 0 {
            assert(next.relay_documents[i - 1] == draft.relay_documents[i]);
        }
    }
    assert forall|key: Seq<char>|
        #![trigger draft.relays.contains_key(key)]
        draft.relays.contains_key(key) && !pending_relay(
            draft,
            key,
        ) implies snapshot.relays.contains_key(key) && snapshot.relays[key]
        == draft.relays[key] by {
        assert(key != name) by {
            assert(draft.relay_documents[0].metadata.name@ == name);
        }
        if pending_relay(next, key) {
            let i = choose|i: int|
                0 <= i < next.relay_documents.len() && (
                #[trigger] next.relay_documents[i]).metadata.name@ == key;
            assert(draft.relay_documents[i + 1].metadata.name@ == key);
        }
        assert(next.relays.contains_key(key));
    }
    assert forall|key: Seq<char>|
        #![trigger draft.upstreams.contains_key(key)]
        draft.upstreams.contains_key(key) && !pending_upstream(
            draft,
            key,
        ) implies snapshot.upstreams.contains_key(key) && snapshot.upstreams[key]
        == draft.upstreams[key] by {
        assert(!pending_upstream(next, key));
        assert(next.upstreams.contains_key(key));
    }
}

proof fn lemma_distinct_upstreams_rest(documents: Seq<UpstreamResource>)
    requires
        documents.len() > 0,
        distinct_upstreams(documents),
    ensures
        distinct_upstreams(documents.drop_first()),
{
    let rest = documents.drop_first();
    assert forall|i: int, j: int| 0 <= i < j < rest.len() implies (
    #[trigger] rest[i]).metadata.name@ != (#[trigger] rest[j]).metadata.name@ by {
        assert(documents[i + 1].metadata.name@ != documents[j + 1].metadata.name@);
    }
}

proof fn lemma_distinct_relays_rest(documents: Seq<RelayResource>)
    requires
        documents.len() > 0,
        distinct_relays(documents),
    ensures
        distinct_relays(documents.drop_first()),
{
    let rest = documents.drop_first();
    assert forall|i: int, j: int| 0 <= i < j < rest.len() implies (
    #[trigger] rest[i]).metadata.name@ != (#[trigger] rest[j]).metadata.name@ by {
        assert(documents[i + 1].metadata.name@ != documents[j + 1].metadata.name@);
    }
}

proof fn lemma_distinct_documents(documents: Seq<ResourceDocument>)
    requires
        first_duplicate(documents) is None,
    ensures
        distinct_upstreams(upstream_documents(documents)),
        distinct_relays(relay_documents(documents)),
    decreases documents.len(),
{
    if documents.len() > 0 {
        let earlier = documents.drop_last();
        let name = document_name(documents.last());
        lemma_distinct_documents(earlier);
        lemma_document_names(earlier, name);
        let before = first_draft(earlier);
        let after = first_draft(documents);
        match documents.last() {
            ResourceDocument::Upstream(_) => {
                assert(!has_upstream(earlier, name)) by {
                    if has_upstream(earlier, name) {
                        let i = choose|i: int|
                            0 <= i < earlier.len() && (#[trigger] earlier[i]) is Upstream
                                && document_name(earlier[i]) == name;
                        assert(same_identity(earlier[i], documents.last()));
                    }
                }
                assert(!names_upstream(before, name));
                assert forall|i: int, j: int| 0 <= i < j < after.upstream_documents.len() implies (
                #[trigger] after.upstream_documents[i]).metadata.name@ != (
                #[trigger] after.upstream_documents[j]).metadata.name@ by {
                    assert(after.upstream_documents[i] == before.upstream_documents[i]);
                    if j < before.upstream_documents.len() {
                        assert(after.upstream_documents[j] == before.upstream_documents[j]);
                    }
                }
            },
            ResourceDocument::Relay(_) => {
                assert(!has_relay(earlier, name)) by {
                    if has_relay(earlier, name) {
                        let i = choose|i: int|
                            0 <= i < earlier.len() && (#[trigger] earlier[i]) is Relay
                                && document_name(earlier[i]) == name;
                        assert(same_identity(earlier[i], documents.last()));
                    }
                }
                assert(!names_relay(before, name));
                assert forall|i: int, j: int| 0 <= i < j < after.relay_documents.len() implies (
                #[trigger] after.relay_documents[i]).metadata.name@ != (
                #[trigger] after.relay_documents[j]).metadata.name@ by {
                    assert(after.relay_documents[i] == before.relay_documents[i]);
                    if j < before.relay_documents.len() {
                        assert(after.relay_documents[j] == before.relay_documents[j]);
                    }
                }
            },
        }
    }
}

/// Every document is among those of its kind.
pub(crate) proof fn lemma_document_kept(documents: Seq<ResourceDocument>, i: int) -> (at: int)
    requires
        0 <= i < documents.len(),
    ensures
        match documents[i] {
            ResourceDocument::Upstream(resource) => 0 <= at < upstream_documents(documents).len()
                && upstream_documents(documents)[at] == resource,
            ResourceDocument::Relay(resource) => 0 <= at < relay_documents(documents).len()
                && relay_documents(documents)[at] == resource,
        },
    decreases documents.len(),
{
    if i < documents.len() - 1 {
        lemma_document_kept(documents.drop_last(), i)
    } else {
        match documents[i] {
            ResourceDocument::Upstream(_) => upstream_documents(documents).len() - 1,
            ResourceDocument::Relay(_) => relay_documents(documents).len() - 1,
        }
    }
}

/// Every upstream document is one of the documents.
pub(crate) proof fn lemma_upstream_origin(documents: Seq<ResourceDocument>, at: int) -> (i: int)
    requires
        0 <= at < upstream_documents(documents).len(),
    ensures
        0 <= i < documents.len(),
        documents[i] == ResourceDocument::Upstream(upstream_documents(documents)[at]),
    decreases documents.len(),
{
    let earlier = documents.drop_last();
    if at < upstream_documents(earlier).len() {
        lemma_upstream_origin(earlier, at)
    } else {
        documents.len() - 1
    }
}

/// Every relay document is one of the documents.
pub(crate) proof fn lemma_relay_origin(documents: Seq<ResourceDocument>, at: int) -> (i: int)
    requires
        0 <= at < relay_documents(documents).len(),
    ensures
        0 <= i < documents.len(),
        documents[i] == ResourceDocument::Relay(relay_documents(documents)[at]),
    decreases documents.len(),
{
    let earlier = documents.drop_last();
    if at < relay_documents(earlier).len() {
        lemma_relay_origin(earlier, at)
    } else {
        documents.len() - 1
    }
}

// ---------------------------------------------------------------------------------------------
// Contents, whatever the replies
// ---------------------------------------------------------------------------------------------

/// The source of an upstream document's client secret, if it has one.
pub open spec fn upstream_source(resource: UpstreamResource) -> Option<SecretSourceView> {
    match request_of(resource.spec.oauth_client.client_secret) {
        RequestView::Source(source) => Some(source),
        RequestView::Value(_) => None,
    }
}

/// The source of a relay document's client secret, if it has one.
pub open spec fn relay_source(resource: RelayResource) -> Option<SecretSourceView> {
    match relay_secret(resource) {
        Some(value) => match request_of(value) {
            RequestView::Source(source) => Some(source),
            RequestView::Value(_) => None,
        },
        None => None,
    }
}

/// The source of a document's client secret, if it has one.
pub open spec fn document_source(document: ResourceDocument) -> Option<SecretSourceView> {
    match document {
        ResourceDocument::Upstream(resource) => upstream_source(resource),
        ResourceDocument::Relay(resource) => relay_source(resource),
    }
}

/// Whether `upstream` is what a document describes with some secret, which is that of its source,
/// if it has one.
pub open spec fn upstream_fits(
    resource: UpstreamResource,
    upstream: UpstreamView,
    secrets: Map<SecretSourceView, Seq<char>>,
) -> bool {
    &&& upstream_of(resource, upstream.client_secret) == Ok::<UpstreamView, Seq<Seq<char>>>(
        upstream,
    )
    &&& upstream_source(resource) matches Some(source) ==> secrets.contains_key(source)
        && upstream.client_secret == secrets[source]
}

/// The client secret of a relay, if it has one.
pub open spec fn secret_of_relay(relay: RelayView) -> Option<Seq<char>> {
    match relay.client_auth {
        ClientAuthView::ClientSecret { client_id, client_secret } => Some(client_secret),
        _ => None,
    }
}

/// Whether `relay` is what a document describes with its secret, if it has one, which is that of
/// its source, if it has one.
pub open spec fn relay_fits(
    resource: RelayResource,
    relay: RelayView,
    secrets: Map<SecretSourceView, Seq<char>>,
) -> bool {
    &&& relay_of(resource, secret_of_relay(relay)) == Ok::<RelayView, Seq<Seq<char>>>(relay)
    &&& relay_source(resource) matches Some(source) ==> secrets.contains_key(source)
        && secret_of_relay(relay) == Some(secrets[source])
}

/// Whether `snapshot` has the resource of a document, with the secret of its source in `secrets`.
pub open spec fn has_resource_of(
    snapshot: SnapshotView,
    document: ResourceDocument,
    secrets: Map<SecretSourceView, Seq<char>>,
) -> bool {
    match document {
        ResourceDocument::Upstream(resource) => snapshot.upstreams.contains_key(
            resource.metadata.name@,
        ) && upstream_fits(resource, snapshot.upstreams[resource.metadata.name@], secrets),
        ResourceDocument::Relay(resource) => snapshot.relays.contains_key(resource.metadata.name@)
            && relay_fits(resource, snapshot.relays[resource.metadata.name@], secrets),
    }
}

/// Whether `later` says of every source what `earlier` says.
spec fn extends(
    later: Map<SecretSourceView, Seq<char>>,
    earlier: Map<SecretSourceView, Seq<char>>,
) -> bool {
    forall|source: SecretSourceView| #[trigger]
        earlier.contains_key(source) ==> later.contains_key(source) && later[source]
            == earlier[source]
}

/// Whether reply `i`, if it is to a request for a source, is the secret of that source.
spec fn reply_kept(
    draft: Draft,
    replies: Seq<Reply>,
    secrets: Map<SecretSourceView, Seq<char>>,
    i: int,
) -> bool {
    progress(draft, replies.take(i)) matches Progress::Ask(RequestView::Source(source))
        ==> secrets.contains_key(source) && replies[i] == Ok::<Seq<char>, Seq<Seq<char>>>(
        secrets[source],
    )
}

spec fn replies_kept(
    draft: Draft,
    replies: Seq<Reply>,
    secrets: Map<SecretSourceView, Seq<char>>,
) -> bool {
    forall|i: int| 0 <= i < replies.len() ==> #[trigger] reply_kept(draft, replies, secrets, i)
}

/// One document on: what is kept of the replies to the rest is kept of all of them.
proof fn lemma_replies_kept(
    draft: Draft,
    next: Draft,
    request: RequestView,
    replies: Seq<Reply>,
    secrets: Map<SecretSourceView, Seq<char>>,
)
    requires
        find_secret(request, draft.secrets, replies) is Found,
        extends(secrets, find_secret(request, draft.secrets, replies)->Found_secrets),
        replies_kept(
            next,
            find_secret(request, draft.secrets, replies)->Found_replies,
            secrets,
        ),
        forall|i: int|
            0 <= i <= replies.len() ==> #[trigger] progress(draft, replies.take(i)) == match (
            find_secret(request, draft.secrets, replies.take(i))) {
                Finding::Open(request) => Progress::Ask(request),
                Finding::Failed(_) => progress(draft, replies.take(i)),
                Finding::Found { secret, secrets, replies } => progress(next, replies),
            },
    ensures
        replies_kept(draft, replies, secrets),
{
    assert forall|i: int| 0 <= i < replies.len() implies #[trigger] reply_kept(
        draft,
        replies,
        secrets,
        i,
    ) by {
        let part = progress(draft, replies.take(i));
        if known(draft.secrets, request) {
            assert(reply_kept(next, replies, secrets, i));
        } else if i == 0 {
            let grown = find_secret(request, draft.secrets, replies)->Found_secrets;
            if let RequestView::Source(source) = request {
                assert(grown.contains_key(source));
            }
        } else {
            let rest = replies.drop_first();
            assert(replies.take(i).drop_first() =~= rest.take(i - 1));
            assert(reply_kept(next, rest, secrets, i - 1));
        }
    }
}

/// The secrets by source at the end of a draft that becomes a snapshot.
proof fn lemma_secrets(draft: Draft, replies: Seq<Reply>, snapshot: SnapshotView) -> (secrets: Map<
    SecretSourceView,
    Seq<char>,
>)
    requires
        progress(draft, replies) == Progress::Done(Ok(snapshot)),
        distinct_upstreams(draft.upstream_documents),
        distinct_relays(draft.relay_documents),
    ensures
        extends(secrets, draft.secrets),
        replies_kept(draft, replies, secrets),
        carried(
            draft,
            snapshot,
            |resource: UpstreamResource, upstream: UpstreamView|
                upstream_fits(resource, upstream, secrets),
            |resource: RelayResource, relay: RelayView| relay_fits(resource, relay, secrets),
        ),
    decreases remaining(draft),
{
    if draft.upstream_documents.len() > 0 {
        let resource = draft.upstream_documents[0];
        let request = request_of(resource.spec.oauth_client.client_secret);
        let found = find_secret(request, draft.secrets, replies);
        let upstream = upstream_of(resource, found->secret)->Ok_0;
        let next = with_upstream(draft, upstream, found->Found_secrets);
        lemma_distinct_upstreams_rest(draft.upstream_documents);
        let secrets = lemma_secrets(next, found->Found_replies, snapshot);
        if let Some(source) = upstream_source(resource) {
            assert(found->Found_secrets.contains_key(source));
        }
        let ups = |resource: UpstreamResource, upstream: UpstreamView|
            upstream_fits(resource, upstream, secrets);
        let rels = |resource: RelayResource, relay: RelayView| relay_fits(resource, relay, secrets);
        assert(ups(resource, upstream));
        lemma_upstream_carried(draft, upstream, found->Found_secrets, snapshot, ups, rels);
        assert(extends(found->Found_secrets, draft.secrets));
        assert forall|i: int| 0 <= i <= replies.len() implies #[trigger] progress(
            draft,
            replies.take(i),
        ) == match (find_secret(request, draft.secrets, replies.take(i))) {
            Finding::Open(request) => Progress::Ask(request),
            Finding::Failed(_) => progress(draft, replies.take(i)),
            Finding::Found { secret, secrets, replies } => progress(next, replies),
        } by {}
        lemma_replies_kept(draft, next, request, replies, secrets);
        secrets
    } else if draft.relay_documents.len() > 0 {
        let resource = draft.relay_documents[0];
        lemma_distinct_relays_rest(draft.relay_documents);
        match relay_secret(resource) {
            None => {
                let relay = relay_of(resource, None)->Ok_0;
                let next = with_relay(draft, relay, draft.secrets);
                let secrets = lemma_secrets(next, replies, snapshot);
                let ups = |resource: UpstreamResource, upstream: UpstreamView|
                    upstream_fits(resource, upstream, secrets);
                let rels = |resource: RelayResource, relay: RelayView|
                    relay_fits(resource, relay, secrets);
                assert(rels(resource, relay));
                lemma_relay_carried(draft, relay, draft.secrets, snapshot, ups, rels);
                assert forall|i: int| 0 <= i < replies.len() implies #[trigger] reply_kept(
                    draft,
                    replies,
                    secrets,
                    i,
                ) by {
                    assert(reply_kept(next, replies, secrets, i));
                }
                secrets
            },
            Some(value) => {
                let request = request_of(value);
                let found = find_secret(request, draft.secrets, replies);
                let relay = relay_of(resource, Some(found->secret))->Ok_0;
                let next = with_relay(draft, relay, found->Found_secrets);
                let secrets = lemma_secrets(next, found->Found_replies, snapshot);
                if let Some(source) = relay_source(resource) {
                    assert(found->Found_secrets.contains_key(source));
                }
                let ups = |resource: UpstreamResource, upstream: UpstreamView|
                    upstream_fits(resource, upstream, secrets);
                let rels = |resource: RelayResource, relay: RelayView|
                    relay_fits(resource, relay, secrets);
                assert(rels(resource, relay));
                lemma_relay_carried(draft, relay, found->Found_secrets, snapshot, ups, rels);
                assert(extends(found->Found_secrets, draft.secrets));
                assert forall|i: int| 0 <= i <= replies.len() implies #[trigger] progress(
                    draft,
                    replies.take(i),
                ) == match (find_secret(request, draft.secrets, replies.take(i))) {
                    Finding::Open(request) => Progress::Ask(request),
                    Finding::Failed(_) => progress(draft, replies.take(i)),
                    Finding::Found { secret, secrets, replies } => progress(next, replies),
                } by {}
                lemma_replies_kept(draft, next, request, replies, secrets);
                secrets
            },
        }
    } else {
        draft.secrets
    }
}

/// Whether reply `i`, if it is to a request for a source, is what `secrets` has for that source.
pub open spec fn source_answered(
    documents: Seq<ResourceDocument>,
    replies: Seq<Reply>,
    secrets: Map<SecretSourceView, Seq<char>>,
    i: int,
) -> bool {
    compilation(documents, replies.take(i)) matches Progress::Ask(RequestView::Source(source))
        ==> secrets.contains_key(source) && replies[i] == Ok::<Seq<char>, Seq<Seq<char>>>(
        secrets[source],
    )
}

/// Whatever the replies to a compilation that succeeds, there is one secret per source, which is
/// the reply to the request for that source. All documents that refer to a source share it, and the
/// snapshot has for every document the resource that it describes with its secret.
pub proof fn documents_are_carried_out(
    documents: Seq<ResourceDocument>,
    replies: Seq<Reply>,
    snapshot: SnapshotView,
) -> (secrets: Map<SecretSourceView, Seq<char>>)
    requires
        compilation(documents, replies) == Progress::Done(Ok(snapshot)),
    ensures
        forall|i: int|
            0 <= i < documents.len() ==> has_resource_of(
                snapshot,
                #[trigger] documents[i],
                secrets,
            ),
        forall|i: int|
            0 <= i < replies.len() ==> #[trigger] source_answered(documents, replies, secrets, i),
{
    let draft = first_draft(documents);
    lemma_distinct_documents(documents);
    let secrets = lemma_secrets(draft, replies, snapshot);
    assert forall|i: int| 0 <= i < documents.len() implies has_resource_of(
        snapshot,
        #[trigger] documents[i],
        secrets,
    ) by {
        let at = lemma_document_kept(documents, i);
        match documents[i] {
            ResourceDocument::Upstream(resource) => {
                assert(draft.upstream_documents[at] == resource);
            },
            ResourceDocument::Relay(resource) => {
                assert(draft.relay_documents[at] == resource);
            },
        }
    }
    assert forall|i: int| 0 <= i < replies.len() implies #[trigger] source_answered(
        documents,
        replies,
        secrets,
        i,
    ) by {
        assert(reply_kept(draft, replies, secrets, i));
    }
    secrets
}

// ---------------------------------------------------------------------------------------------
// Contents, with one answer per request
// ---------------------------------------------------------------------------------------------

/// The upstream of a document when every request is answered as `lookup` says, if it has one.
pub open spec fn upstream_by(
    resource: UpstreamResource,
    lookup: spec_fn(RequestView) -> Reply,
) -> Option<UpstreamView> {
    if name_problem("Upstream"@, resource.metadata.name@) is Some {
        None
    } else {
        match lookup(request_of(resource.spec.oauth_client.client_secret)) {
            Err(_) => None,
            Ok(secret) => match upstream_of(resource, secret) {
                Ok(upstream) => Some(upstream),
                Err(_) => None,
            },
        }
    }
}

/// The relay of a document when every request is answered as `lookup` says, if it has one.
pub open spec fn relay_by(
    resource: RelayResource,
    lookup: spec_fn(RequestView) -> Reply,
) -> Option<RelayView> {
    if relay_name_problem(resource) is Some {
        None
    } else {
        match relay_secret(resource) {
            None => match relay_of(resource, None) {
                Ok(relay) => Some(relay),
                Err(_) => None,
            },
            Some(value) => match lookup(request_of(value)) {
                Err(_) => None,
                Ok(secret) => match relay_of(resource, Some(secret)) {
                    Ok(relay) => Some(relay),
                    Err(_) => None,
                },
            },
        }
    }
}

/// Whether reply `i` is what `lookup` says to the request that is open after those before it.
pub open spec fn reply_by(
    documents: Seq<ResourceDocument>,
    replies: Seq<Reply>,
    lookup: spec_fn(RequestView) -> Reply,
    i: int,
) -> bool {
    compilation(documents, replies.take(i)) matches Progress::Ask(request) && replies[i] == lookup(
        request,
    )
}

/// Whether every reply is what `lookup` says to the request that is open at its point.
pub open spec fn replies_by(
    documents: Seq<ResourceDocument>,
    replies: Seq<Reply>,
    lookup: spec_fn(RequestView) -> Reply,
) -> bool {
    forall|i: int| 0 <= i < replies.len() ==> #[trigger] reply_by(documents, replies, lookup, i)
}

spec fn draft_reply_by(
    draft: Draft,
    replies: Seq<Reply>,
    lookup: spec_fn(RequestView) -> Reply,
    i: int,
) -> bool {
    progress(draft, replies.take(i)) matches Progress::Ask(request) && replies[i] == lookup(request)
}

spec fn draft_replies_by(
    draft: Draft,
    replies: Seq<Reply>,
    lookup: spec_fn(RequestView) -> Reply,
) -> bool {
    forall|i: int| 0 <= i < replies.len() ==> #[trigger] draft_reply_by(draft, replies, lookup, i)
}

spec fn secrets_by(
    secrets: Map<SecretSourceView, Seq<char>>,
    lookup: spec_fn(RequestView) -> Reply,
) -> bool {
    forall|source: SecretSourceView| #[trigger]
        secrets.contains_key(source) ==> lookup(RequestView::Source(source)) == Ok::<
            Seq<char>,
            Seq<Seq<char>>,
        >(secrets[source])
}

/// What a draft finds of a secret is what `lookup` says, and so are the replies to the rest.
proof fn lemma_found_by(
    draft: Draft,
    next: Draft,
    request: RequestView,
    replies: Seq<Reply>,
    lookup: spec_fn(RequestView) -> Reply,
)
    requires
        secrets_by(draft.secrets, lookup),
        draft_replies_by(draft, replies, lookup),
        find_secret(request, draft.secrets, replies) is Found,
        forall|i: int|
            0 <= i <= replies.len() ==> #[trigger] progress(draft, replies.take(i)) == match (
            find_secret(request, draft.secrets, replies.take(i))) {
                Finding::Open(request) => Progress::Ask(request),
                Finding::Failed(_) => progress(draft, replies.take(i)),
                Finding::Found { secret, secrets, replies } => progress(next, replies),
            },
    ensures
        lookup(request) == Ok::<Seq<char>, Seq<Seq<char>>>(
            find_secret(request, draft.secrets, replies)->secret,
        ),
        secrets_by(find_secret(request, draft.secrets, replies)->Found_secrets, lookup),
        draft_replies_by(
            next,
            find_secret(request, draft.secrets, replies)->Found_replies,
            lookup,
        ),
{
    let found = find_secret(request, draft.secrets, replies);
    if known(draft.secrets, request) {
        assert forall|i: int| 0 <= i < replies.len() implies #[trigger] draft_reply_by(
            next,
            replies,
            lookup,
            i,
        ) by {
            assert(draft_reply_by(draft, replies, lookup, i));
        }
    } else {
        let rest = replies.drop_first();
        assert(draft_reply_by(draft, replies, lookup, 0));
        assert(progress(draft, replies.take(0)) == Progress::Ask(request));
        assert forall|i: int| 0 <= i < rest.len() implies #[trigger] draft_reply_by(
            next,
            rest,
            lookup,
            i,
        ) by {
            assert(draft_reply_by(draft, replies, lookup, i + 1));
            assert(replies.take(i + 1).drop_first() =~= rest.take(i));
        }
    }
}

/// A failure to find a secret is a failure that `lookup` says.
proof fn lemma_failed_by(
    draft: Draft,
    request: RequestView,
    replies: Seq<Reply>,
    lookup: spec_fn(RequestView) -> Reply,
)
    requires
        draft_replies_by(draft, replies, lookup),
        find_secret(request, draft.secrets, replies) is Failed,
        progress(draft, replies.take(0)) == Progress::Ask(request),
    ensures
        lookup(request) is Err,
{
    assert(draft_reply_by(draft, replies, lookup, 0));
}

proof fn lemma_contents_by(
    draft: Draft,
    replies: Seq<Reply>,
    lookup: spec_fn(RequestView) -> Reply,
    snapshot: SnapshotView,
)
    requires
        progress(draft, replies) == Progress::Done(Ok(snapshot)),
        secrets_by(draft.secrets, lookup),
        draft_replies_by(draft, replies, lookup),
        distinct_upstreams(draft.upstream_documents),
        distinct_relays(draft.relay_documents),
    ensures
        carried(
            draft,
            snapshot,
            |resource: UpstreamResource, upstream: UpstreamView|
                upstream_by(resource, lookup) == Some(upstream),
            |resource: RelayResource, relay: RelayView| relay_by(resource, lookup) == Some(relay),
        ),
    decreases remaining(draft),
{
    let ups = |resource: UpstreamResource, upstream: UpstreamView|
        upstream_by(resource, lookup) == Some(upstream);
    let rels = |resource: RelayResource, relay: RelayView|
        relay_by(resource, lookup) == Some(relay);
    if draft.upstream_documents.len() > 0 {
        let resource = draft.upstream_documents[0];
        let request = request_of(resource.spec.oauth_client.client_secret);
        let found = find_secret(request, draft.secrets, replies);
        let upstream = upstream_of(resource, found->secret)->Ok_0;
        let next = with_upstream(draft, upstream, found->Found_secrets);
        lemma_distinct_upstreams_rest(draft.upstream_documents);
        assert forall|i: int| 0 <= i <= replies.len() implies #[trigger] progress(
            draft,
            replies.take(i),
        ) == match (find_secret(request, draft.secrets, replies.take(i))) {
            Finding::Open(request) => Progress::Ask(request),
            Finding::Failed(_) => progress(draft, replies.take(i)),
            Finding::Found { secret, secrets, replies } => progress(next, replies),
        } by {}
        lemma_found_by(draft, next, request, replies, lookup);
        lemma_contents_by(next, found->Found_replies, lookup, snapshot);
        assert(ups(resource, upstream));
        lemma_upstream_carried(draft, upstream, found->Found_secrets, snapshot, ups, rels);
    } else if draft.relay_documents.len() > 0 {
        let resource = draft.relay_documents[0];
        lemma_distinct_relays_rest(draft.relay_documents);
        match relay_secret(resource) {
            None => {
                let relay = relay_of(resource, None)->Ok_0;
                let next = with_relay(draft, relay, draft.secrets);
                assert forall|i: int| 0 <= i < replies.len() implies #[trigger] draft_reply_by(
                    next,
                    replies,
                    lookup,
                    i,
                ) by {
                    assert(draft_reply_by(draft, replies, lookup, i));
                }
                lemma_contents_by(next, replies, lookup, snapshot);
                assert(rels(resource, relay));
                lemma_relay_carried(draft, relay, draft.secrets, snapshot, ups, rels);
            },
            Some(value) => {
                let request = request_of(value);
                let found = find_secret(request, draft.secrets, replies);
                let relay = relay_of(resource, Some(found->secret))->Ok_0;
                let next = with_relay(draft, relay, found->Found_secrets);
                assert forall|i: int| 0 <= i <= replies.len() implies #[trigger] progress(
                    draft,
                    replies.take(i),
                ) == match (find_secret(request, draft.secrets, replies.take(i))) {
                    Finding::Open(request) => Progress::Ask(request),
                    Finding::Failed(_) => progress(draft, replies.take(i)),
                    Finding::Found { secret, secrets, replies } => progress(next, replies),
                } by {}
                lemma_found_by(draft, next, request, replies, lookup);
                lemma_contents_by(next, found->Found_replies, lookup, snapshot);
                assert(rels(resource, relay));
                lemma_relay_carried(draft, relay, found->Found_secrets, snapshot, ups, rels);
            },
        }
    }
}

/// A draft in which nothing can go wrong when requests are answered as `lookup` says.
spec fn faultless(draft: Draft, lookup: spec_fn(RequestView) -> Reply) -> bool {
    &&& forall|i: int|
        0 <= i < draft.upstream_documents.len() ==> upstream_by(
            #[trigger] draft.upstream_documents[i],
            lookup,
        ) is Some
    &&& forall|i: int|
        0 <= i < draft.relay_documents.len() ==> relay_by(
            #[trigger] draft.relay_documents[i],
            lookup,
        ) is Some && names_upstream(
            draft,
            draft.relay_documents[i].spec.upstream_ref.name@,
        )
    &&& forall|i: int|
        0 <= i < draft.relay_keys.len() ==> names_upstream(
            draft,
            draft.relays[#[trigger] draft.relay_keys[i]].upstream,
        )
}

proof fn lemma_upstream_faultless(
    draft: Draft,
    upstream: UpstreamView,
    secrets: Map<SecretSourceView, Seq<char>>,
    lookup: spec_fn(RequestView) -> Reply,
)
    requires
        draft.upstream_documents.len() > 0,
        faultless(draft, lookup),
    ensures
        faultless(with_upstream(draft, upstream, secrets), lookup),
{
    let next = with_upstream(draft, upstream, secrets);
    assert forall|key: Seq<char>| names_upstream(draft, key) implies names_upstream(
        next,
        key,
    ) by {
        if !draft.upstreams.contains_key(key) {
            let i = choose|i: int|
                0 <= i < draft.upstream_documents.len() && (
                #[trigger] draft.upstream_documents[i]).metadata.name@ == key;
            if i > 0 {
                assert(next.upstream_documents[i - 1].metadata.name@ == key);
            }
        }
    }
    assert forall|i: int| 0 <= i < next.upstream_documents.len() implies upstream_by(
        #[trigger] next.upstream_documents[i],
        lookup,
    ) is Some by {
        assert(upstream_by(draft.upstream_documents[i + 1], lookup) is Some);
    }
    assert forall|i: int| 0 <= i < next.relay_documents.len() implies relay_by(
        #[trigger] next.relay_documents[i],
        lookup,
    ) is Some && names_upstream(next, next.relay_documents[i].spec.upstream_ref.name@) by {
        assert(relay_by(draft.relay_documents[i], lookup) is Some);
    }
    assert forall|i: int| 0 <= i < next.relay_keys.len() implies names_upstream(
        next,
        next.relays[#[trigger] next.relay_keys[i]].upstream,
    ) by {
        assert(names_upstream(draft, draft.relays[draft.relay_keys[i]].upstream));
    }
}

proof fn lemma_relay_faultless(
    draft: Draft,
    relay: RelayView,
    secrets: Map<SecretSourceView, Seq<char>>,
    lookup: spec_fn(RequestView) -> Reply,
)
    requires
        draft.upstream_documents.len() == 0,
        draft.relay_documents.len() > 0,
        relay.upstream == draft.relay_documents[0].spec.upstream_ref.name@,
        faultless(draft, lookup),
    ensures
        faultless(with_relay(draft, relay, secrets), lookup),
{
    let next = with_relay(draft, relay, secrets);
    let name = draft.relay_documents[0].metadata.name@;
    assert(names_upstream(draft, draft.relay_documents[0].spec.upstream_ref.name@));
    assert forall|key: Seq<char>| names_upstream(draft, key) implies names_upstream(
        next,
        key,
    ) by {}
    assert forall|i: int| 0 <= i < next.relay_documents.len() implies relay_by(
        #[trigger] next.relay_documents[i],
        lookup,
    ) is Some && names_upstream(next, next.relay_documents[i].spec.upstream_ref.name@) by {
        assert(relay_by(draft.relay_documents[i + 1], lookup) is Some);
    }
    assert forall|i: int| 0 <= i < next.relay_keys.len() implies names_upstream(
        next,
        next.relays[#[trigger] next.relay_keys[i]].upstream,
    ) by {
        if next.relay_keys[i] != name {
            assert(draft.relay_keys[i] == next.relay_keys[i]);
            assert(names_upstream(draft, draft.relays[draft.relay_keys[i]].upstream));
        }
    }
}

proof fn lemma_no_error(draft: Draft, replies: Seq<Reply>, lookup: spec_fn(RequestView) -> Reply)
    requires
        secrets_by(draft.secrets, lookup),
        draft_replies_by(draft, replies, lookup),
        faultless(draft, lookup),
    ensures
        !(progress(draft, replies) matches Progress::Done(Err(_))),
    decreases remaining(draft),
{
    if draft.upstream_documents.len() > 0 {
        let resource = draft.upstream_documents[0];
        let request = request_of(resource.spec.oauth_client.client_secret);
        let found = find_secret(request, draft.secrets, replies);
        assert(upstream_by(draft.upstream_documents[0], lookup) is Some);
        match found {
            Finding::Open(_) => {},
            Finding::Failed(_) => {
                lemma_failed_by(draft, request, replies, lookup);
            },
            Finding::Found { secret, secrets, replies: rest } => {
                let upstream = upstream_of(resource, secret)->Ok_0;
                let next = with_upstream(draft, upstream, secrets);
                lemma_secret_by(draft, request, replies, lookup);
                assert forall|i: int| 0 <= i <= replies.len() implies #[trigger] progress(
                    draft,
                    replies.take(i),
                ) == match (find_secret(request, draft.secrets, replies.take(i))) {
                    Finding::Open(request) => Progress::Ask(request),
                    Finding::Failed(_) => progress(draft, replies.take(i)),
                    Finding::Found { secret, secrets, replies } => progress(next, replies),
                } by {}
                lemma_found_by(draft, next, request, replies, lookup);
                lemma_upstream_faultless(draft, upstream, secrets, lookup);
                lemma_no_error(next, rest, lookup);
            },
        }
    } else if draft.relay_documents.len() > 0 {
        let resource = draft.relay_documents[0];
        assert(relay_by(draft.relay_documents[0], lookup) is Some);
        match relay_secret(resource) {
            None => {
                let relay = relay_of(resource, None)->Ok_0;
                let next = with_relay(draft, relay, draft.secrets);
                assert forall|i: int| 0 <= i < replies.len() implies #[trigger] draft_reply_by(
                    next,
                    replies,
                    lookup,
                    i,
                ) by {
                    assert(draft_reply_by(draft, replies, lookup, i));
                }
                lemma_relay_faultless(draft, relay, draft.secrets, lookup);
                lemma_no_error(next, replies, lookup);
            },
            Some(value) => {
                let request = request_of(value);
                match find_secret(request, draft.secrets, replies) {
                    Finding::Open(_) => {},
                    Finding::Failed(_) => {
                        lemma_failed_by(draft, request, replies, lookup);
                    },
                    Finding::Found { secret, secrets, replies: rest } => {
                        let relay = relay_of(resource, Some(secret))->Ok_0;
                        let next = with_relay(draft, relay, secrets);
                        lemma_secret_by(draft, request, replies, lookup);
                        assert forall|i: int| 0 <= i <= replies.len() implies #[trigger] progress(
                            draft,
                            replies.take(i),
                        ) == match (find_secret(request, draft.secrets, replies.take(i))) {
                            Finding::Open(request) => Progress::Ask(request),
                            Finding::Failed(_) => progress(draft, replies.take(i)),
                            Finding::Found { secret, secrets, replies } => progress(next, replies),
                        } by {}
                        lemma_found_by(draft, next, request, replies, lookup);
                        lemma_relay_faultless(draft, relay, secrets, lookup);
                        lemma_no_error(next, rest, lookup);
                    },
                }
            },
        }
    } else {
        references_resolve(draft.relay_keys, draft.relays, draft.upstreams);
        assert forall|i: int| 0 <= i < draft.relay_keys.len() implies draft.upstreams.contains_key(
            draft.relays[#[trigger] draft.relay_keys[i]].upstream,
        ) by {
            assert(names_upstream(draft, draft.relays[draft.relay_keys[i]].upstream));
        }
    }
}

/// A secret that a draft finds is what `lookup` says.
proof fn lemma_secret_by(
    draft: Draft,
    request: RequestView,
    replies: Seq<Reply>,
    lookup: spec_fn(RequestView) -> Reply,
)
    requires
        secrets_by(draft.secrets, lookup),
        draft_replies_by(draft, replies, lookup),
        find_secret(request, draft.secrets, replies) is Found,
        !known(draft.secrets, request) ==> progress(draft, replies.take(0)) == Progress::Ask(
            request,
        ),
    ensures
        lookup(request) == Ok::<Seq<char>, Seq<Seq<char>>>(
            find_secret(request, draft.secrets, replies)->secret,
        ),
{
    if !known(draft.secrets, request) {
        assert(draft_reply_by(draft, replies, lookup, 0));
    }
}

proof fn lemma_drafted(
    documents: Seq<ResourceDocument>,
    replies: Seq<Reply>,
    lookup: spec_fn(RequestView) -> Reply,
)
    requires
        first_duplicate(documents) is None,
        replies_by(documents, replies, lookup),
    ensures
        draft_replies_by(first_draft(documents), replies, lookup),
{
    assert forall|i: int| 0 <= i < replies.len() implies #[trigger] draft_reply_by(
        first_draft(documents),
        replies,
        lookup,
        i,
    ) by {
        assert(reply_by(documents, replies, lookup, i));
    }
}

/// Whether `snapshot` has the resource that a document describes when every request is answered as
/// `lookup` says.
pub open spec fn has_resource_by(
    snapshot: SnapshotView,
    document: ResourceDocument,
    lookup: spec_fn(RequestView) -> Reply,
) -> bool {
    match document {
        ResourceDocument::Upstream(resource) => snapshot.upstreams.contains_key(
            resource.metadata.name@,
        ) && upstream_by(resource, lookup) == Some(snapshot.upstreams[resource.metadata.name@]),
        ResourceDocument::Relay(resource) => snapshot.relays.contains_key(resource.metadata.name@)
            && relay_by(resource, lookup) == Some(snapshot.relays[resource.metadata.name@]),
    }
}

/// With one answer per request, a compilation that succeeds has for every document the resource
/// that it describes with the answer to its own request.
pub proof fn documents_get_their_own_answers(
    documents: Seq<ResourceDocument>,
    replies: Seq<Reply>,
    lookup: spec_fn(RequestView) -> Reply,
    snapshot: SnapshotView,
)
    requires
        replies_by(documents, replies, lookup),
        compilation(documents, replies) == Progress::Done(Ok(snapshot)),
    ensures
        forall|i: int|
            0 <= i < documents.len() ==> has_resource_by(
                snapshot,
                #[trigger] documents[i],
                lookup,
            ),
{
    let draft = first_draft(documents);
    lemma_distinct_documents(documents);
    lemma_drafted(documents, replies, lookup);
    lemma_contents_by(draft, replies, lookup, snapshot);
    assert forall|i: int| 0 <= i < documents.len() implies has_resource_by(
        snapshot,
        #[trigger] documents[i],
        lookup,
    ) by {
        let at = lemma_document_kept(documents, i);
        match documents[i] {
            ResourceDocument::Upstream(resource) => {
                assert(draft.upstream_documents[at] == resource);
            },
            ResourceDocument::Relay(resource) => {
                assert(draft.relay_documents[at] == resource);
            },
        }
    }
}

// ---------------------------------------------------------------------------------------------
// Order
// ---------------------------------------------------------------------------------------------

proof fn lemma_same_documents(
    documents: Seq<ResourceDocument>,
    other: Seq<ResourceDocument>,
    i: int,
) -> (j: int)
    requires
        documents.to_multiset() == other.to_multiset(),
        0 <= i < documents.len(),
    ensures
        0 <= j < other.len(),
        other[j] == documents[i],
{
    documents.to_multiset_ensures();
    other.to_multiset_ensures();
    assert(documents.contains(documents[i]));
    assert(other.to_multiset().count(documents[i]) > 0);
    assert(other.contains(documents[i]));
    choose|j: int| 0 <= j < other.len() && other[j] == documents[i]
}

proof fn lemma_same_names(
    documents: Seq<ResourceDocument>,
    other: Seq<ResourceDocument>,
    name: Seq<char>,
)
    requires
        documents.to_multiset() == other.to_multiset(),
    ensures
        has_upstream(documents, name) ==> has_upstream(other, name),
        has_relay(documents, name) ==> has_relay(other, name),
{
    if has_upstream(documents, name) {
        let i = choose|i: int|
            0 <= i < documents.len() && (#[trigger] documents[i]) is Upstream && document_name(
                documents[i],
            ) == name;
        let j = lemma_same_documents(documents, other, i);
        assert(other[j] is Upstream && document_name(other[j]) == name);
    }
    if has_relay(documents, name) {
        let i = choose|i: int|
            0 <= i < documents.len() && (#[trigger] documents[i]) is Relay && document_name(
                documents[i],
            ) == name;
        let j = lemma_same_documents(documents, other, i);
        assert(other[j] is Relay && document_name(other[j]) == name);
    }
}

/// Without a duplicate no two documents have the same identity.
proof fn lemma_identities(documents: Seq<ResourceDocument>, i: int, j: int)
    requires
        first_duplicate(documents) is None,
        0 <= i < j < documents.len(),
    ensures
        !same_identity(documents[i], documents[j]),
    decreases documents.len(),
{
    let earlier = documents.drop_last();
    if j < earlier.len() {
        lemma_identities(earlier, i, j);
    } else if same_identity(documents[i], documents[j]) {
        assert(same_identity(earlier[i], documents.last()));
    }
}

/// A duplicate is a pair of documents of the same identity.
proof fn lemma_duplicate_pair(documents: Seq<ResourceDocument>) -> (pair: (int, int))
    requires
        first_duplicate(documents) is Some,
    ensures
        0 <= pair.0 < pair.1 < documents.len(),
        same_identity(documents[pair.0], documents[pair.1]),
    decreases documents.len(),
{
    let earlier = documents.drop_last();
    if first_duplicate(earlier) is Some {
        lemma_duplicate_pair(earlier)
    } else {
        let i = choose|i: int|
            0 <= i < earlier.len() && same_identity(#[trigger] earlier[i], documents.last());
        (i, documents.len() - 1)
    }
}

proof fn lemma_no_duplicate_in_any_order(
    documents: Seq<ResourceDocument>,
    other: Seq<ResourceDocument>,
)
    requires
        documents.to_multiset() == other.to_multiset(),
        first_duplicate(documents) is None,
    ensures
        first_duplicate(other) is None,
{
    if first_duplicate(other) is Some {
        let (a, b) = lemma_duplicate_pair(other);
        assert forall|i: int, j: int|
            0 <= i < documents.len() && 0 <= j < documents.len() && i != j implies documents[i]
            != documents[j] by {
            if i < j {
                lemma_identities(documents, i, j);
            } else {
                lemma_identities(documents, j, i);
            }
        }
        documents.lemma_multiset_has_no_duplicates();
        other.lemma_multiset_has_no_duplicates_conv();
        let i = lemma_same_documents(other, documents, a);
        let j = lemma_same_documents(other, documents, b);
        assert(other[a] != other[b]);
        if i < j {
            lemma_identities(documents, i, j);
        } else {
            lemma_identities(documents, j, i);
        }
    }
}

/// What compiles in one order is not refused in another.
proof fn lemma_accepted_in_any_order(
    documents: Seq<ResourceDocument>,
    other: Seq<ResourceDocument>,
    lookup: spec_fn(RequestView) -> Reply,
    replies: Seq<Reply>,
    other_replies: Seq<Reply>,
    snapshot: SnapshotView,
)
    requires
        documents.to_multiset() == other.to_multiset(),
        replies_by(documents, replies, lookup),
        replies_by(other, other_replies, lookup),
        compilation(documents, replies) == Progress::Done(Ok(snapshot)),
    ensures
        !(compilation(other, other_replies) matches Progress::Done(Err(_))),
{
    let draft = first_draft(other);
    documents_get_their_own_answers(documents, replies, lookup, snapshot);
    compiled_snapshots_are_complete_and_valid(documents, replies, snapshot);
    lemma_no_duplicate_in_any_order(documents, other);
    lemma_drafted(other, other_replies, lookup);
    assert forall|i: int| 0 <= i < draft.upstream_documents.len() implies upstream_by(
        #[trigger] draft.upstream_documents[i],
        lookup,
    ) is Some by {
        let at = lemma_upstream_origin(other, i);
        let j = lemma_same_documents(other, documents, at);
        assert(has_resource_by(snapshot, documents[j], lookup));
    }
    assert forall|i: int| 0 <= i < draft.relay_documents.len() implies relay_by(
        #[trigger] draft.relay_documents[i],
        lookup,
    ) is Some && names_upstream(draft, draft.relay_documents[i].spec.upstream_ref.name@) by {
        let resource = draft.relay_documents[i];
        let at = lemma_relay_origin(other, i);
        let j = lemma_same_documents(other, documents, at);
        assert(has_resource_by(snapshot, documents[j], lookup));
        assert(snapshot.relays.contains_key(resource.metadata.name@));
        let reference = resource.spec.upstream_ref.name@;
        assert(snapshot.relays[resource.metadata.name@].upstream == reference);
        assert(snapshot.upstreams.contains_key(reference));
        lemma_same_names(documents, other, reference);
        lemma_document_names(other, reference);
    }
    lemma_no_error(draft, other_replies, lookup);
}

/// The order of documents decides nothing: with one answer per request, documents in any order are
/// accepted together or refused together, and the snapshots are the same.
pub proof fn document_order_is_irrelevant(
    documents: Seq<ResourceDocument>,
    other: Seq<ResourceDocument>,
    lookup: spec_fn(RequestView) -> Reply,
    replies: Seq<Reply>,
    other_replies: Seq<Reply>,
    result: Result<SnapshotView, Seq<Seq<char>>>,
    other_result: Result<SnapshotView, Seq<Seq<char>>>,
)
    requires
        documents.to_multiset() == other.to_multiset(),
        replies_by(documents, replies, lookup),
        replies_by(other, other_replies, lookup),
        compilation(documents, replies) == Progress::Done(result),
        compilation(other, other_replies) == Progress::Done(other_result),
    ensures
        result is Ok <==> other_result is Ok,
        result is Ok ==> result == other_result,
{
    if let Ok(snapshot) = result {
        lemma_accepted_in_any_order(documents, other, lookup, replies, other_replies, snapshot);
    }
    if let Ok(snapshot) = other_result {
        lemma_accepted_in_any_order(other, documents, lookup, other_replies, replies, snapshot);
    }
    if result is Ok && other_result is Ok {
        let a = result->Ok_0;
        let b = other_result->Ok_0;
        documents_get_their_own_answers(documents, replies, lookup, a);
        documents_get_their_own_answers(other, other_replies, lookup, b);
        compiled_snapshots_are_complete_and_valid(documents, replies, a);
        compiled_snapshots_are_complete_and_valid(other, other_replies, b);
        assert forall|key: Seq<char>|
            a.upstreams.contains_key(key) == b.upstreams.contains_key(key) && (
            a.upstreams.contains_key(key) ==> a.upstreams[key] == b.upstreams[key]) by {
            lemma_same_names(documents, other, key);
            lemma_same_names(other, documents, key);
            if a.upstreams.contains_key(key) {
                let i = choose|i: int|
                    0 <= i < documents.len() && (#[trigger] documents[i]) is Upstream
                        && document_name(documents[i]) == key;
                let j = lemma_same_documents(documents, other, i);
                assert(has_resource_by(a, documents[i], lookup));
                assert(has_resource_by(b, other[j], lookup));
            }
        }
        assert forall|key: Seq<char>|
            a.relays.contains_key(key) == b.relays.contains_key(key) && (a.relays.contains_key(key)
                ==> a.relays[key] == b.relays[key]) by {
            lemma_same_names(documents, other, key);
            lemma_same_names(other, documents, key);
            if a.relays.contains_key(key) {
                let i = choose|i: int|
                    0 <= i < documents.len() && (#[trigger] documents[i]) is Relay
                        && document_name(documents[i]) == key;
                let j = lemma_same_documents(documents, other, i);
                assert(has_resource_by(a, documents[i], lookup));
                assert(has_resource_by(b, other[j], lookup));
            }
        }
        assert(a.upstreams =~= b.upstreams);
        assert(a.relays =~= b.relays);
        assert(a.instances =~= b.instances);
    }
}

/// Whether a resolver answers each request the same way every time.
pub open spec fn steady<R: SecretResolver>(secrets: &R) -> bool {
    forall|request: RequestView, a: Reply, b: Reply| #[trigger]
        answers(secrets, request, a) && #[trigger] answers(secrets, request, b) ==> a == b
}

/// What two runs over the same documents in different orders come to with one steady resolver: both
/// succeed with the same snapshot, or both fail.
pub proof fn steady_resolvers_make_order_irrelevant<R: SecretResolver>(
    documents: Seq<ResourceDocument>,
    other: Seq<ResourceDocument>,
    secrets: &R,
    replies: Seq<Reply>,
    other_replies: Seq<Reply>,
    result: Result<SnapshotView, Seq<Seq<char>>>,
    other_result: Result<SnapshotView, Seq<Seq<char>>>,
)
    requires
        documents.to_multiset() == other.to_multiset(),
        steady(secrets),
        answered(documents, secrets, replies),
        answered(other, secrets, other_replies),
        compilation(documents, replies) == Progress::Done(result),
        compilation(other, other_replies) == Progress::Done(other_result),
    ensures
        result is Ok <==> other_result is Ok,
        result is Ok ==> result == other_result,
{
    let lookup = |request: RequestView| choose|reply: Reply| answers(secrets, request, reply);
    assert forall|i: int| 0 <= i < replies.len() implies #[trigger] reply_by(
        documents,
        replies,
        lookup,
        i,
    ) by {
        assert(answered_at(documents, secrets, replies, i));
        let request = compilation(documents, replies.take(i))->Ask_0;
        assert(answers(secrets, request, replies[i]));
        assert(answers(secrets, request, lookup(request)));
    }
    assert forall|i: int| 0 <= i < other_replies.len() implies #[trigger] reply_by(
        other,
        other_replies,
        lookup,
        i,
    ) by {
        assert(answered_at(other, secrets, other_replies, i));
        let request = compilation(other, other_replies.take(i))->Ask_0;
        assert(answers(secrets, request, other_replies[i]));
        assert(answers(secrets, request, lookup(request)));
    }
    document_order_is_irrelevant(
        documents,
        other,
        lookup,
        replies,
        other_replies,
        result,
        other_result,
    );
}

// ---------------------------------------------------------------------------------------------
// Refusals
// ---------------------------------------------------------------------------------------------

/// Whether nothing is wrong with a document among `documents` when requests are answered as `lookup`
/// says.
pub open spec fn fine_by(
    documents: Seq<ResourceDocument>,
    document: ResourceDocument,
    lookup: spec_fn(RequestView) -> Reply,
) -> bool {
    match document {
        ResourceDocument::Upstream(resource) => upstream_by(resource, lookup) is Some,
        ResourceDocument::Relay(resource) => relay_by(resource, lookup) is Some && has_upstream(
            documents,
            resource.spec.upstream_ref.name@,
        ),
    }
}

/// Documents with which nothing is wrong are not refused.
pub(crate) proof fn lemma_fine_documents(
    documents: Seq<ResourceDocument>,
    replies: Seq<Reply>,
    lookup: spec_fn(RequestView) -> Reply,
)
    requires
        first_duplicate(documents) is None,
        replies_by(documents, replies, lookup),
        forall|i: int| 0 <= i < documents.len() ==> fine_by(documents, #[trigger] documents[i], lookup),
    ensures
        !(compilation(documents, replies) matches Progress::Done(Err(_))),
{
    let draft = first_draft(documents);
    lemma_drafted(documents, replies, lookup);
    assert forall|i: int| 0 <= i < draft.upstream_documents.len() implies upstream_by(
        #[trigger] draft.upstream_documents[i],
        lookup,
    ) is Some by {
        let at = lemma_upstream_origin(documents, i);
        assert(fine_by(documents, documents[at], lookup));
    }
    assert forall|i: int| 0 <= i < draft.relay_documents.len() implies relay_by(
        #[trigger] draft.relay_documents[i],
        lookup,
    ) is Some && names_upstream(draft, draft.relay_documents[i].spec.upstream_ref.name@) by {
        let at = lemma_relay_origin(documents, i);
        assert(fine_by(documents, documents[at], lookup));
        lemma_document_names(documents, draft.relay_documents[i].spec.upstream_ref.name@);
    }
    lemma_no_error(draft, replies, lookup);
}

/// What an upstream document without an upstream is refused for: its name, then its secret, then its
/// contents.
pub open spec fn upstream_refusal(
    resource: UpstreamResource,
    lookup: spec_fn(RequestView) -> Reply,
) -> Seq<Seq<char>> {
    match name_problem("Upstream"@, resource.metadata.name@) {
        Some(error) => error,
        None => match lookup(request_of(resource.spec.oauth_client.client_secret)) {
            Err(error) => seq![upstream_secret_context(resource.metadata.name@)] + error,
            Ok(secret) => upstream_of(resource, secret)->Err_0,
        },
    }
}

/// What a relay document without a relay is refused for: its names, then its secret, then its
/// contents.
pub open spec fn relay_refusal(
    resource: RelayResource,
    lookup: spec_fn(RequestView) -> Reply,
) -> Seq<Seq<char>> {
    match relay_name_problem(resource) {
        Some(error) => error,
        None => match relay_secret(resource) {
            None => relay_of(resource, None)->Err_0,
            Some(value) => match lookup(request_of(value)) {
                Err(error) => seq![relay_secret_context(resource.metadata.name@)] + error,
                Ok(secret) => relay_of(resource, Some(secret))->Err_0,
            },
        },
    }
}

/// A draft whose first upstream document is in order goes on with the next.
proof fn lemma_upstream_step(
    draft: Draft,
    replies: Seq<Reply>,
    lookup: spec_fn(RequestView) -> Reply,
) -> (step: (Draft, Seq<Reply>))
    requires
        secrets_by(draft.secrets, lookup),
        draft_replies_by(draft, replies, lookup),
        progress(draft, replies) is Done,
        draft.upstream_documents.len() > 0,
        upstream_by(draft.upstream_documents[0], lookup) is Some,
    ensures
        exists|upstream: UpstreamView, secrets: Map<SecretSourceView, Seq<char>>|
            step.0 == #[trigger] with_upstream(draft, upstream, secrets),
        progress(draft, replies) == progress(step.0, step.1),
        secrets_by(step.0.secrets, lookup),
        draft_replies_by(step.0, step.1, lookup),
{
    let resource = draft.upstream_documents[0];
    let request = request_of(resource.spec.oauth_client.client_secret);
    let found = find_secret(request, draft.secrets, replies);
    match found {
        Finding::Open(_) => (draft, replies),
        Finding::Failed(_) => {
            lemma_failed_by(draft, request, replies, lookup);
            (draft, replies)
        },
        Finding::Found { secret, secrets, replies: rest } => {
            lemma_secret_by(draft, request, replies, lookup);
            let upstream = upstream_of(resource, secret)->Ok_0;
            let next = with_upstream(draft, upstream, secrets);
            assert forall|i: int| 0 <= i <= replies.len() implies #[trigger] progress(
                draft,
                replies.take(i),
            ) == match (find_secret(request, draft.secrets, replies.take(i))) {
                Finding::Open(request) => Progress::Ask(request),
                Finding::Failed(_) => progress(draft, replies.take(i)),
                Finding::Found { secret, secrets, replies } => progress(next, replies),
            } by {}
            lemma_found_by(draft, next, request, replies, lookup);
            (next, rest)
        },
    }
}

/// A draft without upstream documents whose first relay document is in order goes on with the next.
proof fn lemma_relay_step(
    draft: Draft,
    replies: Seq<Reply>,
    lookup: spec_fn(RequestView) -> Reply,
) -> (step: (Draft, Seq<Reply>))
    requires
        secrets_by(draft.secrets, lookup),
        draft_replies_by(draft, replies, lookup),
        progress(draft, replies) is Done,
        draft.upstream_documents.len() == 0,
        draft.relay_documents.len() > 0,
        relay_by(draft.relay_documents[0], lookup) is Some,
    ensures
        exists|relay: RelayView, secrets: Map<SecretSourceView, Seq<char>>|
            step.0 == #[trigger] with_relay(draft, relay, secrets) && relay.upstream
                == draft.relay_documents[0].spec.upstream_ref.name@,
        progress(draft, replies) == progress(step.0, step.1),
        secrets_by(step.0.secrets, lookup),
        draft_replies_by(step.0, step.1, lookup),
{
    let resource = draft.relay_documents[0];
    match relay_secret(resource) {
        None => {
            let relay = relay_of(resource, None)->Ok_0;
            let next = with_relay(draft, relay, draft.secrets);
            assert forall|i: int| 0 <= i < replies.len() implies #[trigger] draft_reply_by(
                next,
                replies,
                lookup,
                i,
            ) by {
                assert(draft_reply_by(draft, replies, lookup, i));
            }
            (next, replies)
        },
        Some(value) => {
            let request = request_of(value);
            match find_secret(request, draft.secrets, replies) {
                Finding::Open(_) => (draft, replies),
                Finding::Failed(_) => {
                    lemma_failed_by(draft, request, replies, lookup);
                    (draft, replies)
                },
                Finding::Found { secret, secrets, replies: rest } => {
                    lemma_secret_by(draft, request, replies, lookup);
                    let relay = relay_of(resource, Some(secret))->Ok_0;
                    let next = with_relay(draft, relay, secrets);
                    assert forall|i: int| 0 <= i <= replies.len() implies #[trigger] progress(
                        draft,
                        replies.take(i),
                    ) == match (find_secret(request, draft.secrets, replies.take(i))) {
                        Finding::Open(request) => Progress::Ask(request),
                        Finding::Failed(_) => progress(draft, replies.take(i)),
                        Finding::Found { secret, secrets, replies } => progress(next, replies),
                    } by {}
                    lemma_found_by(draft, next, request, replies, lookup);
                    (next, rest)
                },
            }
        },
    }
}

/// The first upstream document that is not in order decides.
proof fn lemma_refused_upstream(
    draft: Draft,
    replies: Seq<Reply>,
    lookup: spec_fn(RequestView) -> Reply,
    i: int,
)
    requires
        secrets_by(draft.secrets, lookup),
        draft_replies_by(draft, replies, lookup),
        progress(draft, replies) is Done,
        0 <= i < draft.upstream_documents.len(),
        forall|j: int|
            0 <= j < i ==> upstream_by(#[trigger] draft.upstream_documents[j], lookup) is Some,
        upstream_by(draft.upstream_documents[i], lookup) is None,
    ensures
        progress(draft, replies) == Progress::Done(
            Err(upstream_refusal(draft.upstream_documents[i], lookup)),
        ),
    decreases i,
{
    let resource = draft.upstream_documents[0];
    if i == 0 {
        let request = request_of(resource.spec.oauth_client.client_secret);
        if name_problem("Upstream"@, resource.metadata.name@) is None {
            match find_secret(request, draft.secrets, replies) {
                Finding::Open(_) => {},
                Finding::Failed(_) => {
                    assert(draft_reply_by(draft, replies, lookup, 0));
                },
                Finding::Found { secret, secrets, replies: rest } => {
                    lemma_secret_by(draft, request, replies, lookup);
                },
            }
        }
    } else {
        assert(upstream_by(draft.upstream_documents[0], lookup) is Some);
        let (next, rest) = lemma_upstream_step(draft, replies, lookup);
        assert forall|j: int| 0 <= j < i - 1 implies upstream_by(
            #[trigger] next.upstream_documents[j],
            lookup,
        ) is Some by {
            assert(upstream_by(draft.upstream_documents[j + 1], lookup) is Some);
        }
        lemma_refused_upstream(next, rest, lookup, i - 1);
    }
}

/// Once all upstream documents are in order, the first relay document that is not decides.
proof fn lemma_refused_relay(
    draft: Draft,
    replies: Seq<Reply>,
    lookup: spec_fn(RequestView) -> Reply,
    i: int,
)
    requires
        secrets_by(draft.secrets, lookup),
        draft_replies_by(draft, replies, lookup),
        progress(draft, replies) is Done,
        forall|j: int|
            0 <= j < draft.upstream_documents.len() ==> upstream_by(
                #[trigger] draft.upstream_documents[j],
                lookup,
            ) is Some,
        0 <= i < draft.relay_documents.len(),
        forall|j: int| 0 <= j < i ==> relay_by(#[trigger] draft.relay_documents[j], lookup) is Some,
        relay_by(draft.relay_documents[i], lookup) is None,
    ensures
        progress(draft, replies) == Progress::Done(
            Err(relay_refusal(draft.relay_documents[i], lookup)),
        ),
    decreases draft.upstream_documents.len() + i,
{
    if draft.upstream_documents.len() > 0 {
        assert(upstream_by(draft.upstream_documents[0], lookup) is Some);
        let (next, rest) = lemma_upstream_step(draft, replies, lookup);
        assert forall|j: int| 0 <= j < next.upstream_documents.len() implies upstream_by(
            #[trigger] next.upstream_documents[j],
            lookup,
        ) is Some by {
            assert(upstream_by(draft.upstream_documents[j + 1], lookup) is Some);
        }
        lemma_refused_relay(next, rest, lookup, i);
    } else if i == 0 {
        let resource = draft.relay_documents[0];
        if relay_name_problem(resource) is None {
            if let Some(value) = relay_secret(resource) {
                let request = request_of(value);
                match find_secret(request, draft.secrets, replies) {
                    Finding::Open(_) => {},
                    Finding::Failed(_) => {
                        assert(draft_reply_by(draft, replies, lookup, 0));
                    },
                    Finding::Found { secret, secrets, replies: rest } => {
                        lemma_secret_by(draft, request, replies, lookup);
                    },
                }
            }
        }
    } else {
        assert(relay_by(draft.relay_documents[0], lookup) is Some);
        let (next, rest) = lemma_relay_step(draft, replies, lookup);
        assert forall|j: int| 0 <= j < i - 1 implies relay_by(
            #[trigger] next.relay_documents[j],
            lookup,
        ) is Some by {
            assert(relay_by(draft.relay_documents[j + 1], lookup) is Some);
        }
        lemma_refused_relay(next, rest, lookup, i - 1);
    }
}

proof fn lemma_documents_of_both(first: Seq<ResourceDocument>, second: Seq<ResourceDocument>)
    ensures
        upstream_documents(first + second) == upstream_documents(first) + upstream_documents(
            second,
        ),
        relay_documents(first + second) == relay_documents(first) + relay_documents(second),
    decreases second.len(),
{
    if second.len() == 0 {
        assert(first + second =~= first);
        assert(upstream_documents(first) + upstream_documents(second) =~= upstream_documents(
            first,
        ));
        assert(relay_documents(first) + relay_documents(second) =~= relay_documents(first));
    } else {
        lemma_documents_of_both(first, second.drop_last());
        assert((first + second).drop_last() =~= first + second.drop_last());
        assert((first + second).last() == second.last());
        assert(upstream_documents(first + second) =~= upstream_documents(first)
            + upstream_documents(second));
        assert(relay_documents(first + second) =~= relay_documents(first) + relay_documents(
            second,
        ));
    }
}

/// Where a document stands among those of its kind: behind those of its kind before it.
proof fn lemma_place(documents: Seq<ResourceDocument>, i: int)
    requires
        0 <= i < documents.len(),
    ensures
        documents[i] matches ResourceDocument::Upstream(resource) ==> {
            let at = upstream_documents(documents.take(i)).len();
            &&& at < upstream_documents(documents).len()
            &&& upstream_documents(documents)[at as int] == resource
        },
        documents[i] matches ResourceDocument::Relay(resource) ==> {
            let at = relay_documents(documents.take(i)).len();
            &&& at < relay_documents(documents).len()
            &&& relay_documents(documents)[at as int] == resource
        },
        forall|j: int|
            0 <= j < upstream_documents(documents.take(i)).len() ==> #[trigger] upstream_documents(
                documents,
            )[j] == upstream_documents(documents.take(i))[j],
        forall|j: int|
            0 <= j < relay_documents(documents.take(i)).len() ==> #[trigger] relay_documents(
                documents,
            )[j] == relay_documents(documents.take(i))[j],
{
    let before = documents.take(i);
    let upto = documents.take(i + 1);
    assert(upto.drop_last() =~= before);
    assert(upto.last() == documents[i]);
    assert(documents =~= upto + documents.skip(i + 1));
    lemma_documents_of_both(upto, documents.skip(i + 1));
}

/// Of the upstream documents, the first that has no upstream decides a compilation, whatever the
/// relay documents are.
pub proof fn first_refused_upstream_decides(
    documents: Seq<ResourceDocument>,
    replies: Seq<Reply>,
    lookup: spec_fn(RequestView) -> Reply,
    i: int,
    resource: UpstreamResource,
)
    requires
        first_duplicate(documents) is None,
        replies_by(documents, replies, lookup),
        compilation(documents, replies) is Done,
        0 <= i < documents.len(),
        documents[i] == ResourceDocument::Upstream(resource),
        forall|j: int|
            0 <= j < i ==> ((#[trigger] documents[j]) matches ResourceDocument::Upstream(earlier)
                ==> upstream_by(earlier, lookup) is Some),
        upstream_by(resource, lookup) is None,
    ensures
        compilation(documents, replies) == Progress::Done(Err(upstream_refusal(resource, lookup))),
{
    let draft = first_draft(documents);
    let before = documents.take(i);
    lemma_drafted(documents, replies, lookup);
    lemma_place(documents, i);
    let at = upstream_documents(before).len() as int;
    assert forall|j: int| 0 <= j < at implies upstream_by(
        #[trigger] draft.upstream_documents[j],
        lookup,
    ) is Some by {
        let k = lemma_upstream_origin(before, j);
        assert(documents[k] == before[k]);
        assert(upstream_documents(documents)[j] == upstream_documents(before)[j]);
    }
    lemma_refused_upstream(draft, replies, lookup, at);
}

/// Once every upstream document has an upstream, the first relay document that has no relay decides
/// a compilation.
pub proof fn first_refused_relay_decides(
    documents: Seq<ResourceDocument>,
    replies: Seq<Reply>,
    lookup: spec_fn(RequestView) -> Reply,
    i: int,
    resource: RelayResource,
)
    requires
        first_duplicate(documents) is None,
        replies_by(documents, replies, lookup),
        compilation(documents, replies) is Done,
        0 <= i < documents.len(),
        documents[i] == ResourceDocument::Relay(resource),
        forall|j: int|
            0 <= j < documents.len() ==> ((#[trigger] documents[j]) matches ResourceDocument::Upstream(
                upstream,
            ) ==> upstream_by(upstream, lookup) is Some),
        forall|j: int|
            0 <= j < i ==> ((#[trigger] documents[j]) matches ResourceDocument::Relay(earlier)
                ==> relay_by(earlier, lookup) is Some),
        relay_by(resource, lookup) is None,
    ensures
        compilation(documents, replies) == Progress::Done(Err(relay_refusal(resource, lookup))),
{
    let draft = first_draft(documents);
    let before = documents.take(i);
    lemma_drafted(documents, replies, lookup);
    lemma_place(documents, i);
    let at = relay_documents(before).len() as int;
    assert forall|j: int| 0 <= j < draft.upstream_documents.len() implies upstream_by(
        #[trigger] draft.upstream_documents[j],
        lookup,
    ) is Some by {
        let k = lemma_upstream_origin(documents, j);
        assert(documents[k] is Upstream);
    }
    assert forall|j: int| 0 <= j < at implies relay_by(
        #[trigger] draft.relay_documents[j],
        lookup,
    ) is Some by {
        let k = lemma_relay_origin(before, j);
        assert(documents[k] == before[k]);
        assert(relay_documents(documents)[j] == relay_documents(before)[j]);
    }
    lemma_refused_relay(draft, replies, lookup, at);
}

// ---------------------------------------------------------------------------------------------
// References
// ---------------------------------------------------------------------------------------------

/// The upstreams that a draft names stay the same while it takes upstream documents.
proof fn lemma_names_kept(
    draft: Draft,
    upstream: UpstreamView,
    secrets: Map<SecretSourceView, Seq<char>>,
    key: Seq<char>,
)
    requires
        draft.upstream_documents.len() > 0,
    ensures
        names_upstream(with_upstream(draft, upstream, secrets), key) <==> names_upstream(draft, key),
{
    let next = with_upstream(draft, upstream, secrets);
    if names_upstream(next, key) && !draft.upstreams.contains_key(key) {
        if key != draft.upstream_documents[0].metadata.name@ {
            let i = choose|i: int|
                0 <= i < next.upstream_documents.len() && (
                #[trigger] next.upstream_documents[i]).metadata.name@ == key;
            assert(draft.upstream_documents[i + 1].metadata.name@ == key);
        }
    }
    if names_upstream(draft, key) && !draft.upstreams.contains_key(key) {
        let i = choose|i: int|
            0 <= i < draft.upstream_documents.len() && (
            #[trigger] draft.upstream_documents[i]).metadata.name@ == key;
        if i > 0 {
            assert(next.upstream_documents[i - 1].metadata.name@ == key);
        }
    }
}

/// The upstreams that the relays of a draft refer to: those that it has, then those of its documents.
spec fn references(draft: Draft) -> Seq<Seq<char>> {
    draft.relay_keys.map_values(|key: Seq<char>| draft.relays[key].upstream)
        + draft.relay_documents.map_values(
        |resource: RelayResource| resource.spec.upstream_ref.name@,
    )
}

/// The relays of a draft by name: those that it has, then those of its documents.
spec fn relay_names(draft: Draft) -> Seq<Seq<char>> {
    draft.relay_keys + draft.relay_documents.map_values(
        |resource: RelayResource| resource.metadata.name@,
    )
}

/// Whether a draft has exactly the relays that it has keys for, and no document for any of them.
spec fn keyed(draft: Draft) -> bool {
    &&& forall|key: Seq<char>| #[trigger]
        draft.relays.contains_key(key) <==> draft.relay_keys.contains(key)
    &&& forall|i: int|
        0 <= i < draft.relay_documents.len() ==> !draft.relay_keys.contains(
            (#[trigger] draft.relay_documents[i]).metadata.name@,
        )
}

proof fn lemma_keyed_relay(
    draft: Draft,
    relay: RelayView,
    secrets: Map<SecretSourceView, Seq<char>>,
)
    requires
        keyed(draft),
        distinct_relays(draft.relay_documents),
        draft.relay_documents.len() > 0,
        relay.upstream == draft.relay_documents[0].spec.upstream_ref.name@,
    ensures
        keyed(with_relay(draft, relay, secrets)),
        references(with_relay(draft, relay, secrets)) == references(draft),
        relay_names(with_relay(draft, relay, secrets)) == relay_names(draft),
{
    let next = with_relay(draft, relay, secrets);
    let first = draft.relay_documents[0];
    let name = first.metadata.name@;
    assert(!draft.relay_keys.contains(name));
    assert(!draft.relays.contains_key(name));
    assert(next.relay_keys =~= draft.relay_keys.push(name));
    assert forall|key: Seq<char>| #[trigger]
        next.relays.contains_key(key) <==> next.relay_keys.contains(key) by {
        if draft.relay_keys.contains(key) {
            let i = choose|i: int| 0 <= i < draft.relay_keys.len() && draft.relay_keys[i] == key;
            assert(next.relay_keys[i] == key);
        }
        if next.relay_keys.contains(key) && key != name {
            let i = choose|i: int| 0 <= i < next.relay_keys.len() && next.relay_keys[i] == key;
            assert(draft.relay_keys[i] == key);
        }
        assert(next.relay_keys[draft.relay_keys.len() as int] == name);
    }
    assert forall|i: int| 0 <= i < next.relay_documents.len() implies !next.relay_keys.contains(
        (#[trigger] next.relay_documents[i]).metadata.name@,
    ) by {
        let other = draft.relay_documents[i + 1].metadata.name@;
        assert(other != name);
        assert(!draft.relay_keys.contains(other));
        if next.relay_keys.contains(other) {
            let k = choose|k: int| 0 <= k < next.relay_keys.len() && next.relay_keys[k] == other;
            assert(draft.relay_keys[k] == other);
        }
    }
    assert(relay_names(next) =~= relay_names(draft));
    assert forall|i: int| 0 <= i < references(draft).len() implies references(next)[i]
        == references(draft)[i] by {
        if i < draft.relay_keys.len() {
            assert(draft.relay_keys.contains(draft.relay_keys[i]));
        }
    }
    assert(references(next) =~= references(draft));
}

/// The first relay that refers to an upstream that there is none of decides.
proof fn lemma_dangling(
    draft: Draft,
    replies: Seq<Reply>,
    lookup: spec_fn(RequestView) -> Reply,
    i: int,
)
    requires
        secrets_by(draft.secrets, lookup),
        draft_replies_by(draft, replies, lookup),
        progress(draft, replies) is Done,
        distinct_relays(draft.relay_documents),
        keyed(draft),
        forall|j: int|
            0 <= j < draft.upstream_documents.len() ==> upstream_by(
                #[trigger] draft.upstream_documents[j],
                lookup,
            ) is Some,
        forall|j: int|
            0 <= j < draft.relay_documents.len() ==> relay_by(
                #[trigger] draft.relay_documents[j],
                lookup,
            ) is Some,
        0 <= i < references(draft).len(),
        forall|j: int| 0 <= j < i ==> names_upstream(draft, #[trigger] references(draft)[j]),
        !names_upstream(draft, references(draft)[i]),
    ensures
        progress(draft, replies) == Progress::Done(
            Err(
                seq![
                    "Relay/"@ + relay_names(draft)[i] + " spec.upstreamRef: Upstream/"@
                        + references(draft)[i] + " does not exist"@,
                ],
            ),
        ),
    decreases remaining(draft),
{
    if draft.upstream_documents.len() > 0 {
        assert(upstream_by(draft.upstream_documents[0], lookup) is Some);
        let (next, rest) = lemma_upstream_step(draft, replies, lookup);
        let (upstream, secrets) = choose|
            upstream: UpstreamView,
            secrets: Map<SecretSourceView, Seq<char>>,
        |
            next == #[trigger] with_upstream(draft, upstream, secrets);
        assert forall|j: int| 0 <= j < next.upstream_documents.len() implies upstream_by(
            #[trigger] next.upstream_documents[j],
            lookup,
        ) is Some by {
            assert(upstream_by(draft.upstream_documents[j + 1], lookup) is Some);
        }
        assert(references(next) =~= references(draft));
        assert forall|j: int| 0 <= j < i implies names_upstream(
            next,
            #[trigger] references(next)[j],
        ) by {
            assert(names_upstream(draft, references(draft)[j]));
            lemma_names_kept(draft, upstream, secrets, references(draft)[j]);
        }
        lemma_names_kept(draft, upstream, secrets, references(draft)[i]);
        lemma_dangling(next, rest, lookup, i);
    } else if draft.relay_documents.len() > 0 {
        assert(relay_by(draft.relay_documents[0], lookup) is Some);
        let (next, rest) = lemma_relay_step(draft, replies, lookup);
        let (relay, secrets) = choose|relay: RelayView, secrets: Map<SecretSourceView, Seq<char>>|
            next == #[trigger] with_relay(draft, relay, secrets) && relay.upstream
                == draft.relay_documents[0].spec.upstream_ref.name@;
        lemma_keyed_relay(draft, relay, secrets);
        lemma_distinct_relays_rest(draft.relay_documents);
        assert forall|j: int| 0 <= j < next.relay_documents.len() implies relay_by(
            #[trigger] next.relay_documents[j],
            lookup,
        ) is Some by {
            assert(relay_by(draft.relay_documents[j + 1], lookup) is Some);
        }
        assert forall|j: int| 0 <= j < i implies names_upstream(
            next,
            #[trigger] references(next)[j],
        ) by {
            assert(names_upstream(draft, references(draft)[j]));
        }
        lemma_dangling(next, rest, lookup, i);
    } else {
        assert forall|j: int| 0 <= j < i implies draft.upstreams.contains_key(
            draft.relays[#[trigger] draft.relay_keys[j]].upstream,
        ) by {
            assert(names_upstream(draft, references(draft)[j]));
        }
        first_dangling_relay_decides(draft.relay_keys, draft.relays, draft.upstreams, i);
    }
}

/// Once every document has its resource, the first relay document that refers to an upstream without
/// a document decides a compilation.
pub proof fn first_dangling_reference_decides(
    documents: Seq<ResourceDocument>,
    replies: Seq<Reply>,
    lookup: spec_fn(RequestView) -> Reply,
    i: int,
    resource: RelayResource,
)
    requires
        first_duplicate(documents) is None,
        replies_by(documents, replies, lookup),
        compilation(documents, replies) is Done,
        0 <= i < documents.len(),
        documents[i] == ResourceDocument::Relay(resource),
        forall|j: int|
            0 <= j < documents.len() ==> (match #[trigger] documents[j] {
                ResourceDocument::Upstream(upstream) => upstream_by(upstream, lookup) is Some,
                ResourceDocument::Relay(relay) => relay_by(relay, lookup) is Some,
            }),
        forall|j: int|
            0 <= j < i ==> ((#[trigger] documents[j]) matches ResourceDocument::Relay(earlier)
                ==> has_upstream(documents, earlier.spec.upstream_ref.name@)),
        !has_upstream(documents, resource.spec.upstream_ref.name@),
    ensures
        compilation(documents, replies) == Progress::Done(
            Err(
                seq![
                    "Relay/"@ + resource.metadata.name@ + " spec.upstreamRef: Upstream/"@
                        + resource.spec.upstream_ref.name@ + " does not exist"@,
                ],
            ),
        ),
{
    let draft = first_draft(documents);
    let before = documents.take(i);
    lemma_drafted(documents, replies, lookup);
    lemma_distinct_documents(documents);
    lemma_place(documents, i);
    let at = relay_documents(before).len() as int;
    assert forall|j: int| 0 <= j < draft.upstream_documents.len() implies upstream_by(
        #[trigger] draft.upstream_documents[j],
        lookup,
    ) is Some by {
        let k = lemma_upstream_origin(documents, j);
        assert(documents[k] is Upstream);
    }
    assert forall|j: int| 0 <= j < draft.relay_documents.len() implies relay_by(
        #[trigger] draft.relay_documents[j],
        lookup,
    ) is Some by {
        let k = lemma_relay_origin(documents, j);
        assert(documents[k] is Relay);
    }
    assert forall|j: int| 0 <= j < at implies names_upstream(
        draft,
        #[trigger] references(draft)[j],
    ) by {
        let k = lemma_relay_origin(before, j);
        assert(documents[k] == before[k]);
        assert(relay_documents(documents)[j] == relay_documents(before)[j]);
        lemma_document_names(documents, references(draft)[j]);
    }
    lemma_document_names(documents, resource.spec.upstream_ref.name@);
    assert(references(draft)[at] == resource.spec.upstream_ref.name@);
    assert(relay_names(draft)[at] == resource.metadata.name@);
    lemma_dangling(draft, replies, lookup, at);
}

} // verus!
