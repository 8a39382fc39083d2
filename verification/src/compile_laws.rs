//! What every compilation keeps, whatever its documents and secrets.

use crate::compile::{
    compilation, find_secret, first_draft, first_duplicate, known, progress, relay_documents,
    relay_of, relay_secret, remaining, remember, request_of, same_identity,
    upstream_documents, upstream_of, with_relay, with_upstream, Draft, Finding, Progress, Reply,
    RequestView,
};
use crate::config::{
    document_name, RelayResource, ResourceDocument, SecretSourceView, UpstreamResource,
};
use crate::key::valid_key;
use crate::model::{relay_problem, upstream_problem, RelayView, UpstreamView};
use crate::registry::{references_resolve, SnapshotView};
use vstd::prelude::*;

verus! {

// ---------------------------------------------------------------------------------------------
// Secrets
// ---------------------------------------------------------------------------------------------

/// A draft asks only for sources that it does not know.
proof fn lemma_asks_for_unknown(draft: Draft, replies: Seq<Reply>, source: SecretSourceView)
    requires
        progress(draft, replies) == Progress::Ask(RequestView::Source(source)),
    ensures
        !draft.secrets.contains_key(source),
    decreases remaining(draft),
{
    if draft.upstream_documents.len() > 0 {
        let resource = draft.upstream_documents[0];
        let request = request_of(resource.spec.oauth_client.client_secret);
        match find_secret(request, draft.secrets, replies) {
            Finding::Found { secret, secrets, replies } => {
                if let Ok(upstream) = upstream_of(resource, secret) {
                    lemma_asks_for_unknown(
                        with_upstream(draft, upstream, secrets),
                        replies,
                        source,
                    );
                }
            },
            _ => {},
        }
    } else if draft.relay_documents.len() > 0 {
        let resource = draft.relay_documents[0];
        match relay_secret(resource) {
            None => {
                if let Ok(relay) = relay_of(resource, None) {
                    lemma_asks_for_unknown(with_relay(draft, relay, draft.secrets), replies, source);
                }
            },
            Some(value) => match find_secret(request_of(value), draft.secrets, replies) {
                Finding::Found { secret, secrets, replies } => {
                    if let Ok(relay) = relay_of(resource, Some(secret)) {
                        lemma_asks_for_unknown(with_relay(draft, relay, secrets), replies, source);
                    }
                },
                _ => {},
            },
        }
    }
}

proof fn lemma_asked_once(
    draft: Draft,
    replies: Seq<Reply>,
    i: int,
    j: int,
    a: SecretSourceView,
    b: SecretSourceView,
)
    requires
        0 <= i < j <= replies.len(),
        progress(draft, replies.take(i)) == Progress::Ask(RequestView::Source(a)),
        progress(draft, replies.take(j)) == Progress::Ask(RequestView::Source(b)),
    ensures
        a != b,
    decreases remaining(draft),
{
    let rest = replies.drop_first();
    if i > 0 {
        assert(replies.take(i).drop_first() =~= rest.take(i - 1));
    }
    assert(replies.take(j).drop_first() =~= rest.take(j - 1));
    if draft.upstream_documents.len() > 0 {
        let resource = draft.upstream_documents[0];
        let request = request_of(resource.spec.oauth_client.client_secret);
        if known(draft.secrets, request) {
            let secret = draft.secrets[request->Source_0];
            let upstream = upstream_of(resource, secret)->Ok_0;
            lemma_asked_once(with_upstream(draft, upstream, draft.secrets), replies, i, j, a, b);
        } else {
            let secret = replies[0]->Ok_0;
            let secrets = remember(draft.secrets, request, secret);
            let next = with_upstream(draft, upstream_of(resource, secret)->Ok_0, secrets);
            if i == 0 {
                lemma_asks_for_unknown(next, rest.take(j - 1), b);
            } else {
                lemma_asked_once(next, rest, i - 1, j - 1, a, b);
            }
        }
    } else if draft.relay_documents.len() > 0 {
        let resource = draft.relay_documents[0];
        match relay_secret(resource) {
            None => {
                let relay = relay_of(resource, None)->Ok_0;
                lemma_asked_once(with_relay(draft, relay, draft.secrets), replies, i, j, a, b);
            },
            Some(value) => {
                let request = request_of(value);
                if known(draft.secrets, request) {
                    let secret = draft.secrets[request->Source_0];
                    let relay = relay_of(resource, Some(secret))->Ok_0;
                    lemma_asked_once(with_relay(draft, relay, draft.secrets), replies, i, j, a, b);
                } else {
                    let secret = replies[0]->Ok_0;
                    let secrets = remember(draft.secrets, request, secret);
                    let next = with_relay(draft, relay_of(resource, Some(secret))->Ok_0, secrets);
                    if i == 0 {
                        lemma_asks_for_unknown(next, rest.take(j - 1), b);
                    } else {
                        lemma_asked_once(next, rest, i - 1, j - 1, a, b);
                    }
                }
            },
        }
    }
}

/// A source is asked for at most once in a compilation, however many documents refer to it: the
/// requests after `i` and after `j` replies never name the same source.
pub proof fn sources_are_asked_for_once(
    documents: Seq<ResourceDocument>,
    replies: Seq<Reply>,
    i: int,
    j: int,
    a: SecretSourceView,
    b: SecretSourceView,
)
    requires
        0 <= i < j <= replies.len(),
        compilation(documents, replies.take(i)) == Progress::Ask(RequestView::Source(a)),
        compilation(documents, replies.take(j)) == Progress::Ask(RequestView::Source(b)),
    ensures
        a != b,
{
    lemma_asked_once(first_draft(documents), replies, i, j, a, b);
}

proof fn lemma_ends(draft: Draft, replies: Seq<Reply>)
    requires
        replies.len() >= remaining(draft),
    ensures
        progress(draft, replies) is Done,
    decreases remaining(draft),
{
    if draft.upstream_documents.len() > 0 {
        let resource = draft.upstream_documents[0];
        let request = request_of(resource.spec.oauth_client.client_secret);
        match find_secret(request, draft.secrets, replies) {
            Finding::Found { secret, secrets, replies } => {
                if let Ok(upstream) = upstream_of(resource, secret) {
                    lemma_ends(with_upstream(draft, upstream, secrets), replies);
                }
            },
            _ => {},
        }
    } else if draft.relay_documents.len() > 0 {
        let resource = draft.relay_documents[0];
        match relay_secret(resource) {
            None => {
                if let Ok(relay) = relay_of(resource, None) {
                    lemma_ends(with_relay(draft, relay, draft.secrets), replies);
                }
            },
            Some(value) => match find_secret(request_of(value), draft.secrets, replies) {
                Finding::Found { secret, secrets, replies } => {
                    if let Ok(relay) = relay_of(resource, Some(secret)) {
                        lemma_ends(with_relay(draft, relay, secrets), replies);
                    }
                },
                _ => {},
            },
        }
    }
}

proof fn lemma_partition(documents: Seq<ResourceDocument>)
    ensures
        upstream_documents(documents).len() + relay_documents(documents).len() == documents.len(),
    decreases documents.len(),
{
    if documents.len() > 0 {
        lemma_partition(documents.drop_last());
    }
}

/// A compilation asks for at most one secret per document: with that many replies it ends.
pub proof fn one_request_per_document(documents: Seq<ResourceDocument>, replies: Seq<Reply>)
    requires
        replies.len() >= documents.len(),
    ensures
        compilation(documents, replies) is Done,
{
    lemma_partition(documents);
    if first_duplicate(documents) is None {
        lemma_ends(first_draft(documents), replies);
    }
}

proof fn lemma_failed_reply(draft: Draft, replies: Seq<Reply>, i: int)
    requires
        0 <= i < replies.len(),
        progress(draft, replies.take(i)) is Ask,
        replies[i] is Err,
    ensures
        progress(draft, replies) matches Progress::Done(Err(_)),
    decreases remaining(draft),
{
    let rest = replies.drop_first();
    if i > 0 {
        assert(replies.take(i).drop_first() =~= rest.take(i - 1));
    }
    if draft.upstream_documents.len() > 0 {
        let resource = draft.upstream_documents[0];
        let request = request_of(resource.spec.oauth_client.client_secret);
        if known(draft.secrets, request) {
            let secret = draft.secrets[request->Source_0];
            let upstream = upstream_of(resource, secret)->Ok_0;
            lemma_failed_reply(with_upstream(draft, upstream, draft.secrets), replies, i);
        } else if i > 0 {
            let secret = replies[0]->Ok_0;
            let secrets = remember(draft.secrets, request, secret);
            let upstream = upstream_of(resource, secret)->Ok_0;
            lemma_failed_reply(with_upstream(draft, upstream, secrets), rest, i - 1);
        }
    } else if draft.relay_documents.len() > 0 {
        let resource = draft.relay_documents[0];
        match relay_secret(resource) {
            None => {
                let relay = relay_of(resource, None)->Ok_0;
                lemma_failed_reply(with_relay(draft, relay, draft.secrets), replies, i);
            },
            Some(value) => {
                let request = request_of(value);
                if known(draft.secrets, request) {
                    let secret = draft.secrets[request->Source_0];
                    let relay = relay_of(resource, Some(secret))->Ok_0;
                    lemma_failed_reply(with_relay(draft, relay, draft.secrets), replies, i);
                } else if i > 0 {
                    let secret = replies[0]->Ok_0;
                    let secrets = remember(draft.secrets, request, secret);
                    let relay = relay_of(resource, Some(secret))->Ok_0;
                    lemma_failed_reply(with_relay(draft, relay, secrets), rest, i - 1);
                }
            },
        }
    }
}

/// One secret that cannot be had refuses the whole configuration: a failure in reply to a request
/// ends the compilation with an error, whatever else is replied.
pub proof fn a_missing_secret_refuses_everything(
    documents: Seq<ResourceDocument>,
    replies: Seq<Reply>,
    i: int,
)
    requires
        0 <= i < replies.len(),
        compilation(documents, replies.take(i)) is Ask,
        replies[i] is Err,
    ensures
        compilation(documents, replies) matches Progress::Done(Err(_)),
{
    lemma_failed_reply(first_draft(documents), replies, i);
}

// ---------------------------------------------------------------------------------------------
// Snapshots
// ---------------------------------------------------------------------------------------------

/// An upstream that may stand in a snapshot under `key`.
pub open spec fn accepted_upstream(key: Seq<char>, upstream: UpstreamView) -> bool {
    &&& valid_key(key)
    &&& !key.contains('/')
    &&& upstream.key == key
    &&& upstream_problem(upstream) is None
}

/// A relay that may stand in a snapshot under `key`.
pub open spec fn accepted_relay(key: Seq<char>, relay: RelayView) -> bool {
    &&& valid_key(key)
    &&& !key.contains('/')
    &&& relay.key == key
    &&& relay_problem(relay) is None
}

spec fn accepted_so_far(draft: Draft) -> bool {
    &&& forall|key: Seq<char>| #[trigger]
        draft.upstreams.contains_key(key) ==> accepted_upstream(key, draft.upstreams[key])
    &&& forall|key: Seq<char>| #[trigger]
        draft.relays.contains_key(key) ==> accepted_relay(key, draft.relays[key])
    &&& forall|key: Seq<char>| #[trigger]
        draft.relays.contains_key(key) ==> draft.relay_keys.contains(key)
}

/// Whether a draft has an upstream called `key`, or a document for one.
pub open spec fn names_upstream(draft: Draft, key: Seq<char>) -> bool {
    draft.upstreams.contains_key(key) || exists|i: int|
        0 <= i < draft.upstream_documents.len() && (
        #[trigger] draft.upstream_documents[i]).metadata.name@ == key
}

/// Whether a draft has a relay called `key`, or a document for one.
pub open spec fn names_relay(draft: Draft, key: Seq<char>) -> bool {
    draft.relays.contains_key(key) || exists|i: int|
        0 <= i < draft.relay_documents.len() && (#[trigger] draft.relay_documents[i]).metadata.name@
            == key
}

proof fn lemma_upstream_taken(
    draft: Draft,
    upstream: UpstreamView,
    secrets: Map<SecretSourceView, Seq<char>>,
)
    requires
        accepted_so_far(draft),
        draft.upstream_documents.len() > 0,
        accepted_upstream(draft.upstream_documents[0].metadata.name@, upstream),
    ensures
        accepted_so_far(with_upstream(draft, upstream, secrets)),
        forall|key: Seq<char>|
            names_upstream(with_upstream(draft, upstream, secrets), key) <==> names_upstream(
                draft,
                key,
            ),
        forall|key: Seq<char>|
            names_relay(with_upstream(draft, upstream, secrets), key) <==> names_relay(draft, key),
{
    let next = with_upstream(draft, upstream, secrets);
    assert forall|key: Seq<char>| names_upstream(next, key) <==> names_upstream(draft, key) by {
        if names_upstream(next, key) && !draft.upstreams.contains_key(key) {
            if key == draft.upstream_documents[0].metadata.name@ {
            } else {
                let i = choose|i: int|
                    0 <= i < next.upstream_documents.len() && (
                    #[trigger] next.upstream_documents[i]).metadata.name@ == key;
                assert(draft.upstream_documents[i + 1].metadata.name@ == key);
            }
        }
        if names_upstream(draft, key) && !draft.upstreams.contains_key(key) {
            let i = choose|i: int|
                0 <= i < draft.upstream_documents.len() && (
                #[trigger] draft.upstream_documents[i]).metadata.name@ == key;
            if i > 0 {
                assert(next.upstream_documents[i - 1].metadata.name@ == key);
            }
        }
    }
}

proof fn lemma_relay_taken(
    draft: Draft,
    relay: RelayView,
    secrets: Map<SecretSourceView, Seq<char>>,
)
    requires
        accepted_so_far(draft),
        draft.relay_documents.len() > 0,
        accepted_relay(draft.relay_documents[0].metadata.name@, relay),
    ensures
        accepted_so_far(with_relay(draft, relay, secrets)),
        forall|key: Seq<char>|
            names_upstream(with_relay(draft, relay, secrets), key) <==> names_upstream(draft, key),
        forall|key: Seq<char>|
            names_relay(with_relay(draft, relay, secrets), key) <==> names_relay(draft, key),
{
    let next = with_relay(draft, relay, secrets);
    let name = draft.relay_documents[0].metadata.name@;
    assert forall|key: Seq<char>| #[trigger] next.relays.contains_key(
        key,
    ) implies next.relay_keys.contains(key) by {
        if draft.relays.contains_key(key) {
            let i = choose|i: int| 0 <= i < draft.relay_keys.len() && draft.relay_keys[i] == key;
            assert(next.relay_keys[i] == key);
        } else {
            assert(next.relay_keys[next.relay_keys.len() - 1] == name);
        }
    }
    assert forall|key: Seq<char>| names_relay(next, key) <==> names_relay(draft, key) by {
        if names_relay(next, key) && !draft.relays.contains_key(key) {
            if key == name {
            } else {
                let i = choose|i: int|
                    0 <= i < next.relay_documents.len() && (
                    #[trigger] next.relay_documents[i]).metadata.name@ == key;
                assert(draft.relay_documents[i + 1].metadata.name@ == key);
            }
        }
        if names_relay(draft, key) && !draft.relays.contains_key(key) {
            let i = choose|i: int|
                0 <= i < draft.relay_documents.len() && (
                #[trigger] draft.relay_documents[i]).metadata.name@ == key;
            if i > 0 {
                assert(next.relay_documents[i - 1].metadata.name@ == key);
            }
        }
    }
}

/// A snapshot in which everything is in order, for a draft.
spec fn accepts(draft: Draft, snapshot: SnapshotView) -> bool {
    &&& snapshot.instances.dom() == Set::<Seq<char>>::empty()
    &&& forall|key: Seq<char>| #[trigger]
        snapshot.upstreams.contains_key(key) ==> accepted_upstream(key, snapshot.upstreams[key])
    &&& forall|key: Seq<char>| #[trigger]
        snapshot.relays.contains_key(key) ==> accepted_relay(key, snapshot.relays[key])
            && snapshot.upstreams.contains_key(snapshot.relays[key].upstream)
    &&& forall|key: Seq<char>|
        names_upstream(draft, key) <==> #[trigger] snapshot.upstreams.contains_key(key)
    &&& forall|key: Seq<char>|
        names_relay(draft, key) <==> #[trigger] snapshot.relays.contains_key(key)
}

proof fn lemma_accepted(draft: Draft, replies: Seq<Reply>, snapshot: SnapshotView)
    requires
        accepted_so_far(draft),
        progress(draft, replies) == Progress::Done(Ok(snapshot)),
    ensures
        accepts(draft, snapshot),
    decreases remaining(draft),
{
    if draft.upstream_documents.len() > 0 {
        let resource = draft.upstream_documents[0];
        let request = request_of(resource.spec.oauth_client.client_secret);
        match find_secret(request, draft.secrets, replies) {
            Finding::Found { secret, secrets, replies } => {
                let upstream = upstream_of(resource, secret)->Ok_0;
                lemma_upstream_taken(draft, upstream, secrets);
                lemma_accepted(with_upstream(draft, upstream, secrets), replies, snapshot);
            },
            _ => {},
        }
    } else if draft.relay_documents.len() > 0 {
        let resource = draft.relay_documents[0];
        match relay_secret(resource) {
            None => {
                let relay = relay_of(resource, None)->Ok_0;
                lemma_relay_taken(draft, relay, draft.secrets);
                lemma_accepted(with_relay(draft, relay, draft.secrets), replies, snapshot);
            },
            Some(value) => match find_secret(request_of(value), draft.secrets, replies) {
                Finding::Found { secret, secrets, replies } => {
                    let relay = relay_of(resource, Some(secret))->Ok_0;
                    lemma_relay_taken(draft, relay, secrets);
                    lemma_accepted(with_relay(draft, relay, secrets), replies, snapshot);
                },
                _ => {},
            },
        }
    } else {
        references_resolve(draft.relay_keys, draft.relays, draft.upstreams);
        assert(snapshot.instances.dom() =~= Set::<Seq<char>>::empty());
        assert forall|key: Seq<char>| #[trigger] snapshot.relays.contains_key(
            key,
        ) implies snapshot.upstreams.contains_key(snapshot.relays[key].upstream) by {
            let i = choose|i: int| 0 <= i < draft.relay_keys.len() && draft.relay_keys[i] == key;
            assert(draft.upstreams.contains_key(draft.relays[draft.relay_keys[i]].upstream));
        }
    }
}

/// Whether a document of the kind of `upstreams` is called `name`.
pub open spec fn has_upstream(documents: Seq<ResourceDocument>, name: Seq<char>) -> bool {
    exists|i: int|
        0 <= i < documents.len() && (#[trigger] documents[i]) is Upstream && document_name(
            documents[i],
        ) == name
}

/// Whether a relay document is called `name`.
pub open spec fn has_relay(documents: Seq<ResourceDocument>, name: Seq<char>) -> bool {
    exists|i: int|
        0 <= i < documents.len() && (#[trigger] documents[i]) is Relay && document_name(
            documents[i],
        ) == name
}

pub(crate) proof fn lemma_document_names(documents: Seq<ResourceDocument>, name: Seq<char>)
    ensures
        names_upstream(first_draft(documents), name) <==> has_upstream(documents, name),
        names_relay(first_draft(documents), name) <==> has_relay(documents, name),
    decreases documents.len(),
{
    let draft = first_draft(documents);
    if documents.len() > 0 {
        let earlier = documents.drop_last();
        let before = first_draft(earlier);
        lemma_document_names(earlier, name);
        if has_upstream(earlier, name) {
            let i = choose|i: int|
                0 <= i < earlier.len() && (#[trigger] earlier[i]) is Upstream && document_name(
                    earlier[i],
                ) == name;
            assert(documents[i] is Upstream && document_name(documents[i]) == name);
            let j = choose|j: int|
                0 <= j < before.upstream_documents.len() && (
                #[trigger] before.upstream_documents[j]).metadata.name@ == name;
            assert(draft.upstream_documents[j].metadata.name@ == name);
        }
        if has_relay(earlier, name) {
            let i = choose|i: int|
                0 <= i < earlier.len() && (#[trigger] earlier[i]) is Relay && document_name(
                    earlier[i],
                ) == name;
            assert(documents[i] is Relay && document_name(documents[i]) == name);
            let j = choose|j: int|
                0 <= j < before.relay_documents.len() && (
                #[trigger] before.relay_documents[j]).metadata.name@ == name;
            assert(draft.relay_documents[j].metadata.name@ == name);
        }
        if has_upstream(documents, name) && !has_upstream(earlier, name) {
            let i = choose|i: int|
                0 <= i < documents.len() && (#[trigger] documents[i]) is Upstream && document_name(
                    documents[i],
                ) == name;
            if i < earlier.len() {
                assert(earlier[i] is Upstream && document_name(earlier[i]) == name);
            }
            assert(draft.upstream_documents[draft.upstream_documents.len() - 1].metadata.name@
                == name);
        }
        if has_relay(documents, name) && !has_relay(earlier, name) {
            let i = choose|i: int|
                0 <= i < documents.len() && (#[trigger] documents[i]) is Relay && document_name(
                    documents[i],
                ) == name;
            if i < earlier.len() {
                assert(earlier[i] is Relay && document_name(earlier[i]) == name);
            }
            assert(draft.relay_documents[draft.relay_documents.len() - 1].metadata.name@ == name);
        }
        if names_upstream(draft, name) && !has_upstream(earlier, name) {
            let j = choose|j: int|
                0 <= j < draft.upstream_documents.len() && (
                #[trigger] draft.upstream_documents[j]).metadata.name@ == name;
            if j < before.upstream_documents.len() {
                assert(before.upstream_documents[j].metadata.name@ == name);
            } else {
                assert(documents[documents.len() - 1] is Upstream);
            }
        }
        if names_relay(draft, name) && !has_relay(earlier, name) {
            let j = choose|j: int|
                0 <= j < draft.relay_documents.len() && (
                #[trigger] draft.relay_documents[j]).metadata.name@ == name;
            if j < before.relay_documents.len() {
                assert(before.relay_documents[j].metadata.name@ == name);
            } else {
                assert(documents[documents.len() - 1] is Relay);
            }
        }
    }
}

/// A snapshot that compiles holds exactly the documents' upstreams and relays, each under its own
/// name, which is one path segment; each passes its own validation, and every relay's upstream is
/// there. This holds whatever the secrets were.
pub proof fn compiled_snapshots_are_complete_and_valid(
    documents: Seq<ResourceDocument>,
    replies: Seq<Reply>,
    snapshot: SnapshotView,
)
    requires
        compilation(documents, replies) == Progress::Done(Ok(snapshot)),
    ensures
        snapshot.instances.dom() == Set::<Seq<char>>::empty(),
        forall|key: Seq<char>| #[trigger]
            snapshot.upstreams.contains_key(key) <==> has_upstream(documents, key),
        forall|key: Seq<char>| #[trigger]
            snapshot.relays.contains_key(key) <==> has_relay(documents, key),
        forall|key: Seq<char>| #[trigger]
            snapshot.upstreams.contains_key(key) ==> accepted_upstream(
                key,
                snapshot.upstreams[key],
            ),
        forall|key: Seq<char>| #[trigger]
            snapshot.relays.contains_key(key) ==> accepted_relay(key, snapshot.relays[key])
                && snapshot.upstreams.contains_key(snapshot.relays[key].upstream),
{
    let draft = first_draft(documents);
    lemma_accepted(draft, replies, snapshot);
    assert forall|key: Seq<char>| #[trigger] snapshot.upstreams.contains_key(key) <==> has_upstream(
        documents,
        key,
    ) by {
        lemma_document_names(documents, key);
    }
    assert forall|key: Seq<char>| #[trigger] snapshot.relays.contains_key(key) <==> has_relay(
        documents,
        key,
    ) by {
        lemma_document_names(documents, key);
    }
}

proof fn lemma_duplicate_found(documents: Seq<ResourceDocument>, i: int, j: int)
    requires
        0 <= i < j < documents.len(),
        same_identity(documents[i], documents[j]),
    ensures
        first_duplicate(documents) is Some,
    decreases documents.len(),
{
    let earlier = documents.drop_last();
    if j < earlier.len() {
        lemma_duplicate_found(earlier, i, j);
    } else {
        assert(same_identity(earlier[i], documents.last()));
    }
}

/// Two documents of one kind and name refuse the configuration before any secret is asked for.
pub proof fn duplicates_are_refused(
    documents: Seq<ResourceDocument>,
    replies: Seq<Reply>,
    i: int,
    j: int,
)
    requires
        0 <= i < j < documents.len(),
        same_identity(documents[i], documents[j]),
    ensures
        compilation(documents, replies) matches Progress::Done(Err(_)),
{
    lemma_duplicate_found(documents, i, j);
}

/// A document that is refused for its contents is refused under its own name: the first message
/// starts with the kind and name of the resource.
pub proof fn refusals_name_the_resource(
    upstream: UpstreamResource,
    relay: RelayResource,
    upstream_secret: Seq<char>,
    relay_client_secret: Option<Seq<char>>,
)
    ensures
        upstream_of(upstream, upstream_secret) matches Err(error) ==> error.len() > 0 && (
        "Upstream/"@ + upstream.metadata.name@).is_prefix_of(error[0]),
        relay_of(relay, relay_client_secret) matches Err(error) ==> error.len() > 0 && ("Relay/"@
            + relay.metadata.name@).is_prefix_of(error[0]),
{
}

} // verus!
