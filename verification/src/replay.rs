//! Single use of authorization codes: a cache of the identifiers seen within their lifetime.

use crate::duration::Duration;
use crate::text::same_text;
use vstd::prelude::*;

verus! {

/// Why a replay cache could not answer.
#[derive(Debug)]
pub struct CacheError(pub String);

impl CacheError {
    pub fn message(&self) -> (message: String)
        ensures
            message@ == "replay cache failed: "@ + self.0@,
    {
        "replay cache failed: ".to_owned().concat(self.0.as_str())
    }
}

/// What remembers identifiers. A host may bring its own.
pub trait ReplayCache {
    /// Whether `id` is seen for the first time; it is remembered for `ttl`. `now` is the reading
    /// of a clock that does not run backwards.
    fn first_use(&mut self, id: &str, now: Duration, ttl: Duration) -> Result<bool, CacheError>;
}

/// The entries that have not expired at `now`.
pub open spec fn live(entries: Map<Seq<char>, nat>, now: nat) -> Map<Seq<char>, nat> {
    Map::new(
        |id: Seq<char>| entries.contains_key(id) && entries[id] > now,
        |id: Seq<char>| entries[id],
    )
}

/// The entries after `id` was used at `now`: expired ones are gone, and `id` is there. An entry
/// that was there keeps its expiry.
pub open spec fn after_use(
    entries: Map<Seq<char>, nat>,
    id: Seq<char>,
    now: nat,
    ttl: nat,
) -> Map<Seq<char>, nat> {
    if live(entries, now).contains_key(id) {
        live(entries, now)
    } else {
        live(entries, now).insert(id, now + ttl)
    }
}

/// Identifiers with the clock reading at which each expires, kept in memory.
pub struct MemoryReplayCache {
    entries: Vec<(String, u128)>,
}

spec fn ids(entries: Seq<(String, u128)>) -> Seq<Seq<char>> {
    entries.map_values(|entry: (String, u128)| entry.0@)
}

spec fn expiries(entries: Seq<(String, u128)>) -> Map<Seq<char>, nat> {
    Map::new(
        |id: Seq<char>| ids(entries).contains(id),
        |id: Seq<char>| entries[ids(entries).index_of(id)].1 as nat,
    )
}

/// One more entry under a new identifier.
proof fn lemma_push_entry(entries: Seq<(String, u128)>, entry: (String, u128))
    requires
        ids(entries).no_duplicates(),
        !ids(entries).contains(entry.0@),
    ensures
        ids(entries.push(entry)).no_duplicates(),
        expiries(entries.push(entry)) == expiries(entries).insert(entry.0@, entry.1 as nat),
{
    let more = entries.push(entry);
    assert(ids(more) =~= ids(entries).push(entry.0@));
    assert forall|id: Seq<char>| ids(more).contains(id) <==> (ids(entries).contains(id) || id
        == entry.0@) by {
        if ids(entries).contains(id) {
            assert(ids(more)[ids(entries).index_of(id)] == id);
        }
        assert(ids(more)[entries.len() as int] == entry.0@);
    }
    assert forall|id: Seq<char>| ids(more).contains(id) implies expiries(more)[id] == expiries(
        entries,
    ).insert(entry.0@, entry.1 as nat)[id] by {
        let i = ids(more).index_of(id);
        if id == entry.0@ {
            assert(ids(more)[entries.len() as int] == id);
        } else {
            let j = ids(entries).index_of(id);
            assert(ids(more)[j] == id);
        }
    }
    assert(expiries(more) =~= expiries(entries).insert(entry.0@, entry.1 as nat));
}

impl View for MemoryReplayCache {
    type V = Map<Seq<char>, nat>;

    /// The clock reading at which each identifier expires.
    closed spec fn view(&self) -> Map<Seq<char>, nat> {
        expiries(self.entries@)
    }
}

impl MemoryReplayCache {
    #[verifier::type_invariant]
    closed spec fn well_formed(self) -> bool {
        ids(self.entries@).no_duplicates()
    }

    /// The position of `id`.
    fn position(entries: &Vec<(String, u128)>, id: &str) -> (position: Option<usize>)
        ensures
            match position {
                Some(position) => position < entries@.len() && ids(entries@)[position as int]
                    == id@,
                None => !ids(entries@).contains(id@),
            },
    {
        for i in 0..entries.len()
            invariant
                forall|j: int| 0 <= j < i ==> ids(entries@)[j] != id@,
        {
            if same_text(entries[i].0.as_str(), id) {
                return Some(i);
            }
        }
        None
    }

    /// The entries that expire after `now`.
    fn unexpired(entries: Vec<(String, u128)>, now: u128) -> (kept: Vec<(String, u128)>)
        requires
            ids(entries@).no_duplicates(),
        ensures
            ids(kept@).no_duplicates(),
            expiries(kept@) == live(expiries(entries@), now as nat),
    {
        let mut kept: Vec<(String, u128)> = Vec::new();
        let ghost all = entries@;
        proof {
            assert(ids(kept@) =~= Seq::<Seq<char>>::empty());
            assert(expiries(all.take(0)) =~= Map::<Seq<char>, nat>::empty());
            assert(expiries(kept@) =~= live(expiries(all.take(0)), now as nat));
        }
        for i in 0..entries.len()
            invariant
                all == entries@,
                ids(all).no_duplicates(),
                ids(kept@).no_duplicates(),
                expiries(kept@) == live(expiries(all.take(i as int)), now as nat),
        {
            let ghost before = all.take(i as int);
            proof {
                assert(all.take(i + 1) =~= before.push(all[i as int]));
                assert(ids(before) =~= ids(all).take(i as int));
                assert(!ids(before).contains(all[i as int].0@)) by {
                    assert(ids(all)[i as int] == all[i as int].0@);
                }
                assert(!live(expiries(before), now as nat).contains_key(all[i as int].0@));
                assert(!ids(kept@).contains(all[i as int].0@)) by {
                    assert(!expiries(kept@).contains_key(all[i as int].0@));
                }
                lemma_push_entry(before, all[i as int]);
            }
            if entries[i].1 > now {
                let ghost was = kept@;
                kept.push((entries[i].0.clone(), entries[i].1));
                proof {
                    lemma_push_entry(was, kept@.last());
                    assert(kept@ =~= was.push(kept@.last()));
                }
            }
            assert(expiries(kept@) =~= live(expiries(all.take(i + 1)), now as nat));
        }
        assert(all.take(all.len() as int) =~= all);
        kept
    }
}

impl Default for MemoryReplayCache {
    fn default() -> (cache: MemoryReplayCache)
        ensures
            cache@ == Map::<Seq<char>, nat>::empty(),
    {
        let cache = MemoryReplayCache { entries: Vec::new() };
        assert(cache@ =~= Map::<Seq<char>, nat>::empty());
        cache
    }
}

impl ReplayCache for MemoryReplayCache {
    /// Drops what has expired, then tells whether `id` is new and, if so, remembers it.
    fn first_use(&mut self, id: &str, now: Duration, ttl: Duration) -> (first: Result<
        bool,
        CacheError,
    >)
        ensures
            first == Ok::<bool, CacheError>(!live(old(self)@, now@).contains_key(id@)),
            final(self)@ == after_use(old(self)@, id@, now@, ttl@),
            first == Ok::<bool, CacheError>(!(old(self)@.contains_key(id@) && old(self)@[id@] > now@)),
            final(self)@.contains_key(id@),
            first == Ok::<bool, CacheError>(true) ==> final(self)@[id@] == now@ + ttl@,
            forall|other: Seq<char>| #[trigger]
                old(self)@.contains_key(other) && old(self)@[other] > now@
                    ==> final(self)@.contains_key(other) && final(self)@[other]
                    == old(self)@[other],
            forall|other: Seq<char>| #[trigger]
                final(self)@.contains_key(other) && other != id@ ==> old(self)@.contains_key(other)
                    && old(self)@[other] > now@,
    {
        proof {
            use_type_invariant(&*self);
        }
        let now: u128 = now.as_nanos();
        let mut entries: Vec<(String, u128)> = Vec::new();
        std::mem::swap(&mut entries, &mut self.entries);
        let mut kept: Vec<(String, u128)> = MemoryReplayCache::unexpired(entries, now);
        let known: bool = MemoryReplayCache::position(&kept, id).is_some();
        if !known {
            let ghost was = kept@;
            kept.push((id.to_owned(), now + ttl.as_nanos()));
            proof {
                lemma_push_entry(was, kept@.last());
                assert(kept@ =~= was.push(kept@.last()));
            }
        } else {
            assert(ids(kept@).contains(id@));
        }
        self.entries = kept;
        Ok(!known)
    }
}

// ---------------------------------------------------------------------------------------------
// Histories
// ---------------------------------------------------------------------------------------------

/// One use of an identifier.
pub struct Use {
    pub id: Seq<char>,
    pub now: nat,
    pub ttl: nat,
}

/// What an initially empty cache holds after `uses`.
pub open spec fn cached(uses: Seq<Use>) -> Map<Seq<char>, nat>
    decreases uses.len(),
{
    if uses.len() == 0 {
        Map::empty()
    } else {
        after_use(cached(uses.drop_last()), uses.last().id, uses.last().now, uses.last().ttl)
    }
}

/// Whether the use at `i` is answered as a first use.
pub open spec fn answered_first(uses: Seq<Use>, i: int) -> bool {
    !live(cached(uses.take(i)), uses[i].now).contains_key(uses[i].id)
}

/// The clock does not run backwards.
pub open spec fn clock_runs(uses: Seq<Use>) -> bool {
    forall|i: int, j: int|
        0 <= i <= j < uses.len() ==> (#[trigger] uses[i]).now <= (#[trigger] uses[j]).now
}

proof fn lemma_remembered(uses: Seq<Use>, i: int, n: int)
    requires
        0 <= i < n <= uses.len(),
        answered_first(uses, i),
        forall|k: int| i < k < n ==> (#[trigger] uses[k]).now < uses[i].now + uses[i].ttl,
    ensures
        cached(uses.take(n)).contains_key(uses[i].id),
        cached(uses.take(n))[uses[i].id] == uses[i].now + uses[i].ttl,
    decreases n - i,
{
    assert(uses.take(n).drop_last() =~= uses.take(n - 1));
    if n > i + 1 {
        lemma_remembered(uses, i, n - 1);
    }
}

/// An identifier counts as used for as long as it was said to: once a use was answered as the
/// first, every other use before its lifetime is over is answered as a repetition.
pub proof fn repeated_use_is_refused(uses: Seq<Use>, i: int, j: int)
    requires
        clock_runs(uses),
        0 <= i < j < uses.len(),
        uses[i].id == uses[j].id,
        answered_first(uses, i),
        uses[j].now < uses[i].now + uses[i].ttl,
    ensures
        !answered_first(uses, j),
{
    assert forall|k: int| i < k < j implies (#[trigger] uses[k]).now < uses[i].now
        + uses[i].ttl by {
        assert(uses[k].now <= uses[j].now);
    }
    lemma_remembered(uses, i, j);
}

proof fn lemma_entries_stem_from_uses(uses: Seq<Use>, id: Seq<char>) -> (i: int)
    requires
        cached(uses).contains_key(id),
    ensures
        0 <= i < uses.len(),
        uses[i].id == id,
        answered_first(uses, i),
        cached(uses)[id] == uses[i].now + uses[i].ttl,
    decreases uses.len(),
{
    let earlier = uses.drop_last();
    let last = uses.len() - 1;
    assert(uses.take(last) =~= earlier);
    if live(cached(earlier), uses.last().now).contains_key(id) {
        let i = lemma_entries_stem_from_uses(earlier, id);
        assert(uses.take(i) =~= earlier.take(i));
        i
    } else {
        last
    }
}

/// An identifier is new again once its lifetime is over: a use is answered as the first when every
/// earlier first use of the identifier has expired by then.
pub proof fn expired_use_is_forgotten(uses: Seq<Use>, j: int)
    requires
        0 <= j < uses.len(),
        forall|i: int|
            0 <= i < j && (#[trigger] uses[i]).id == uses[j].id && answered_first(uses, i)
                ==> uses[i].now + uses[i].ttl <= uses[j].now,
    ensures
        answered_first(uses, j),
{
    let before = uses.take(j);
    if cached(before).contains_key(uses[j].id) {
        let i = lemma_entries_stem_from_uses(before, uses[j].id);
        assert(before.take(i) =~= uses.take(i));
        assert(before[i] == uses[i]);
    }
}

/// An entry is live as long as its expiry is ahead. A use drops the entries that are not, keeps the
/// others as they are, and enters the identifier with its lifetime unless it is live.
pub proof fn uses_enter_what_is_not_live(
    entries: Map<Seq<char>, nat>,
    id: Seq<char>,
    other: Seq<char>,
    now: nat,
    ttl: nat,
)
    ensures
        live(entries, now).contains_key(other) <==> entries.contains_key(other) && entries[other]
            > now,
        entries.contains_key(other) && entries[other] > now ==> live(entries, now)[other]
            == entries[other] && after_use(entries, id, now, ttl).contains_key(other) && after_use(
            entries,
            id,
            now,
            ttl,
        )[other] == entries[other],
        other != id && !(entries.contains_key(other) && entries[other] > now) ==> !after_use(
            entries,
            id,
            now,
            ttl,
        ).contains_key(other),
        !(entries.contains_key(id) && entries[id] > now) ==> after_use(
            entries,
            id,
            now,
            ttl,
        ).contains_key(id) && after_use(entries, id, now, ttl)[id] == now + ttl,
{
}

/// What a cache holds and answers in a history of uses is what it holds and answers use by use,
/// starting from nothing.
pub proof fn histories_go_use_by_use(uses: Seq<Use>, next: Use)
    ensures
        cached(Seq::<Use>::empty()) == Map::<Seq<char>, nat>::empty(),
        cached(uses.push(next)) == after_use(cached(uses), next.id, next.now, next.ttl),
        answered_first(uses.push(next), uses.len() as int) <==> !(cached(uses).contains_key(next.id)
            && cached(uses)[next.id] > next.now),
        clock_runs(uses) && (forall|i: int|
            0 <= i < uses.len() ==> (#[trigger] uses[i]).now <= next.now) ==> clock_runs(
            uses.push(next),
        ),
{
    assert(uses.push(next).drop_last() =~= uses);
    assert(uses.push(next).take(uses.len() as int) =~= uses);
}

} // verus!
