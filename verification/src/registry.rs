//! Snapshots of configured resources, their combination, and the registry requests resolve from.

use crate::instance::{Instance, InstanceKey, InstanceView};
use crate::key::ResourceKey;
use crate::model::{reports, Relay, RelayView, Upstream, UpstreamView};
use crate::resource_map::{key_texts, map_keys, ResourceMap};
use crate::text::join4;
use std::sync::Arc;
use vstd::prelude::*;

verus! {

pub type InstanceMap = ResourceMap<Instance>;

pub type UpstreamMap = ResourceMap<Upstream>;

pub type RelayMap = ResourceMap<Relay>;

/// The complete set of resources of one configuration provider.
pub struct ProviderSnapshot {
    pub instances: InstanceMap,
    pub upstreams: UpstreamMap,
    pub relays: RelayMap,
}

/// The mathematical content of a [`ProviderSnapshot`].
#[verifier::ext_equal]
pub struct SnapshotView {
    pub instances: Map<Seq<char>, InstanceView>,
    pub upstreams: Map<Seq<char>, UpstreamView>,
    pub relays: Map<Seq<char>, RelayView>,
}

impl View for ProviderSnapshot {
    type V = SnapshotView;

    open spec fn view(&self) -> SnapshotView {
        SnapshotView {
            instances: self.instances@,
            upstreams: self.upstreams@,
            relays: self.relays@,
        }
    }
}

/// A snapshot without resources.
pub open spec fn empty_snapshot() -> SnapshotView {
    SnapshotView {
        instances: Map::<Seq<char>, InstanceView>::empty(),
        upstreams: Map::<Seq<char>, UpstreamView>::empty(),
        relays: Map::<Seq<char>, RelayView>::empty(),
    }
}

/// The first of `keys` whose relay names an upstream that does not exist.
pub open spec fn first_dangling(
    keys: Seq<Seq<char>>,
    relays: Map<Seq<char>, RelayView>,
    upstreams: Map<Seq<char>, UpstreamView>,
) -> Option<Seq<char>>
    decreases keys.len(),
{
    if keys.len() == 0 {
        None
    } else {
        match first_dangling(keys.drop_last(), relays, upstreams) {
            Some(key) => Some(key),
            None => if upstreams.contains_key(relays[keys.last()].upstream) {
                None
            } else {
                Some(keys.last())
            },
        }
    }
}

/// What is said of a relay whose upstream does not exist.
pub open spec fn dangling_message(relay: Seq<char>, upstream: Seq<char>) -> Seq<char> {
    "Relay/"@ + relay + " spec.upstreamRef: Upstream/"@ + upstream + " does not exist"@
}

/// What is wrong with the references between relays and upstreams; `keys` is the order in which
/// relays are looked at.
pub open spec fn reference_problem(
    keys: Seq<Seq<char>>,
    relays: Map<Seq<char>, RelayView>,
    upstreams: Map<Seq<char>, UpstreamView>,
) -> Option<Seq<char>> {
    match first_dangling(keys, relays, upstreams) {
        Some(key) => Some(dangling_message(key, relays[key].upstream)),
        None => None,
    }
}

impl ProviderSnapshot {
    /// A snapshot without resources.
    pub fn new() -> (snapshot: ProviderSnapshot)
        ensures
            snapshot@ == empty_snapshot(),
            snapshot.relays.keys() == Seq::<Seq<char>>::empty(),
    {
        ProviderSnapshot {
            instances: ResourceMap::new(),
            upstreams: ResourceMap::new(),
            relays: ResourceMap::new(),
        }
    }

    /// Checks that the upstream of every relay exists.
    pub fn validate(&self) -> (result: Result<(), String>)
        ensures
            reports(
                result,
                reference_problem(self.relays.keys(), self.relays@, self.upstreams@),
            ),
    {
        let ghost keys = self.relays.keys();
        let count: usize = self.relays.len();
        assert(keys.take(0) =~= Seq::<Seq<char>>::empty());
        for i in 0..count
            invariant
                count == keys.len(),
                keys == self.relays.keys(),
                first_dangling(keys.take(i as int), self.relays@, self.upstreams@) is None,
        {
            let entry = self.relays.entry(i);
            assert(keys.take(i + 1).drop_last() =~= keys.take(i as int));
            if !self.upstreams.contains_key(&entry.1.upstream) {
                proof {
                    assert(first_dangling(keys.take(i + 1), self.relays@, self.upstreams@) == Some(
                        entry.0@,
                    ));
                    lemma_dangling_prefix(keys, i + 1, self.relays@, self.upstreams@);
                }
                let start: String = join4(
                    "Relay/",
                    entry.0.as_str(),
                    " spec.upstreamRef: Upstream/",
                    entry.1.upstream.as_str(),
                );
                return Err(start.concat(" does not exist"));
            }
        }
        assert(keys.take(count as int) =~= keys);
        Ok(())
    }
}

impl Default for ProviderSnapshot {
    fn default() -> (snapshot: ProviderSnapshot)
        ensures
            snapshot@ == empty_snapshot(),
    {
        ProviderSnapshot::new()
    }
}

impl Clone for ProviderSnapshot {
    fn clone(&self) -> (copy: ProviderSnapshot)
        ensures
            copy@ == self@,
            copy.instances.keys() == self.instances.keys(),
            copy.upstreams.keys() == self.upstreams.keys(),
            copy.relays.keys() == self.relays.keys(),
    {
        ProviderSnapshot {
            instances: self.instances.clone(),
            upstreams: self.upstreams.clone(),
            relays: self.relays.clone(),
        }
    }
}

/// The first dangling relay of a prefix is the first of all.
proof fn lemma_dangling_prefix(
    keys: Seq<Seq<char>>,
    n: int,
    relays: Map<Seq<char>, RelayView>,
    upstreams: Map<Seq<char>, UpstreamView>,
)
    requires
        0 <= n <= keys.len(),
        first_dangling(keys.take(n), relays, upstreams) is Some,
    ensures
        first_dangling(keys, relays, upstreams) == first_dangling(keys.take(n), relays, upstreams),
    decreases keys.len() - n,
{
    if n == keys.len() {
        assert(keys.take(n) =~= keys);
    } else {
        assert(keys.take(n + 1).drop_last() =~= keys.take(n));
        lemma_dangling_prefix(keys, n + 1, relays, upstreams);
    }
}

/// References are in order exactly when every relay looked at names an existing upstream.
pub proof fn references_resolve(
    keys: Seq<Seq<char>>,
    relays: Map<Seq<char>, RelayView>,
    upstreams: Map<Seq<char>, UpstreamView>,
)
    ensures
        reference_problem(keys, relays, upstreams) is None <==> (forall|i: int|
            0 <= i < keys.len() ==> upstreams.contains_key(relays[#[trigger] keys[i]].upstream)),
    decreases keys.len(),
{
    if keys.len() > 0 {
        references_resolve(keys.drop_last(), relays, upstreams);
        assert forall|i: int| 0 <= i < keys.len() - 1 implies keys.drop_last()[i] == keys[i] by {}
        if reference_problem(keys, relays, upstreams) is None {
            assert forall|i: int| 0 <= i < keys.len() implies upstreams.contains_key(
                relays[#[trigger] keys[i]].upstream,
            ) by {
                if i < keys.len() - 1 {
                    assert(keys.drop_last()[i] == keys[i]);
                }
            }
        } else {
            if forall|i: int|
                0 <= i < keys.len() ==> upstreams.contains_key(
                    relays[#[trigger] keys[i]].upstream,
                ) {
                assert(upstreams.contains_key(relays[keys[keys.len() - 1]].upstream));
            }
        }
    }
}

// ---------------------------------------------------------------------------------------------
// Combining providers
// ---------------------------------------------------------------------------------------------

/// The kinds of configured resources.
#[derive(Clone, Copy, Debug, Eq, PartialEq, Structural)]
pub enum ResourceKind {
    Instance,
    Upstream,
    Relay,
}

/// A resource that was left out because an earlier provider has one of its kind and key.
#[derive(Debug)]
pub struct Collision {
    pub provider: String,
    pub kind: ResourceKind,
    pub key: ResourceKey,
}

/// The mathematical content of a [`Collision`].
pub struct CollisionView {
    pub provider: Seq<char>,
    pub kind: ResourceKind,
    pub key: Seq<char>,
}

impl View for Collision {
    type V = CollisionView;

    open spec fn view(&self) -> CollisionView {
        CollisionView { provider: self.provider@, kind: self.kind, key: self.key@ }
    }
}

/// All maps in one. Where several have a key, the value is that of the earliest.
pub open spec fn merged<V>(maps: Seq<Map<Seq<char>, V>>) -> Map<Seq<char>, V>
    decreases maps.len(),
{
    if maps.len() == 0 {
        Map::empty()
    } else {
        maps.last().union_prefer_right(merged(maps.drop_last()))
    }
}

/// A later map never changes what earlier maps say of a key, and adds what they leave open: every
/// key of a merged map has the value that the earliest map with that key gives it.
pub proof fn earliest_provider_wins<V>(maps: Seq<Map<Seq<char>, V>>, key: Seq<char>, i: int)
    requires
        0 <= i < maps.len(),
        maps[i].contains_key(key),
        forall|j: int| 0 <= j < i ==> !(#[trigger] maps[j]).contains_key(key),
    ensures
        merged(maps).contains_key(key),
        merged(maps)[key] == maps[i][key],
    decreases maps.len(),
{
    let rest = maps.drop_last();
    if i < maps.len() - 1 {
        earliest_provider_wins(rest, key, i);
    } else {
        merging_invents_nothing(rest, key);
    }
}

/// A merged map has a key only if one of its parts has it.
pub proof fn merging_invents_nothing<V>(maps: Seq<Map<Seq<char>, V>>, key: Seq<char>)
    ensures
        merged(maps).contains_key(key) <==> exists|i: int|
            0 <= i < maps.len() && (#[trigger] maps[i]).contains_key(key),
    decreases maps.len(),
{
    if maps.len() > 0 {
        let rest = maps.drop_last();
        merging_invents_nothing(rest, key);
        if maps.last().contains_key(key) {
            assert(maps[maps.len() - 1].contains_key(key));
        }
        if merged(rest).contains_key(key) {
            let i = choose|i: int| 0 <= i < rest.len() && (#[trigger] rest[i]).contains_key(key);
            assert(maps[i].contains_key(key));
        }
        if exists|i: int| 0 <= i < maps.len() && (#[trigger] maps[i]).contains_key(key) {
            let i = choose|i: int| 0 <= i < maps.len() && (#[trigger] maps[i]).contains_key(key);
            if i < rest.len() {
                assert(rest[i].contains_key(key));
            }
        }
    }
}

/// The instances of each snapshot.
pub open spec fn instance_maps(snapshots: Seq<(&str, &ProviderSnapshot)>) -> Seq<
    Map<Seq<char>, InstanceView>,
> {
    snapshots.map_values(|named: (&str, &ProviderSnapshot)| named.1.instances@)
}

/// The upstreams of each snapshot.
pub open spec fn upstream_maps(snapshots: Seq<(&str, &ProviderSnapshot)>) -> Seq<
    Map<Seq<char>, UpstreamView>,
> {
    snapshots.map_values(|named: (&str, &ProviderSnapshot)| named.1.upstreams@)
}

/// The relays of each snapshot.
pub open spec fn relay_maps(snapshots: Seq<(&str, &ProviderSnapshot)>) -> Seq<
    Map<Seq<char>, RelayView>,
> {
    snapshots.map_values(|named: (&str, &ProviderSnapshot)| named.1.relays@)
}

/// All snapshots in one: kind by kind, the earliest provider wins.
pub open spec fn merged_snapshot(snapshots: Seq<(&str, &ProviderSnapshot)>) -> SnapshotView {
    SnapshotView {
        instances: merged(instance_maps(snapshots)),
        upstreams: merged(upstream_maps(snapshots)),
        relays: merged(relay_maps(snapshots)),
    }
}

/// The collisions of one provider and kind: those of `keys` that are already taken.
pub open spec fn clashes(
    provider: Seq<char>,
    kind: ResourceKind,
    keys: Seq<Seq<char>>,
    taken: Set<Seq<char>>,
) -> Seq<CollisionView> {
    keys.filter(|key: Seq<char>| taken.contains(key)).map_values(
        |key: Seq<char>| CollisionView { provider, kind, key },
    )
}

/// Every collision between snapshots, provider by provider, kind by kind.
pub open spec fn collisions(snapshots: Seq<(&str, &ProviderSnapshot)>) -> Seq<CollisionView>
    decreases snapshots.len(),
{
    if snapshots.len() == 0 {
        Seq::empty()
    } else {
        let before = merged_snapshot(snapshots.drop_last());
        let name = snapshots.last().0@;
        let next = snapshots.last().1;
        collisions(snapshots.drop_last()) + clashes(
            name,
            ResourceKind::Instance,
            next.instances.keys(),
            before.instances.dom(),
        ) + clashes(
            name,
            ResourceKind::Upstream,
            next.upstreams.keys(),
            before.upstreams.dom(),
        ) + clashes(name, ResourceKind::Relay, next.relays.keys(), before.relays.dom())
    }
}

/// The contents of a list of collisions.
pub open spec fn collision_views(list: Seq<Collision>) -> Seq<CollisionView> {
    list.map_values(|collision: Collision| collision@)
}

fn note_collisions(list: &mut Vec<Collision>, provider: &str, kind: ResourceKind, keys: Vec<ResourceKey>)
    ensures
        collision_views(final(list)@) == collision_views(old(list)@) + key_texts(keys@).map_values(
            |key: Seq<char>| CollisionView { provider: provider@, kind, key },
        ),
{
    let ghost before = collision_views(list@);
    let ghost added = key_texts(keys@).map_values(
        |key: Seq<char>| CollisionView { provider: provider@, kind, key },
    );
    assert(collision_views(list@) =~= before + added.take(0));
    for i in 0..keys.len()
        invariant
            added == key_texts(keys@).map_values(
                |key: Seq<char>| CollisionView { provider: provider@, kind, key },
            ),
            collision_views(list@) == before + added.take(i as int),
    {
        let ghost was = list@;
        list.push(Collision { provider: provider.to_owned(), kind, key: keys[i].clone() });
        assert(collision_views(list@) =~= collision_views(was).push(added[i as int]));
        assert(added.take(i + 1) =~= added.take(i as int).push(added[i as int]));
    }
    assert(added.take(keys@.len() as int) =~= added);
}

impl ProviderSnapshot {
    /// Combines snapshots, given with the names of their providers in order of precedence. Of two
    /// resources of one kind and key the earlier stays whole; the later is reported.
    pub fn merge_ordered(snapshots: &[(&str, &ProviderSnapshot)]) -> (result: (
        ProviderSnapshot,
        Vec<Collision>,
    ))
        ensures
            result.0@ == merged_snapshot(snapshots@),
            collision_views(result.1@) == collisions(snapshots@),
            forall|key: Seq<char>, i: int| #[trigger]
                first_with_instance(snapshots@, key, i) ==> result.0@.instances.contains_key(key)
                    && result.0@.instances[key] == snapshots@[i].1.instances@[key],
            forall|key: Seq<char>, i: int| #[trigger]
                first_with_upstream(snapshots@, key, i) ==> result.0@.upstreams.contains_key(key)
                    && result.0@.upstreams[key] == snapshots@[i].1.upstreams@[key],
            forall|key: Seq<char>, i: int| #[trigger]
                first_with_relay(snapshots@, key, i) ==> result.0@.relays.contains_key(key)
                    && result.0@.relays[key] == snapshots@[i].1.relays@[key],
    {
        let mut all = ProviderSnapshot::new();
        let mut found: Vec<Collision> = Vec::new();
        proof {
            assert(snapshots@.take(0) =~= Seq::<(&str, &ProviderSnapshot)>::empty());
            assert(collision_views(found@) =~= collisions(snapshots@.take(0)));
        }
        for i in 0..snapshots.len()
            invariant
                all@ == merged_snapshot(snapshots@.take(i as int)),
                collision_views(found@) == collisions(snapshots@.take(i as int)),
        {
            let named = snapshots[i];
            let ghost done = snapshots@.take(i as int);
            let ghost now = snapshots@.take(i + 1);
            proof {
                assert(now.drop_last() =~= done);
                assert(now.last() == snapshots@[i as int]);
                assert(instance_maps(now).drop_last() =~= instance_maps(done));
                assert(upstream_maps(now).drop_last() =~= upstream_maps(done));
                assert(relay_maps(now).drop_last() =~= relay_maps(done));
            }
            let ghost held = all@;
            let instances: Vec<ResourceKey> = all.instances.absorb(&named.1.instances);
            let upstreams: Vec<ResourceKey> = all.upstreams.absorb(&named.1.upstreams);
            let relays: Vec<ResourceKey> = all.relays.absorb(&named.1.relays);
            proof {
                lemma_clashes(
                    named.0@,
                    ResourceKind::Instance,
                    named.1.instances.keys(),
                    held.instances,
                    instances@,
                );
                lemma_clashes(
                    named.0@,
                    ResourceKind::Upstream,
                    named.1.upstreams.keys(),
                    held.upstreams,
                    upstreams@,
                );
                lemma_clashes(
                    named.0@,
                    ResourceKind::Relay,
                    named.1.relays.keys(),
                    held.relays,
                    relays@,
                );
            }
            note_collisions(&mut found, named.0, ResourceKind::Instance, instances);
            note_collisions(&mut found, named.0, ResourceKind::Upstream, upstreams);
            note_collisions(&mut found, named.0, ResourceKind::Relay, relays);
        }
        proof {
            assert(snapshots@.take(snapshots@.len() as int) =~= snapshots@);
            assert forall|key: Seq<char>, i: int| #[trigger]
                first_with_instance(snapshots@, key, i) implies all@.instances.contains_key(key)
                && all@.instances[key] == snapshots@[i].1.instances@[key] by {
                first_snapshots_win_kind_by_kind(snapshots@, key, i);
            }
            assert forall|key: Seq<char>, i: int| #[trigger]
                first_with_upstream(snapshots@, key, i) implies all@.upstreams.contains_key(key)
                && all@.upstreams[key] == snapshots@[i].1.upstreams@[key] by {
                first_snapshots_win_kind_by_kind(snapshots@, key, i);
            }
            assert forall|key: Seq<char>, i: int| #[trigger]
                first_with_relay(snapshots@, key, i) implies all@.relays.contains_key(key)
                && all@.relays[key] == snapshots@[i].1.relays@[key] by {
                first_snapshots_win_kind_by_kind(snapshots@, key, i);
            }
        }
        (all, found)
    }
}

/// Whether a snapshot has a resource of the given kind and key.
pub open spec fn provides(snapshot: ProviderSnapshot, kind: ResourceKind, key: Seq<char>) -> bool {
    match kind {
        ResourceKind::Instance => snapshot.instances@.contains_key(key),
        ResourceKind::Upstream => snapshot.upstreams@.contains_key(key),
        ResourceKind::Relay => snapshot.relays@.contains_key(key),
    }
}

proof fn lemma_clash_noted(
    provider: Seq<char>,
    kind: ResourceKind,
    keys: Seq<Seq<char>>,
    taken: Set<Seq<char>>,
    key: Seq<char>,
)
    requires
        keys.contains(key),
        taken.contains(key),
    ensures
        clashes(provider, kind, keys, taken).contains(CollisionView { provider, kind, key }),
{
    broadcast use vstd::seq_lib::group_filter_ensures;

    let held = |key: Seq<char>| taken.contains(key);
    let i = choose|i: int| 0 <= i < keys.len() && keys[i] == key;
    assert(held(keys[i]));
    assert(keys.filter(held).contains(key));
    let j = choose|j: int| 0 <= j < keys.filter(held).len() && keys.filter(held)[j] == key;
    assert(clashes(provider, kind, keys, taken)[j] == (CollisionView { provider, kind, key }));
}

/// No resource is dropped in silence: one whose kind and key an earlier provider has is reported
/// as a collision, under the name of its own provider.
pub proof fn dropped_resources_are_reported(
    snapshots: Seq<(&str, &ProviderSnapshot)>,
    kind: ResourceKind,
    key: Seq<char>,
    earlier: int,
    later: int,
)
    requires
        0 <= earlier < later < snapshots.len(),
        provides(*snapshots[earlier].1, kind, key),
        provides(*snapshots[later].1, kind, key),
    ensures
        collisions(snapshots).contains(
            CollisionView { provider: snapshots[later].0@, kind, key },
        ),
    decreases snapshots.len(),
{
    let rest = snapshots.drop_last();
    let collision = CollisionView { provider: snapshots[later].0@, kind, key };
    let all = collisions(snapshots);
    if later < snapshots.len() - 1 {
        dropped_resources_are_reported(rest, kind, key, earlier, later);
        let i = choose|i: int| 0 <= i < collisions(rest).len() && collisions(rest)[i] == collision;
        assert(all[i] == collision);
    } else {
        let name = snapshots.last().0@;
        let next = snapshots.last().1;
        let before = merged_snapshot(rest);
        let first = clashes(
            name,
            ResourceKind::Instance,
            next.instances.keys(),
            before.instances.dom(),
        );
        let second = clashes(
            name,
            ResourceKind::Upstream,
            next.upstreams.keys(),
            before.upstreams.dom(),
        );
        let third = clashes(name, ResourceKind::Relay, next.relays.keys(), before.relays.dom());
        let start = collisions(rest).len();
        match kind {
            ResourceKind::Instance => {
                assert(instance_maps(rest)[earlier].contains_key(key));
                merging_invents_nothing(instance_maps(rest), key);
                map_keys(next.instances);
                lemma_clash_noted(name, kind, next.instances.keys(), before.instances.dom(), key);
                let i = choose|i: int| 0 <= i < first.len() && first[i] == collision;
                assert(all[start + i] == collision);
            },
            ResourceKind::Upstream => {
                assert(upstream_maps(rest)[earlier].contains_key(key));
                merging_invents_nothing(upstream_maps(rest), key);
                map_keys(next.upstreams);
                lemma_clash_noted(name, kind, next.upstreams.keys(), before.upstreams.dom(), key);
                let i = choose|i: int| 0 <= i < second.len() && second[i] == collision;
                assert(all[start + first.len() + i] == collision);
            },
            ResourceKind::Relay => {
                assert(relay_maps(rest)[earlier].contains_key(key));
                merging_invents_nothing(relay_maps(rest), key);
                map_keys(next.relays);
                lemma_clash_noted(name, kind, next.relays.keys(), before.relays.dom(), key);
                let i = choose|i: int| 0 <= i < third.len() && third[i] == collision;
                assert(all[start + first.len() + second.len() + i] == collision);
            },
        }
    }
}

/// Filtering by the keys of a map is filtering by its domain.
proof fn lemma_clashes<V>(
    provider: Seq<char>,
    kind: ResourceKind,
    keys: Seq<Seq<char>>,
    held: Map<Seq<char>, V>,
    refused: Seq<ResourceKey>,
)
    requires
        key_texts(refused) == keys.filter(|key: Seq<char>| held.contains_key(key)),
    ensures
        clashes(provider, kind, keys, held.dom()) == key_texts(refused).map_values(
            |key: Seq<char>| CollisionView { provider, kind, key },
        ),
{
    assert((|key: Seq<char>| held.contains_key(key)) =~= (|key: Seq<char>|
        held.dom().contains(key)));
}

// ---------------------------------------------------------------------------------------------
// The registry
// ---------------------------------------------------------------------------------------------

/// Why an instance could not be looked up.
#[derive(Debug)]
pub struct ResolveError(pub String);

impl ResolveError {
    pub fn message(&self) -> (message: String)
        ensures
            message@ == "instance resolution failed: "@ + self.0@,
    {
        "instance resolution failed: ".to_owned().concat(self.0.as_str())
    }
}

/// Where requests find their instances. A host may bring its own.
pub trait InstanceResolver {
    /// The instance under `key`, or none.
    fn resolve(&self, key: &InstanceKey) -> Result<Option<Arc<Instance>>, ResolveError>;
}

/// The instances in force. Replaced as a whole, never edited.
pub struct Registry {
    instances: Arc<InstanceMap>,
}

impl View for Registry {
    type V = Map<Seq<char>, InstanceView>;

    closed spec fn view(&self) -> Map<Seq<char>, InstanceView> {
        self.instances@
    }
}

impl Default for Registry {
    fn default() -> (registry: Registry)
        ensures
            registry@ == Map::<Seq<char>, InstanceView>::empty(),
    {
        Registry { instances: Arc::new(ResourceMap::new()) }
    }
}

impl Registry {
    /// Puts `instances` in force.
    pub fn replace(&mut self, instances: InstanceMap)
        ensures
            final(self)@ == instances@,
    {
        self.instances = Arc::new(instances);
    }

    /// The instances in force, unaffected by later replacements.
    pub fn snapshot(&self) -> (instances: Arc<InstanceMap>)
        ensures
            instances@ == self@,
    {
        Arc::clone(&self.instances)
    }

    /// Combines the instances of several providers, named in order of precedence. On a collision
    /// the instance of the earlier provider stays. The collisions are not told here: a caller that
    /// has to report them, as none may pass in silence, takes
    /// [`ProviderSnapshot::merge_ordered`], which returns the same instances and every collision.
    pub fn merge_ordered(snapshots: &[(&str, &ProviderSnapshot)]) -> (instances: InstanceMap)
        ensures
            instances@ == merged(instance_maps(snapshots@)),
    {
        ProviderSnapshot::merge_ordered(snapshots).0.instances
    }
}

impl InstanceResolver for Registry {
    fn resolve(&self, key: &InstanceKey) -> (found: Result<Option<Arc<Instance>>, ResolveError>)
        ensures
            match found {
                Ok(Some(instance)) => self@.contains_key(key@) && self@[key@] == instance@,
                Ok(None) => !self@.contains_key(key@),
                Err(_) => false,
            },
    {
        match self.instances.get(key) {
            Some(instance) => Ok(Some(Arc::clone(instance))),
            None => Ok(None),
        }
    }
}

impl InstanceResolver for InstanceMap {
    fn resolve(&self, key: &InstanceKey) -> (found: Result<Option<Arc<Instance>>, ResolveError>)
        ensures
            match found {
                Ok(Some(instance)) => self@.contains_key(key@) && self@[key@] == instance@,
                Ok(None) => !self@.contains_key(key@),
                Err(_) => false,
            },
    {
        match self.get(key) {
            Some(instance) => Ok(Some(Arc::clone(instance))),
            None => Ok(None),
        }
    }
}

// ---------------------------------------------------------------------------------------------
// Laws
// ---------------------------------------------------------------------------------------------

/// The first relay whose upstream does not exist decides what is said of the references: it names
/// the relay and the upstream.
pub proof fn first_dangling_relay_decides(
    keys: Seq<Seq<char>>,
    relays: Map<Seq<char>, RelayView>,
    upstreams: Map<Seq<char>, UpstreamView>,
    i: int,
)
    requires
        0 <= i < keys.len(),
        !upstreams.contains_key(relays[keys[i]].upstream),
        forall|j: int|
            0 <= j < i ==> upstreams.contains_key(relays[#[trigger] keys[j]].upstream),
    ensures
        reference_problem(keys, relays, upstreams) == Some(
            "Relay/"@ + keys[i] + " spec.upstreamRef: Upstream/"@ + relays[keys[i]].upstream
                + " does not exist"@,
        ),
    decreases keys.len(),
{
    let front = keys.drop_last();
    if i < front.len() {
        assert forall|j: int| 0 <= j < i implies upstreams.contains_key(
            relays[#[trigger] front[j]].upstream,
        ) by {
            assert(upstreams.contains_key(relays[keys[j]].upstream));
        }
        first_dangling_relay_decides(front, relays, upstreams, i);
    } else {
        references_resolve(front, relays, upstreams);
        assert forall|j: int| 0 <= j < front.len() implies upstreams.contains_key(
            relays[#[trigger] front[j]].upstream,
        ) by {
            assert(upstreams.contains_key(relays[keys[j]].upstream));
        }
    }
}

/// Whether snapshot `i` is the first to have an instance under `key`.
pub open spec fn first_with_instance(
    snapshots: Seq<(&str, &ProviderSnapshot)>,
    key: Seq<char>,
    i: int,
) -> bool {
    &&& 0 <= i < snapshots.len()
    &&& snapshots[i].1.instances@.contains_key(key)
    &&& forall|j: int| 0 <= j < i ==> !(#[trigger] snapshots[j]).1.instances@.contains_key(key)
}

/// Whether snapshot `i` is the first to have an upstream under `key`.
pub open spec fn first_with_upstream(
    snapshots: Seq<(&str, &ProviderSnapshot)>,
    key: Seq<char>,
    i: int,
) -> bool {
    &&& 0 <= i < snapshots.len()
    &&& snapshots[i].1.upstreams@.contains_key(key)
    &&& forall|j: int| 0 <= j < i ==> !(#[trigger] snapshots[j]).1.upstreams@.contains_key(key)
}

/// Whether snapshot `i` is the first to have a relay under `key`.
pub open spec fn first_with_relay(
    snapshots: Seq<(&str, &ProviderSnapshot)>,
    key: Seq<char>,
    i: int,
) -> bool {
    &&& 0 <= i < snapshots.len()
    &&& snapshots[i].1.relays@.contains_key(key)
    &&& forall|j: int| 0 <= j < i ==> !(#[trigger] snapshots[j]).1.relays@.contains_key(key)
}

/// Combined snapshots have of every kind and key the resource of the first snapshot that has one,
/// and nothing else.
pub proof fn first_snapshots_win_kind_by_kind(
    snapshots: Seq<(&str, &ProviderSnapshot)>,
    key: Seq<char>,
    i: int,
)
    ensures
        first_with_instance(snapshots, key, i) ==> merged_snapshot(snapshots).instances.contains_key(
            key,
        ) && merged_snapshot(snapshots).instances[key] == snapshots[i].1.instances@[key],
        first_with_upstream(snapshots, key, i) ==> merged_snapshot(snapshots).upstreams.contains_key(
            key,
        ) && merged_snapshot(snapshots).upstreams[key] == snapshots[i].1.upstreams@[key],
        first_with_relay(snapshots, key, i) ==> merged_snapshot(snapshots).relays.contains_key(key)
            && merged_snapshot(snapshots).relays[key] == snapshots[i].1.relays@[key],
        merged_snapshot(snapshots).instances.contains_key(key) ==> exists|j: int|
            0 <= j < snapshots.len() && (#[trigger] snapshots[j]).1.instances@.contains_key(key),
        merged_snapshot(snapshots).upstreams.contains_key(key) ==> exists|j: int|
            0 <= j < snapshots.len() && (#[trigger] snapshots[j]).1.upstreams@.contains_key(key),
        merged_snapshot(snapshots).relays.contains_key(key) ==> exists|j: int|
            0 <= j < snapshots.len() && (#[trigger] snapshots[j]).1.relays@.contains_key(key),
{
    let instances = instance_maps(snapshots);
    let upstreams = upstream_maps(snapshots);
    let relays = relay_maps(snapshots);
    if first_with_instance(snapshots, key, i) {
        assert forall|j: int| 0 <= j < i implies !(#[trigger] instances[j]).contains_key(key) by {
            assert(!snapshots[j].1.instances@.contains_key(key));
        }
        earliest_provider_wins(instances, key, i);
    }
    if first_with_upstream(snapshots, key, i) {
        assert forall|j: int| 0 <= j < i implies !(#[trigger] upstreams[j]).contains_key(key) by {
            assert(!snapshots[j].1.upstreams@.contains_key(key));
        }
        earliest_provider_wins(upstreams, key, i);
    }
    if first_with_relay(snapshots, key, i) {
        assert forall|j: int| 0 <= j < i implies !(#[trigger] relays[j]).contains_key(key) by {
            assert(!snapshots[j].1.relays@.contains_key(key));
        }
        earliest_provider_wins(relays, key, i);
    }
    merging_invents_nothing(instances, key);
    merging_invents_nothing(upstreams, key);
    merging_invents_nothing(relays, key);
    if merged(instances).contains_key(key) {
        let j = choose|j: int| 0 <= j < instances.len() && (#[trigger] instances[j]).contains_key(key);
        assert(snapshots[j].1.instances@.contains_key(key));
    }
    if merged(upstreams).contains_key(key) {
        let j = choose|j: int| 0 <= j < upstreams.len() && (#[trigger] upstreams[j]).contains_key(key);
        assert(snapshots[j].1.upstreams@.contains_key(key));
    }
    if merged(relays).contains_key(key) {
        let j = choose|j: int| 0 <= j < relays.len() && (#[trigger] relays[j]).contains_key(key);
        assert(snapshots[j].1.relays@.contains_key(key));
    }
}

proof fn lemma_clashes_are_taken(
    provider: Seq<char>,
    kind: ResourceKind,
    keys: Seq<Seq<char>>,
    taken: Set<Seq<char>>,
    i: int,
)
    requires
        0 <= i < clashes(provider, kind, keys, taken).len(),
    ensures
        clashes(provider, kind, keys, taken)[i].provider == provider,
        clashes(provider, kind, keys, taken)[i].kind == kind,
        keys.contains(clashes(provider, kind, keys, taken)[i].key),
        taken.contains(clashes(provider, kind, keys, taken)[i].key),
{
    broadcast use vstd::seq_lib::group_filter_ensures;

    let held = |key: Seq<char>| taken.contains(key);
    let key = keys.filter(held)[i];
    assert(keys.filter(held).contains(key));
    keys.lemma_filter_contains_rev(held, key);
    assert(held(key));
}

/// Whether one of the snapshots has a resource of the given kind and key.
pub open spec fn provided(
    snapshots: Seq<(&str, &ProviderSnapshot)>,
    kind: ResourceKind,
    key: Seq<char>,
) -> bool {
    exists|i: int| 0 <= i < snapshots.len() && provides(*(#[trigger] snapshots[i]).1, kind, key)
}

/// A further snapshot adds to the report its own collisions, each once: instances, then upstreams,
/// then relays, in the order of its keys, under the name of its provider.
pub proof fn collisions_are_reported_in_order(
    snapshots: Seq<(&str, &ProviderSnapshot)>,
    named: (&str, &ProviderSnapshot),
)
    ensures
        collisions(Seq::<(&str, &ProviderSnapshot)>::empty()).len() == 0,
        collisions(snapshots.push(named)) == collisions(snapshots)
            + named.1.instances.keys().filter(
            |key: Seq<char>| provided(snapshots, ResourceKind::Instance, key),
        ).map_values(
            |key: Seq<char>|
                CollisionView { provider: named.0@, kind: ResourceKind::Instance, key },
        ) + named.1.upstreams.keys().filter(
            |key: Seq<char>| provided(snapshots, ResourceKind::Upstream, key),
        ).map_values(
            |key: Seq<char>|
                CollisionView { provider: named.0@, kind: ResourceKind::Upstream, key },
        ) + named.1.relays.keys().filter(
            |key: Seq<char>| provided(snapshots, ResourceKind::Relay, key),
        ).map_values(
            |key: Seq<char>| CollisionView { provider: named.0@, kind: ResourceKind::Relay, key },
        ),
{
    let all = snapshots.push(named);
    let before = merged_snapshot(snapshots);
    assert(all.drop_last() =~= snapshots);
    assert forall|key: Seq<char>| #[trigger] before.instances.dom().contains(key) == provided(
        snapshots,
        ResourceKind::Instance,
        key,
    ) by {
        lemma_provided(snapshots, key);
    }
    assert forall|key: Seq<char>| #[trigger] before.upstreams.dom().contains(key) == provided(
        snapshots,
        ResourceKind::Upstream,
        key,
    ) by {
        lemma_provided(snapshots, key);
    }
    assert forall|key: Seq<char>| #[trigger] before.relays.dom().contains(key) == provided(
        snapshots,
        ResourceKind::Relay,
        key,
    ) by {
        lemma_provided(snapshots, key);
    }
    assert((|key: Seq<char>| before.instances.dom().contains(key)) =~= (|key: Seq<char>|
        provided(snapshots, ResourceKind::Instance, key)));
    assert((|key: Seq<char>| before.upstreams.dom().contains(key)) =~= (|key: Seq<char>|
        provided(snapshots, ResourceKind::Upstream, key)));
    assert((|key: Seq<char>| before.relays.dom().contains(key)) =~= (|key: Seq<char>|
        provided(snapshots, ResourceKind::Relay, key)));
}

/// A merged map has a key exactly when some snapshot provides it.
proof fn lemma_provided(snapshots: Seq<(&str, &ProviderSnapshot)>, key: Seq<char>)
    ensures
        merged_snapshot(snapshots).instances.contains_key(key) == provided(
            snapshots,
            ResourceKind::Instance,
            key,
        ),
        merged_snapshot(snapshots).upstreams.contains_key(key) == provided(
            snapshots,
            ResourceKind::Upstream,
            key,
        ),
        merged_snapshot(snapshots).relays.contains_key(key) == provided(
            snapshots,
            ResourceKind::Relay,
            key,
        ),
{
    let instances = instance_maps(snapshots);
    let upstreams = upstream_maps(snapshots);
    let relays = relay_maps(snapshots);
    first_snapshots_win_kind_by_kind(snapshots, key, 0);
    merging_invents_nothing(instances, key);
    merging_invents_nothing(upstreams, key);
    merging_invents_nothing(relays, key);
    if provided(snapshots, ResourceKind::Instance, key) {
        let i = choose|i: int|
            0 <= i < snapshots.len() && provides(
                *(#[trigger] snapshots[i]).1,
                ResourceKind::Instance,
                key,
            );
        assert(instances[i].contains_key(key));
    }
    if provided(snapshots, ResourceKind::Upstream, key) {
        let i = choose|i: int|
            0 <= i < snapshots.len() && provides(
                *(#[trigger] snapshots[i]).1,
                ResourceKind::Upstream,
                key,
            );
        assert(upstreams[i].contains_key(key));
    }
    if provided(snapshots, ResourceKind::Relay, key) {
        let i = choose|i: int|
            0 <= i < snapshots.len() && provides(
                *(#[trigger] snapshots[i]).1,
                ResourceKind::Relay,
                key,
            );
        assert(relays[i].contains_key(key));
    }
}

/// Only what is dropped is reported: a collision is of a kind and key that the snapshot of its
/// provider has, and an earlier snapshot too.
pub proof fn reported_resources_were_dropped(
    snapshots: Seq<(&str, &ProviderSnapshot)>,
    i: int,
)
    requires
        0 <= i < collisions(snapshots).len(),
    ensures
        exists|earlier: int, later: int|
            0 <= earlier < later < snapshots.len() && collisions(snapshots)[i].provider
                == (#[trigger] snapshots[later]).0@ && provides(
                *snapshots[later].1,
                collisions(snapshots)[i].kind,
                collisions(snapshots)[i].key,
            ) && provides(
                *(#[trigger] snapshots[earlier]).1,
                collisions(snapshots)[i].kind,
                collisions(snapshots)[i].key,
            ),
    decreases snapshots.len(),
{
    let rest = snapshots.drop_last();
    let later = snapshots.len() - 1;
    let collision = collisions(snapshots)[i];
    if i < collisions(rest).len() {
        reported_resources_were_dropped(rest, i);
        let (a, b) = choose|earlier: int, later: int|
            0 <= earlier < later < rest.len() && collisions(rest)[i].provider
                == (#[trigger] rest[later]).0@ && provides(
                *rest[later].1,
                collisions(rest)[i].kind,
                collisions(rest)[i].key,
            ) && provides(
                *(#[trigger] rest[earlier]).1,
                collisions(rest)[i].kind,
                collisions(rest)[i].key,
            );
        assert(collision == collisions(rest)[i]);
        assert(snapshots[a] == rest[a] && snapshots[b] == rest[b]);
    } else {
        let name = snapshots.last().0@;
        let next = snapshots.last().1;
        let before = merged_snapshot(rest);
        let first = clashes(
            name,
            ResourceKind::Instance,
            next.instances.keys(),
            before.instances.dom(),
        );
        let second = clashes(
            name,
            ResourceKind::Upstream,
            next.upstreams.keys(),
            before.upstreams.dom(),
        );
        let third = clashes(name, ResourceKind::Relay, next.relays.keys(), before.relays.dom());
        let start = i - collisions(rest).len();
        map_keys(next.instances);
        map_keys(next.upstreams);
        map_keys(next.relays);
        first_snapshots_win_kind_by_kind(rest, collision.key, 0);
        let earlier = if start < first.len() {
            lemma_clashes_are_taken(
                name,
                ResourceKind::Instance,
                next.instances.keys(),
                before.instances.dom(),
                start,
            );
            assert(collision == first[start]);
            choose|j: int|
                0 <= j < rest.len() && (#[trigger] rest[j]).1.instances@.contains_key(collision.key)
        } else if start < first.len() + second.len() {
            lemma_clashes_are_taken(
                name,
                ResourceKind::Upstream,
                next.upstreams.keys(),
                before.upstreams.dom(),
                start - first.len(),
            );
            assert(collision == second[start - first.len()]);
            choose|j: int|
                0 <= j < rest.len() && (#[trigger] rest[j]).1.upstreams@.contains_key(collision.key)
        } else {
            lemma_clashes_are_taken(
                name,
                ResourceKind::Relay,
                next.relays.keys(),
                before.relays.dom(),
                start - first.len() - second.len(),
            );
            assert(collision == third[start - first.len() - second.len()]);
            choose|j: int|
                0 <= j < rest.len() && (#[trigger] rest[j]).1.relays@.contains_key(collision.key)
        };
        assert(snapshots[earlier] == rest[earlier]);
        assert(snapshots[later].0@ == name);
    }
}

/// A snapshot has a resource of a kind and key exactly when the map of that kind has the key; a new
/// snapshot has none; a collision is what its fields hold.
pub proof fn registry_views_are_fields(snapshot: ProviderSnapshot, key: Seq<char>, collision: Collision)
    ensures
        provides(snapshot, ResourceKind::Instance, key) <==> snapshot.instances@.contains_key(key),
        provides(snapshot, ResourceKind::Upstream, key) <==> snapshot.upstreams@.contains_key(key),
        provides(snapshot, ResourceKind::Relay, key) <==> snapshot.relays@.contains_key(key),
        !empty_snapshot().instances.contains_key(key),
        !empty_snapshot().upstreams.contains_key(key),
        !empty_snapshot().relays.contains_key(key),
        collision@.provider == collision.provider@,
        collision@.kind == collision.kind,
        collision@.key == collision.key@,
{
}

/// What is read of a list of collisions is what each of them holds, in order.
pub proof fn collision_lists_are_read_one_by_one(list: Seq<Collision>)
    ensures
        collision_views(list).len() == list.len(),
        forall|i: int| 0 <= i < list.len() ==> (#[trigger] collision_views(list)[i]) == list[i]@,
{
}

} // verus!
