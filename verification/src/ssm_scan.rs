//! The scan over pages of SSM parameters.
//!
//! A scan takes one page after the other and says which one it needs next. A parameter that does
//! not describe an instance is left out and reported; it takes no other parameter with it.

use crate::error::ConfigError;
use crate::instance::{instance_problem, InstanceView};
use crate::instance_laws::{
    instance_in_order, instances_are_what_documents_state, states_instance,
};
use crate::key::{one_segment, valid_key};
use crate::provider_ssm::{document_of, instance_of, parse_instance, RawInstance};
use crate::registry::{ProviderSnapshot, SnapshotView};
use crate::text::{optional_text, prefix_off_is_prefix_on, strip_prefix, without_prefix};
use std::sync::Arc;
use vstd::prelude::*;

verus! {

/// A parameter as the store keeps it.
#[derive(Clone, Debug)]
pub struct Parameter {
    pub name: String,
    pub value: String,
}

/// One page of parameters, and the token of the next page if there is one.
#[derive(Clone, Debug)]
pub struct ParameterPage {
    pub parameters: Vec<Parameter>,
    pub next_token: Option<String>,
}

impl Default for ParameterPage {
    fn default() -> (page: ParameterPage)
        ensures
            page.parameters@.len() == 0,
            page.next_token is None,
    {
        ParameterPage { parameters: Vec::new(), next_token: None }
    }
}

/// A parameter whose document has been read.
pub struct ReadParameter {
    pub name: String,
    pub document: Result<RawInstance, ConfigError>,
}

/// The mathematical content of a [`ReadParameter`].
pub struct ReadParameterView {
    pub name: Seq<char>,
    pub document: Result<RawInstance, Seq<Seq<char>>>,
}

impl View for ReadParameter {
    type V = ReadParameterView;

    open spec fn view(&self) -> ReadParameterView {
        ReadParameterView { name: self.name@, document: document_of(self.document) }
    }
}

/// The contents of a list of parameters.
pub open spec fn read_parameters(parameters: Seq<ReadParameter>) -> Seq<ReadParameterView> {
    parameters.map_values(|parameter: ReadParameter| parameter@)
}

/// The part of a parameter's name below the prefix.
pub open spec fn name_below(prefix: Seq<char>, name: Seq<char>) -> Option<Seq<char>> {
    match without_prefix(name, prefix) {
        Some(rest) => if rest.len() > 0 {
            Some(rest)
        } else {
            None
        },
        None => None,
    }
}

/// Why a parameter is left out of the snapshot.
#[derive(Debug)]
pub enum SkipReason {
    OutsidePrefix,
    Malformed(ConfigError),
}

/// The mathematical content of a [`SkipReason`].
pub enum SkipReasonView {
    OutsidePrefix,
    Malformed(Seq<Seq<char>>),
}

impl View for SkipReason {
    type V = SkipReasonView;

    open spec fn view(&self) -> SkipReasonView {
        match *self {
            SkipReason::OutsidePrefix => SkipReasonView::OutsidePrefix,
            SkipReason::Malformed(error) => SkipReasonView::Malformed(error@),
        }
    }
}

/// A parameter that was left out, by its full name.
#[derive(Debug)]
pub struct Skipped {
    pub parameter: String,
    pub reason: SkipReason,
}

/// The mathematical content of a [`Skipped`].
pub struct SkippedView {
    pub parameter: Seq<char>,
    pub reason: SkipReasonView,
}

impl View for Skipped {
    type V = SkippedView;

    open spec fn view(&self) -> SkippedView {
        SkippedView { parameter: self.parameter@, reason: self.reason@ }
    }
}

/// The instance of a parameter, or why it has none.
pub open spec fn parameter_instance(prefix: Seq<char>, parameter: ReadParameterView) -> Result<
    InstanceView,
    SkipReasonView,
> {
    match name_below(prefix, parameter.name) {
        None => Err(SkipReasonView::OutsidePrefix),
        Some(name) => match instance_of(name, parameter.document) {
            Ok(instance) => Ok(instance),
            Err(error) => Err(SkipReasonView::Malformed(error)),
        },
    }
}

/// The instances of a list of parameters. Of several with one key, the last counts.
pub open spec fn scanned(prefix: Seq<char>, parameters: Seq<ReadParameterView>) -> Map<
    Seq<char>,
    InstanceView,
>
    decreases parameters.len(),
{
    if parameters.len() == 0 {
        Map::empty()
    } else {
        let instances = scanned(prefix, parameters.drop_last());
        match parameter_instance(prefix, parameters.last()) {
            Ok(instance) => instances.insert(instance.key, instance),
            Err(_) => instances,
        }
    }
}

/// The parameters of a list that have no instance, in order.
pub open spec fn left_out(prefix: Seq<char>, parameters: Seq<ReadParameterView>) -> Seq<SkippedView>
    decreases parameters.len(),
{
    if parameters.len() == 0 {
        Seq::empty()
    } else {
        let skipped = left_out(prefix, parameters.drop_last());
        match parameter_instance(prefix, parameters.last()) {
            Ok(_) => skipped,
            Err(reason) => skipped.push(
                SkippedView { parameter: parameters.last().name, reason },
            ),
        }
    }
}

/// A scan in progress.
pub struct SsmScan {
    prefix: String,
    snapshot: ProviderSnapshot,
    skipped: Vec<Skipped>,
    seen: Ghost<Seq<ReadParameterView>>,
}

spec fn skips(list: Seq<Skipped>) -> Seq<SkippedView> {
    list.map_values(|skipped: Skipped| skipped@)
}

/// The snapshot that holds the given instances and nothing else.
pub open spec fn instances_only(instances: Map<Seq<char>, InstanceView>) -> SnapshotView {
    SnapshotView { instances, upstreams: Map::empty(), relays: Map::empty() }
}

impl SsmScan {
    #[verifier::type_invariant]
    closed spec fn well_formed(self) -> bool {
        &&& self.snapshot@ == instances_only(scanned(self.prefix@, self.seen@))
        &&& skips(self.skipped@) == left_out(self.prefix@, self.seen@)
    }

    /// The path below which parameters are instances.
    pub closed spec fn prefix_text(self) -> Seq<char> {
        self.prefix@
    }

    /// The parameters of the pages taken so far, in order.
    pub closed spec fn parameters(self) -> Seq<ReadParameterView> {
        self.seen@
    }

    /// A scan before its first page.
    pub fn new(prefix: &str) -> (scan: SsmScan)
        ensures
            scan.prefix_text() == prefix@,
            scan.parameters() == Seq::<ReadParameterView>::empty(),
    {
        let skipped: Vec<Skipped> = Vec::new();
        assert(skips(skipped@) =~= Seq::<SkippedView>::empty());
        SsmScan {
            prefix: prefix.to_owned(),
            snapshot: ProviderSnapshot::new(),
            skipped,
            seen: Ghost(Seq::empty()),
        }
    }

    fn take_parameter(self, parameter: ReadParameter) -> (scan: SsmScan)
        ensures
            scan.prefix_text() == self.prefix_text(),
            scan.parameters() == self.parameters().push(parameter@),
    {
        proof {
            use_type_invariant(&self);
        }
        let ghost seen = self.seen@.push(parameter@);
        assert(seen.drop_last() =~= self.seen@);
        let prefix: String = self.prefix;
        let mut snapshot: ProviderSnapshot = self.snapshot;
        let mut skipped: Vec<Skipped> = self.skipped;
        let ghost before = skipped@;
        let ghost found = parameter@;
        let name: Option<String> = match strip_prefix(parameter.name.as_str(), prefix.as_str()) {
            Some(rest) => if rest.is_empty() {
                None
            } else {
                Some(rest.to_owned())
            },
            None => None,
        };
        match name {
            None => {
                skipped.push(
                    Skipped { parameter: parameter.name, reason: SkipReason::OutsidePrefix },
                );
                assert(skips(skipped@) =~= skips(before).push(
                    SkippedView { parameter: found.name, reason: SkipReasonView::OutsidePrefix },
                ));
            },
            Some(name) => match parse_instance(name.as_str(), parameter.document) {
                Ok(instance) => {
                    snapshot.instances.insert(instance.key.clone(), Arc::new(instance));
                },
                Err(error) => {
                    skipped.push(
                        Skipped { parameter: parameter.name, reason: SkipReason::Malformed(error) },
                    );
                    assert(skips(skipped@) =~= skips(before).push(
                        SkippedView {
                            parameter: found.name,
                            reason: SkipReasonView::Malformed(error@),
                        },
                    ));
                },
            },
        }
        SsmScan { prefix, snapshot, skipped, seen: Ghost(seen) }
    }

    /// Takes the parameters of one page. The scan goes on with the page that `next_token` names;
    /// without one it is over.
    pub fn take_page(self, parameters: Vec<ReadParameter>, next_token: Option<String>) -> (step:
        ScanStep)
        ensures
            step.follows(
                self.prefix_text(),
                self.parameters() + read_parameters(parameters@),
                optional_text(next_token),
            ),
    {
        let ghost all = read_parameters(parameters@);
        let ghost prefix = self.prefix_text();
        let ghost earlier = self.parameters();
        let mut scan: SsmScan = self;
        assert(all.take(0) =~= Seq::<ReadParameterView>::empty());
        assert(earlier + all.take(0) =~= earlier);
        for parameter in it: parameters
            invariant
                it.seq() == parameters@,
                all == read_parameters(parameters@),
                scan.prefix_text() == prefix,
                scan.parameters() == earlier + all.take(it.index() as int),
        {
            proof {
                assert(all.take(it.index() + 1) =~= all.take(it.index() as int).push(parameter@));
                assert((earlier + all.take(it.index() as int)).push(parameter@) =~= earlier
                    + all.take(it.index() + 1));
            }
            scan = scan.take_parameter(parameter);
        }
        assert(all.take(all.len() as int) =~= all);
        match next_token {
            Some(token) => ScanStep::NextPage { token, rest: scan },
            None => {
                proof {
                    use_type_invariant(&scan);
                }
                ScanStep::Done { snapshot: scan.snapshot, skipped: scan.skipped }
            },
        }
    }
}

/// Where a scan stands after a page.
pub enum ScanStep {
    /// The page of `token` is needed.
    NextPage { token: String, rest: SsmScan },
    /// There are no more pages.
    Done { snapshot: ProviderSnapshot, skipped: Vec<Skipped> },
}

impl ScanStep {
    /// Whether this is where a scan stands after `parameters`, the last page of which came with
    /// `next_token`: at the next page, or done with the instances of all parameters.
    pub open spec fn follows(
        self,
        prefix: Seq<char>,
        parameters: Seq<ReadParameterView>,
        next_token: Option<Seq<char>>,
    ) -> bool {
        match self {
            ScanStep::NextPage { token, rest } => {
                &&& next_token == Some(token@)
                &&& rest.prefix_text() == prefix
                &&& rest.parameters() == parameters
            },
            ScanStep::Done { snapshot, skipped } => {
                &&& next_token is None
                &&& snapshot@ == instances_only(scanned(prefix, parameters))
                &&& skipped@.map_values(|skipped: Skipped| skipped@) == left_out(prefix, parameters)
            },
        }
    }
}

// ---------------------------------------------------------------------------------------------
// Laws
// ---------------------------------------------------------------------------------------------

/// A parameter without an instance changes nothing for the others: the snapshot is the same with
/// it and without it.
pub proof fn malformed_parameters_fail_alone(
    prefix: Seq<char>,
    before: Seq<ReadParameterView>,
    malformed: ReadParameterView,
    after: Seq<ReadParameterView>,
)
    requires
        parameter_instance(prefix, malformed) is Err,
    ensures
        scanned(prefix, before + seq![malformed] + after) == scanned(prefix, before + after),
    decreases after.len(),
{
    let with = before + seq![malformed] + after;
    let without = before + after;
    if after.len() == 0 {
        assert(with.drop_last() =~= before);
        assert(without =~= before);
    } else {
        malformed_parameters_fail_alone(prefix, before, malformed, after.drop_last());
        assert(with.drop_last() =~= before + seq![malformed] + after.drop_last());
        assert(without.drop_last() =~= before + after.drop_last());
        assert(with.last() == after.last());
        assert(without.last() == after.last());
    }
}

/// Every parameter is accounted for: it is reported as left out, or the snapshot has an instance
/// under its key.
pub proof fn no_parameter_is_lost(
    prefix: Seq<char>,
    parameters: Seq<ReadParameterView>,
    i: int,
)
    requires
        0 <= i < parameters.len(),
    ensures
        match parameter_instance(prefix, parameters[i]) {
            Ok(instance) => scanned(prefix, parameters).contains_key(instance.key),
            Err(reason) => left_out(prefix, parameters).contains(
                SkippedView { parameter: parameters[i].name, reason },
            ),
        },
    decreases parameters.len(),
{
    let earlier = parameters.drop_last();
    let skipped = left_out(prefix, earlier);
    if i < earlier.len() {
        no_parameter_is_lost(prefix, earlier, i);
        assert(earlier[i] == parameters[i]);
        if let Err(reason) = parameter_instance(prefix, parameters[i]) {
            let entry = SkippedView { parameter: parameters[i].name, reason };
            let k = choose|k: int| 0 <= k < skipped.len() && skipped[k] == entry;
            assert(left_out(prefix, parameters)[k] == entry);
        }
    } else if let Err(reason) = parameter_instance(prefix, parameters[i]) {
        let all = left_out(prefix, parameters);
        assert(all[all.len() - 1] == SkippedView { parameter: parameters[i].name, reason });
    }
}

/// Every instance of a snapshot stands under its own key, which is one path segment and the name
/// of a parameter below the prefix, and passes validation.
pub proof fn scanned_instances_are_valid(
    prefix: Seq<char>,
    parameters: Seq<ReadParameterView>,
    key: Seq<char>,
)
    requires
        scanned(prefix, parameters).contains_key(key),
    ensures
        scanned(prefix, parameters)[key].key == key,
        valid_key(key),
        !key.contains('/'),
        instance_problem(scanned(prefix, parameters)[key]) is None,
        exists|i: int| 0 <= i < parameters.len() && (#[trigger] parameters[i]).name == prefix + key,
    decreases parameters.len(),
{
    let earlier = parameters.drop_last();
    let last = parameters.len() - 1;
    match parameter_instance(prefix, parameters.last()) {
        Ok(instance) if instance.key == key => {
            assert(parameters[last].name =~= prefix + key);
        },
        _ => {
            scanned_instances_are_valid(prefix, earlier, key);
            let i = choose|i: int|
                0 <= i < earlier.len() && (#[trigger] earlier[i]).name == prefix + key;
            assert(parameters[i].name == prefix + key);
        },
    }
}

/// The name of a parameter below the prefix is what stands behind the prefix, and is not empty.
pub proof fn names_below_follow_the_prefix(prefix: Seq<char>, name: Seq<char>, rest: Seq<char>)
    ensures
        name_below(prefix, name) == Some(rest) <==> rest.len() > 0 && name == prefix + rest,
        name_below(prefix, name) is None <==> !(name.len() > prefix.len() && name.take(
            prefix.len() as int,
        ) == prefix),
{
    prefix_off_is_prefix_on(name, prefix, rest);
    prefix_off_is_prefix_on(name, prefix, name.skip(prefix.len() as int));
}

/// A parameter has the instance of its document under the name behind the prefix. One without such a
/// name is outside the prefix; one whose document has no instance is malformed, for the reason that
/// is given.
pub proof fn parameters_have_the_instances_of_their_documents(
    prefix: Seq<char>,
    name: Seq<char>,
    document: Result<RawInstance, Seq<Seq<char>>>,
    other: Seq<char>,
)
    requires
        name.len() > 0,
    ensures
        instance_of(name, document) matches Ok(instance) ==> parameter_instance(
            prefix,
            ReadParameterView { name: prefix + name, document },
        ) == Ok::<InstanceView, SkipReasonView>(instance),
        instance_of(name, document) matches Err(error) ==> parameter_instance(
            prefix,
            ReadParameterView { name: prefix + name, document },
        ) == Err::<InstanceView, SkipReasonView>(SkipReasonView::Malformed(error)),
        !(other.len() > prefix.len() && other.take(prefix.len() as int) == prefix)
            ==> parameter_instance(prefix, ReadParameterView { name: other, document }) == Err::<
            InstanceView,
            SkipReasonView,
        >(SkipReasonView::OutsidePrefix),
{
    names_below_follow_the_prefix(prefix, prefix + name, name);
    names_below_follow_the_prefix(prefix, other, name);
}

/// The last parameter with an instance of a key decides: the snapshot has its instance, in every
/// field.
pub proof fn last_parameter_of_a_key_decides(
    prefix: Seq<char>,
    parameters: Seq<ReadParameterView>,
    i: int,
    instance: InstanceView,
)
    requires
        0 <= i < parameters.len(),
        parameter_instance(prefix, parameters[i]) == Ok::<InstanceView, SkipReasonView>(instance),
        forall|j: int|
            i < j < parameters.len() ==> (parameter_instance(
                prefix,
                #[trigger] parameters[j],
            ) matches Ok(later) ==> later.key != instance.key),
    ensures
        scanned(prefix, parameters).contains_key(instance.key),
        scanned(prefix, parameters)[instance.key].key == instance.key,
        scanned(prefix, parameters)[instance.key].upstream == instance.upstream,
        scanned(prefix, parameters)[instance.key].client_auth == instance.client_auth,
        scanned(prefix, parameters)[instance.key].allowed_redirect_origins
            == instance.allowed_redirect_origins,
        scanned(prefix, parameters)[instance.key].default_redirect_uri
            == instance.default_redirect_uri,
    decreases parameters.len(),
{
    let earlier = parameters.drop_last();
    let last = parameters.len() - 1;
    if i < last {
        assert forall|j: int| i < j < earlier.len() implies (parameter_instance(
            prefix,
            #[trigger] earlier[j],
        ) matches Ok(later) ==> later.key != instance.key) by {
            assert(earlier[j] == parameters[j]);
        }
        last_parameter_of_a_key_decides(prefix, earlier, i, instance);
        assert(parameter_instance(prefix, parameters[last]) matches Ok(later) ==> later.key
            != instance.key);
    }
}

/// Whether a parameter has an instance, the document of which states it under the name behind the
/// prefix.
pub open spec fn parameter_states(
    prefix: Seq<char>,
    parameter: ReadParameterView,
    instance: InstanceView,
) -> bool {
    &&& parameter.name == prefix + instance.key
    &&& one_segment(instance.key)
    &&& parameter.document matches Ok(raw) && raw.client_secret_file is None && states_instance(
        raw,
        instance,
    )
    &&& instance_in_order(instance)
}

/// A parameter has an instance exactly when its document states it in good order.
pub proof fn parameters_state_their_instances(
    prefix: Seq<char>,
    parameter: ReadParameterView,
    instance: InstanceView,
)
    ensures
        parameter_instance(prefix, parameter) == Ok::<InstanceView, SkipReasonView>(instance)
            <==> parameter_states(prefix, parameter, instance),
{
    names_below_follow_the_prefix(prefix, parameter.name, instance.key);
    if let Some(name) = name_below(prefix, parameter.name) {
        names_below_follow_the_prefix(prefix, parameter.name, name);
        if let Ok(raw) = parameter.document {
            instances_are_what_documents_state(name, raw, instance);
        }
    }
}

/// The snapshot of a scan holds what the documents of its parameters state: an instance stands under
/// a key exactly when some parameter states it and no later one states an instance of that key.
pub proof fn snapshots_state_what_parameters_state(
    prefix: Seq<char>,
    parameters: Seq<ReadParameterView>,
    instance: InstanceView,
)
    ensures
        scanned(prefix, parameters).contains_key(instance.key) && scanned(
            prefix,
            parameters,
        )[instance.key] == instance <==> exists|i: int|
            0 <= i < parameters.len() && parameter_states(prefix, #[trigger] parameters[i], instance)
                && forall|j: int, later: InstanceView|
                i < j < parameters.len() && #[trigger] parameter_states(
                    prefix,
                    parameters[j],
                    later,
                ) ==> later.key != instance.key,
{
    let all = scanned(prefix, parameters);
    if all.contains_key(instance.key) && all[instance.key] == instance {
        let i = lemma_last_of_key(prefix, parameters, instance.key);
        parameters_state_their_instances(prefix, parameters[i], instance);
        assert forall|j: int, later: InstanceView|
            i < j < parameters.len() && #[trigger] parameter_states(
                prefix,
                parameters[j],
                later,
            ) implies later.key != instance.key by {
            parameters_state_their_instances(prefix, parameters[j], later);
        }
        assert(parameter_states(prefix, parameters[i], instance));
    }
    if exists|i: int|
        0 <= i < parameters.len() && parameter_states(prefix, #[trigger] parameters[i], instance)
            && forall|j: int, later: InstanceView|
            i < j < parameters.len() && #[trigger] parameter_states(prefix, parameters[j], later)
                ==> later.key != instance.key {
        let i = choose|i: int|
            0 <= i < parameters.len() && parameter_states(prefix, #[trigger] parameters[i], instance)
                && forall|j: int, later: InstanceView|
                i < j < parameters.len() && #[trigger] parameter_states(
                    prefix,
                    parameters[j],
                    later,
                ) ==> later.key != instance.key;
        parameters_state_their_instances(prefix, parameters[i], instance);
        assert forall|j: int| i < j < parameters.len() implies (parameter_instance(
            prefix,
            #[trigger] parameters[j],
        ) matches Ok(later) ==> later.key != instance.key) by {
            if let Ok(later) = parameter_instance(prefix, parameters[j]) {
                parameters_state_their_instances(prefix, parameters[j], later);
            }
        }
        last_parameter_of_a_key_decides(prefix, parameters, i, instance);
    }
}

/// The last parameter with an instance of a key that a snapshot has.
proof fn lemma_last_of_key(
    prefix: Seq<char>,
    parameters: Seq<ReadParameterView>,
    key: Seq<char>,
) -> (i: int)
    requires
        scanned(prefix, parameters).contains_key(key),
    ensures
        0 <= i < parameters.len(),
        parameter_instance(prefix, parameters[i]) == Ok::<InstanceView, SkipReasonView>(
            scanned(prefix, parameters)[key],
        ),
        scanned(prefix, parameters)[key].key == key,
        forall|j: int|
            i < j < parameters.len() ==> (parameter_instance(
                prefix,
                #[trigger] parameters[j],
            ) matches Ok(later) ==> later.key != key),
    decreases parameters.len(),
{
    let earlier = parameters.drop_last();
    let last = parameters.len() - 1;
    match parameter_instance(prefix, parameters.last()) {
        Ok(instance) if instance.key == key => last,
        _ => {
            let i = lemma_last_of_key(prefix, earlier, key);
            assert(parameters[i] == earlier[i]);
            assert forall|j: int| i < j < parameters.len() implies (parameter_instance(
                prefix,
                #[trigger] parameters[j],
            ) matches Ok(later) ==> later.key != key) by {
                if j < last {
                    assert(earlier[j] == parameters[j]);
                }
            }
            i
        },
    }
}

/// What is left out of two lists, one after the other, is what is left out of the first and then of
/// the second; of a single parameter it is the parameter, with the reason why it has no instance.
pub proof fn left_out_parameters_are_reported_in_order(
    prefix: Seq<char>,
    first: Seq<ReadParameterView>,
    second: Seq<ReadParameterView>,
    parameter: ReadParameterView,
)
    ensures
        left_out(prefix, first + second) == left_out(prefix, first) + left_out(prefix, second),
        left_out(prefix, seq![parameter]) == (match parameter_instance(prefix, parameter) {
            Ok(_) => Seq::<SkippedView>::empty(),
            Err(reason) => seq![SkippedView { parameter: parameter.name, reason }],
        }),
    decreases second.len(),
{
    assert(seq![parameter].drop_last() =~= Seq::<ReadParameterView>::empty());
    assert(left_out(prefix, seq![parameter].drop_last()) =~= Seq::<SkippedView>::empty());
    if second.len() == 0 {
        assert(first + second =~= first);
        assert(left_out(prefix, second) =~= Seq::<SkippedView>::empty());
        assert(left_out(prefix, first) + left_out(prefix, second) =~= left_out(prefix, first));
    } else {
        left_out_parameters_are_reported_in_order(prefix, first, second.drop_last(), parameter);
        assert((first + second).drop_last() =~= first + second.drop_last());
        assert((first + second).last() == second.last());
        assert(left_out(prefix, first + second) =~= left_out(prefix, first) + left_out(
            prefix,
            second,
        ));
    }
}

/// A scan that is done has no next page, and its snapshot holds instances alone: those of all
/// parameters. A scan that is not done waits for the page that was named.
pub proof fn scans_end_with_the_last_page(
    step: ScanStep,
    prefix: Seq<char>,
    parameters: Seq<ReadParameterView>,
    next_token: Option<Seq<char>>,
    key: Seq<char>,
)
    requires
        step.follows(prefix, parameters, next_token),
    ensures
        step is Done <==> next_token is None,
        step matches ScanStep::NextPage { token, rest } ==> next_token == Some(token@)
            && rest.prefix_text() == prefix && rest.parameters() == parameters,
        step matches ScanStep::Done { snapshot, skipped } ==> {
            &&& snapshot@.instances == scanned(prefix, parameters)
            &&& !snapshot@.upstreams.contains_key(key)
            &&& !snapshot@.relays.contains_key(key)
            &&& skipped@.len() == left_out(prefix, parameters).len()
            &&& forall|i: int|
                0 <= i < skipped@.len() ==> (#[trigger] skipped@[i])@ == left_out(
                    prefix,
                    parameters,
                )[i]
        },
{
    if let ScanStep::Done { snapshot, skipped } = step {
        let views = skipped@.map_values(|skipped: Skipped| skipped@);
        assert forall|i: int| 0 <= i < skipped@.len() implies (#[trigger] skipped@[i])@ == left_out(
            prefix,
            parameters,
        )[i] by {
            assert(views[i] == skipped@[i]@);
        }
    }
}

/// What a scan reads of parameters, and says of those left out, is what their fields hold.
pub proof fn scan_views_are_fields(
    parameter: ReadParameter,
    raw: RawInstance,
    error: ConfigError,
    skipped: Skipped,
    list: Seq<ReadParameter>,
)
    ensures
        parameter@.name == parameter.name@,
        parameter.document == Ok::<RawInstance, ConfigError>(raw) ==> parameter@.document == Ok::<
            RawInstance,
            Seq<Seq<char>>,
        >(raw),
        parameter.document == Err::<RawInstance, ConfigError>(error) ==> parameter@.document == Err::<
            RawInstance,
            Seq<Seq<char>>,
        >(error@),
        skipped@.parameter == skipped.parameter@,
        skipped.reason is OutsidePrefix ==> skipped@.reason is OutsidePrefix,
        skipped.reason == SkipReason::Malformed(error) ==> skipped@.reason
            == SkipReasonView::Malformed(error@),
        read_parameters(list).len() == list.len(),
        forall|i: int| 0 <= i < list.len() ==> (#[trigger] read_parameters(list)[i]) == list[i]@,
{
}

} // verus!
