//! How a provider's loads become published snapshots, and when configuration is loaded again.
//!
//! [`Poller`] decides; whoever drives it loads, publishes and waits as it says.

use crate::compile::compiled;
use crate::duration::Duration;
use crate::error::ConfigError;
use crate::registry::{ProviderSnapshot, SnapshotView};
use vstd::prelude::*;

verus! {

/// What happens once nobody listens to a provider any more.
#[derive(Clone, Copy, Debug, Eq, PartialEq, Structural)]
pub enum WhenUnheard {
    /// The provider finishes.
    Finish,
    /// The provider fails if its first snapshot was the one unheard, and finishes otherwise.
    FailAtFirst,
}

/// What a provider does next.
pub enum Action {
    /// Hand the snapshot to the registry.
    Publish(ProviderSnapshot),
    /// Wait for the poll interval, then load again.
    Wait,
    /// Report the problem, then wait as well. The last good snapshot stays in place.
    Report(ConfigError),
    /// Stop without an error.
    Finish,
    /// Stop with this error.
    Fail(ConfigError),
}

/// The mathematical content of an [`Action`].
pub enum ActionView {
    Publish(SnapshotView),
    Wait,
    Report(Seq<Seq<char>>),
    Finish,
    Fail(Seq<Seq<char>>),
}

impl View for Action {
    type V = ActionView;

    open spec fn view(&self) -> ActionView {
        match *self {
            Action::Publish(snapshot) => ActionView::Publish(snapshot@),
            Action::Wait => ActionView::Wait,
            Action::Report(error) => ActionView::Report(error@),
            Action::Finish => ActionView::Finish,
            Action::Fail(error) => ActionView::Fail(error@),
        }
    }
}

/// What follows a load; `running` tells whether a snapshot has been published before.
pub open spec fn after_load(running: bool, load: Result<SnapshotView, Seq<Seq<char>>>) -> ActionView {
    match load {
        Ok(snapshot) => ActionView::Publish(snapshot),
        Err(error) => if running {
            ActionView::Report(error)
        } else {
            ActionView::Fail(error)
        },
    }
}

/// What follows the publication of a snapshot.
pub open spec fn after_publication(
    unheard: WhenUnheard,
    running: bool,
    delivered: bool,
) -> ActionView {
    if delivered {
        ActionView::Wait
    } else if unheard == WhenUnheard::FailAtFirst && !running {
        ActionView::Fail(seq!["registry receiver closed"@])
    } else {
        ActionView::Finish
    }
}

/// The state of a provider between loads.
#[derive(Debug)]
pub struct Poller {
    unheard: WhenUnheard,
    running: bool,
}

impl Poller {
    /// Whether a snapshot has been published.
    pub closed spec fn is_running(self) -> bool {
        self.running
    }

    pub closed spec fn when_unheard(self) -> WhenUnheard {
        self.unheard
    }

    /// A provider before its first load.
    pub fn new(unheard: WhenUnheard) -> (poller: Poller)
        ensures
            poller.when_unheard() == unheard,
            !poller.is_running(),
    {
        Poller { unheard, running: false }
    }

    /// What to do with the result of a load. Only the first load of a provider can stop it.
    pub fn loaded(&self, load: Result<ProviderSnapshot, ConfigError>) -> (action: Action)
        ensures
            action@ == after_load(self.is_running(), compiled(load)),
            match load {
                Ok(snapshot) => action matches Action::Publish(published) && published@ == snapshot@,
                Err(error) => if self.is_running() {
                    action matches Action::Report(reported) && reported@ == error@
                } else {
                    action matches Action::Fail(last) && last@ == error@
                },
            },
    {
        match load {
            Ok(snapshot) => Action::Publish(snapshot),
            Err(error) => {
                if self.running {
                    Action::Report(error)
                } else {
                    Action::Fail(error)
                }
            },
        }
    }

    /// What to do after a snapshot was handed out; `delivered` tells whether anyone listens.
    pub fn published(&mut self, delivered: bool) -> (action: Action)
        ensures
            action@ == after_publication(
                old(self).when_unheard(),
                old(self).is_running(),
                delivered,
            ),
            final(self).is_running() == (old(self).is_running() || delivered),
            final(self).when_unheard() == old(self).when_unheard(),
            delivered ==> action is Wait,
            !delivered && (old(self).is_running() || old(self).when_unheard() is Finish) ==> action
                is Finish,
            !delivered && !old(self).is_running() && old(self).when_unheard() is FailAtFirst ==> (
            action matches Action::Fail(error) && error@ == seq!["registry receiver closed"@]),
    {
        if delivered {
            self.running = true;
            return Action::Wait;
        }
        match self.unheard {
            WhenUnheard::Finish => Action::Finish,
            WhenUnheard::FailAtFirst => {
                if self.running {
                    Action::Finish
                } else {
                    Action::Fail(ConfigError::msg("registry receiver closed".to_owned()))
                }
            },
        }
    }
}

// ---------------------------------------------------------------------------------------------
// Histories
// ---------------------------------------------------------------------------------------------

/// What the registry has of a provider.
pub enum Standing {
    /// Nothing yet.
    Starting,
    /// This snapshot.
    Serving(SnapshotView),
    /// Nothing: the provider stopped with an error.
    Failed(Seq<Seq<char>>),
}

/// What the registry has of a provider after `loads`, all of whose snapshots were delivered.
pub open spec fn standing(loads: Seq<Result<SnapshotView, Seq<Seq<char>>>>) -> Standing
    decreases loads.len(),
{
    if loads.len() == 0 {
        Standing::Starting
    } else {
        let before = standing(loads.drop_last());
        match before {
            Standing::Failed(_) => before,
            _ => match after_load(before is Serving, loads.last()) {
                ActionView::Publish(snapshot) => Standing::Serving(snapshot),
                ActionView::Fail(error) => Standing::Failed(error),
                _ => before,
            },
        }
    }
}

/// The last good snapshot stays in place: once a first load has succeeded, the registry has the
/// snapshot of the latest load that did.
pub proof fn last_good_snapshot_is_served(
    loads: Seq<Result<SnapshotView, Seq<Seq<char>>>>,
    i: int,
    snapshot: SnapshotView,
)
    requires
        0 <= i < loads.len(),
        loads[0] is Ok,
        loads[i] == Ok::<SnapshotView, Seq<Seq<char>>>(snapshot),
        forall|j: int| i < j < loads.len() ==> (#[trigger] loads[j]) is Err,
    ensures
        standing(loads) == Standing::Serving(snapshot),
    decreases loads.len(),
{
    let before = loads.drop_last();
    if i < loads.len() - 1 {
        assert(loads[loads.len() - 1] is Err);
        assert forall|j: int| i < j < before.len() implies (#[trigger] before[j]) is Err by {
            assert(loads[j] is Err);
        }
        last_good_snapshot_is_served(before, i, snapshot);
    } else if before.len() > 0 {
        lemma_serving(before);
    }
}

proof fn lemma_serving(loads: Seq<Result<SnapshotView, Seq<Seq<char>>>>)
    requires
        loads.len() > 0,
        loads[0] is Ok,
    ensures
        standing(loads) is Serving,
    decreases loads.len(),
{
    if loads.len() > 1 {
        lemma_serving(loads.drop_last());
    } else {
        assert(standing(loads.drop_last()) == Standing::Starting);
    }
}

/// A provider whose first load fails never serves anything.
pub proof fn failed_start_is_final(
    loads: Seq<Result<SnapshotView, Seq<Seq<char>>>>,
    error: Seq<Seq<char>>,
)
    requires
        loads.len() > 0,
        loads[0] == Err::<SnapshotView, Seq<Seq<char>>>(error),
    ensures
        standing(loads) == Standing::Failed(error),
    decreases loads.len(),
{
    if loads.len() > 1 {
        failed_start_is_final(loads.drop_last(), error);
    } else {
        assert(standing(loads.drop_last()) == Standing::Starting);
    }
}

// ---------------------------------------------------------------------------------------------
// Reloading on demand
// ---------------------------------------------------------------------------------------------

/// Whether configuration last loaded at `last_attempt` has to be loaded again at `now`: it has
/// once its age reaches `ttl`. Both are readings of one clock.
pub fn refresh_due(last_attempt: Duration, now: Duration, ttl: Duration) -> (due: bool)
    ensures
        due == (now@ >= last_attempt@ + ttl@),
{
    now.as_nanos() >= last_attempt.as_nanos() + ttl.as_nanos()
}

/// A provider's snapshot after a reload: the new one or, with the problem to report, the old one.
pub fn refreshed(
    current: ProviderSnapshot,
    reload: Result<ProviderSnapshot, ConfigError>,
) -> (outcome: (ProviderSnapshot, Option<ConfigError>))
    ensures
        match compiled(reload) {
            Ok(snapshot) => outcome.0@ == snapshot && outcome.1 is None,
            Err(problem) => outcome.0@ == current@ && (outcome.1 matches Some(error) && error@
                == problem),
        },
        reload matches Ok(snapshot) ==> outcome.0@ == snapshot@ && outcome.1 is None,
        reload matches Err(problem) ==> outcome.0@ == current@ && (outcome.1 matches Some(error)
            && error@ == problem@),
{
    match reload {
        Ok(snapshot) => (snapshot, None),
        Err(error) => (current, Some(error)),
    }
}

// ---------------------------------------------------------------------------------------------
// Decisions
// ---------------------------------------------------------------------------------------------

/// A load that succeeds is published. One that fails is reported once a snapshot has been published,
/// and stops the provider before that; either way the messages are those of the failure.
pub proof fn loads_are_published_reported_or_final(
    running: bool,
    snapshot: SnapshotView,
    error: Seq<Seq<char>>,
)
    ensures
        after_load(running, Ok(snapshot)) == ActionView::Publish(snapshot),
        after_load(true, Err(error)) == ActionView::Report(error),
        after_load(false, Err(error)) == ActionView::Fail(error),
{
}

/// A provider that is heard waits. One that is not finishes, except that a provider which is to fail
/// at first does so if it has not been heard before.
pub proof fn unheard_providers_stop(unheard: WhenUnheard, running: bool)
    ensures
        after_publication(unheard, running, true) == ActionView::Wait,
        after_publication(WhenUnheard::Finish, running, false) == ActionView::Finish,
        after_publication(WhenUnheard::FailAtFirst, true, false) == ActionView::Finish,
        after_publication(WhenUnheard::FailAtFirst, false, false) == ActionView::Fail(
            seq!["registry receiver closed"@],
        ),
{
}

/// Before its first load a provider has nothing to serve.
pub proof fn providers_start_with_nothing(loads: Seq<Result<SnapshotView, Seq<Seq<char>>>>)
    ensures
        standing(loads) is Starting <==> loads.len() == 0,
{
    if loads.len() > 0 {
        if loads[0] is Ok {
            lemma_serving(loads);
        } else {
            failed_start_is_final(loads, loads[0]->Err_0);
        }
    }
}

/// What is read of an action is what it holds.
pub proof fn action_views_are_contents(snapshot: ProviderSnapshot, error: ConfigError)
    ensures
        Action::Publish(snapshot)@ == ActionView::Publish(snapshot@),
        Action::Wait@ == ActionView::Wait,
        Action::Report(error)@ == ActionView::Report(error@),
        Action::Finish@ == ActionView::Finish,
        Action::Fail(error)@ == ActionView::Fail(error@),
{
}

} // verus!
