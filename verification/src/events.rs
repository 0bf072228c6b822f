//! What the supervisor hears of its children.

use crate::actor::{ActorCell, ActorId};
use crate::builder::Supervisor;
use crate::readings::read_once;
use crate::supervisor::{
    exit_handled, handle_child_exit_at, ExitDecision, StateView, SupervisorState,
};
use crate::time::Instant;
use vstd::prelude::*;

verus! {

/// What happened to an actor, as far as its supervisor is concerned.
#[derive(Debug)]
pub enum SupervisionEvent {
    /// An actor was started.
    ActorStarted(ActorCell),
    /// An actor stopped, for a reason if one was given.
    ActorTerminated(ActorCell, Option<String>),
    /// An actor crashed or returned an error.
    ActorFailed(ActorCell),
    /// A process group changed.
    ProcessGroupChanged,
    /// A process in the cluster was spawned or ended.
    PidLifecycleEvent,
}

/// The exit that an event reports, if any: whose it is, and whether it is normal. A stop is
/// clean, and so a normal exit, whether or not a reason was given for it; a failure is not.
pub open spec fn reported_exit(evt: SupervisionEvent) -> Option<(ActorId, bool)> {
    match evt {
        SupervisionEvent::ActorTerminated(cell, reason) => Some((cell.id, true)),
        SupervisionEvent::ActorFailed(cell) => Some((cell.id, false)),
        _ => None,
    }
}

/// What an event at `now` leads to: an exit is handled, and anything else changes nothing.
pub open spec fn event_handled<F>(
    before: StateView<F>,
    evt: SupervisionEvent,
    now: nat,
    after: StateView<F>,
    decision: ExitDecision,
) -> bool {
    match reported_exit(evt) {
        Some((child_id, normal_exit)) => exit_handled(
            before,
            child_id,
            normal_exit,
            now,
            after,
            decision,
        ),
        None => decision is Ignore && after == before,
    }
}

/// What an event leads to that is handled as it comes in: the supervisor's clock is read once,
/// and what it shows, which is no earlier than what it showed before, is the time of the event.
pub open spec fn event_heard<F>(
    before: SupervisorState<F>,
    evt: SupervisionEvent,
    after: SupervisorState<F>,
    decision: ExitDecision,
) -> bool {
    &&& read_once(before.readings, before.clock, after.readings)
    &&& before.readings.time() <= after.readings.time()
    &&& event_handled(before@, evt, after.readings.time(), after@, decision)
    &&& after.clock == before.clock
}

impl<F> Supervisor<F> {
    /// Handle an event that came in at `now`.
    pub fn handle_supervisor_evt_at(
        &self,
        evt: SupervisionEvent,
        state: &mut SupervisorState<F>,
        now: Instant,
    ) -> (decision: ExitDecision)
        ensures
            event_handled(old(state)@, evt, now@, final(state)@, decision),
            decision matches ExitDecision::Restart(restart) ==> restart.fits(
                final(state)@.children,
            ),
            final(state).clock == old(state).clock,
            final(state).readings == old(state).readings,
    {
        match evt {
            SupervisionEvent::ActorTerminated(cell, _exit_reason) => handle_child_exit_at(
                state,
                cell.get_id(),
                true,
                now,
            ),
            SupervisionEvent::ActorFailed(cell) => handle_child_exit_at(
                state,
                cell.get_id(),
                false,
                now,
            ),
            SupervisionEvent::ActorStarted(_)
            | SupervisionEvent::ProcessGroupChanged
            | SupervisionEvent::PidLifecycleEvent => ExitDecision::Ignore,
        }
    }

    /// Handle an event, now: as of what the clock shows when it is read, once, for this event.
    pub fn handle_supervisor_evt(
        &self,
        evt: SupervisionEvent,
        state: &mut SupervisorState<F>,
    ) -> (decision: ExitDecision)
        ensures
            event_heard(*old(state), evt, *final(state), decision),
            decision matches ExitDecision::Restart(restart) ==> restart.fits(
                final(state)@.children,
            ),
            final(state).clock == old(state).clock,
    {
        let now = state.readings.read(&state.clock);
        self.handle_supervisor_evt_at(evt, state, now)
    }
}

} // verus!
