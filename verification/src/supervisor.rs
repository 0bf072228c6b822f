//! The supervisor: its configuration, its state, and what it does when a child exits.

use crate::actor::{ActorCell, ActorId};
use crate::readings::{read_once, Readings};
use crate::restart::{restart_all, restart_child, restart_plan, restart_rest, with_cell, Restart};
use crate::supervision::{ChildSpec, RestartPolicy};
use crate::time::{elapsed, Clock, Duration, Instant, NANOS_PER_SEC};
use std::collections::VecDeque;
use std::sync::Arc;
use vstd::prelude::*;

verus! {

/// How a supervisor restarts children after a failure.
#[derive(Debug, Clone, Copy, PartialEq, Eq, Structural)]
pub enum SupervisionStrategy {
    /// Restart only the failed child.
    OneForOne,
    /// Stop all children, then restart all but the temporary ones.
    OneForAll,
    /// Stop children started after the failed child, then restart them in order, but for the
    /// temporary ones.
    RestForOne,
}

impl Default for SupervisionStrategy {
    fn default() -> (strategy: Self)
        ensures
            strategy == SupervisionStrategy::OneForOne,
    {
        SupervisionStrategy::OneForOne
    }
}

/// Controls how many restarts are allowed before the supervisor itself terminates.
///
/// Matches OTP's `max_restarts` / `max_seconds` concept.
#[derive(Debug, Clone, Copy, PartialEq, Eq, Structural)]
pub struct RestartIntensity {
    /// Maximum number of restarts allowed within `period`.
    pub max_restarts: u32,
    /// Time window in which `max_restarts` is measured.
    pub period: Duration,
}

/// The intensity of a supervisor that was given none: OTP's, one restart in five seconds.
pub open spec fn default_intensity() -> RestartIntensity {
    RestartIntensity { max_restarts: 1, period: Duration { nanos: (5 * NANOS_PER_SEC) as u128 } }
}

impl Default for RestartIntensity {
    fn default() -> (intensity: Self)
        ensures
            intensity == default_intensity(),
    {
        RestartIntensity { max_restarts: 1, period: Duration::from_secs(5) }
    }
}

/// What spawns a child linked to the supervisor; shared between the supervisor's configuration
/// and its state. The library carries it and leaves running it to the caller.
pub type ChildStarter<F> = Arc<F>;

/// A registered child of the supervisor.
#[derive(Debug)]
pub struct ChildEntry<F> {
    /// How the child is to be stopped and restarted.
    pub spec: ChildSpec,
    /// What starts it.
    pub starter: ChildStarter<F>,
    /// The live cell of this child, `None` if it is not started or dead.
    pub cell: Option<ActorCell>,
}

/// The state of a running supervisor.
#[derive(Debug)]
pub struct SupervisorState<F> {
    /// The strategy it was given.
    pub strategy: SupervisionStrategy,
    /// The intensity it was given.
    pub intensity: RestartIntensity,
    /// Its children, in the order in which they were registered.
    pub children: Vec<ChildEntry<F>>,
    /// Rolling window of restart timestamps for intensity checking, oldest first.
    pub restart_timestamps: VecDeque<Instant>,
    /// What the timestamps are read from.
    pub clock: Clock,
    /// What the clock has shown so far.
    pub readings: Readings,
}

/// What a supervisor's state amounts to.
#[verifier::ext_equal]
pub struct StateView<F> {
    pub strategy: SupervisionStrategy,
    pub intensity: RestartIntensity,
    pub children: Seq<ChildEntry<F>>,
    pub restarts: Seq<nat>,
}

/// The points in time that the instants stand for.
pub open spec fn points(times: Seq<Instant>) -> Seq<nat> {
    times.map_values(|t: Instant| t@)
}

impl<F> View for SupervisorState<F> {
    type V = StateView<F>;

    open spec fn view(&self) -> StateView<F> {
        StateView {
            strategy: self.strategy,
            intensity: self.intensity,
            children: self.children@,
            restarts: points(self.restart_timestamps@),
        }
    }
}

/// Whether a child of the given policy is started again after an exit.
pub open spec fn restart_due(policy: RestartPolicy, normal_exit: bool) -> bool {
    match policy {
        RestartPolicy::Permanent => true,
        RestartPolicy::Transient => !normal_exit,
        RestartPolicy::Temporary => false,
    }
}

/// Determine whether a child should be restarted based on its [`RestartPolicy`]
/// and the nature of its exit.
pub fn should_restart(policy: RestartPolicy, normal_exit: bool) -> (restart: bool)
    ensures
        restart == restart_due(policy, normal_exit),
{
    match policy {
        RestartPolicy::Permanent => true,
        RestartPolicy::Transient => !normal_exit,
        RestartPolicy::Temporary => false,
    }
}

/// Whether a restart lies further back from `now` than `period`.
pub open spec fn stale(restart: nat, now: nat, period: nat) -> bool {
    elapsed(restart, now) > period
}

/// The restarts without those at the front that are stale, up to the first that is not.
pub open spec fn in_window(restarts: Seq<nat>, now: nat, period: nat) -> Seq<nat>
    decreases restarts.len(),
{
    if restarts.len() > 0 && stale(restarts.first(), now, period) {
        in_window(restarts.drop_first(), now, period)
    } else {
        restarts
    }
}

impl<F> StateView<F> {
    /// The state once a restart at `now` is on record.
    pub open spec fn recorded(self, now: nat) -> StateView<F> {
        StateView {
            restarts: in_window(self.restarts.push(now), now, self.intensity.period@),
            ..self
        }
    }

    /// Whether a restart at `now` is one too many.
    pub open spec fn exceeded_at(self, now: nat) -> bool {
        self.recorded(now).restarts.len() > self.intensity.max_restarts
    }
}

/// Check restart intensity for a restart at `now`, which goes on record. Returns `true` if the
/// supervisor should self-terminate.
pub fn check_intensity_at<F>(state: &mut SupervisorState<F>, now: Instant) -> (exceeded: bool)
    ensures
        final(state)@ == old(state)@.recorded(now@),
        exceeded == old(state)@.exceeded_at(now@),
        final(state).clock == old(state).clock,
        final(state).readings == old(state).readings,
{
    state.restart_timestamps.push_back(now);
    assert(points(state.restart_timestamps@) =~= old(state)@.restarts.push(now@));
    while state.restart_timestamps.len() > 0 && now.duration_since(
        state.restart_timestamps[0],
    ).nanos > state.intensity.period.nanos
        invariant
            state.strategy == old(state).strategy,
            state.intensity == old(state).intensity,
            state.children@ == old(state).children@,
            state.clock == old(state).clock,
            state.readings == old(state).readings,
            in_window(points(state.restart_timestamps@), now@, state.intensity.period@)
                == in_window(old(state)@.restarts.push(now@), now@, state.intensity.period@),
        decreases state.restart_timestamps@.len(),
    {
        let ghost before = points(state.restart_timestamps@);
        assert(before.first() == state.restart_timestamps@[0]@);
        state.restart_timestamps.pop_front();
        assert(points(state.restart_timestamps@) =~= before.drop_first());
    }
    assert(state.restart_timestamps@.len() > 0 ==> points(state.restart_timestamps@).first()
        == state.restart_timestamps@[0]@);
    state.restart_timestamps.len() > state.intensity.max_restarts as usize
}

/// Check restart intensity, now. Returns `true` if the supervisor should self-terminate.
///
/// The clock is read once, and the restart is on record as of what it shows.
pub fn check_intensity<F>(state: &mut SupervisorState<F>) -> (exceeded: bool)
    ensures
        final(state)@ == old(state)@.recorded(final(state).readings.time()),
        exceeded == old(state)@.exceeded_at(final(state).readings.time()),
        read_once(old(state).readings, old(state).clock, final(state).readings),
        old(state).readings.time() <= final(state).readings.time(),
        final(state).clock == old(state).clock,
{
    let now = state.readings.read(&state.clock);
    check_intensity_at(state, now)
}

/// What is to be done about an exit.
#[derive(Debug)]
pub enum ExitDecision {
    /// Nothing: it is of no concern to the supervisor.
    Ignore,
    /// Nothing: the child stays dead.
    LeaveDead,
    /// The supervisor stops itself, for the given reason.
    StopSupervisor { reason: String },
    /// The restart is to be carried out.
    Restart(Restart),
}

/// Whether the child is alive under the given id.
pub open spec fn lives_as<F>(entry: ChildEntry<F>, id: ActorId) -> bool {
    entry.cell matches Some(cell) && cell.id == id
}

/// Whether child `idx` is the first that is alive under the given id.
pub open spec fn first_living_as<F>(children: Seq<ChildEntry<F>>, id: ActorId, idx: int) -> bool {
    &&& 0 <= idx < children.len()
    &&& lives_as(children[idx], id)
    &&& forall|i: int| 0 <= i < idx ==> !lives_as(#[trigger] children[i], id)
}

/// What the exit of child `idx` at `now` leads to. It is marked dead if its policy is against a
/// restart. Otherwise a restart goes on record, and the supervisor stops if that is one too
/// many, or else restarts children by its strategy.
pub open spec fn exit_of<F>(
    before: StateView<F>,
    idx: int,
    normal_exit: bool,
    now: nat,
    after: StateView<F>,
    decision: ExitDecision,
) -> bool {
    if !restart_due(before.children[idx].spec.restart_policy, normal_exit) {
        &&& decision is LeaveDead
        &&& after == StateView { children: with_cell(before.children, idx, None), ..before }
    } else {
        &&& after == before.recorded(now)
        &&& if before.exceeded_at(now) {
            decision matches ExitDecision::StopSupervisor { reason } && reason@
                == "restart intensity exceeded"@
        } else {
            decision == ExitDecision::Restart(
                restart_plan(before.strategy, idx, before.children.len() as int),
            )
        }
    }
}

/// What the exit at `now` of the actor with the given id leads to: that of the first child that
/// is alive under this id, and nothing if there is no such child.
pub open spec fn exit_handled<F>(
    before: StateView<F>,
    child_id: ActorId,
    normal_exit: bool,
    now: nat,
    after: StateView<F>,
    decision: ExitDecision,
) -> bool {
    &&& (forall|i: int|
        0 <= i < before.children.len() ==> !lives_as(#[trigger] before.children[i], child_id))
        ==> decision is Ignore && after == before
    &&& forall|idx: int| #[trigger]
        first_living_as(before.children, child_id, idx) ==> exit_of(
            before,
            idx,
            normal_exit,
            now,
            after,
            decision,
        )
}

/// Handle a child exit at `now`. Dispatches to the appropriate strategy.
pub fn handle_child_exit_at<F>(
    state: &mut SupervisorState<F>,
    child_id: ActorId,
    normal_exit: bool,
    now: Instant,
) -> (decision: ExitDecision)
    ensures
        exit_handled(old(state)@, child_id, normal_exit, now@, final(state)@, decision),
        decision matches ExitDecision::Restart(restart) ==> restart.fits(final(state)@.children),
        final(state).clock == old(state).clock,
        final(state).readings == old(state).readings,
{
    match find_child(state, child_id) {
        Some(idx) => {
            let policy = state.children[idx].spec.restart_policy;
            if !should_restart(policy, normal_exit) {
                state.children[idx].cell = None;
                return ExitDecision::LeaveDead;
            }
            if check_intensity_at(state, now) {
                return ExitDecision::StopSupervisor {
                    reason: "restart intensity exceeded".to_string(),
                };
            }
            match state.strategy {
                SupervisionStrategy::OneForOne => ExitDecision::Restart(restart_child(state, idx)),
                SupervisionStrategy::OneForAll => ExitDecision::Restart(restart_all(state)),
                SupervisionStrategy::RestForOne => ExitDecision::Restart(restart_rest(state, idx)),
            }
        },
        None => ExitDecision::Ignore,
    }
}

/// Handle a child exit, now. Dispatches to the appropriate strategy.
///
/// The clock is read once, and the exit is handled as of what it shows.
pub fn handle_child_exit<F>(
    state: &mut SupervisorState<F>,
    child_id: ActorId,
    normal_exit: bool,
) -> (decision: ExitDecision)
    ensures
        exit_handled(
            old(state)@,
            child_id,
            normal_exit,
            final(state).readings.time(),
            final(state)@,
            decision,
        ),
        read_once(old(state).readings, old(state).clock, final(state).readings),
        old(state).readings.time() <= final(state).readings.time(),
        decision matches ExitDecision::Restart(restart) ==> restart.fits(final(state)@.children),
        final(state).clock == old(state).clock,
{
    let now = state.readings.read(&state.clock);
    handle_child_exit_at(state, child_id, normal_exit, now)
}

/// The index of the first child that is alive under the given id.
fn find_child<F>(state: &SupervisorState<F>, child_id: ActorId) -> (found: Option<usize>)
    ensures
        match found {
            Some(idx) => first_living_as(state@.children, child_id, idx as int),
            None => forall|i: int|
                0 <= i < state@.children.len() ==> !lives_as(
                    #[trigger] state@.children[i],
                    child_id,
                ),
        },
{
    let mut idx: usize = 0;
    while idx < state.children.len()
        invariant
            idx <= state.children.len(),
            forall|i: int| 0 <= i < idx ==> !lives_as(#[trigger] state.children@[i], child_id),
        decreases state.children.len() - idx,
    {
        if let Some(cell) = &state.children[idx].cell {
            if cell.get_id() == child_id {
                return Some(idx);
            }
        }
        idx = idx + 1;
    }
    None
}

} // verus!
