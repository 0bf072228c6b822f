//! What holds of a supervisor over many exits.

use crate::actor::ActorId;
use crate::events::{event_handled, reported_exit, SupervisionEvent};
use crate::restart::Restart;
use crate::restart_laws::{
    law_temporary_children_stay_dead, played, same_but_for_temporary, spares_temporary,
    RestartWorld,
};
use crate::supervision::RestartPolicy;
use crate::supervisor::{
    exit_handled, first_living_as, in_window, lives_as, stale, ChildEntry, ExitDecision, StateView,
};
use vstd::prelude::*;

verus! {

/// Whether no time in the sequence is earlier than one before it.
pub open spec fn nondecreasing(times: Seq<nat>) -> bool {
    forall|i: int, j: int| 0 <= i <= j < times.len() ==> times[i] <= times[j]
}

impl<F> StateView<F> {
    /// The state once restarts at all of these times went on record, one after the other.
    pub open spec fn recorded_all(self, times: Seq<nat>) -> StateView<F>
        decreases times.len(),
    {
        if times.len() == 0 {
            self
        } else {
            self.recorded_all(times.drop_last()).recorded(times.last())
        }
    }
}

/// The window of a nondecreasing sequence is a suffix of it: what is left out is stale, and what
/// is left is not.
pub(crate) proof fn lemma_window_is_suffix(times: Seq<nat>, now: nat, period: nat) -> (cut: int)
    requires
        nondecreasing(times),
    ensures
        0 <= cut <= times.len(),
        in_window(times, now, period) == times.skip(cut),
        forall|i: int| 0 <= i < cut ==> stale(#[trigger] times[i], now, period),
        forall|i: int| cut <= i < times.len() ==> !stale(#[trigger] times[i], now, period),
    decreases times.len(),
{
    if times.len() > 0 && stale(times.first(), now, period) {
        let rest = times.drop_first();
        let cut = lemma_window_is_suffix(rest, now, period);
        assert(rest.skip(cut) =~= times.skip(cut + 1));
        assert forall|i: int| 0 <= i < cut + 1 implies stale(#[trigger] times[i], now, period) by {
            if i > 0 {
                assert(times[i] == rest[i - 1]);
            }
        }
        assert forall|i: int| cut + 1 <= i < times.len() implies !stale(
            #[trigger] times[i],
            now,
            period,
        ) by {
            assert(times[i] == rest[i - 1]);
        }
        cut + 1
    } else {
        assert(times.skip(0) =~= times);
        0
    }
}

/// What is on record after restarts at nondecreasing times are the last of them, those that are
/// not stale at the time of the latest.
pub(crate) proof fn lemma_record_is_suffix<F>(state: StateView<F>, times: Seq<nat>) -> (cut: int)
    requires
        state.restarts.len() == 0,
        nondecreasing(times),
        times.len() > 0,
    ensures
        0 <= cut < times.len(),
        state.recorded_all(times) == (StateView { restarts: times.skip(cut), ..state }),
        forall|i: int|
            0 <= i < cut ==> stale(#[trigger] times[i], times.last(), state.intensity.period@),
        forall|i: int|
            cut <= i < times.len() ==> !stale(
                #[trigger] times[i],
                times.last(),
                state.intensity.period@,
            ),
    decreases times.len(),
{
    let period = state.intensity.period@;
    let now = times.last();
    let earlier = times.drop_last();
    let before = state.recorded_all(earlier);
    let start = if earlier.len() > 0 {
        lemma_record_is_suffix(state, earlier)
    } else {
        0
    };
    assert(before.restarts.push(now) =~= times.skip(start));
    assert(before == (StateView { restarts: before.restarts, ..state }));
    let rest = times.skip(start);
    let cut = lemma_window_is_suffix(rest, now, period);
    assert(rest.skip(cut) =~= times.skip(start + cut));
    assert forall|i: int| 0 <= i < start + cut implies stale(#[trigger] times[i], now, period) by {
        if i < start {
            assert(times[i] == earlier[i]);
            assert(stale(earlier[i], earlier.last(), period));
            assert(earlier.last() == times[times.len() - 2]);
        } else {
            assert(times[i] == rest[i - start]);
        }
    }
    assert forall|i: int| start + cut <= i < times.len() implies !stale(
        #[trigger] times[i],
        now,
        period,
    ) by {
        assert(times[i] == rest[i - start]);
    }
    assert(!stale(times[times.len() - 1], now, period));
    start + cut
}

/// The intensity limit is exact. Take a supervisor without restarts on record that restarts
/// children at nondecreasing times. The latest restart is one too many if and only if the
/// restart `max_restarts` before it lies no further back than `period`.
pub proof fn law_intensity_is_exact<F>(state: StateView<F>, times: Seq<nat>)
    requires
        state.restarts.len() == 0,
        nondecreasing(times),
        times.len() > 0,
    ensures
        state.recorded_all(times.drop_last()).exceeded_at(times.last()) <==> {
            &&& times.len() > state.intensity.max_restarts
            &&& times.last() - times[times.len() - 1 - state.intensity.max_restarts]
                <= state.intensity.period@
        },
{
    let cut = lemma_record_is_suffix(state, times);
    let at = times.len() - 1 - state.intensity.max_restarts;
    assert(state.recorded_all(times).restarts.len() == times.len() - cut);
    if times.len() > 1 {
        let _ = lemma_record_is_suffix(state, times.drop_last());
    }
    assert(state.recorded_all(times.drop_last()).intensity == state.intensity);
    if at >= 0 {
        assert(stale(times[at], times.last(), state.intensity.period@) <==> at < cut);
    }
}

/// As long as no restart is one too many, no more than `max_restarts` of them lie within any
/// `period`.
pub proof fn law_restarts_within_any_period<F>(state: StateView<F>, times: Seq<nat>, i: int, j: int)
    requires
        state.restarts.len() == 0,
        nondecreasing(times),
        forall|k: int|
            0 <= k < times.len() ==> !state.recorded_all(times.take(k)).exceeded_at(
                #[trigger] times[k],
            ),
        0 <= i <= j < times.len(),
        times[j] - times[i] <= state.intensity.period@,
    ensures
        j - i + 1 <= state.intensity.max_restarts,
{
    let head = times.take(j + 1);
    assert(head.drop_last() =~= times.take(j));
    assert(head.last() == times[j]);
    law_intensity_is_exact(state, head);
    let at = j - state.intensity.max_restarts;
    if at >= i {
        assert(head[at] == times[at]);
        assert(times[i] <= times[at]);
    }
}

/// A supervisor that allows no restarts stops at the first.
pub proof fn law_no_restarts_allowed<F>(state: StateView<F>, now: nat)
    requires
        state.restarts.len() == 0,
        state.intensity.max_restarts == 0,
    ensures
        state.exceeded_at(now),
{
    let times = seq![now];
    assert(times.drop_last() =~= Seq::empty());
    law_intensity_is_exact(state, times);
}

/// What each policy promises of a child whose exit is reported. A permanent child is never left
/// dead, a temporary one always is, and a transient one is if and only if it stopped cleanly,
/// for whatever reason or none.
pub proof fn law_policies<F>(
    before: StateView<F>,
    evt: SupervisionEvent,
    child_id: ActorId,
    normal_exit: bool,
    idx: int,
    now: nat,
    after: StateView<F>,
    decision: ExitDecision,
)
    requires
        event_handled(before, evt, now, after, decision),
        reported_exit(evt) == Some((child_id, normal_exit)),
        first_living_as(before.children, child_id, idx),
    ensures
        match before.children[idx].spec.restart_policy {
            RestartPolicy::Permanent => !(decision is LeaveDead),
            RestartPolicy::Transient => decision is LeaveDead <==> evt is ActorTerminated,
            RestartPolicy::Temporary => decision is LeaveDead,
        },
        decision is LeaveDead ==> after.children[idx].cell is None,
        !(decision is Ignore),
{
}

/// No restart that an exit leads to runs the starter of a temporary child, neither that of the
/// child that exited nor that of a sibling.
pub proof fn law_exits_start_no_temporary_child<F, E>(
    before: StateView<F>,
    child_id: ActorId,
    normal_exit: bool,
    now: nat,
    after: StateView<F>,
    restart: Restart,
    world: RestartWorld<E>,
    other: RestartWorld<E>,
)
    requires
        before.children.len() <= usize::MAX,
        exit_handled(
            before,
            child_id,
            normal_exit,
            now,
            after,
            ExitDecision::Restart(restart),
        ),
        same_but_for_temporary(before.children, world, other),
    ensures
        after.children == before.children,
        ({
            let play = played(restart, after.children, world);
            &&& forall|k: int|
                0 <= k < play.0.len() ==> spares_temporary(after.children, #[trigger] play.0[k])
            &&& play == played(restart, after.children, other)
        }),
{
    lemma_someone_or_no_one(before.children, child_id);
    let idx = choose|idx: int| #[trigger] first_living_as(before.children, child_id, idx);
    law_temporary_children_stay_dead(before.children, before.strategy, idx, world, other);
}

/// Handling an exit keeps the strategy, the intensity, the number of children, their specs and
/// their starters. At most one child changes, and that one is then dead.
pub proof fn law_exit_keeps_the_rest<F>(
    before: StateView<F>,
    child_id: ActorId,
    normal_exit: bool,
    now: nat,
    after: StateView<F>,
    decision: ExitDecision,
)
    requires
        exit_handled(before, child_id, normal_exit, now, after, decision),
    ensures
        after.strategy == before.strategy,
        after.intensity == before.intensity,
        after.children.len() == before.children.len(),
        forall|i: int|
            0 <= i < before.children.len() ==> (#[trigger] after.children[i]).spec
                == before.children[i].spec && after.children[i].starter
                == before.children[i].starter,
        forall|i: int|
            0 <= i < before.children.len() && !lives_as(before.children[i], child_id)
                ==> #[trigger] after.children[i] == before.children[i],
{
    lemma_someone_or_no_one(before.children, child_id);
}

/// Either a child is the first that is alive under the id, or no child is alive under it.
pub(crate) proof fn lemma_someone_or_no_one<F>(
    children: Seq<ChildEntry<F>>,
    child_id: ActorId,
)
    ensures
        (exists|idx: int| #[trigger] first_living_as(children, child_id, idx)) || (forall|
            i: int,
        |
            0 <= i < children.len() ==> !lives_as(#[trigger] children[i], child_id)),
{
    if exists|i: int| 0 <= i < children.len() && lives_as(
        #[trigger] children[i],
        child_id,
    ) {
        let at = choose|i: int|
            0 <= i < children.len() && lives_as(#[trigger] children[i], child_id);
        lemma_first_below(children, child_id, at);
    }
}

proof fn lemma_first_below<F>(children: Seq<ChildEntry<F>>, child_id: ActorId, at: int)
    requires
        0 <= at < children.len(),
        lives_as(children[at], child_id),
    ensures
        exists|idx: int| #[trigger] first_living_as(children, child_id, idx),
    decreases at,
{
    if exists|i: int| 0 <= i < at && lives_as(#[trigger] children[i], child_id) {
        let lower = choose|i: int| 0 <= i < at && lives_as(#[trigger] children[i], child_id);
        lemma_first_below(children, child_id, lower);
    } else {
        assert(first_living_as(children, child_id, at));
    }
}

} // verus!
