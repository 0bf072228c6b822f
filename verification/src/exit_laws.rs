//! What a supervisor does about a single event.

use crate::actor::ActorId;
use crate::events::{event_handled, SupervisionEvent};
use crate::restart_laws::{
    law_one_for_all, law_one_for_one, law_rest_for_one, played, restarted, start_commands,
    stop_commands, RestartWorld,
};
use crate::supervision::RestartPolicy;
use crate::supervisor::{
    first_living_as, in_window, lives_as, stale, ChildEntry, ExitDecision, StateView,
    SupervisionStrategy,
};
use crate::supervisor_laws::{lemma_someone_or_no_one, lemma_window_is_suffix, nondecreasing};
use vstd::prelude::*;

verus! {

/// The actor whose exit the event reports, if it reports one.
pub open spec fn who_exited(evt: SupervisionEvent) -> Option<ActorId> {
    match evt {
        SupervisionEvent::ActorTerminated(cell, reason) => Some(cell.id),
        SupervisionEvent::ActorFailed(cell) => Some(cell.id),
        SupervisionEvent::ActorStarted(cell) => None,
        SupervisionEvent::ProcessGroupChanged => None,
        SupervisionEvent::PidLifecycleEvent => None,
    }
}

/// Whether the event reports the exit of the actor that the child is, as long as it is alive.
pub open spec fn is_exit_of<F>(entry: ChildEntry<F>, evt: SupervisionEvent) -> bool {
    entry.cell matches Some(cell) && who_exited(evt) == Some(cell.id)
}

/// Whether the event reports the exit of child `idx`: it is the first whose live cell has the id
/// of the actor that exited.
pub open spec fn child_exited<F>(
    children: Seq<ChildEntry<F>>,
    evt: SupervisionEvent,
    idx: int,
) -> bool {
    &&& 0 <= idx < children.len()
    &&& is_exit_of(children[idx], evt)
    &&& forall|i: int| 0 <= i < idx ==> !is_exit_of(#[trigger] children[i], evt)
}

/// Whether the event asks for a restart: it reports the exit of a child that is permanent, or the
/// failure of one that is transient.
pub open spec fn asks_for_restart<F>(children: Seq<ChildEntry<F>>, evt: SupervisionEvent) -> bool {
    exists|idx: int|
        #[trigger] child_exited(children, evt, idx) && match children[idx].spec.restart_policy {
            RestartPolicy::Permanent => true,
            RestartPolicy::Transient => evt is ActorFailed,
            RestartPolicy::Temporary => false,
        }
}

/// How many of the times lie no further back from `now` than `period`.
pub open spec fn how_many_within(times: Seq<nat>, now: nat, period: nat) -> nat
    decreases times.len(),
{
    if times.len() == 0 {
        0
    } else {
        how_many_within(times.drop_last(), now, period) + if now - times.last() <= period {
            1nat
        } else {
            0
        }
    }
}

/// Of times of which exactly those from `cut` on lie within the period, so many do.
pub(crate) proof fn lemma_suffix_within(times: Seq<nat>, cut: int, now: nat, period: nat)
    requires
        0 <= cut <= times.len(),
        forall|i: int| 0 <= i < cut ==> now - #[trigger] times[i] > period,
        forall|i: int| cut <= i < times.len() ==> now - #[trigger] times[i] <= period,
    ensures
        how_many_within(times, now, period) == times.len() - cut,
    decreases times.len(),
{
    if times.len() > 0 {
        let earlier = times.drop_last();
        if cut == times.len() {
            assert(now - times[times.len() - 1] > period);
            lemma_suffix_within(earlier, cut - 1, now, period);
        } else {
            assert(now - times[times.len() - 1] <= period);
            lemma_suffix_within(earlier, cut, now, period);
        }
    }
}

/// The window of a nondecreasing record that ends now holds what lies within the period.
proof fn lemma_window_len(times: Seq<nat>, now: nat, period: nat)
    requires
        nondecreasing(times.push(now)),
    ensures
        in_window(times.push(now), now, period).len() == how_many_within(
            times.push(now),
            now,
            period,
        ),
{
    let all = times.push(now);
    let cut = lemma_window_is_suffix(all, now, period);
    assert forall|i: int| 0 <= i < all.len() implies (stale(all[i], now, period) <==> now
        - #[trigger] all[i] > period) by {
        assert(all[i] <= all[all.len() - 1]);
    }
    lemma_suffix_within(all, cut, now, period);
}

/// A child that exited is the first that is alive under the id, and no other is.
pub(crate) proof fn lemma_child_exited<F>(
    children: Seq<ChildEntry<F>>,
    evt: SupervisionEvent,
    idx: int,
)
    requires
        child_exited(children, evt, idx),
    ensures
        first_living_as(children, who_exited(evt)->0, idx),
        forall|i: int| #[trigger] child_exited(children, evt, i) ==> i == idx,
        forall|i: int| #[trigger] first_living_as(children, who_exited(evt)->0, i) ==> i == idx,
{
    assert forall|i: int| 0 <= i < idx implies !lives_as(
        #[trigger] children[i],
        who_exited(evt)->0,
    ) by {
        assert(!is_exit_of(children[i], evt));
    }
    assert forall|i: int| #[trigger] child_exited(children, evt, i) implies i == idx by {
        assert(i < idx ==> !is_exit_of(children[i], evt));
    }
}

/// Events that report no exit are of no consequence: nothing is decided, and strategy, intensity,
/// children and the restarts on record stay as they are.
pub proof fn law_other_events_change_nothing<F>(
    before: StateView<F>,
    evt: SupervisionEvent,
    now: nat,
    after: StateView<F>,
    decision: ExitDecision,
)
    requires
        event_handled(before, evt, now, after, decision),
        evt is ActorStarted || evt is ProcessGroupChanged || evt is PidLifecycleEvent,
    ensures
        decision is Ignore,
        after.strategy == before.strategy,
        after.intensity == before.intensity,
        after.children == before.children,
        after.restarts == before.restarts,
{
}

/// The exit of an actor that is no live child is of no consequence either.
pub proof fn law_strangers_change_nothing<F>(
    before: StateView<F>,
    evt: SupervisionEvent,
    now: nat,
    after: StateView<F>,
    decision: ExitDecision,
)
    requires
        event_handled(before, evt, now, after, decision),
        forall|i: int|
            0 <= i < before.children.len() ==> !is_exit_of(#[trigger] before.children[i], evt),
    ensures
        decision is Ignore,
        after.strategy == before.strategy,
        after.intensity == before.intensity,
        after.children == before.children,
        after.restarts == before.restarts,
{
    if who_exited(evt) is Some {
        assert forall|i: int| 0 <= i < before.children.len() implies !lives_as(
            #[trigger] before.children[i],
            who_exited(evt)->0,
        ) by {
            assert(!is_exit_of(before.children[i], evt));
        }
    }
}

/// A child that exits without asking for a restart is marked dead, and that is all: no other
/// child is touched and no restart goes on record.
pub proof fn law_left_dead<F>(
    before: StateView<F>,
    evt: SupervisionEvent,
    idx: int,
    now: nat,
    after: StateView<F>,
    decision: ExitDecision,
)
    requires
        event_handled(before, evt, now, after, decision),
        child_exited(before.children, evt, idx),
        !asks_for_restart(before.children, evt),
    ensures
        decision is LeaveDead,
        after.strategy == before.strategy,
        after.intensity == before.intensity,
        after.restarts == before.restarts,
        after.children.len() == before.children.len(),
        after.children[idx].cell is None,
        after.children[idx].spec == before.children[idx].spec,
        after.children[idx].starter == before.children[idx].starter,
        forall|i: int|
            0 <= i < before.children.len() && i != idx ==> #[trigger] after.children[i]
                == before.children[i],
{
    lemma_child_exited(before.children, evt, idx);
}

/// What an exit that asks for a restart leads to, whether or not it was a clean stop.
///
/// If more restarts than allowed lie within the period, this one among them, the supervisor stops
/// itself, whatever its strategy. Otherwise the restart that is decided on, once carried out,
/// gives these commands: under `OneForOne` the child that exited is started; under `OneForAll`
/// all live children are stopped in reverse order and then all but the temporary ones are started
/// in order; under `RestForOne` the same is done to the child that exited and those after it.
/// No child changes before that.
pub proof fn law_exit_by_strategy<F, E>(
    before: StateView<F>,
    evt: SupervisionEvent,
    idx: int,
    now: nat,
    after: StateView<F>,
    decision: ExitDecision,
    world: RestartWorld<E>,
)
    requires
        before.children.len() <= usize::MAX,
        event_handled(before, evt, now, after, decision),
        child_exited(before.children, evt, idx),
        asks_for_restart(before.children, evt),
        nondecreasing(before.restarts.push(now)),
    ensures
        after.strategy == before.strategy,
        after.intensity == before.intensity,
        after.children == before.children,
        ({
            let children = before.children;
            let len = children.len() as int;
            let restarts = how_many_within(
                before.restarts.push(now),
                now,
                before.intensity.period@,
            );
            if restarts > before.intensity.max_restarts {
                decision matches ExitDecision::StopSupervisor { reason } && reason@
                    == "restart intensity exceeded"@
            } else {
                &&& decision matches ExitDecision::Restart(restart)
                &&& match before.strategy {
                    SupervisionStrategy::OneForOne => played(restart, children, world) == (
                        start_commands(children, idx, idx + 1, world),
                        restarted(children, idx, idx + 1, world),
                    ),
                    SupervisionStrategy::OneForAll => played(restart, children, world) == (
                        stop_commands(children, 0, len, world) + start_commands(
                            children,
                            0,
                            len,
                            world,
                        ),
                        restarted(children, 0, len, world),
                    ),
                    SupervisionStrategy::RestForOne => played(restart, children, world) == (
                        stop_commands(children, idx, len, world) + start_commands(
                            children,
                            idx,
                            len,
                            world,
                        ),
                        restarted(children, idx, len, world),
                    ),
                }
            }
        }),
{
    lemma_child_exited(before.children, evt, idx);
    lemma_window_len(before.restarts, now, before.intensity.period@);
    if before.children[idx].spec.restart_policy !is Temporary {
        law_one_for_one(before.children, idx, world);
    }
    law_one_for_all(before.children, idx, world);
    law_rest_for_one(before.children, idx, world);
}

/// Every event either reports no exit, or that of a stranger, or that of one of the children.
pub(crate) proof fn lemma_some_child_or_none<F>(children: Seq<ChildEntry<F>>, evt: SupervisionEvent)
    ensures
        (exists|idx: int| #[trigger] child_exited(children, evt, idx)) || (forall|i: int|
            0 <= i < children.len() ==> !is_exit_of(#[trigger] children[i], evt)),
{
    if who_exited(evt) is Some {
        let id = who_exited(evt)->0;
        lemma_someone_or_no_one(children, id);
        if exists|idx: int| #[trigger] first_living_as(children, id, idx) {
            let idx = choose|idx: int| #[trigger] first_living_as(children, id, idx);
            assert forall|i: int| 0 <= i < idx implies !is_exit_of(#[trigger] children[i], evt) by {
                assert(!lives_as(children[i], id));
            }
            assert(child_exited(children, evt, idx));
        } else {
            assert forall|i: int| 0 <= i < children.len() implies !is_exit_of(
                #[trigger] children[i],
                evt,
            ) by {
                assert(!lives_as(children[i], id));
            }
        }
    }
}

/// Of these times all before `cut` lie further back than the period, and that at `cut` does not.
pub open spec fn first_within(times: Seq<nat>, now: nat, period: nat, cut: int) -> bool {
    &&& 0 <= cut < times.len()
    &&& now - times[cut] <= period
    &&& forall|i: int| 0 <= i < cut ==> now - #[trigger] times[i] > period
}

proof fn lemma_window_from(times: Seq<nat>, now: nat, period: nat, cut: int)
    requires
        first_within(times, now, period, cut),
    ensures
        in_window(times, now, period) == times.skip(cut),
    decreases cut,
{
    if cut > 0 {
        let rest = times.drop_first();
        assert(now - times[0] > period);
        assert forall|i: int| 0 <= i < cut - 1 implies now - #[trigger] rest[i] > period by {
            assert(rest[i] == times[i + 1]);
        }
        lemma_window_from(rest, now, period, cut - 1);
        assert(rest.skip(cut - 1) =~= times.skip(cut));
    } else {
        assert(times.skip(0) =~= times);
    }
}

/// What an exit that asks for a restart leads to at any time at all, be it earlier than the
/// restarts on record. A restart goes on record as of now, and those at the front that lie further
/// back than the period leave it. The supervisor stops itself if and only if more are left than
/// are allowed, and otherwise children are restarted by its strategy.
pub proof fn law_exit_at_any_time<F, E>(
    before: StateView<F>,
    evt: SupervisionEvent,
    idx: int,
    now: nat,
    after: StateView<F>,
    decision: ExitDecision,
    cut: int,
    world: RestartWorld<E>,
)
    requires
        before.children.len() <= usize::MAX,
        event_handled(before, evt, now, after, decision),
        child_exited(before.children, evt, idx),
        asks_for_restart(before.children, evt),
        first_within(before.restarts.push(now), now, before.intensity.period@, cut),
    ensures
        after.strategy == before.strategy,
        after.intensity == before.intensity,
        after.children == before.children,
        after.restarts == before.restarts.push(now).skip(cut),
        after.restarts.len() > before.intensity.max_restarts <==> decision is StopSupervisor,
        decision matches ExitDecision::StopSupervisor { reason } ==> reason@
            == "restart intensity exceeded"@,
        after.restarts.len() <= before.intensity.max_restarts ==> {
            let children = before.children;
            let len = children.len() as int;
            let from = match before.strategy {
                SupervisionStrategy::OneForAll => 0,
                _ => idx,
            };
            &&& decision matches ExitDecision::Restart(restart)
            &&& played(restart, children, world) == if before.strategy is OneForOne {
                (
                    start_commands(children, idx, idx + 1, world),
                    restarted(children, idx, idx + 1, world),
                )
            } else {
                (
                    stop_commands(children, from, len, world) + start_commands(
                        children,
                        from,
                        len,
                        world,
                    ),
                    restarted(children, from, len, world),
                )
            }
        },
{
    lemma_child_exited(before.children, evt, idx);
    lemma_window_from(before.restarts.push(now), now, before.intensity.period@, cut);
    if before.children[idx].spec.restart_policy !is Temporary {
        law_one_for_one(before.children, idx, world);
    }
    law_one_for_all(before.children, idx, world);
    law_rest_for_one(before.children, idx, world);
}

} // verus!
