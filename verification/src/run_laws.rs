//! What a supervisor does about many events, one after the other.

use crate::events::{event_handled, event_heard, SupervisionEvent};
use crate::exit_laws::{
    asks_for_restart, child_exited, how_many_within, law_exit_by_strategy, law_left_dead,
    law_other_events_change_nothing, law_strangers_change_nothing, lemma_child_exited,
    lemma_some_child_or_none, lemma_suffix_within, who_exited,
};
use crate::restart_laws::{played, restarted, start_commands, stop_commands, RestartWorld};
use crate::supervisor::{stale, ExitDecision, StateView, SupervisionStrategy, SupervisorState};
use crate::supervisor_laws::{lemma_record_is_suffix, nondecreasing};
use vstd::prelude::*;

verus! {

/// An event that was handled: when, in which state, and what came of it.
pub struct Handled<F> {
    pub before: StateView<F>,
    pub evt: SupervisionEvent,
    pub now: nat,
    pub after: StateView<F>,
    pub decision: ExitDecision,
}

impl<F> Handled<F> {
    /// Whether the event asked for a restart.
    pub open spec fn asks(self) -> bool {
        asks_for_restart(self.before.children, self.evt)
    }
}

/// Whether two states differ at most in who the children are at the moment, as they do before and
/// after a restart.
pub open spec fn same_but_for_cells<F>(a: StateView<F>, b: StateView<F>) -> bool {
    &&& a.strategy == b.strategy
    &&& a.intensity == b.intensity
    &&& a.restarts == b.restarts
    &&& a.children.len() == b.children.len()
    &&& forall|i: int|
        0 <= i < a.children.len() ==> (#[trigger] a.children[i]).spec == b.children[i].spec
            && a.children[i].starter == b.children[i].starter
}

/// The state that these events leave.
pub open spec fn left_by<F>(start: StateView<F>, run: Seq<Handled<F>>) -> StateView<F> {
    if run.len() == 0 {
        start
    } else {
        run.last().after
    }
}

/// Whether these events were handled one after the other, beginning in the state `start`, at
/// times that never run backwards. Between two of them a restart may be carried out.
pub open spec fn is_run<F>(start: StateView<F>, run: Seq<Handled<F>>) -> bool
    decreases run.len(),
{
    run.len() > 0 ==> {
        let earlier = run.drop_last();
        let last = run.last();
        &&& is_run(start, earlier)
        &&& earlier.len() > 0 ==> earlier.last().now <= last.now
        &&& same_but_for_cells(left_by(start, earlier), last.before)
        &&& event_handled(last.before, last.evt, last.now, last.after, last.decision)
    }
}

/// How many of the events asked for a restart and lie no further back from `now` than `period`.
pub open spec fn asked_within<F>(run: Seq<Handled<F>>, now: nat, period: nat) -> nat
    decreases run.len(),
{
    if run.len() == 0 {
        0
    } else {
        asked_within(run.drop_last(), now, period) + if run.last().asks() && now - run.last().now
            <= period {
            1nat
        } else {
            0
        }
    }
}

/// The times of the events that asked for a restart.
spec fn asked_at<F>(run: Seq<Handled<F>>) -> Seq<nat>
    decreases run.len(),
{
    if run.len() == 0 {
        Seq::empty()
    } else if run.last().asks() {
        asked_at(run.drop_last()).push(run.last().now)
    } else {
        asked_at(run.drop_last())
    }
}

proof fn lemma_asked_within<F>(run: Seq<Handled<F>>, now: nat, period: nat)
    ensures
        asked_within(run, now, period) == how_many_within(asked_at(run), now, period),
    decreases run.len(),
{
    if run.len() > 0 {
        let earlier = run.drop_last();
        lemma_asked_within(earlier, now, period);
        if run.last().asks() {
            assert(asked_at(run).drop_last() =~= asked_at(earlier));
        }
    }
}

/// What an event that asks for a restart does to the state: a restart goes on record. Any other
/// puts nothing on record.
proof fn lemma_record<F>(handled: Handled<F>)
    requires
        event_handled(
            handled.before,
            handled.evt,
            handled.now,
            handled.after,
            handled.decision,
        ),
    ensures
        handled.after.strategy == handled.before.strategy,
        handled.after.intensity == handled.before.intensity,
        handled.asks() ==> {
            &&& handled.after == handled.before.recorded(handled.now)
            &&& handled.decision is StopSupervisor <==> handled.before.exceeded_at(handled.now)
            &&& handled.decision is StopSupervisor || handled.decision is Restart
        },
        !handled.asks() ==> {
            &&& handled.after.restarts == handled.before.restarts
            &&& handled.decision is Ignore || handled.decision is LeaveDead
        },
        handled.after.children.len() == handled.before.children.len(),
        forall|i: int|
            0 <= i < handled.before.children.len() ==> (#[trigger] handled.after.children[i]).spec
                == handled.before.children[i].spec && handled.after.children[i].starter
                == handled.before.children[i].starter,
{
    let Handled { before, evt, now, after, decision } = handled;
    lemma_some_child_or_none(before.children, evt);
    if exists|idx: int| #[trigger] child_exited(before.children, evt, idx) {
        let idx = choose|idx: int| #[trigger] child_exited(before.children, evt, idx);
        lemma_child_exited(before.children, evt, idx);
        if !handled.asks() {
            law_left_dead(before, evt, idx, now, after, decision);
        }
    } else {
        law_strangers_change_nothing(before, evt, now, after, decision);
    }
}

/// After a run from a state without restarts on record, those are on record that are due to the
/// events which asked for one.
proof fn lemma_run_record<F>(start: StateView<F>, run: Seq<Handled<F>>)
    requires
        start.restarts.len() == 0,
        is_run(start, run),
    ensures
        left_by(start, run).strategy == start.strategy,
        left_by(start, run).intensity == start.intensity,
        left_by(start, run).restarts == start.recorded_all(asked_at(run)).restarts,
        start.recorded_all(asked_at(run)).intensity == start.intensity,
        nondecreasing(asked_at(run)),
        run.len() > 0 ==> forall|i: int|
            0 <= i < asked_at(run).len() ==> #[trigger] asked_at(run)[i] <= run.last().now,
    decreases run.len(),
{
    if run.len() > 0 {
        let earlier = run.drop_last();
        let last = run.last();
        lemma_run_record(start, earlier);
        lemma_record(last);
        if last.asks() {
            assert(asked_at(run).drop_last() =~= asked_at(earlier));
            assert forall|i: int| 0 <= i < asked_at(run).len() implies #[trigger] asked_at(run)[i]
                <= last.now by {
                if i < asked_at(earlier).len() {
                    assert(asked_at(run)[i] == asked_at(earlier)[i]);
                }
            }
        }
    }
}

/// A supervisor stops itself exactly when children are restarted too often, whatever its
/// strategy. Take a supervisor that has just started, and any events that it handles one after
/// the other. If the last of them asks for a restart, the decision is to stop the supervisor if
/// and only if more than `max_restarts` of the events that asked for one, the last among them,
/// lie no further back than `period`; and otherwise it is to restart.
pub proof fn law_stops_exactly_when_too_often<F>(start: StateView<F>, run: Seq<Handled<F>>)
    requires
        start.restarts.len() == 0,
        is_run(start, run),
        run.len() > 0,
        run.last().asks(),
    ensures
        ({
            let asked = asked_within(run, run.last().now, start.intensity.period@);
            if asked > start.intensity.max_restarts {
                run.last().decision is StopSupervisor
            } else {
                run.last().decision is Restart
            }
        }),
{
    let last = run.last();
    let times = asked_at(run);
    let period = start.intensity.period@;
    lemma_run_record(start, run);
    lemma_run_record(start, run.drop_last());
    lemma_record(last);
    assert(times.drop_last() =~= asked_at(run.drop_last()));
    let cut = lemma_record_is_suffix(start, times);
    assert forall|i: int| 0 <= i < times.len() implies (stale(times[i], last.now, period)
        <==> last.now - #[trigger] times[i] > period) by {}
    lemma_suffix_within(times, cut, last.now, period);
    lemma_asked_within(run, last.now, period);
}

/// An event that asks for no restart never stops the supervisor and starts nobody.
pub proof fn law_no_restart_unasked<F>(start: StateView<F>, run: Seq<Handled<F>>)
    requires
        is_run(start, run),
        run.len() > 0,
        !run.last().asks(),
    ensures
        run.last().decision is Ignore || run.last().decision is LeaveDead,
{
    lemma_record(run.last());
}

/// A supervisor keeps the strategy, the intensity and the children that it was started with, as
/// far as their specs and starters go, whatever it handles.
pub proof fn law_run_keeps_the_configuration<F>(start: StateView<F>, run: Seq<Handled<F>>)
    requires
        is_run(start, run),
    ensures
        ({
            let left = left_by(start, run);
            &&& left.strategy == start.strategy
            &&& left.intensity == start.intensity
            &&& left.children.len() == start.children.len()
            &&& forall|i: int|
                0 <= i < start.children.len() ==> (#[trigger] left.children[i]).spec
                    == start.children[i].spec && left.children[i].starter
                    == start.children[i].starter
        }),
    decreases run.len(),
{
    if run.len() > 0 {
        law_run_keeps_the_configuration(start, run.drop_last());
        lemma_record(run.last());
        let between = left_by(start, run.drop_last());
        assert forall|i: int| 0 <= i < start.children.len() implies (
        #[trigger] left_by(start, run).children[i]).spec == start.children[i].spec && left_by(
            start,
            run,
        ).children[i].starter == start.children[i].starter by {
            assert(between.children[i].spec == start.children[i].spec);
            assert(run.last().before.children[i].spec == between.children[i].spec);
        }
    }
}

/// Restarts that are further apart than the period do not add up: as long as any two events that
/// ask for one are, and one restart is allowed, the supervisor never stops itself.
pub proof fn law_far_apart_does_not_add_up<F>(start: StateView<F>, run: Seq<Handled<F>>)
    requires
        start.restarts.len() == 0,
        start.intensity.max_restarts > 0,
        is_run(start, run),
        run.len() > 0,
        forall|i: int, j: int|
            0 <= i < j < run.len() && (#[trigger] run[i]).asks() && (#[trigger] run[j]).asks()
                ==> run[j].now - run[i].now > start.intensity.period@,
    ensures
        run.last().decision !is StopSupervisor,
{
    let last = run.last();
    if last.asks() {
        assert(last == run[run.len() - 1]);
        let earlier = run.drop_last();
        assert forall|i: int|
            0 <= i < earlier.len() && (#[trigger] earlier[i]).asks() implies last.now
            - earlier[i].now > start.intensity.period@ by {
            assert(earlier[i] == run[i]);
        }
        lemma_none_within(earlier, last.now, start.intensity.period@);
        law_stops_exactly_when_too_often(start, run);
    } else {
        law_no_restart_unasked(start, run);
    }
}

proof fn lemma_none_within<F>(run: Seq<Handled<F>>, now: nat, period: nat)
    requires
        forall|i: int|
            0 <= i < run.len() && (#[trigger] run[i]).asks() ==> now - run[i].now > period,
    ensures
        asked_within(run, now, period) == 0,
    decreases run.len(),
{
    if run.len() > 0 {
        let earlier = run.drop_last();
        assert(run.last() == run[run.len() - 1]);
        assert forall|i: int| 0 <= i < earlier.len() && (#[trigger] earlier[i]).asks() implies now
            - earlier[i].now > period by {
            assert(earlier[i] == run[i]);
        }
        lemma_none_within(earlier, now, period);
    }
}

/// Which commands a restart gives depends on the strategy that the supervisor was started with,
/// on which child exited and on nothing else. Take a supervisor that has just started, and any
/// events that it handles one after the other. If the last of them asks for a restart, be it a
/// clean stop or a failure, and is not one too many, then the commands of the restart are: under
/// `OneForOne` those that start the child that exited; under `OneForAll` those that stop all live
/// children in reverse order, followed by those that start all but the temporary ones in order;
/// under `RestForOne` the same from the child that exited on.
pub proof fn law_restarts_by_strategy<F, E>(
    start: StateView<F>,
    run: Seq<Handled<F>>,
    idx: int,
    world: RestartWorld<E>,
)
    requires
        start.restarts.len() == 0,
        start.children.len() <= usize::MAX,
        is_run(start, run),
        run.len() > 0,
        run.last().asks(),
        child_exited(run.last().before.children, run.last().evt, idx),
        asked_within(run, run.last().now, start.intensity.period@) <= start.intensity.max_restarts,
    ensures
        ({
            let children = run.last().before.children;
            let len = children.len() as int;
            &&& run.last().after.children == children
            &&& run.last().decision matches ExitDecision::Restart(restart)
            &&& match start.strategy {
                SupervisionStrategy::OneForOne => played(restart, children, world) == (
                    start_commands(children, idx, idx + 1, world),
                    restarted(children, idx, idx + 1, world),
                ),
                SupervisionStrategy::OneForAll => played(restart, children, world) == (
                    stop_commands(children, 0, len, world) + start_commands(
                        children,
                        0,
                        len,
                        world,
                    ),
                    restarted(children, 0, len, world),
                ),
                SupervisionStrategy::RestForOne => played(restart, children, world) == (
                    stop_commands(children, idx, len, world) + start_commands(
                        children,
                        idx,
                        len,
                        world,
                    ),
                    restarted(children, idx, len, world),
                ),
            }
        }),
{
    let earlier = run.drop_last();
    let Handled { before, evt, now, after, decision } = run.last();
    let times = asked_at(earlier);
    law_stops_exactly_when_too_often(start, run);
    law_run_keeps_the_configuration(start, earlier);
    lemma_run_record(start, earlier);
    if times.len() > 0 {
        let cut = lemma_record_is_suffix(start, times);
        assert(before.restarts == times.skip(cut));
    }
    law_exit_by_strategy(before, evt, idx, now, after, decision, world);
}

/// The events of the run that report an exit.
pub open spec fn exits_only<F>(run: Seq<Handled<F>>) -> Seq<Handled<F>>
    decreases run.len(),
{
    if run.len() == 0 {
        run
    } else if who_exited(run.last().evt) is Some {
        exits_only(run.drop_last()).push(run.last())
    } else {
        exits_only(run.drop_last())
    }
}

/// Events that report no exit might as well not have come: without them the exits are a run of
/// their own, with the same decisions, and leave the supervisor in the same state.
pub proof fn law_without_other_events<F>(start: StateView<F>, run: Seq<Handled<F>>)
    requires
        is_run(start, run),
    ensures
        is_run(start, exits_only(run)),
        same_but_for_cells(left_by(start, exits_only(run)), left_by(start, run)),
        exits_only(run).len() > 0 ==> exits_only(run).last().now <= run.last().now,
    decreases run.len(),
{
    if run.len() > 0 {
        let earlier = run.drop_last();
        let last = run.last();
        law_without_other_events(start, earlier);
        lemma_same_but_for_cells(
            left_by(start, exits_only(earlier)),
            left_by(start, earlier),
            last.before,
        );
        if who_exited(last.evt) is Some {
            assert(exits_only(run).drop_last() =~= exits_only(earlier));
        } else {
            law_other_events_change_nothing(
                last.before,
                last.evt,
                last.now,
                last.after,
                last.decision,
            );
        }
    }
}

proof fn lemma_same_but_for_cells<F>(a: StateView<F>, b: StateView<F>, c: StateView<F>)
    requires
        same_but_for_cells(a, b),
        same_but_for_cells(b, c),
    ensures
        same_but_for_cells(a, c),
{
    assert forall|i: int| 0 <= i < a.children.len() implies (#[trigger] a.children[i]).spec
        == c.children[i].spec && a.children[i].starter == c.children[i].starter by {
        assert(b.children[i].spec == c.children[i].spec);
    }
}

/// Whether two decisions come to the same.
pub open spec fn alike(a: ExitDecision, b: ExitDecision) -> bool {
    match (a, b) {
        (ExitDecision::Ignore, ExitDecision::Ignore) => true,
        (ExitDecision::LeaveDead, ExitDecision::LeaveDead) => true,
        (
            ExitDecision::StopSupervisor { reason: x },
            ExitDecision::StopSupervisor { reason: y },
        ) => x@ == y@,
        (ExitDecision::Restart(x), ExitDecision::Restart(y)) => x == y,
        _ => false,
    }
}

/// Whether the same events were handled at the same times and with the same children.
pub open spec fn same_events<F>(a: Seq<Handled<F>>, b: Seq<Handled<F>>) -> bool {
    &&& a.len() == b.len()
    &&& forall|i: int|
        0 <= i < a.len() ==> {
            &&& (#[trigger] a[i]).evt == (#[trigger] b[i]).evt
            &&& a[i].now == b[i].now
            &&& a[i].before.children == b[i].before.children
        }
}

/// What a supervisor decides is settled by the state that it was started in and by what it
/// handles, when and with which children.
pub proof fn law_decisions_are_settled<F>(
    start: StateView<F>,
    a: Seq<Handled<F>>,
    b: Seq<Handled<F>>,
)
    requires
        is_run(start, a),
        is_run(start, b),
        same_events(a, b),
    ensures
        left_by(start, a) == left_by(start, b),
        forall|i: int|
            0 <= i < a.len() ==> alike((#[trigger] a[i]).decision, (#[trigger] b[i]).decision),
    decreases a.len(),
{
    if a.len() > 0 {
        let k = a.len() - 1;
        let earlier = (a.drop_last(), b.drop_last());
        assert(same_events(earlier.0, earlier.1)) by {
            assert forall|i: int| 0 <= i < k implies ({
                &&& (#[trigger] earlier.0[i]).evt == (#[trigger] earlier.1[i]).evt
                &&& earlier.0[i].now == earlier.1[i].now
                &&& earlier.0[i].before.children == earlier.1[i].before.children
            }) by {
                assert(a[i].evt == b[i].evt);
            }
        }
        law_decisions_are_settled(start, earlier.0, earlier.1);
        assert(a[k].evt == b[k].evt);
        assert(a[k].before == b[k].before);
        lemma_one_outcome(a[k], b[k]);
        assert forall|i: int| 0 <= i < a.len() implies alike(
            (#[trigger] a[i]).decision,
            (#[trigger] b[i]).decision,
        ) by {
            if i < k {
                assert(alike(earlier.0[i].decision, earlier.1[i].decision));
            }
        }
    }
}

proof fn lemma_one_outcome<F>(a: Handled<F>, b: Handled<F>)
    requires
        a.before == b.before,
        a.evt == b.evt,
        a.now == b.now,
        event_handled(a.before, a.evt, a.now, a.after, a.decision),
        event_handled(b.before, b.evt, b.now, b.after, b.decision),
    ensures
        a.after == b.after,
        alike(a.decision, b.decision),
{
    lemma_some_child_or_none(a.before.children, a.evt);
    if exists|idx: int| #[trigger] child_exited(a.before.children, a.evt, idx) {
        let idx = choose|idx: int| #[trigger] child_exited(a.before.children, a.evt, idx);
        lemma_child_exited(a.before.children, a.evt, idx);
    } else {
        law_strangers_change_nothing(a.before, a.evt, a.now, a.after, a.decision);
        law_strangers_change_nothing(b.before, b.evt, b.now, b.after, b.decision);
    }
}

/// The decisions on exits are the same whether or not other events come in between. Handle events
/// of all kinds, and handle the exits among them alone, at the same times and with the same
/// children: each exit is decided on in the same way.
pub proof fn law_other_events_do_not_matter<F>(
    start: StateView<F>,
    run: Seq<Handled<F>>,
    alone: Seq<Handled<F>>,
)
    requires
        is_run(start, run),
        is_run(start, alone),
        same_events(exits_only(run), alone),
    ensures
        forall|i: int|
            0 <= i < alone.len() ==> alike(
                (#[trigger] exits_only(run)[i]).decision,
                (#[trigger] alone[i]).decision,
            ),
{
    law_without_other_events(start, run);
    law_decisions_are_settled(start, exits_only(run), alone);
}

/// An event that was handled as it came in.
pub struct Heard<F> {
    pub before: SupervisorState<F>,
    pub evt: SupervisionEvent,
    pub after: SupervisorState<F>,
    pub decision: ExitDecision,
}

impl<F> Heard<F> {
    /// Whether the event asked for a restart.
    pub open spec fn asks(self) -> bool {
        asks_for_restart(self.before.children@, self.evt)
    }

    /// What the clock showed when it was read for the event.
    pub open spec fn clock_time(self) -> nat {
        self.after.readings.last()->0.shown()
    }

    /// The event as one that was handled at what the clock showed.
    spec fn at_clock_time(self) -> Handled<F> {
        Handled {
            before: self.before@,
            evt: self.evt,
            now: self.clock_time(),
            after: self.after@,
            decision: self.decision,
        }
    }
}

/// Whether these events were handled as they came in, one after the other, beginning in the state
/// `start`. Between two of them a restart may be carried out; the clock is read for events only.
pub open spec fn is_heard_run<F>(start: SupervisorState<F>, run: Seq<Heard<F>>) -> bool
    decreases run.len(),
{
    run.len() > 0 ==> {
        let earlier = run.drop_last();
        let last = run.last();
        let left = if earlier.len() == 0 {
            start
        } else {
            earlier.last().after
        };
        &&& is_heard_run(start, earlier)
        &&& same_but_for_cells(left@, last.before@)
        &&& last.before.clock == left.clock
        &&& last.before.readings == left.readings
        &&& event_heard(last.before, last.evt, last.after, last.decision)
    }
}

/// How many of the events asked for a restart and came in when the clock showed a time no further
/// back from `now` than `period`.
pub open spec fn heard_within<F>(run: Seq<Heard<F>>, now: nat, period: nat) -> nat
    decreases run.len(),
{
    if run.len() == 0 {
        0
    } else {
        heard_within(run.drop_last(), now, period) + if run.last().asks() && now
            - run.last().clock_time() <= period {
            1nat
        } else {
            0
        }
    }
}

spec fn at_clock_times<F>(run: Seq<Heard<F>>) -> Seq<Handled<F>> {
    run.map_values(|heard: Heard<F>| heard.at_clock_time())
}

proof fn lemma_heard_run<F>(start: SupervisorState<F>, run: Seq<Heard<F>>, now: nat, period: nat)
    requires
        start.readings.time() == 0,
        is_heard_run(start, run),
        forall|i: int, j: int|
            0 <= i <= j < run.len() ==> (#[trigger] run[i]).clock_time() <= (
            #[trigger] run[j]).clock_time(),
    ensures
        is_run(start@, at_clock_times(run)),
        heard_within(run, now, period) == asked_within(at_clock_times(run), now, period),
        run.len() > 0 ==> {
            &&& run.last().after.clock == start.clock
            &&& run.last().after.readings.last() matches Some(reading) && reading.is_of(start.clock)
                && reading.mark() == run.last().after.readings.taken()
            &&& run.last().after.readings.time() == run.last().clock_time()
        },
    decreases run.len(),
{
    if run.len() > 0 {
        let earlier = run.drop_last();
        assert forall|i: int, j: int| 0 <= i <= j < earlier.len() implies (
        #[trigger] earlier[i]).clock_time() <= (#[trigger] earlier[j]).clock_time() by {
            assert(earlier[i] == run[i] && earlier[j] == run[j]);
        }
        lemma_heard_run(start, earlier, now, period);
        if earlier.len() > 0 {
            assert(run[run.len() - 2].clock_time() <= run[run.len() - 1].clock_time());
        }
        assert(at_clock_times(run).drop_last() =~= at_clock_times(earlier));
        assert(at_clock_times(run).last() == run.last().at_clock_time());
    }
}

/// Restarts are measured in real time. Take a supervisor that has just started, and any events
/// that it handles as they come in, while the machine's clock does not run backwards. For each
/// event the supervisor's own clock is read, anew. If the last event asks for a restart, the
/// decision is to stop the supervisor if and only if more than `max_restarts` of the events that
/// asked for one, the last among them, came in when the clock showed a time no further back than
/// `period`; and otherwise it is to restart.
pub proof fn law_restarts_are_measured_by_the_clock<F>(
    start: SupervisorState<F>,
    run: Seq<Heard<F>>,
)
    requires
        start.restart_timestamps@.len() == 0,
        start.readings.time() == 0,
        is_heard_run(start, run),
        run.len() > 0,
        forall|i: int, j: int|
            0 <= i <= j < run.len() ==> (#[trigger] run[i]).clock_time() <= (
            #[trigger] run[j]).clock_time(),
    ensures
        run.last().after.readings.last() matches Some(reading) && {
            &&& reading.is_of(start.clock)
            &&& run.len() > 1 ==> reading.mark() != run[run.len()
                - 2].after.readings.last()->0.mark()
        },
        run.last().asks() ==> {
            let asked = heard_within(run, run.last().clock_time(), start.intensity.period@);
            if asked > start.intensity.max_restarts {
                run.last().decision is StopSupervisor
            } else {
                run.last().decision is Restart
            }
        },
{
    let earlier = run.drop_last();
    assert forall|i: int, j: int| 0 <= i <= j < earlier.len() implies (
    #[trigger] earlier[i]).clock_time() <= (#[trigger] earlier[j]).clock_time() by {
        assert(earlier[i] == run[i] && earlier[j] == run[j]);
    }
    lemma_heard_run(start, earlier, 0, 0);
    lemma_heard_run(start, run, run.last().clock_time(), start.intensity.period@);
    assert(at_clock_times(run).last() == run.last().at_clock_time());
    if run.last().asks() {
        law_stops_exactly_when_too_often(start@, at_clock_times(run));
    }
}

} // verus!
