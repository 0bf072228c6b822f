//! What a restart does from its first command to its last.

use crate::actor::ActorCell;
use crate::restart::{
    lemma_last_live_in_range, lemma_next_due, next_due, one_child, restart_plan, stop_then_start,
    with_cell, Restart, RestartCommand, RestartReply, RestartStage,
};
use crate::supervisor::{ChildEntry, SupervisionStrategy};
use vstd::prelude::*;

verus! {

/// How the outside world answers a restart: for each child whether it stops in time when told
/// to, and what its starter gives when run.
pub struct RestartWorld<E> {
    pub stops: spec_fn(int) -> bool,
    pub starts: spec_fn(int) -> Result<ActorCell, E>,
}

impl Restart {
    /// What the world says to the outstanding command.
    pub open spec fn answered<E>(self, world: RestartWorld<E>) -> RestartReply<E> {
        match self.stage {
            RestartStage::AwaitStop { idx, cell } => RestartReply::Stopped(
                (world.stops)(idx as int),
            ),
            RestartStage::AwaitStart { idx } => RestartReply::Started((world.starts)(idx as int)),
            _ => RestartReply::Ready,
        }
    }

    /// Whether children are still being stopped.
    pub open spec fn phase(self) -> nat {
        match self.stage {
            RestartStage::Stop { .. } => 1,
            RestartStage::AwaitStop { .. } => 1,
            _ => 0,
        }
    }

    /// How many steps are left in the phase, at most.
    pub open spec fn steps_left(self) -> int {
        match self.stage {
            RestartStage::Stop { below } => 2 * below,
            RestartStage::AwaitStop { idx, cell } => 2 * idx + 1,
            RestartStage::Start { idx } => if idx <= self.end {
                2 * (self.end - idx) + 1
            } else {
                1
            },
            RestartStage::AwaitStart { idx } => 2 * (self.end - idx),
            RestartStage::Finished => 0,
        }
    }
}

/// All commands of the rest of a restart, and the children as it leaves them.
pub open spec fn played<F, E>(
    restart: Restart,
    children: Seq<ChildEntry<F>>,
    world: RestartWorld<E>,
) -> (Seq<RestartCommand<F, E>>, Seq<ChildEntry<F>>)
    decreases restart.phase(), restart.steps_left(),
    when restart.fits(children)
{
    proof {
        match restart.stage {
            RestartStage::Stop { below } => {
                lemma_last_live_in_range(children, restart.first as int, below as int);
            },
            RestartStage::AwaitStop { idx, cell } => {
                lemma_last_live_in_range(children, restart.first as int, idx as int);
            },
            RestartStage::AwaitStart { idx } => {
                lemma_next_due(children, idx + 1, restart.end as int);
            },
            _ => {},
        }
    }
    if restart.stage is Finished {
        (Seq::empty(), children)
    } else {
        let (next, after, command) = restart.stepped::<F, E>(children, restart.answered(world));
        let rest = played(next, after, world);
        (seq![command] + rest.0, rest.1)
    }
}

/// The commands that stop the live children from `first` on and below `below`: from the last
/// down, each is told to stop, and killed if it does not stop in time.
pub open spec fn stop_commands<F, E>(
    children: Seq<ChildEntry<F>>,
    first: int,
    below: int,
    world: RestartWorld<E>,
) -> Seq<RestartCommand<F, E>>
    decreases below - first,
{
    if below <= first {
        Seq::empty()
    } else {
        let idx = below - 1;
        let rest = stop_commands(children, first, idx, world);
        match children[idx].cell {
            Some(cell) => {
                let stop = RestartCommand::StopAndWait {
                    cell,
                    timeout: children[idx].spec.shutdown_timeout,
                };
                if (world.stops)(idx) {
                    seq![stop] + rest
                } else {
                    seq![stop, RestartCommand::Kill { cell }] + rest
                }
            },
            None => rest,
        }
    }
}

/// The commands that start the children from `idx` on and below `end`: in order, the starter of
/// each that is not temporary is run and what it gave is linked under the child's spec, until
/// one fails.
pub open spec fn start_commands<F, E>(
    children: Seq<ChildEntry<F>>,
    idx: int,
    end: int,
    world: RestartWorld<E>,
) -> Seq<RestartCommand<F, E>>
    decreases end - idx,
{
    if idx >= end {
        seq![RestartCommand::Finished(Ok(()))]
    } else if children[idx].spec.restart_policy is Temporary {
        start_commands(children, idx + 1, end, world)
    } else {
        let start = RestartCommand::Start { starter: children[idx].starter };
        match (world.starts)(idx) {
            Ok(cell) => seq![start, RestartCommand::Link { cell, spec: children[idx].spec }]
                + start_commands(children, idx + 1, end, world),
            Err(err) => seq![start, RestartCommand::Finished(Err(err))],
        }
    }
}

/// The first child from `idx` on that is not temporary and whose starter fails, `end` if none
/// below it does.
pub open spec fn first_failure<F, E>(
    children: Seq<ChildEntry<F>>,
    idx: int,
    end: int,
    world: RestartWorld<E>,
) -> int
    decreases end - idx,
{
    if idx >= end {
        end
    } else if children[idx].spec.restart_policy !is Temporary && (world.starts)(idx) is Err {
        idx
    } else {
        first_failure(children, idx + 1, end, world)
    }
}

/// The children after those from `first` on and below `end` were restarted: of these the
/// temporary ones are dead, the others before the first failure are the new ones, and the failed
/// one and those after it are dead. All other children are as they were. Specs and starters stay.
pub open spec fn restarted<F, E>(
    children: Seq<ChildEntry<F>>,
    first: int,
    end: int,
    world: RestartWorld<E>,
) -> Seq<ChildEntry<F>> {
    let failure = first_failure(children, first, end, world);
    Seq::new(
        children.len(),
        |i: int|
            ChildEntry {
                cell: if i < first || end <= i {
                    children[i].cell
                } else if children[i].spec.restart_policy is Temporary || failure <= i {
                    None
                } else {
                    Some((world.starts)(i)->Ok_0)
                },
                ..children[i]
            },
    )
}

proof fn lemma_first_failure<F, E>(
    children: Seq<ChildEntry<F>>,
    idx: int,
    end: int,
    world: RestartWorld<E>,
)
    requires
        idx <= end,
    ensures
        ({
            let failure = first_failure(children, idx, end, world);
            &&& idx <= failure <= end
            &&& forall|i: int|
                idx <= i < failure && (#[trigger] children[i]).spec.restart_policy !is Temporary
                    ==> (world.starts)(i) is Ok
            &&& failure < end ==> (world.starts)(failure) is Err
        }),
    decreases end - idx,
{
    if idx < end && (children[idx].spec.restart_policy is Temporary || (world.starts)(idx) is Ok) {
        lemma_first_failure(children, idx + 1, end, world);
    }
}

/// Only specs matter to the first failure and to which child is due.
proof fn lemma_specs_decide<F, E>(
    a: Seq<ChildEntry<F>>,
    b: Seq<ChildEntry<F>>,
    idx: int,
    end: int,
    world: RestartWorld<E>,
)
    requires
        forall|i: int| idx <= i < end ==> (#[trigger] a[i]).spec == b[i].spec,
    ensures
        first_failure(a, idx, end, world) == first_failure(b, idx, end, world),
        next_due(a, idx, end) == next_due(b, idx, end),
    decreases end - idx,
{
    if idx < end {
        assert(a[idx].spec == b[idx].spec);
        lemma_specs_decide(a, b, idx + 1, end, world);
    }
}

/// Only specs and starters matter to the commands that start children.
proof fn lemma_start_commands_ignore_cells<F, E>(
    a: Seq<ChildEntry<F>>,
    b: Seq<ChildEntry<F>>,
    idx: int,
    end: int,
    world: RestartWorld<E>,
)
    requires
        0 <= idx,
        end <= a.len() == b.len(),
        forall|i: int|
            idx <= i < end ==> (#[trigger] a[i]).spec == b[i].spec && a[i].starter == b[i].starter,
    ensures
        start_commands(a, idx, end, world) == start_commands(b, idx, end, world),
    decreases end - idx,
{
    if idx < end {
        lemma_start_commands_ignore_cells(a, b, idx + 1, end, world);
    }
}

/// Only the children below `below` matter to the commands that stop them.
proof fn lemma_stop_commands_prefix<F, E>(
    a: Seq<ChildEntry<F>>,
    b: Seq<ChildEntry<F>>,
    first: int,
    below: int,
    world: RestartWorld<E>,
)
    requires
        forall|i: int| first <= i < below ==> #[trigger] a[i] == b[i],
    ensures
        stop_commands(a, first, below, world) == stop_commands(b, first, below, world),
    decreases below - first,
{
    if first < below {
        lemma_stop_commands_prefix(a, b, first, below - 1, world);
    }
}

proof fn lemma_play_starts<F, E>(
    restart: Restart,
    children: Seq<ChildEntry<F>>,
    from: int,
    world: RestartWorld<E>,
)
    requires
        restart.stage == (RestartStage::Start {
            idx: next_due(children, from, restart.end as int) as usize,
        }),
        restart.fits(children),
        0 <= from <= restart.end,
        forall|i: int|
            from <= i < restart.end && i != next_due(children, from, restart.end as int) ==> (
            #[trigger] children[i]).cell is None,
    ensures
        played(restart, children, world).0 == start_commands(
            children,
            from,
            restart.end as int,
            world,
        ),
        played(restart, children, world).1 == restarted(
            children,
            from,
            restart.end as int,
            world,
        ),
    decreases restart.end - from,
{
    let end = restart.end as int;
    lemma_first_failure(children, from, end, world);
    lemma_next_due(children, from, end);
    let goal = restarted(children, from, end, world);
    if from < end && children[from].spec.restart_policy is Temporary {
        lemma_play_starts(restart, children, from + 1, world);
        assert(restarted(children, from + 1, end, world) =~= goal);
    } else if from < end {
        let (waiting, same, start) = restart.stepped::<F, E>(children, restart.answered(world));
        let (next, after, command) = waiting.stepped::<F, E>(children, waiting.answered(world));
        match (world.starts)(from) {
            Ok(cell) => {
                lemma_next_due(children, from + 1, end);
                lemma_specs_decide(children, after, from + 1, end, world);
                lemma_play_starts(next, after, from + 1, world);
                lemma_first_failure(children, from + 1, end, world);
                lemma_start_commands_ignore_cells(children, after, from + 1, end, world);
                assert(played(waiting, children, world).0 == seq![command] + played(
                    next,
                    after,
                    world,
                ).0);
                assert(played(restart, children, world).0 =~= seq![start, command] + played(
                    next,
                    after,
                    world,
                ).0);
                assert(played(next, after, world).1 =~= goal);
            },
            Err(err) => {
                assert(played(next, after, world).0 =~= Seq::empty());
                assert(played(waiting, children, world).0 =~= seq![command]);
                assert(played(restart, children, world).0 =~= seq![start, command]);
                assert(after =~= goal);
            },
        }
    } else {
        let (waiting, same, start) = restart.stepped::<F, E>(children, restart.answered(world));
        assert(played(waiting, same, world).0 =~= Seq::empty());
        assert(played(restart, children, world).0 =~= seq![start]);
        assert(children =~= goal);
    }
}

/// The children with the cells of those from `first` on and below `below` taken out.
spec fn cleared<F>(children: Seq<ChildEntry<F>>, first: int, below: int) -> Seq<
    ChildEntry<F>,
> {
    Seq::new(
        children.len(),
        |i: int|
            if first <= i < below {
                ChildEntry { cell: None, ..children[i] }
            } else {
                children[i]
            },
    )
}

proof fn lemma_play_stops<F, E>(
    restart: Restart,
    children: Seq<ChildEntry<F>>,
    below: usize,
    world: RestartWorld<E>,
)
    requires
        restart.stage == (RestartStage::Stop { below }),
        restart.fits(children),
    ensures
        ({
            let due = next_due(children, restart.first as int, restart.end as int) as usize;
            let start = restart.at(RestartStage::Start { idx: due });
            let then = played(start, cleared(children, restart.first as int, below as int), world);
            &&& played(restart, children, world).0 == stop_commands(
                children,
                restart.first as int,
                below as int,
                world,
            ) + then.0
            &&& played(restart, children, world).1 == then.1
        }),
    decreases below,
{
    let first = restart.first as int;
    let end = restart.end as int;
    let due = next_due(children, first, end) as usize;
    let start = restart.at(RestartStage::Start { idx: due });
    lemma_next_due(children, first, end);
    let goal = cleared(children, first, below as int);
    if below <= restart.first {
        assert(goal =~= children);
        assert(restart.stepped::<F, E>(children, RestartReply::Ready) == start.stepped::<F, E>(
            children,
            RestartReply::Ready,
        ));
        assert(stop_commands(children, first, below as int, world) + played(
            start,
            children,
            world,
        ).0 =~= played(start, children, world).0);
    } else {
        let idx = (below - 1) as usize;
        let lower = restart.at(RestartStage::Stop { below: idx });
        match children[idx as int].cell {
            None => {
                lemma_play_stops(lower, children, idx, world);
                assert(cleared(children, first, idx as int) =~= goal);
                assert(restart.stepped::<F, E>(children, RestartReply::Ready) == lower.stepped::<
                    F,
                    E,
                >(children, RestartReply::Ready));
            },
            Some(cell) => {
                let after = with_cell(children, idx as int, None);
                let waiting = restart.at(RestartStage::AwaitStop { idx, cell });
                let stop = RestartCommand::<F, E>::StopAndWait {
                    cell,
                    timeout: children[idx as int].spec.shutdown_timeout,
                };
                assert(restart.stepped::<F, E>(children, RestartReply::Ready) == (
                    waiting,
                    after,
                    stop,
                ));
                lemma_specs_decide(children, after, first, end, world);
                lemma_play_stops(lower, after, idx, world);
                assert(cleared(after, first, idx as int) =~= goal);
                lemma_stop_commands_prefix(children, after, first, idx as int, world);
                let rest = stop_commands::<F, E>(children, first, idx as int, world);
                let then = played(start, goal, world).0;
                assert(played(lower, after, world).0 == rest + then);
                if (world.stops)(idx as int) {
                    assert(waiting.stepped::<F, E>(after, waiting.answered(world))
                        == lower.stepped::<F, E>(after, RestartReply::Ready));
                    assert(played(waiting, after, world) == played(lower, after, world));
                    assert(seq![stop] + (rest + then) =~= (seq![stop] + rest) + then);
                } else {
                    let kill = RestartCommand::<F, E>::Kill { cell };
                    assert(played(waiting, after, world).0 == seq![kill] + (rest + then));
                    assert(seq![stop] + (seq![kill] + (rest + then)) =~= (seq![stop, kill] + rest)
                        + then);
                }
            },
        }
    }
}

proof fn lemma_play_from<F, E>(children: Seq<ChildEntry<F>>, first: int, world: RestartWorld<E>)
    requires
        0 <= first <= children.len() <= usize::MAX,
    ensures
        ({
            let end = children.len() as int;
            let play = played(stop_then_start(first, end), children, world);
            &&& play.0 == stop_commands(children, first, end, world) + start_commands(
                children,
                first,
                end,
                world,
            )
            &&& play.1 == restarted(children, first, end, world)
        }),
{
    let end = children.len() as int;
    let restart = stop_then_start(first, end);
    let empty = cleared(children, first, end);
    let start = restart.at(RestartStage::Start { idx: next_due(children, first, end) as usize });
    lemma_next_due(children, first, end);
    lemma_specs_decide(children, empty, first, end, world);
    lemma_play_stops(restart, children, end as usize, world);
    lemma_play_starts(start, empty, first, world);
    lemma_start_commands_ignore_cells(children, empty, first, end, world);
    lemma_first_failure(children, first, end, world);
    assert(restarted(children, first, end, world) =~= restarted(empty, first, end, world));
}

/// Under `OneForOne` only the failed child, which is not a temporary one, is restarted: its
/// starter is run, and what it gives is linked under the child's spec. No child is told to stop
/// and no other child is touched. If the starter fails, its error is the result and the child is
/// left dead.
pub proof fn law_one_for_one<F, E>(children: Seq<ChildEntry<F>>, idx: int, world: RestartWorld<E>)
    requires
        0 <= idx < children.len() <= usize::MAX,
        children[idx].spec.restart_policy !is Temporary,
    ensures
        ({
            let plan = restart_plan(
                SupervisionStrategy::OneForOne,
                idx,
                children.len() as int,
            );
            let play = played(plan, children, world);
            &&& play.0 == start_commands(children, idx, idx + 1, world)
            &&& play.1 == restarted(children, idx, idx + 1, world)
        }),
{
    lemma_play_starts(one_child(idx), children, idx, world);
}

/// Restarting a single child, whatever its policy, runs its starter and links what that gives
/// under the child's spec, and touches no other child. If the starter fails, its error is the
/// result and the child is left dead.
pub proof fn law_restart_child<F, E>(
    children: Seq<ChildEntry<F>>,
    idx: int,
    world: RestartWorld<E>,
)
    requires
        0 <= idx < children.len() <= usize::MAX,
    ensures
        ({
            let child = children[idx];
            let start = RestartCommand::<F, E>::Start { starter: child.starter };
            played(one_child(idx), children, world) == match (world.starts)(idx) {
                Ok(cell) => (
                    seq![
                        start,
                        RestartCommand::Link { cell, spec: child.spec },
                        RestartCommand::Finished(Ok(())),
                    ],
                    children.update(idx, ChildEntry { cell: Some(cell), ..child }),
                ),
                Err(err) => (
                    seq![start, RestartCommand::Finished(Err(err))],
                    children.update(idx, ChildEntry { cell: None, ..child }),
                ),
            }
        }),
{
    let restart = one_child(idx);
    let end = restart.end as int;
    let (waiting, same, start) = restart.stepped::<F, E>(children, RestartReply::Ready);
    let (next, after, command) = waiting.stepped::<F, E>(children, waiting.answered(world));
    lemma_next_due(children, idx + 1, end);
    if (world.starts)(idx) is Ok {
        let (done, left, finish) = next.stepped::<F, E>(after, RestartReply::Ready);
        assert(played(done, left, world).0 =~= Seq::empty());
        assert(played(next, after, world).0 =~= seq![finish]);
        assert(played(waiting, children, world).0 =~= seq![command, finish]);
        assert(played(restart, children, world).0 =~= seq![start, command, finish]);
    } else {
        assert(played(next, after, world).0 =~= Seq::empty());
        assert(played(waiting, children, world).0 =~= seq![command]);
        assert(played(restart, children, world).0 =~= seq![start, command]);
    }
}

/// Under `OneForAll` all live children are stopped in reverse order, each killed if it does not
/// stop in time; then all children but the temporary ones are started in order. The first starter
/// that fails ends the restart with its error, and that child and all after it are left dead.
pub proof fn law_one_for_all<F, E>(children: Seq<ChildEntry<F>>, idx: int, world: RestartWorld<E>)
    requires
        0 <= idx < children.len() <= usize::MAX,
    ensures
        ({
            let end = children.len() as int;
            let plan = restart_plan(SupervisionStrategy::OneForAll, idx, end);
            let play = played(plan, children, world);
            &&& play.0 == stop_commands(children, 0, end, world) + start_commands(
                children,
                0,
                end,
                world,
            )
            &&& play.1 == restarted(children, 0, end, world)
        }),
{
    lemma_play_from(children, 0, world);
}

/// Under `RestForOne` the failed child and those registered after it are restarted as under
/// `OneForAll`: the live ones are stopped in reverse order and all but the temporary ones are
/// started in order. No child before the failed one is touched.
pub proof fn law_rest_for_one<F, E>(children: Seq<ChildEntry<F>>, idx: int, world: RestartWorld<E>)
    requires
        0 <= idx < children.len() <= usize::MAX,
    ensures
        ({
            let end = children.len() as int;
            let plan = restart_plan(SupervisionStrategy::RestForOne, idx, end);
            let play = played(plan, children, world);
            &&& play.0 == stop_commands(children, idx, end, world) + start_commands(
                children,
                idx,
                end,
                world,
            )
            &&& play.1 == restarted(children, idx, end, world)
        }),
{
    lemma_play_from(children, idx, world);
}

/// When no starter of a child that is not temporary fails, every such child from `first` on and
/// below `end` is alive again after the restart, as the actor that its starter gave.
pub proof fn law_restarted_children_live<F, E>(
    children: Seq<ChildEntry<F>>,
    first: int,
    end: int,
    world: RestartWorld<E>,
)
    requires
        0 <= first <= end <= children.len(),
        forall|i: int|
            first <= i < end && (#[trigger] children[i]).spec.restart_policy !is Temporary ==> (
            world.starts)(i) is Ok,
    ensures
        forall|i: int|
            first <= i < end && children[i].spec.restart_policy !is Temporary ==> (
            #[trigger] restarted(children, first, end, world)[i]).cell == Some(
                (world.starts)(i)->Ok_0,
            ),
{
    lemma_no_failure(children, first, end, world);
}

proof fn lemma_no_failure<F, E>(
    children: Seq<ChildEntry<F>>,
    idx: int,
    end: int,
    world: RestartWorld<E>,
)
    requires
        idx <= end,
        forall|i: int|
            idx <= i < end && (#[trigger] children[i]).spec.restart_policy !is Temporary ==> (
            world.starts)(i) is Ok,
    ensures
        first_failure(children, idx, end, world) == end,
    decreases end - idx,
{
    if idx < end {
        assert(children[idx].spec.restart_policy is Temporary || (world.starts)(idx) is Ok);
        lemma_no_failure(children, idx + 1, end, world);
    }
}

/// Whether the command runs the starter of a child that is not temporary, if it runs any.
pub open spec fn spares_temporary<F, E>(
    children: Seq<ChildEntry<F>>,
    command: RestartCommand<F, E>,
) -> bool {
    command matches RestartCommand::Start { starter } ==> exists|i: int|
        0 <= i < children.len() && (#[trigger] children[i]).spec.restart_policy !is Temporary
            && starter == children[i].starter
}

/// Whether two worlds differ at most in what the starters of temporary children would give.
pub open spec fn same_but_for_temporary<F, E>(
    children: Seq<ChildEntry<F>>,
    a: RestartWorld<E>,
    b: RestartWorld<E>,
) -> bool {
    forall|i: int|
        0 <= i < children.len() ==> (a.stops)(i) == (b.stops)(i) && ((
        #[trigger] children[i]).spec.restart_policy is Temporary || (a.starts)(i) == (b.starts)(i))
}

proof fn lemma_stops_spare_temporary<F, E>(
    children: Seq<ChildEntry<F>>,
    first: int,
    below: int,
    a: RestartWorld<E>,
    b: RestartWorld<E>,
)
    requires
        0 <= first,
        below <= children.len(),
        same_but_for_temporary(children, a, b),
    ensures
        stop_commands(children, first, below, a) == stop_commands(children, first, below, b),
        forall|k: int|
            0 <= k < stop_commands(children, first, below, a).len() ==> spares_temporary(
                children,
                #[trigger] stop_commands(children, first, below, a)[k],
            ),
    decreases below - first,
{
    if first < below {
        lemma_stops_spare_temporary(children, first, below - 1, a, b);
    }
}

proof fn lemma_starts_spare_temporary<F, E>(
    children: Seq<ChildEntry<F>>,
    idx: int,
    end: int,
    a: RestartWorld<E>,
    b: RestartWorld<E>,
)
    requires
        0 <= idx,
        end <= children.len(),
        same_but_for_temporary(children, a, b),
    ensures
        start_commands(children, idx, end, a) == start_commands(children, idx, end, b),
        first_failure(children, idx, end, a) == first_failure(children, idx, end, b),
        forall|k: int|
            0 <= k < start_commands(children, idx, end, a).len() ==> spares_temporary(
                children,
                #[trigger] start_commands(children, idx, end, a)[k],
            ),
    decreases end - idx,
{
    if idx < end {
        assert(children[idx].spec.restart_policy is Temporary || (a.starts)(idx) == (b.starts)(
            idx,
        ));
        lemma_starts_spare_temporary(children, idx + 1, end, a, b);
    }
}

proof fn lemma_play_spares_temporary<F, E>(
    children: Seq<ChildEntry<F>>,
    first: int,
    end: int,
    a: RestartWorld<E>,
    b: RestartWorld<E>,
)
    requires
        0 <= first <= end <= children.len(),
        same_but_for_temporary(children, a, b),
    ensures
        ({
            let stops = stop_commands(children, first, end, a);
            let starts = start_commands(children, first, end, a);
            &&& stops == stop_commands(children, first, end, b)
            &&& starts == start_commands(children, first, end, b)
            &&& restarted(children, first, end, a) == restarted(children, first, end, b)
            &&& forall|k: int|
                0 <= k < starts.len() ==> spares_temporary(children, #[trigger] starts[k])
            &&& forall|k: int|
                0 <= k < (stops + starts).len() ==> spares_temporary(
                    children,
                    #[trigger] (stops + starts)[k],
                )
        }),
{
    lemma_stops_spare_temporary(children, first, end, a, b);
    lemma_starts_spare_temporary(children, first, end, a, b);
    lemma_first_failure(children, first, end, a);
    assert forall|i: int| 0 <= i < children.len() implies (
    #[trigger] children[i]).spec.restart_policy is Temporary || (a.starts)(i) == (b.starts)(i) by {}
    assert(restarted(children, first, end, a) =~= restarted(children, first, end, b));
}

/// No restart runs the starter of a temporary child, whatever the strategy, after the failure of
/// a child that is not temporary: every starter that is run belongs to a child that is not
/// temporary, what the starters of temporary children would give makes no difference to the
/// restart, and a temporary child is dead after it if it is among those that the restart is
/// about, and as it was before if it is not.
pub proof fn law_temporary_children_stay_dead<F, E>(
    children: Seq<ChildEntry<F>>,
    strategy: SupervisionStrategy,
    idx: int,
    world: RestartWorld<E>,
    other: RestartWorld<E>,
)
    requires
        0 <= idx < children.len() <= usize::MAX,
        children[idx].spec.restart_policy !is Temporary,
        same_but_for_temporary(children, world, other),
    ensures
        ({
            let plan = restart_plan(strategy, idx, children.len() as int);
            let play = played(plan, children, world);
            &&& forall|k: int|
                0 <= k < play.0.len() ==> spares_temporary(children, #[trigger] play.0[k])
            &&& play == played(plan, children, other)
            &&& play.1.len() == children.len()
            &&& forall|i: int|
                0 <= i < children.len() && children[i].spec.restart_policy is Temporary ==> (
                #[trigger] play.1[i]).cell == if plan.first <= i < plan.end {
                    None
                } else {
                    children[i].cell
                }
        }),
{
    let len = children.len() as int;
    match strategy {
        SupervisionStrategy::OneForOne => {
            law_one_for_one(children, idx, world);
            law_one_for_one(children, idx, other);
            lemma_play_spares_temporary(children, idx, idx + 1, world, other);
        },
        SupervisionStrategy::OneForAll => {
            law_one_for_all(children, idx, world);
            law_one_for_all(children, idx, other);
            lemma_play_spares_temporary(children, 0, len, world, other);
        },
        SupervisionStrategy::RestForOne => {
            law_rest_for_one(children, idx, world);
            law_rest_for_one(children, idx, other);
            lemma_play_spares_temporary(children, idx, len, world, other);
        },
    }
}

/// A restart keeps the number of children, their specs and their starters, and the cells of the
/// children that it is not about.
pub proof fn law_restart_keeps_the_rest<F, E>(
    children: Seq<ChildEntry<F>>,
    first: int,
    end: int,
    world: RestartWorld<E>,
)
    requires
        0 <= first <= end <= children.len(),
    ensures
        ({
            let after = restarted(children, first, end, world);
            &&& after.len() == children.len()
            &&& forall|i: int|
                0 <= i < children.len() ==> (#[trigger] after[i]).spec == children[i].spec
                    && after[i].starter == children[i].starter
            &&& forall|i: int|
                0 <= i < first || end <= i < children.len() ==> #[trigger] after[i] == children[i]
        }),
{
    lemma_first_failure(children, first, end, world);
}

/// A reply to no command that is outstanding is turned down and changes nothing.
pub proof fn law_restart_out_of_turn<F, E>(
    restart: Restart,
    children: Seq<ChildEntry<F>>,
    reply: RestartReply<E>,
)
    requires
        match restart.stage {
            RestartStage::Stop { .. } => reply !is Ready,
            RestartStage::AwaitStop { .. } => reply !is Stopped,
            RestartStage::Start { .. } => reply !is Ready,
            RestartStage::AwaitStart { .. } => reply !is Started,
            RestartStage::Finished => true,
        },
    ensures
        restart.stepped::<F, E>(children, reply) == (
            restart,
            children,
            RestartCommand::<F, E>::OutOfTurn,
        ),
{
}

} // verus!
