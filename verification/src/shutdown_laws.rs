//! What a shutdown does from its first command to its last.

use crate::actor::ActorCell;
use crate::shutdown::{
    shutdown_fits, shutdown_step, ShutdownCommand, ShutdownReply, ShutdownStage,
};
use crate::supervision::ChildSpec;
use crate::tree::cells_of;
use crate::tree_laws::{applied, law_start_order, start_order, TreeOp};
use vstd::prelude::*;

verus! {

/// How the outside world answers a shutdown: for each entry whether it stops in time when told
/// to, and whether it has stopped when that is asked.
pub struct ShutdownWorld {
    pub stops: spec_fn(int) -> bool,
    pub is_stopped: spec_fn(int) -> bool,
}

/// What the world says to the outstanding command.
pub open spec fn shutdown_answer(stage: ShutdownStage, world: ShutdownWorld) -> ShutdownReply {
    match stage {
        ShutdownStage::AwaitStop { at } => ShutdownReply::Stopped((world.stops)(at as int)),
        ShutdownStage::AwaitStatus { at } => ShutdownReply::IsStopped(
            (world.is_stopped)(at as int),
        ),
        _ => ShutdownReply::Ready,
    }
}

/// How many steps are left, at most.
pub open spec fn shutdown_steps_left(len: nat, stage: ShutdownStage) -> int {
    match stage {
        ShutdownStage::Stop { at } => 6 * (len - at) + 1,
        ShutdownStage::AwaitStop { at } => 6 * (len - at),
        ShutdownStage::Ask { at } => 6 * (len - at) - 1,
        ShutdownStage::AwaitStatus { at } => 6 * (len - at) - 2,
        ShutdownStage::Unlink { at } => 6 * (len - at) - 3,
        ShutdownStage::Finished => 0,
    }
}

/// All commands of the rest of a shutdown.
pub open spec fn shutdown_played(
    entries: Seq<(ActorCell, ChildSpec)>,
    stage: ShutdownStage,
    world: ShutdownWorld,
) -> Seq<ShutdownCommand>
    decreases shutdown_steps_left(entries.len(), stage),
    when shutdown_fits(entries, stage) && entries.len() <= usize::MAX
{
    if stage is Finished {
        Seq::empty()
    } else {
        let (next, command) = shutdown_step(entries, stage, shutdown_answer(stage, world));
        seq![command] + shutdown_played(entries, next, world)
    }
}

/// The commands that shut down the child `at`: it is told to stop, and killed if it does not
/// within its own timeout; it is asked whether it has stopped, and killed if it has not; and it
/// forgets its supervisor.
pub open spec fn child_shutdown(
    entries: Seq<(ActorCell, ChildSpec)>,
    at: int,
    world: ShutdownWorld,
) -> Seq<ShutdownCommand> {
    let (cell, spec) = entries[at];
    let stop = ShutdownCommand::StopAndWait { cell, timeout: spec.shutdown_timeout };
    let kill = ShutdownCommand::Kill { cell };
    let ask = ShutdownCommand::GetStatus { cell };
    let unlink = ShutdownCommand::ClearSupervisor { cell };
    (if (world.stops)(at) {
        seq![stop]
    } else {
        seq![stop, kill]
    }) + (if (world.is_stopped)(at) {
        seq![ask, unlink]
    } else {
        seq![ask, kill, unlink]
    })
}

/// The commands that shut down the entries from `at` on, one after the other.
pub open spec fn shutdown_commands(
    entries: Seq<(ActorCell, ChildSpec)>,
    at: int,
    world: ShutdownWorld,
) -> Seq<ShutdownCommand>
    decreases entries.len() - at,
{
    if at >= entries.len() {
        seq![ShutdownCommand::Finished]
    } else {
        child_shutdown(entries, at, world) + shutdown_commands(entries, at + 1, world)
    }
}

proof fn lemma_shutdown_from(
    entries: Seq<(ActorCell, ChildSpec)>,
    at: usize,
    world: ShutdownWorld,
)
    requires
        at <= entries.len() <= usize::MAX,
    ensures
        shutdown_played(entries, ShutdownStage::Stop { at }, world) == shutdown_commands(
            entries,
            at as int,
            world,
        ),
    decreases entries.len() - at,
{
    let here = ShutdownStage::Stop { at };
    if at < entries.len() {
        let (cell, spec) = entries[at as int];
        let stop = ShutdownCommand::StopAndWait { cell, timeout: spec.shutdown_timeout };
        let kill = ShutdownCommand::Kill { cell };
        let ask = ShutdownCommand::GetStatus { cell };
        let unlink = ShutdownCommand::ClearSupervisor { cell };
        let then = ShutdownStage::Stop { at: (at + 1) as usize };
        let rest = shutdown_played(entries, then, world);
        lemma_shutdown_from(entries, (at + 1) as usize, world);

        let status = ShutdownStage::AwaitStatus { at };
        let end = if (world.is_stopped)(at as int) {
            seq![unlink]
        } else {
            seq![kill, unlink]
        };
        let left = shutdown_played(entries, status, world);
        if !(world.is_stopped)(at as int) {
            let clear = ShutdownStage::Unlink { at };
            assert(shutdown_played(entries, clear, world) == seq![unlink] + rest);
        }
        assert(left =~= end + rest);

        let waiting = ShutdownStage::AwaitStop { at };
        let begin = if (world.stops)(at as int) {
            seq![ask]
        } else {
            seq![kill, ask]
        };
        if !(world.stops)(at as int) {
            assert(shutdown_played(entries, ShutdownStage::Ask { at }, world) == seq![ask] + left);
        }
        assert(shutdown_played(entries, waiting, world) =~= begin + left);
        assert(shutdown_played(entries, here, world) == seq![stop] + (begin + left));
        assert(shutdown_played(entries, here, world) =~= child_shutdown(entries, at as int, world)
            + rest);
    } else {
        assert(shutdown_played(entries, ShutdownStage::Finished, world) =~= Seq::empty());
        assert(shutdown_played(entries, here, world) =~= seq![ShutdownCommand::Finished]);
    }
}

/// A graceful shutdown of these children goes through them from the last to the first, one after
/// the other: each is told to stop and given as long as its own spec says, is killed if it is
/// still there after that, and is unlinked.
pub proof fn law_graceful_shutdown(children: Seq<(ActorCell, ChildSpec)>, world: ShutdownWorld)
    requires
        children.len() <= usize::MAX,
    ensures
        shutdown_played(children.reverse(), ShutdownStage::Stop { at: 0 }, world)
            == shutdown_commands(children.reverse(), 0, world),
        forall|i: int|
            0 <= i < children.len() ==> #[trigger] children.reverse()[i] == children[children.len()
                - 1 - i],
{
    lemma_shutdown_from(children.reverse(), 0, world);
}

/// A graceful shutdown goes through the children in reverse start order, whatever was linked and
/// removed before it. `trees` are the children of the tree, empty at first, before the first
/// operation and after each.
pub proof fn law_shutdown_in_reverse_start_order(
    ops: Seq<TreeOp>,
    trees: Seq<Seq<(ActorCell, ChildSpec)>>,
)
    requires
        trees.len() == ops.len() + 1,
        trees[0] == Seq::<(ActorCell, ChildSpec)>::empty(),
        forall|k: int|
            0 <= k < ops.len() ==> applied(#[trigger] trees[k], ops[k], trees[k + 1]),
    ensures
        cells_of(trees.last().reverse()) == start_order(ops).reverse(),
{
    law_start_order(ops, trees);
    assert(cells_of(trees.last().reverse()) =~= cells_of(trees.last()).reverse());
}

/// A reply to no command that is outstanding is turned down and changes nothing.
pub proof fn law_shutdown_out_of_turn(
    entries: Seq<(ActorCell, ChildSpec)>,
    stage: ShutdownStage,
    reply: ShutdownReply,
)
    requires
        match stage {
            ShutdownStage::Stop { .. } => reply !is Ready,
            ShutdownStage::AwaitStop { .. } => reply !is Stopped,
            ShutdownStage::Ask { .. } => reply !is Ready,
            ShutdownStage::AwaitStatus { .. } => reply !is IsStopped,
            ShutdownStage::Unlink { .. } => reply !is Ready,
            ShutdownStage::Finished => true,
        },
    ensures
        shutdown_step(entries, stage, reply) == (stage, ShutdownCommand::OutOfTurn),
{
}

} // verus!
