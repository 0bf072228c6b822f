//! Shutting down all children of an actor in an orderly way.

use crate::actor::ActorCell;
use crate::supervision::ChildSpec;
use crate::time::Duration;
use crate::tree::{SupervisionTree, TreeView};
use vstd::prelude::*;

verus! {

/// How far a shutdown has come.
#[derive(Debug, Clone, Copy, PartialEq, Eq, Structural)]
pub enum ShutdownStage {
    /// The entry `at` is the next to be stopped, if there is one.
    Stop { at: usize },
    /// The entry `at` was told to stop.
    AwaitStop { at: usize },
    /// Whether the entry `at` is gone is to be asked.
    Ask { at: usize },
    /// Whether the entry `at` is gone was asked.
    AwaitStatus { at: usize },
    /// The entry `at` is to be unlinked.
    Unlink { at: usize },
    /// Nothing is left to do.
    Finished,
}

/// A shutdown under way: of these children, one after the other.
#[derive(Debug)]
pub struct Shutdown {
    /// The children with their specs, in the order in which they are shut down.
    pub entries: Vec<(ActorCell, ChildSpec)>,
    /// What comes next.
    pub stage: ShutdownStage,
}

/// What the caller does next on behalf of a shutdown.
#[derive(Debug, Clone, Copy, PartialEq, Eq, Structural)]
pub enum ShutdownCommand {
    /// Tell the actor to stop, without a reason, and wait for as long as `timeout`.
    StopAndWait { cell: ActorCell, timeout: Duration },
    /// Kill the actor.
    Kill { cell: ActorCell },
    /// Find out whether the actor has stopped.
    GetStatus { cell: ActorCell },
    /// Make the actor forget its supervisor.
    ClearSupervisor { cell: ActorCell },
    /// The shutdown is over.
    Finished,
    /// The reply was to no command that is outstanding; nothing has changed.
    OutOfTurn,
}

/// What the caller has to say before the next step.
#[derive(Debug, Clone, Copy, PartialEq, Eq, Structural)]
pub enum ShutdownReply {
    /// Nothing: at the first step, and after a command that yields nothing.
    Ready,
    /// Whether the actor stopped in time.
    Stopped(bool),
    /// Whether the actor's status is that it has stopped.
    IsStopped(bool),
}

/// The stage and the command after a step in the shutdown of these entries.
pub open spec fn shutdown_step(
    entries: Seq<(ActorCell, ChildSpec)>,
    stage: ShutdownStage,
    reply: ShutdownReply,
) -> (ShutdownStage, ShutdownCommand) {
    match (stage, reply) {
        (ShutdownStage::Stop { at }, ShutdownReply::Ready) => if at < entries.len() {
            (
                ShutdownStage::AwaitStop { at },
                ShutdownCommand::StopAndWait {
                    cell: entries[at as int].0,
                    timeout: entries[at as int].1.shutdown_timeout,
                },
            )
        } else {
            (ShutdownStage::Finished, ShutdownCommand::Finished)
        },
        (ShutdownStage::AwaitStop { at }, ShutdownReply::Stopped(in_time)) => if in_time {
            (
                ShutdownStage::AwaitStatus { at },
                ShutdownCommand::GetStatus { cell: entries[at as int].0 },
            )
        } else {
            (ShutdownStage::Ask { at }, ShutdownCommand::Kill { cell: entries[at as int].0 })
        },
        (ShutdownStage::Ask { at }, ShutdownReply::Ready) => (
            ShutdownStage::AwaitStatus { at },
            ShutdownCommand::GetStatus { cell: entries[at as int].0 },
        ),
        (ShutdownStage::AwaitStatus { at }, ShutdownReply::IsStopped(stopped)) => if stopped {
            (
                ShutdownStage::Stop { at: (at + 1) as usize },
                ShutdownCommand::ClearSupervisor { cell: entries[at as int].0 },
            )
        } else {
            (ShutdownStage::Unlink { at }, ShutdownCommand::Kill { cell: entries[at as int].0 })
        },
        (ShutdownStage::Unlink { at }, ShutdownReply::Ready) => (
            ShutdownStage::Stop { at: (at + 1) as usize },
            ShutdownCommand::ClearSupervisor { cell: entries[at as int].0 },
        ),
        _ => (stage, ShutdownCommand::OutOfTurn),
    }
}

/// Whether this is a stage in the shutdown of these entries.
pub open spec fn shutdown_fits(
    entries: Seq<(ActorCell, ChildSpec)>,
    stage: ShutdownStage,
) -> bool {
    match stage {
        ShutdownStage::Stop { at } => at <= entries.len(),
        ShutdownStage::AwaitStop { at } => at < entries.len(),
        ShutdownStage::Ask { at } => at < entries.len(),
        ShutdownStage::AwaitStatus { at } => at < entries.len(),
        ShutdownStage::Unlink { at } => at < entries.len(),
        ShutdownStage::Finished => true,
    }
}

impl SupervisionTree {
    /// Gracefully shut down all children, each with its own timeout, and kill any survivors.
    ///
    /// Sends `stop` to each child, the one that is last in the tree first, and waits as long as
    /// its spec says for it to exit. Any child still alive after that is forcefully killed.
    /// Clears the children of the tree and unlinks all children from this supervisor.
    pub fn graceful_shutdown_all_children(&mut self) -> (shutdown: Shutdown)
        requires
            old(self).wf(),
        ensures
            final(self).wf(),
            final(self)@ == (TreeView { children: Seq::empty(), ..old(self)@ }),
            shutdown.entries@ == old(self)@.children.reverse(),
            shutdown.stage == (ShutdownStage::Stop { at: 0 }),
            shutdown_fits(shutdown.entries@, shutdown.stage),
    {
        let children = self.take_entries();
        let mut entries: Vec<(ActorCell, ChildSpec)> = Vec::new();
        let mut left: usize = children.len();
        while left > 0
            invariant
                left + entries@.len() == children@.len(),
                forall|i: int|
                    0 <= i < entries@.len() ==> #[trigger] entries@[i] == children@[children@.len()
                        - 1 - i],
            decreases left,
        {
            left = left - 1;
            entries.push(children[left]);
        }
        assert(entries@ =~= children@.reverse());
        Shutdown { entries, stage: ShutdownStage::Stop { at: 0 } }
    }
}

impl Shutdown {
    /// Takes the shutdown one step on: `reply` answers the last command, and the next one comes
    /// back. The first step, and each that follows a command which yields nothing, is `Ready`.
    pub fn step(&mut self, reply: ShutdownReply) -> (command: ShutdownCommand)
        requires
            shutdown_fits(old(self).entries@, old(self).stage),
        ensures
            final(self).entries@ == old(self).entries@,
            (final(self).stage, command) == shutdown_step(
                old(self).entries@,
                old(self).stage,
                reply,
            ),
            shutdown_fits(final(self).entries@, final(self).stage),
    {
        match (self.stage, reply) {
            (ShutdownStage::Stop { at }, ShutdownReply::Ready) => {
                if at < self.entries.len() {
                    let (cell, spec) = self.entries[at];
                    self.stage = ShutdownStage::AwaitStop { at };
                    ShutdownCommand::StopAndWait { cell, timeout: spec.shutdown_timeout }
                } else {
                    self.stage = ShutdownStage::Finished;
                    ShutdownCommand::Finished
                }
            },
            (ShutdownStage::AwaitStop { at }, ShutdownReply::Stopped(in_time)) => {
                let cell = self.entries[at].0;
                if in_time {
                    self.stage = ShutdownStage::AwaitStatus { at };
                    ShutdownCommand::GetStatus { cell }
                } else {
                    self.stage = ShutdownStage::Ask { at };
                    ShutdownCommand::Kill { cell }
                }
            },
            (ShutdownStage::Ask { at }, ShutdownReply::Ready) => {
                self.stage = ShutdownStage::AwaitStatus { at };
                ShutdownCommand::GetStatus { cell: self.entries[at].0 }
            },
            (ShutdownStage::AwaitStatus { at }, ShutdownReply::IsStopped(stopped)) => {
                let cell = self.entries[at].0;
                assert(at < self.entries.len());
                if stopped {
                    self.stage = ShutdownStage::Stop { at: at + 1 };
                    ShutdownCommand::ClearSupervisor { cell }
                } else {
                    self.stage = ShutdownStage::Unlink { at };
                    ShutdownCommand::Kill { cell }
                }
            },
            (ShutdownStage::Unlink { at }, ShutdownReply::Ready) => {
                assert(at < self.entries.len());
                self.stage = ShutdownStage::Stop { at: at + 1 };
                ShutdownCommand::ClearSupervisor { cell: self.entries[at].0 }
            },
            _ => ShutdownCommand::OutOfTurn,
        }
    }
}

} // verus!
