//! What an actor asks of all of its children at once.

use crate::actor::ActorCell;
use crate::supervision::ChildSpec;
use crate::time::Duration;
use crate::tree::{SupervisionTree, TreeView};
use vstd::prelude::*;

verus! {

/// What the caller does to one actor.
#[derive(Debug)]
pub enum CellCommand {
    /// Tell the actor to stop, for a reason if there is one.
    Stop { cell: ActorCell, reason: Option<String> },
    /// Tell the actor to finish what it was sent and then stop.
    Drain { cell: ActorCell },
    /// Terminate the actor and those below it.
    Terminate { cell: ActorCell },
    /// Make the actor forget its supervisor.
    ClearSupervisor { cell: ActorCell },
}

/// What the caller waits for in a task of its own.
#[derive(Debug)]
pub enum WaitTask {
    /// Tell the actor to stop and wait for it, no longer than the timeout if there is one.
    StopAndWait { cell: ActorCell, reason: Option<String>, timeout: Option<Duration> },
    /// Drain the actor and wait for it, no longer than the timeout if there is one.
    DrainAndWait { cell: ActorCell, timeout: Option<Duration> },
}

impl SupervisionTree {
    /// Terminate all your supervised children and unlink them
    /// from the supervision tree since the supervisor is shutting down
    /// and can't deal with supervision events anyways.
    ///
    /// Each child, in the order of the tree, is terminated and then forgets its supervisor.
    pub fn terminate_all_children(&mut self) -> (commands: Vec<CellCommand>)
        requires
            old(self).wf(),
        ensures
            final(self).wf(),
            final(self)@ == (TreeView { children: Seq::empty(), ..old(self)@ }),
            commands@.len() == 2 * old(self)@.children.len(),
            forall|i: int|
                #![trigger old(self)@.children[i]]
                0 <= i < old(self)@.children.len() ==> {
                    &&& commands@[2 * i] == CellCommand::Terminate {
                        cell: old(self)@.children[i].0,
                    }
                    &&& commands@[2 * i + 1] == CellCommand::ClearSupervisor {
                        cell: old(self)@.children[i].0,
                    }
                },
    {
        let entries = self.take_entries();
        let mut commands: Vec<CellCommand> = Vec::new();
        for i in 0..entries.len()
            invariant
                commands@.len() == 2 * i,
                forall|j: int|
                    #![trigger entries@[j]]
                    0 <= j < i ==> {
                        &&& commands@[2 * j] == CellCommand::Terminate { cell: entries@[j].0 }
                        &&& commands@[2 * j + 1] == CellCommand::ClearSupervisor {
                            cell: entries@[j].0,
                        }
                    },
        {
            let cell = entries[i].0;
            commands.push(CellCommand::Terminate { cell });
            commands.push(CellCommand::ClearSupervisor { cell });
        }
        commands
    }

    /// Stop all the linked children, but does NOT unlink them (stop flow will do that).
    pub fn stop_all_children(&self, reason: Option<String>) -> (commands: Vec<CellCommand>)
        ensures
            commands@ == self@.children.map_values(
                |child: (ActorCell, ChildSpec)| CellCommand::Stop { cell: child.0, reason },
            ),
    {
        let cells = self.get_children();
        let mut commands: Vec<CellCommand> = Vec::new();
        for i in 0..cells.len()
            invariant
                commands@.len() == i,
                forall|j: int|
                    0 <= j < i ==> #[trigger] commands@[j] == (CellCommand::Stop {
                        cell: cells@[j],
                        reason,
                    }),
        {
            commands.push(CellCommand::Stop { cell: cells[i], reason: reason.clone() });
        }
        commands
    }

    /// Drain all the linked children, but does NOT unlink them.
    pub fn drain_all_children(&self) -> (commands: Vec<CellCommand>)
        ensures
            commands@ == self@.children.map_values(
                |child: (ActorCell, ChildSpec)| CellCommand::Drain { cell: child.0 },
            ),
    {
        let cells = self.get_children();
        let mut commands: Vec<CellCommand> = Vec::new();
        for i in 0..cells.len()
            invariant
                commands@.len() == i,
                forall|j: int|
                    0 <= j < i ==> #[trigger] commands@[j] == (CellCommand::Drain {
                        cell: cells@[j],
                    }),
        {
            commands.push(CellCommand::Drain { cell: cells[i] });
        }
        commands
    }

    /// Stop all the linked children, but does NOT unlink them (stop flow will do that),
    /// and wait for them to exit (concurrently).
    ///
    /// Each task runs on its own; [`join_step`] says what becomes of their ends.
    pub fn stop_all_children_and_wait(
        &self,
        reason: Option<String>,
        timeout: Option<Duration>,
    ) -> (tasks: Vec<WaitTask>)
        ensures
            tasks@ == self@.children.map_values(
                |child: (ActorCell, ChildSpec)|
                    WaitTask::StopAndWait { cell: child.0, reason, timeout },
            ),
    {
        let cells = self.get_children();
        let mut tasks: Vec<WaitTask> = Vec::new();
        for i in 0..cells.len()
            invariant
                tasks@.len() == i,
                forall|j: int|
                    0 <= j < i ==> #[trigger] tasks@[j] == (WaitTask::StopAndWait {
                        cell: cells@[j],
                        reason,
                        timeout,
                    }),
        {
            tasks.push(WaitTask::StopAndWait { cell: cells[i], reason: reason.clone(), timeout });
        }
        tasks
    }

    /// Drain all the linked children, but does NOT unlink them, and wait for them to exit
    /// (concurrently).
    ///
    /// Each task runs on its own; [`join_step`] says what becomes of their ends.
    pub fn drain_all_children_and_wait(&self, timeout: Option<Duration>) -> (tasks: Vec<WaitTask>)
        ensures
            tasks@ == self@.children.map_values(
                |child: (ActorCell, ChildSpec)| WaitTask::DrainAndWait { cell: child.0, timeout },
            ),
    {
        let cells = self.get_children();
        let mut tasks: Vec<WaitTask> = Vec::new();
        for i in 0..cells.len()
            invariant
                tasks@.len() == i,
                forall|j: int|
                    0 <= j < i ==> #[trigger] tasks@[j] == (WaitTask::DrainAndWait {
                        cell: cells@[j],
                        timeout,
                    }),
        {
            tasks.push(WaitTask::DrainAndWait { cell: cells[i], timeout });
        }
        tasks
    }
}

/// Why a task has no result.
#[derive(Debug, Clone, Copy, PartialEq, Eq, Structural)]
pub enum JoinError {
    /// It panicked.
    Panic,
    /// It was cancelled.
    Cancelled,
}

/// What follows when a task has ended.
#[derive(Debug, Clone, Copy, PartialEq, Eq, Structural)]
pub enum JoinStep {
    /// Wait for the next one.
    Wait,
    /// All tasks have ended.
    Done,
    /// Go on with the task's panic.
    ResumeUnwind,
    /// Panic with the error.
    Panic,
}

/// What follows when the next of a set of tasks has ended so, `None` if there was none left.
/// Whether an actor stopped in time makes no difference; a panic of a task is passed on, and a
/// task that was cancelled is one.
pub fn join_step(ended: Option<Result<(), JoinError>>) -> (step: JoinStep)
    ensures
        ended is None <==> step is Done,
        ended matches Some(Ok(_)) <==> step is Wait,
        ended == Some(Err::<(), JoinError>(JoinError::Panic)) <==> step is ResumeUnwind,
        ended == Some(Err::<(), JoinError>(JoinError::Cancelled)) <==> step is Panic,
{
    match ended {
        None => JoinStep::Done,
        Some(Ok(_)) => JoinStep::Wait,
        Some(Err(JoinError::Panic)) => JoinStep::ResumeUnwind,
        Some(Err(JoinError::Cancelled)) => JoinStep::Panic,
    }
}

} // verus!
