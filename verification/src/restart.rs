//! Restarting children: which are stopped, which are started, and in what order.

use crate::actor::ActorCell;
use crate::supervision::{ChildSpec, RestartPolicy};
use crate::supervisor::{
    ChildEntry, ChildStarter, StateView, SupervisionStrategy, SupervisorState,
};
use crate::time::Duration;
use std::sync::Arc;
use vstd::prelude::*;

verus! {

/// How far a restart has come.
#[derive(Debug, Clone, Copy, PartialEq, Eq, Structural)]
pub enum RestartStage {
    /// The live children below this index are still to be stopped, from the last down.
    Stop { below: usize },
    /// `cell`, which was child `idx`, was told to stop.
    AwaitStop { idx: usize, cell: ActorCell },
    /// Child `idx` is the next to be started.
    Start { idx: usize },
    /// The starter of child `idx` is running.
    AwaitStart { idx: usize },
    /// Nothing is left to do.
    Finished,
}

/// A restart under way: of the children from `first` up to and without `end`.
#[derive(Debug, Clone, Copy, PartialEq, Eq, Structural)]
pub struct Restart {
    /// The first child that is restarted.
    pub first: usize,
    /// One past the last.
    pub end: usize,
    /// What comes next.
    pub stage: RestartStage,
}

/// What the caller does next on behalf of a restart.
pub enum RestartCommand<F, E> {
    /// Tell the actor to stop, without a reason, and wait for as long as `timeout`.
    StopAndWait { cell: ActorCell, timeout: Duration },
    /// Kill the actor.
    Kill { cell: ActorCell },
    /// Run the starter with the supervisor's own cell and wait for it.
    Start { starter: ChildStarter<F> },
    /// Link the actor to the supervisor, under `spec`.
    Link { cell: ActorCell, spec: ChildSpec },
    /// The restart is over, with this result.
    Finished(Result<(), E>),
    /// The reply was to no command that is outstanding; nothing has changed.
    OutOfTurn,
}

/// What the caller has to say before the next step.
pub enum RestartReply<E> {
    /// Nothing: at the first step, and after a command that yields nothing.
    Ready,
    /// Whether the actor stopped in time.
    Stopped(bool),
    /// What the starter gave.
    Started(Result<ActorCell, E>),
}

/// Restart a single child by index.
pub fn restart_child<F>(state: &SupervisorState<F>, idx: usize) -> (restart: Restart)
    requires
        idx < state.children.len(),
    ensures
        restart == one_child(idx as int),
        restart.fits(state@.children),
{
    Restart { first: idx, end: idx + 1, stage: RestartStage::Start { idx } }
}

/// Stop all children in reverse order, then restart all in forward order, but for temporary
/// children, which are never restarted.
pub fn restart_all<F>(state: &SupervisorState<F>) -> (restart: Restart)
    ensures
        restart == stop_then_start(0, state@.children.len() as int),
        restart.fits(state@.children),
{
    let end: usize = state.children.len();
    Restart { first: 0, end, stage: RestartStage::Stop { below: end } }
}

/// Stop the children from the last down to the failed one, then restart them (including the
/// failed child) in forward order, but for temporary children, which are never restarted.
pub fn restart_rest<F>(state: &SupervisorState<F>, failed_idx: usize) -> (restart: Restart)
    ensures
        restart == stop_then_start(failed_idx as int, state@.children.len() as int),
        restart.fits(state@.children),
{
    let end: usize = state.children.len();
    Restart { first: failed_idx, end, stage: RestartStage::Stop { below: end } }
}

/// The restart of one child, which is dead already.
pub open spec fn one_child(idx: int) -> Restart {
    Restart {
        first: idx as usize,
        end: (idx + 1) as usize,
        stage: RestartStage::Start { idx: idx as usize },
    }
}

/// The restart of all children from `first` on, of which there are `end` in all.
pub open spec fn stop_then_start(first: int, end: int) -> Restart {
    Restart {
        first: first as usize,
        end: end as usize,
        stage: RestartStage::Stop { below: end as usize },
    }
}

/// The restart that the strategy asks for when child `idx` of `len` has failed.
pub open spec fn restart_plan(strategy: SupervisionStrategy, idx: int, len: int) -> Restart {
    match strategy {
        SupervisionStrategy::OneForOne => one_child(idx),
        SupervisionStrategy::OneForAll => stop_then_start(0, len),
        SupervisionStrategy::RestForOne => stop_then_start(idx, len),
    }
}

/// The children with the cell of one of them replaced.
pub open spec fn with_cell<F>(
    children: Seq<ChildEntry<F>>,
    idx: int,
    cell: Option<ActorCell>,
) -> Seq<ChildEntry<F>> {
    children.update(idx, ChildEntry { cell, ..children[idx] })
}

/// The last live child from `first` on and below `below`, if there is any.
pub open spec fn last_live<F>(children: Seq<ChildEntry<F>>, first: int, below: int) -> Option<int>
    decreases below - first,
{
    if below <= first {
        None
    } else if children[below - 1].cell is Some {
        Some(below - 1)
    } else {
        last_live(children, first, below - 1)
    }
}

/// Whether a child is never restarted.
pub open spec fn is_temporary<F>(entry: ChildEntry<F>) -> bool {
    entry.spec.restart_policy == RestartPolicy::Temporary
}

/// The first child from `idx` on and below `end` that is not temporary, `end` if there is none.
pub open spec fn next_due<F>(children: Seq<ChildEntry<F>>, idx: int, end: int) -> int
    decreases end - idx,
{
    if idx < end && is_temporary(children[idx]) {
        next_due(children, idx + 1, end)
    } else {
        idx
    }
}

impl Restart {
    /// Whether this is a restart of these children.
    pub open spec fn fits<F>(self, children: Seq<ChildEntry<F>>) -> bool {
        &&& self.end <= children.len()
        &&& match self.stage {
            RestartStage::Stop { below } => below <= self.end,
            RestartStage::AwaitStop { idx, cell } => self.first <= idx < self.end,
            RestartStage::Start { idx } => self.first <= idx,
            RestartStage::AwaitStart { idx } => self.first <= idx < self.end,
            RestartStage::Finished => true,
        }
    }

    /// The same restart at another stage.
    pub open spec fn at(self, stage: RestartStage) -> Restart {
        Restart { stage, ..self }
    }

    /// What follows when child `idx` is the next to be started: its starter is run, unless
    /// there is no such child.
    pub open spec fn to_start<F, E>(self, children: Seq<ChildEntry<F>>, idx: usize) -> (
        Restart,
        Seq<ChildEntry<F>>,
        RestartCommand<F, E>,
    ) {
        if idx < self.end {
            (
                self.at(RestartStage::AwaitStart { idx }),
                children,
                RestartCommand::Start { starter: children[idx as int].starter },
            )
        } else {
            (self.at(RestartStage::Finished), children, RestartCommand::Finished(Ok(())))
        }
    }

    /// What follows when the live children below `below` are still to be stopped: the last of
    /// them is taken and told to stop; if there is none, starting begins, with the first child
    /// that is not temporary.
    pub open spec fn to_stop<F, E>(self, children: Seq<ChildEntry<F>>, below: usize) -> (
        Restart,
        Seq<ChildEntry<F>>,
        RestartCommand<F, E>,
    ) {
        match last_live(children, self.first as int, below as int) {
            Some(idx) => {
                let cell = children[idx].cell->0;
                (
                    self.at(RestartStage::AwaitStop { idx: idx as usize, cell }),
                    with_cell(children, idx, None),
                    RestartCommand::StopAndWait {
                        cell,
                        timeout: children[idx].spec.shutdown_timeout,
                    },
                )
            },
            None => self.to_start(
                children,
                next_due(children, self.first as int, self.end as int) as usize,
            ),
        }
    }

    /// The restart, the children and the command after a step.
    pub open spec fn stepped<F, E>(self, children: Seq<ChildEntry<F>>, reply: RestartReply<E>) -> (
        Restart,
        Seq<ChildEntry<F>>,
        RestartCommand<F, E>,
    ) {
        match (self.stage, reply) {
            (RestartStage::Stop { below }, RestartReply::Ready) => self.to_stop(children, below),
            (RestartStage::AwaitStop { idx, cell }, RestartReply::Stopped(in_time)) => if in_time {
                self.to_stop(children, idx)
            } else {
                (
                    self.at(RestartStage::Stop { below: idx }),
                    children,
                    RestartCommand::Kill { cell },
                )
            },
            (RestartStage::Start { idx }, RestartReply::Ready) => self.to_start(children, idx),
            (RestartStage::AwaitStart { idx }, RestartReply::Started(Ok(cell))) => (
                self.at(
                    RestartStage::Start {
                        idx: next_due(children, idx + 1, self.end as int) as usize,
                    },
                ),
                with_cell(children, idx as int, Some(cell)),
                RestartCommand::Link { cell, spec: children[idx as int].spec },
            ),
            (RestartStage::AwaitStart { idx }, RestartReply::Started(Err(err))) => (
                self.at(RestartStage::Finished),
                with_cell(children, idx as int, None),
                RestartCommand::Finished(Err(err)),
            ),
            _ => (self, children, RestartCommand::OutOfTurn),
        }
    }
}

/// Calls `Arc::clone`: the copy points to the same starter.
#[verifier::external_body]
pub(crate) fn share<F>(starter: &ChildStarter<F>) -> (shared: ChildStarter<F>)
    ensures
        shared == *starter,
{
    Arc::clone(starter)
}

/// Where there is a live child from `first` on and below `below`, it lies there.
pub proof fn lemma_last_live_in_range<F>(children: Seq<ChildEntry<F>>, first: int, below: int)
    ensures
        last_live(children, first, below) matches Some(idx) ==> first <= idx < below
            && children[idx].cell is Some,
    decreases below - first,
{
    if first < below && children[below - 1].cell is None {
        lemma_last_live_in_range(children, first, below - 1);
    }
}

/// The next child that is due lies from `idx` on, and no further than `end`, and none before it
/// is due.
pub proof fn lemma_next_due<F>(children: Seq<ChildEntry<F>>, idx: int, end: int)
    ensures
        idx <= next_due(children, idx, end),
        idx <= end ==> next_due(children, idx, end) <= end,
        next_due(children, idx, end) < end ==> !is_temporary(
            children[next_due(children, idx, end)],
        ),
        forall|i: int|
            idx <= i < next_due(children, idx, end) ==> is_temporary(#[trigger] children[i]),
    decreases end - idx,
{
    if idx < end && is_temporary(children[idx]) {
        lemma_next_due(children, idx + 1, end);
    }
}

impl Restart {
    /// Takes the restart one step on: `reply` answers the last command, and the next one comes
    /// back. The first step, and each that follows a command which yields nothing, is `Ready`.
    pub fn step<F, E>(
        &mut self,
        state: &mut SupervisorState<F>,
        reply: RestartReply<E>,
    ) -> (command: RestartCommand<F, E>)
        requires
            old(self).fits(old(state)@.children),
        ensures
            (*final(self), final(state)@.children, command) == old(self).stepped(
                old(state)@.children,
                reply,
            ),
            final(state)@ == (StateView { children: final(state)@.children, ..old(state)@ }),
            final(state).clock == old(state).clock,
            final(state).readings == old(state).readings,
            final(self).fits(final(state)@.children),
    {
        match (self.stage, reply) {
            (RestartStage::Stop { below }, RestartReply::Ready) => self.next_stop(state, below),
            (RestartStage::AwaitStop { idx, cell }, RestartReply::Stopped(in_time)) => {
                if in_time {
                    self.next_stop(state, idx)
                } else {
                    self.stage = RestartStage::Stop { below: idx };
                    RestartCommand::Kill { cell }
                }
            },
            (RestartStage::Start { idx }, RestartReply::Ready) => self.next_start(state, idx),
            (RestartStage::AwaitStart { idx }, RestartReply::Started(Ok(cell))) => {
                let spec = state.children[idx].spec;
                let next = self.skip_temporary(state, idx + 1);
                state.children[idx].cell = Some(cell);
                self.stage = RestartStage::Start { idx: next };
                RestartCommand::Link { cell, spec }
            },
            (RestartStage::AwaitStart { idx }, RestartReply::Started(Err(err))) => {
                state.children[idx].cell = None;
                self.stage = RestartStage::Finished;
                RestartCommand::Finished(Err(err))
            },
            _ => RestartCommand::OutOfTurn,
        }
    }

    /// Tells the last live child below `below` to stop, or begins to start children.
    fn next_stop<F, E>(
        &mut self,
        state: &mut SupervisorState<F>,
        below: usize,
    ) -> (command: RestartCommand<F, E>)
        requires
            old(self).end <= old(state)@.children.len(),
            below <= old(self).end,
        ensures
            (*final(self), final(state)@.children, command) == old(self).to_stop::<F, E>(
                old(state)@.children,
                below,
            ),
            final(state)@ == (StateView { children: final(state)@.children, ..old(state)@ }),
            final(state).clock == old(state).clock,
            final(state).readings == old(state).readings,
            final(self).fits(final(state)@.children),
    {
        let mut idx: usize = below;
        while idx > self.first
            invariant
                idx <= below,
                below <= self.end,
                *self == *old(self),
                state@ == old(state)@,
                state.clock == old(state).clock,
                state.readings == old(state).readings,
                self.end <= state.children@.len(),
                last_live(state.children@, self.first as int, idx as int) == last_live(
                    state.children@,
                    self.first as int,
                    below as int,
                ),
            decreases idx,
        {
            idx = idx - 1;
            let timeout = state.children[idx].spec.shutdown_timeout;
            if let Some(cell) = state.children[idx].cell.take() {
                self.stage = RestartStage::AwaitStop { idx, cell };
                return RestartCommand::StopAndWait { cell, timeout };
            }
            assert(state.children@ =~= old(state).children@);
        }
        let first = self.skip_temporary(state, self.first);
        self.next_start(state, first)
    }

    /// The first child from `idx` on that is not temporary.
    fn skip_temporary<F>(&self, state: &SupervisorState<F>, idx: usize) -> (next: usize)
        requires
            self.end <= state@.children.len(),
        ensures
            next == next_due(state@.children, idx as int, self.end as int),
            next >= idx,
    {
        let mut next: usize = idx;
        while next < self.end && state.children[next].spec.restart_policy
            == RestartPolicy::Temporary
            invariant
                idx <= next,
                self.end <= state.children@.len(),
                next_due(state.children@, next as int, self.end as int) == next_due(
                    state.children@,
                    idx as int,
                    self.end as int,
                ),
            decreases self.end - next,
        {
            next = next + 1;
        }
        next
    }

    /// Runs the starter of child `idx`, or finishes if there is none.
    fn next_start<F, E>(
        &mut self,
        state: &SupervisorState<F>,
        idx: usize,
    ) -> (command: RestartCommand<F, E>)
        requires
            old(self).end <= state@.children.len(),
            old(self).first <= idx,
        ensures
            (*final(self), state@.children, command) == old(self).to_start::<F, E>(state@.children, idx),
            final(self).fits(state@.children),
    {
        if idx < self.end {
            self.stage = RestartStage::AwaitStart { idx };
            RestartCommand::Start { starter: share(&state.children[idx].starter) }
        } else {
            self.stage = RestartStage::Finished;
            RestartCommand::Finished(Ok(()))
        }
    }
}

} // verus!
