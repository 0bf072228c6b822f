//! Starting a supervisor's children.

use crate::actor::ActorCell;
use crate::builder::{Config, Supervisor};
use crate::readings::Readings;
use crate::restart::share;
use crate::supervision::ChildSpec;
use crate::supervisor::{ChildEntry, ChildStarter, StateView, SupervisorState};
use crate::time::Clock;
use std::collections::VecDeque;
use vstd::prelude::*;

verus! {

/// How far a startup has come.
#[derive(Debug, Clone, Copy, PartialEq, Eq, Structural)]
pub enum StartupStage {
    /// The next child is to be started, if there is one.
    Start,
    /// The starter of the next child is running.
    AwaitStart,
    /// Nothing is left to do.
    Finished,
}

/// The startup of a supervisor.
#[derive(Debug)]
pub struct Startup<F> {
    /// The children that were started.
    pub children: Vec<ChildEntry<F>>,
    /// What comes next.
    pub stage: StartupStage,
}

/// What the caller does next on behalf of a startup.
pub enum StartupCommand<F, E> {
    /// Run the starter with the supervisor's own cell and wait for it.
    Start { starter: ChildStarter<F> },
    /// Link the actor to the supervisor, under `spec`: this replaces the spec that it was
    /// linked with when it was spawned.
    Link { cell: ActorCell, spec: ChildSpec },
    /// The startup is over: the supervisor runs, or a child could not be started.
    Finished(Result<SupervisorState<F>, E>),
    /// The reply was to no command that is outstanding; nothing has changed.
    OutOfTurn,
}

/// What the caller has to say before the next step.
pub enum StartupReply<E> {
    /// Nothing: at the first step, and after a command that yields nothing.
    Ready,
    /// What the starter gave.
    Started(Result<ActorCell, E>),
}

/// How far a startup has come, and with which children.
#[verifier::ext_equal]
pub struct StartupView<F> {
    pub children: Seq<ChildEntry<F>>,
    pub stage: StartupStage,
}

/// What a startup command amounts to.
pub enum StartupCommandView<F, E> {
    Start { starter: ChildStarter<F> },
    Link { cell: ActorCell, spec: ChildSpec },
    Finished(Result<StateView<F>, E>),
    OutOfTurn,
}

impl<F> View for Startup<F> {
    type V = StartupView<F>;

    open spec fn view(&self) -> StartupView<F> {
        StartupView { children: self.children@, stage: self.stage }
    }
}

impl<F, E> View for StartupCommand<F, E> {
    type V = StartupCommandView<F, E>;

    open spec fn view(&self) -> StartupCommandView<F, E> {
        match *self {
            StartupCommand::Start { starter } => StartupCommandView::Start { starter },
            StartupCommand::Link { cell, spec } => StartupCommandView::Link { cell, spec },
            StartupCommand::Finished(Ok(state)) => StartupCommandView::Finished(Ok(state@)),
            StartupCommand::Finished(Err(err)) => StartupCommandView::Finished(Err(err)),
            StartupCommand::OutOfTurn => StartupCommandView::OutOfTurn,
        }
    }
}

/// The entry of a child that was just started.
pub open spec fn live_entry<F>(def: (ChildSpec, ChildStarter<F>), cell: ActorCell) -> ChildEntry<
    F,
> {
    ChildEntry { spec: def.0, starter: def.1, cell: Some(cell) }
}

/// The state of a supervisor that has just started these children.
pub open spec fn initial_state<F>(config: Config<F>, children: Seq<ChildEntry<F>>) -> StateView<F> {
    StateView {
        strategy: config.strategy,
        intensity: config.intensity,
        children,
        restarts: Seq::empty(),
    }
}

impl<F> StartupView<F> {
    /// Whether this is a startup of the configured children.
    pub open spec fn fits(self, config: Config<F>) -> bool {
        &&& self.children.len() <= config.children.len()
        &&& self.stage is AwaitStart ==> self.children.len() < config.children.len()
    }

    /// The startup and the command after a step.
    pub open spec fn stepped<E>(self, config: Config<F>, reply: StartupReply<E>) -> (
        StartupView<F>,
        StartupCommandView<F, E>,
    ) {
        let next = config.children[self.children.len() as int];
        match (self.stage, reply) {
            (StartupStage::Start, StartupReply::Ready) => if self.children.len()
                < config.children.len() {
                (
                    StartupView { stage: StartupStage::AwaitStart, ..self },
                    StartupCommandView::Start { starter: next.1 },
                )
            } else {
                (
                    StartupView { children: Seq::empty(), stage: StartupStage::Finished },
                    StartupCommandView::Finished(Ok(initial_state(config, self.children))),
                )
            },
            (StartupStage::AwaitStart, StartupReply::Started(Ok(cell))) => (
                StartupView {
                    children: self.children.push(live_entry(next, cell)),
                    stage: StartupStage::Start,
                },
                StartupCommandView::Link { cell, spec: next.0 },
            ),
            (StartupStage::AwaitStart, StartupReply::Started(Err(err))) => (
                StartupView { stage: StartupStage::Finished, ..self },
                StartupCommandView::Finished(Err(err)),
            ),
            _ => (self, StartupCommandView::OutOfTurn),
        }
    }
}

impl<F> Supervisor<F> {
    /// Start all children in order.
    pub fn pre_start(&self) -> (startup: Startup<F>)
        ensures
            startup@ == (StartupView::<F> { children: Seq::empty(), stage: StartupStage::Start }),
            startup@.fits(self@),
    {
        Startup { children: Vec::new(), stage: StartupStage::Start }
    }
}

impl<F> Startup<F> {
    /// Takes the startup one step on: `reply` answers the last command, and the next one comes
    /// back. The first step, and each that follows a command which yields nothing, is `Ready`.
    pub fn step<E>(&mut self, supervisor: &Supervisor<F>, reply: StartupReply<E>) -> (command:
        StartupCommand<F, E>)
        requires
            old(self)@.fits(supervisor@),
        ensures
            (final(self)@, command@) == old(self)@.stepped(supervisor@, reply),
            final(self)@.fits(supervisor@),
            command matches StartupCommand::Finished(Ok(state)) ==> {
                &&& state.strategy == supervisor.strategy
                &&& state.intensity == supervisor.intensity
                &&& state.children@ == old(self).children@
                &&& state.restart_timestamps@.len() == 0
                &&& state.readings.time() == 0
            },
    {
        let next: usize = self.children.len();
        match (self.stage, reply) {
            (StartupStage::Start, StartupReply::Ready) => {
                if next < supervisor.child_defs.len() {
                    self.stage = StartupStage::AwaitStart;
                    StartupCommand::Start { starter: share(&supervisor.child_defs[next].1) }
                } else {
                    let mut children: Vec<ChildEntry<F>> = Vec::new();
                    std::mem::swap(&mut children, &mut self.children);
                    self.stage = StartupStage::Finished;
                    let state = SupervisorState {
                        strategy: supervisor.strategy,
                        intensity: supervisor.intensity,
                        children,
                        restart_timestamps: VecDeque::new(),
                        clock: Clock::start(),
                        readings: Readings::none(),
                    };
                    assert(state@ =~= initial_state(supervisor@, old(self)@.children));
                    StartupCommand::Finished(Ok(state))
                }
            },
            (StartupStage::AwaitStart, StartupReply::Started(Ok(cell))) => {
                let spec = supervisor.child_defs[next].0;
                let starter = share(&supervisor.child_defs[next].1);
                self.children.push(ChildEntry { spec, starter, cell: Some(cell) });
                self.stage = StartupStage::Start;
                StartupCommand::Link { cell, spec }
            },
            (StartupStage::AwaitStart, StartupReply::Started(Err(err))) => {
                self.stage = StartupStage::Finished;
                StartupCommand::Finished(Err(err))
            },
            _ => StartupCommand::OutOfTurn,
        }
    }
}

} // verus!
