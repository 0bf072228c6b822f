//! What a startup does from its first command to its last.

use crate::actor::ActorCell;
use crate::builder::Config;
use crate::startup::{StartupCommandView, StartupReply, StartupStage, StartupView};
use crate::supervisor::{ChildEntry, StateView};
use vstd::prelude::*;

verus! {

/// What the starter of each child gives when run.
pub type Starts<E> = spec_fn(int) -> Result<ActorCell, E>;

impl<F> StartupView<F> {
    /// What the world says to the outstanding command.
    pub open spec fn answered<E>(self, starts: Starts<E>) -> StartupReply<E> {
        match self.stage {
            StartupStage::AwaitStart => StartupReply::Started(starts(self.children.len() as int)),
            _ => StartupReply::Ready,
        }
    }

    /// How many steps are left, at most.
    pub open spec fn steps_left(self, config: Config<F>) -> int {
        let children = config.children.len() - self.children.len();
        match self.stage {
            StartupStage::Start => 2 * children + 1,
            StartupStage::AwaitStart => 2 * children,
            StartupStage::Finished => 0,
        }
    }

    /// All commands of the rest of the startup.
    pub open spec fn played<E>(self, config: Config<F>, starts: Starts<E>) -> Seq<
        StartupCommandView<F, E>,
    >
        decreases self.steps_left(config),
        when self.fits(config)
    {
        if self.stage is Finished {
            Seq::empty()
        } else {
            let (next, command) = self.stepped(config, self.answered(starts));
            seq![command] + next.played(config, starts)
        }
    }
}

/// The first `n` children as started.
pub open spec fn started<F, E>(config: Config<F>, n: int, starts: Starts<E>) -> Seq<ChildEntry<F>> {
    Seq::new(
        n as nat,
        |i: int|
            ChildEntry {
                spec: config.children[i].0,
                starter: config.children[i].1,
                cell: Some(starts(i)->Ok_0),
            },
    )
}

/// The commands that start the configured children from `idx` on: in order, the starter of each
/// is run and what it gave is linked under the child's spec. When all are started, the
/// supervisor runs, with no restarts on record; the first starter that fails ends the startup.
pub open spec fn startup_commands<F, E>(config: Config<F>, idx: int, starts: Starts<E>) -> Seq<
    StartupCommandView<F, E>,
>
    decreases config.children.len() - idx,
{
    let len = config.children.len() as int;
    if idx >= len {
        let state = StateView {
            strategy: config.strategy,
            intensity: config.intensity,
            children: started(config, len, starts),
            restarts: Seq::empty(),
        };
        seq![StartupCommandView::Finished(Ok(state))]
    } else {
        let (spec, starter) = config.children[idx];
        let start = StartupCommandView::Start { starter };
        match starts(idx) {
            Ok(cell) => seq![start, StartupCommandView::Link { cell, spec }] + startup_commands(
                config,
                idx + 1,
                starts,
            ),
            Err(err) => seq![start, StartupCommandView::Finished(Err(err))],
        }
    }
}

proof fn lemma_startup_from<F, E>(config: Config<F>, idx: int, starts: Starts<E>)
    requires
        0 <= idx <= config.children.len(),
    ensures
        (StartupView { children: started(config, idx, starts), stage: StartupStage::Start }).played(
            config,
            starts,
        ) == startup_commands(config, idx, starts),
    decreases config.children.len() - idx,
{
    let children = started(config, idx, starts);
    let at = StartupView { children, stage: StartupStage::Start };
    let (waiting, start) = at.stepped::<E>(config, StartupReply::Ready);
    if idx < config.children.len() {
        let (next, command) = waiting.stepped::<E>(config, waiting.answered(starts));
        match starts(idx) {
            Ok(cell) => {
                assert(next.children =~= started(config, idx + 1, starts));
                lemma_startup_from(config, idx + 1, starts);
                assert(waiting.played(config, starts) == seq![command] + next.played(
                    config,
                    starts,
                ));
                assert(at.played(config, starts) =~= seq![start, command] + next.played(
                    config,
                    starts,
                ));
            },
            Err(err) => {
                assert(next.played(config, starts) =~= Seq::empty());
                assert(waiting.played(config, starts) =~= seq![command]);
                assert(at.played(config, starts) =~= seq![start, command]);
            },
        }
    } else {
        assert(waiting.played(config, starts) =~= Seq::empty());
        assert(at.played(config, starts) =~= seq![start]);
    }
}

/// A supervisor starts its children in the order in which they were registered, links each under
/// its own spec, and runs once all of them are alive. If a starter fails, the startup ends there
/// with that error, and no child after it is started.
pub proof fn law_startup<F, E>(config: Config<F>, starts: Starts<E>)
    ensures
        (StartupView::<F> { children: Seq::empty(), stage: StartupStage::Start }).played(
            config,
            starts,
        ) == startup_commands(config, 0, starts),
{
    assert(started::<F, E>(config, 0, starts) =~= Seq::empty());
    lemma_startup_from(config, 0, starts);
}

/// Whether the state is that of a supervisor which has just started as configured: it has the
/// strategy and the intensity that were configured, no restarts on record, and for each
/// configured child an entry with its spec, its starter and the cell that its starter gave.
pub open spec fn as_configured<F, E>(
    config: Config<F>,
    starts: Starts<E>,
    state: StateView<F>,
) -> bool {
    &&& state.strategy == config.strategy
    &&& state.intensity.max_restarts == config.intensity.max_restarts
    &&& state.intensity.period == config.intensity.period
    &&& state.restarts.len() == 0
    &&& state.children.len() == config.children.len()
    &&& forall|i: int|
        0 <= i < config.children.len() ==> {
            &&& (#[trigger] state.children[i]).spec == config.children[i].0
            &&& state.children[i].starter == config.children[i].1
            &&& state.children[i].cell matches Some(cell) && starts(i) == Ok::<ActorCell, E>(cell)
        }
}

proof fn lemma_startup_ends<F, E>(config: Config<F>, idx: int, starts: Starts<E>)
    requires
        0 <= idx <= config.children.len(),
        forall|i: int| 0 <= i < idx ==> #[trigger] starts(i) is Ok,
    ensures
        ({
            let commands = startup_commands(config, idx, starts);
            &&& commands.len() > 0
            &&& match commands.last() {
                StartupCommandView::Finished(Ok(state)) => {
                    &&& forall|i: int| 0 <= i < config.children.len() ==> #[trigger] starts(i) is Ok
                    &&& as_configured(config, starts, state)
                },
                StartupCommandView::Finished(Err(err)) => exists|i: int|
                    0 <= i < config.children.len() && #[trigger] starts(i) == Err::<
                        ActorCell,
                        E,
                    >(err) && forall|j: int| 0 <= j < i ==> #[trigger] starts(j) is Ok,
                _ => false,
            }
        }),
    decreases config.children.len() - idx,
{
    let commands = startup_commands(config, idx, starts);
    if idx < config.children.len() {
        match starts(idx) {
            Ok(cell) => {
                lemma_startup_ends(config, idx + 1, starts);
                let rest = startup_commands(config, idx + 1, starts);
                assert(commands.last() == rest.last());
            },
            Err(err) => {
                assert(commands.last() == StartupCommandView::<F, E>::Finished(Err(err)));
                assert(starts(idx) == Err::<ActorCell, E>(err));
            },
        }
    } else {
        assert(commands.last() is Finished);
    }
}

/// A startup succeeds if and only if every starter does, and the supervisor then runs as it was
/// configured: with the strategy, the intensity and the children that it was given, and with no
/// restarts on record. Otherwise the startup fails with the error of the first starter that does.
pub proof fn law_started_as_configured<F, E>(config: Config<F>, starts: Starts<E>)
    ensures
        ({
            let commands = (StartupView::<F> {
                children: Seq::empty(),
                stage: StartupStage::Start,
            }).played(config, starts);
            &&& commands.len() > 0
            &&& match commands.last() {
                StartupCommandView::Finished(Ok(state)) => {
                    &&& forall|i: int| 0 <= i < config.children.len() ==> #[trigger] starts(i) is Ok
                    &&& as_configured(config, starts, state)
                },
                StartupCommandView::Finished(Err(err)) => exists|i: int|
                    0 <= i < config.children.len() && #[trigger] starts(i) == Err::<
                        ActorCell,
                        E,
                    >(err) && forall|j: int| 0 <= j < i ==> #[trigger] starts(j) is Ok,
                _ => false,
            }
        }),
{
    law_startup(config, starts);
    lemma_startup_ends(config, 0, starts);
}

/// Whatever came before, a step that ends a startup with success gives the strategy and the
/// intensity of the configuration, no restarts on record, and the children that were started,
/// of which there are as many as were configured.
pub proof fn law_last_step_of_a_startup<F, E>(
    before: StartupView<F>,
    config: Config<F>,
    reply: StartupReply<E>,
    state: StateView<F>,
)
    requires
        before.fits(config),
        before.stepped(config, reply).1 == StartupCommandView::<F, E>::Finished(Ok(state)),
    ensures
        state.strategy == config.strategy,
        state.intensity.max_restarts == config.intensity.max_restarts,
        state.intensity.period == config.intensity.period,
        state.restarts.len() == 0,
        state.children == before.children,
        state.children.len() == config.children.len(),
{
}

/// A reply to no command that is outstanding is turned down and changes nothing.
pub proof fn law_startup_out_of_turn<F, E>(
    startup: StartupView<F>,
    config: Config<F>,
    reply: StartupReply<E>,
)
    requires
        match startup.stage {
            StartupStage::Start => reply !is Ready,
            StartupStage::AwaitStart => reply !is Started,
            StartupStage::Finished => true,
        },
    ensures
        startup.stepped(config, reply) == (startup, StartupCommandView::<F, E>::OutOfTurn),
{
}

} // verus!
