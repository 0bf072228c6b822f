//! A supervisor at work, with actors that exist only as numbers.

use std::cell::{Cell, RefCell};
use std::rc::Rc;
use supervisor::builder::{Supervisor, SupervisorBuilder};
use supervisor::events::SupervisionEvent;
use supervisor::restart::{RestartCommand, RestartReply};
use supervisor::startup::{StartupCommand, StartupReply};
use supervisor::supervisor::{
    handle_child_exit, ExitDecision, RestartIntensity, SupervisionStrategy, SupervisorState,
};
use supervisor::{ActorCell, ChildSpec, Duration, Instant, RestartPolicy};

type Starter = Box<dyn Fn(ActorCell) -> Result<ActorCell, String>>;

/// The cell of the supervisor itself.
const SUP_CELL: ActorCell = ActorCell { id: 1_000_000 };

/// Hands out ids for new actors.
#[derive(Clone)]
struct Ids(Rc<Cell<u64>>);

impl Ids {
    fn new() -> Ids {
        Ids(Rc::new(Cell::new(0)))
    }

    fn fresh(&self) -> ActorCell {
        self.0.set(self.0.get() + 1);
        ActorCell { id: self.0.get() }
    }
}

/// What a test watches of one child.
#[derive(Clone)]
struct Probe {
    starts: Rc<Cell<u32>>,
    cell: Rc<RefCell<Option<ActorCell>>>,
}

impl Probe {
    fn new() -> Probe {
        Probe { starts: Rc::new(Cell::new(0)), cell: Rc::new(RefCell::new(None)) }
    }

    fn starts(&self) -> u32 {
        self.starts.get()
    }

    fn latest(&self) -> ActorCell {
        self.cell.borrow().expect("child was started")
    }
}

fn make_child_starter(ids: &Ids, probe: &Probe) -> Starter {
    let ids = ids.clone();
    let probe = probe.clone();
    Box::new(move |sup| {
        assert_eq!(SUP_CELL, sup);
        probe.starts.set(probe.starts.get() + 1);
        let cell = ids.fresh();
        *probe.cell.borrow_mut() = Some(cell);
        Ok(cell)
    })
}

/// Starts well the given number of times and fails after that.
fn make_failing_starter(ids: &Ids, probe: &Probe, good: u32) -> Starter {
    let starter = make_child_starter(ids, probe);
    let probe = probe.clone();
    Box::new(move |sup| {
        if probe.starts() < good {
            starter(sup)
        } else {
            Err(String::from("no luck"))
        }
    })
}

/// A supervisor that runs in simulated time.
struct Running {
    supervisor: Supervisor<Starter>,
    state: SupervisorState<Starter>,
    /// What was asked of actors, in order.
    log: Vec<String>,
    /// Why the supervisor stopped, once it has.
    stopped: Option<String>,
    millis: u128,
}

fn spawn(builder: SupervisorBuilder<Starter>) -> Result<Running, String> {
    let supervisor = builder.build();
    let mut log = Vec::new();
    let mut startup = supervisor.pre_start();
    let mut reply = StartupReply::Ready;
    let state = loop {
        match startup.step(&supervisor, reply) {
            StartupCommand::Start { starter } => {
                reply = StartupReply::Started((*starter)(SUP_CELL));
            }
            StartupCommand::Link { cell, spec } => {
                log.push(format!("link {} {:?}", cell.id, spec.restart_policy));
                reply = StartupReply::Ready;
            }
            StartupCommand::Finished(Ok(state)) => break state,
            StartupCommand::Finished(Err(err)) => return Err(err),
            StartupCommand::OutOfTurn => panic!("out of turn"),
        }
    };
    Ok(Running { supervisor, state, log, stopped: None, millis: 0 })
}

impl Running {
    fn sleep(&mut self, millis: u128) {
        self.millis += millis;
    }

    fn handle(&mut self, evt: SupervisionEvent) -> Result<(), String> {
        let now = Instant { nanos: self.millis * 1_000_000 };
        let decision = self.supervisor.handle_supervisor_evt_at(evt, &mut self.state, now);
        self.carry_out(decision, true)
    }

    fn crash(&mut self, probe: &Probe) {
        self.handle(SupervisionEvent::ActorFailed(probe.latest())).expect("restart failed");
    }

    /// Carries out what was decided; `stops` says whether actors stop in time.
    fn carry_out(&mut self, decision: ExitDecision, stops: bool) -> Result<(), String> {
        let mut restart = match decision {
            ExitDecision::Ignore | ExitDecision::LeaveDead => return Ok(()),
            ExitDecision::StopSupervisor { reason } => {
                self.stopped = Some(reason);
                return Ok(());
            }
            ExitDecision::Restart(restart) => restart,
        };
        let mut reply = RestartReply::Ready;
        loop {
            match restart.step(&mut self.state, reply) {
                RestartCommand::StopAndWait { cell, timeout } => {
                    self.log.push(format!("stop {} {}", cell.id, timeout.nanos));
                    reply = RestartReply::Stopped(stops);
                }
                RestartCommand::Kill { cell } => {
                    self.log.push(format!("kill {}", cell.id));
                    reply = RestartReply::Ready;
                }
                RestartCommand::Start { starter } => {
                    reply = RestartReply::Started((*starter)(SUP_CELL));
                }
                RestartCommand::Link { cell, spec } => {
                    self.log.push(format!("link {} {:?}", cell.id, spec.restart_policy));
                    reply = RestartReply::Ready;
                }
                RestartCommand::Finished(result) => return result,
                RestartCommand::OutOfTurn => panic!("out of turn"),
            }
        }
    }

    fn cells(&self) -> Vec<Option<u64>> {
        self.state.children.iter().map(|entry| entry.cell.map(|cell| cell.id)).collect()
    }
}

fn five_in_ten_seconds() -> RestartIntensity {
    RestartIntensity { max_restarts: 5, period: Duration::from_secs(10) }
}

fn policy(restart_policy: RestartPolicy) -> ChildSpec {
    ChildSpec { restart_policy, ..ChildSpec::default() }
}

#[test]
fn test_one_for_one_restarts_failed_child() {
    let ids = Ids::new();
    let child = Probe::new();
    let mut sup = spawn(
        Supervisor::builder()
            .strategy(SupervisionStrategy::OneForOne)
            .restart_intensity(five_in_ten_seconds())
            .child(ChildSpec::default(), make_child_starter(&ids, &child)),
    )
    .expect("supervisor should start");

    // Initial start = 1
    sup.sleep(100);
    assert_eq!(1, child.starts());

    // Crash the child
    sup.crash(&child);

    // Restarted
    sup.sleep(500);
    assert_eq!(2, child.starts());
    assert_eq!(None, sup.stopped);
}

#[test]
fn test_temporary_child_not_restarted() {
    let ids = Ids::new();
    let child = Probe::new();
    let spec = ChildSpec { restart_policy: RestartPolicy::Temporary, ..ChildSpec::default() };
    let mut sup = spawn(
        Supervisor::builder()
            .strategy(SupervisionStrategy::OneForOne)
            .child(spec, make_child_starter(&ids, &child)),
    )
    .expect("supervisor should start");

    sup.sleep(100);
    assert_eq!(1, child.starts());

    // Crash the child
    sup.crash(&child);

    // Should NOT restart
    sup.sleep(500);
    assert_eq!(1, child.starts());
    assert_eq!(vec![None], sup.cells());
    assert!(sup.state.restart_timestamps.is_empty());
}

#[test]
fn test_restart_intensity_exceeded_kills_supervisor() {
    let ids = Ids::new();
    let child = Probe::new();
    let mut sup = spawn(
        Supervisor::builder()
            .strategy(SupervisionStrategy::OneForOne)
            .restart_intensity(RestartIntensity {
                max_restarts: 2,
                period: Duration::from_secs(10),
            })
            .child(ChildSpec::default(), make_child_starter(&ids, &child)),
    )
    .expect("supervisor should start");

    // Crash the child 3 times rapidly (intensity limit is 2)
    for _ in 0..3 {
        sup.sleep(200);
        assert_eq!(None, sup.stopped);
        sup.crash(&child);
    }

    sup.sleep(500);
    assert_eq!(
        Some(String::from("restart intensity exceeded")),
        sup.stopped,
        "supervisor should have terminated after intensity exceeded"
    );
    assert_eq!(3, child.starts());
}

#[test]
fn test_one_for_all_restarts_all_children() {
    let ids = Ids::new();
    let a = Probe::new();
    let b = Probe::new();
    let mut sup = spawn(
        Supervisor::builder()
            .strategy(SupervisionStrategy::OneForAll)
            .restart_intensity(five_in_ten_seconds())
            .child(ChildSpec::default(), make_child_starter(&ids, &a))
            .child(ChildSpec::default(), make_child_starter(&ids, &b)),
    )
    .expect("supervisor should start");

    sup.sleep(100);
    assert_eq!(1, a.starts());
    assert_eq!(1, b.starts());

    // Crash child A: both should restart
    sup.crash(&a);

    sup.sleep(500);
    assert_eq!(2, a.starts(), "child A should have restarted");
    assert_eq!(2, b.starts(), "child B should also have restarted");
}

#[test]
fn test_rest_for_one_restarts_subsequent_children() {
    let ids = Ids::new();
    let a = Probe::new();
    let b = Probe::new();
    let c = Probe::new();
    let mut sup = spawn(
        Supervisor::builder()
            .strategy(SupervisionStrategy::RestForOne)
            .restart_intensity(five_in_ten_seconds())
            .child(ChildSpec::default(), make_child_starter(&ids, &a))
            .child(ChildSpec::default(), make_child_starter(&ids, &b))
            .child(ChildSpec::default(), make_child_starter(&ids, &c)),
    )
    .expect("supervisor should start");

    sup.sleep(100);
    assert_eq!(1, a.starts());
    assert_eq!(1, b.starts());
    assert_eq!(1, c.starts());

    // Crash child B: B and C should restart, A should NOT
    sup.crash(&b);

    sup.sleep(500);
    assert_eq!(1, a.starts(), "child A should NOT have restarted");
    assert_eq!(2, b.starts(), "child B should have restarted");
    assert_eq!(2, c.starts(), "child C should have restarted");
}

#[test]
fn startup_links_each_child_under_its_own_spec() {
    let ids = Ids::new();
    let (a, b) = (Probe::new(), Probe::new());
    let sup = spawn(
        Supervisor::builder()
            .child(policy(RestartPolicy::Transient), make_child_starter(&ids, &a))
            .child(policy(RestartPolicy::Temporary), make_child_starter(&ids, &b)),
    )
    .expect("supervisor should start");
    assert_eq!(vec!["link 1 Transient", "link 2 Temporary"], sup.log);
    assert_eq!(vec![Some(1), Some(2)], sup.cells());
    assert_eq!(SupervisionStrategy::OneForOne, sup.state.strategy);
    assert_eq!(1, sup.state.intensity.max_restarts);
    assert_eq!(5_000_000_000, sup.state.intensity.period.nanos);
    assert!(sup.state.restart_timestamps.is_empty());
}

#[test]
fn startup_ends_with_the_error_of_the_first_child_that_fails() {
    let ids = Ids::new();
    let (a, b, c) = (Probe::new(), Probe::new(), Probe::new());
    let result = spawn(
        Supervisor::builder()
            .child(ChildSpec::default(), make_child_starter(&ids, &a))
            .child(ChildSpec::default(), make_failing_starter(&ids, &b, 0))
            .child(ChildSpec::default(), make_child_starter(&ids, &c)),
    );
    assert_eq!(Some(String::from("no luck")), result.err());
    assert_eq!((1, 0, 0), (a.starts(), b.starts(), c.starts()));
}

#[test]
fn a_supervisor_without_children_starts() {
    let sup = spawn(Supervisor::builder()).expect("supervisor should start");
    assert!(sup.cells().is_empty());
}

#[test]
fn startup_out_of_turn_changes_nothing() {
    let ids = Ids::new();
    let a = Probe::new();
    let supervisor = Supervisor::builder()
        .child(ChildSpec::default(), make_child_starter(&ids, &a))
        .build();
    let mut startup = supervisor.pre_start();
    let early: StartupReply<String> = StartupReply::Started(Ok(ActorCell { id: 9 }));
    assert!(matches!(startup.step(&supervisor, early), StartupCommand::OutOfTurn));
    let ready: StartupReply<String> = StartupReply::Ready;
    assert!(matches!(startup.step(&supervisor, ready), StartupCommand::Start { .. }));
    assert!(startup.children.is_empty());
}

#[test]
fn rest_for_one_stops_in_reverse_and_starts_in_order() {
    let ids = Ids::new();
    let (a, b, c) = (Probe::new(), Probe::new(), Probe::new());
    let mut sup = spawn(
        Supervisor::builder()
            .strategy(SupervisionStrategy::RestForOne)
            .restart_intensity(five_in_ten_seconds())
            .child(policy(RestartPolicy::Permanent), make_child_starter(&ids, &a))
            .child(policy(RestartPolicy::Transient), make_child_starter(&ids, &b))
            .child(
                ChildSpec {
                    shutdown_timeout: Duration::from_secs(2),
                    restart_policy: RestartPolicy::Permanent,
                },
                make_child_starter(&ids, &c),
            ),
    )
    .expect("supervisor should start");
    sup.log.clear();
    sup.crash(&b);
    assert_eq!(
        vec![
            "stop 3 2000000000",
            "stop 2 5000000000",
            "link 4 Transient",
            "link 5 Permanent"
        ],
        sup.log
    );
    assert_eq!(vec![Some(1), Some(4), Some(5)], sup.cells());
}

#[test]
fn children_that_do_not_stop_in_time_are_killed() {
    let ids = Ids::new();
    let (a, b) = (Probe::new(), Probe::new());
    let mut sup = spawn(
        Supervisor::builder()
            .strategy(SupervisionStrategy::OneForAll)
            .restart_intensity(five_in_ten_seconds())
            .child(ChildSpec::default(), make_child_starter(&ids, &a))
            .child(ChildSpec::default(), make_child_starter(&ids, &b)),
    )
    .expect("supervisor should start");
    sup.log.clear();
    let decision = sup.supervisor.handle_supervisor_evt_at(
        SupervisionEvent::ActorFailed(a.latest()),
        &mut sup.state,
        Instant { nanos: 0 },
    );
    sup.carry_out(decision, false).expect("restart failed");
    assert_eq!(
        vec![
            "stop 2 5000000000",
            "kill 2",
            "stop 1 5000000000",
            "kill 1",
            "link 3 Permanent",
            "link 4 Permanent"
        ],
        sup.log
    );
}

#[test]
fn dead_children_are_not_stopped_but_started_again() {
    let ids = Ids::new();
    let (a, b, c) = (Probe::new(), Probe::new(), Probe::new());
    let mut sup = spawn(
        Supervisor::builder()
            .strategy(SupervisionStrategy::OneForAll)
            .restart_intensity(five_in_ten_seconds())
            .child(ChildSpec::default(), make_child_starter(&ids, &a))
            .child(policy(RestartPolicy::Transient), make_child_starter(&ids, &b))
            .child(ChildSpec::default(), make_child_starter(&ids, &c)),
    )
    .expect("supervisor should start");
    sup.handle(SupervisionEvent::ActorTerminated(b.latest(), None)).expect("no restart");
    assert_eq!(vec![Some(1), None, Some(3)], sup.cells());
    sup.log.clear();
    sup.crash(&a);
    assert_eq!(vec!["stop 3 5000000000", "stop 1 5000000000"], sup.log[..2].to_vec());
    assert_eq!(vec![Some(4), Some(5), Some(6)], sup.cells());
    assert_eq!(2, b.starts());
}

#[test]
fn a_dead_temporary_child_stays_dead_when_all_are_restarted() {
    let ids = Ids::new();
    let (a, b, c) = (Probe::new(), Probe::new(), Probe::new());
    let mut sup = spawn(
        Supervisor::builder()
            .strategy(SupervisionStrategy::OneForAll)
            .restart_intensity(five_in_ten_seconds())
            .child(ChildSpec::default(), make_child_starter(&ids, &a))
            .child(policy(RestartPolicy::Temporary), make_child_starter(&ids, &b))
            .child(ChildSpec::default(), make_child_starter(&ids, &c)),
    )
    .expect("supervisor should start");
    sup.crash(&b);
    assert_eq!(vec![Some(1), None, Some(3)], sup.cells());
    sup.log.clear();
    sup.crash(&a);
    assert_eq!(
        vec![
            "stop 3 5000000000",
            "stop 1 5000000000",
            "link 4 Permanent",
            "link 5 Permanent"
        ],
        sup.log
    );
    assert_eq!(vec![Some(4), None, Some(5)], sup.cells());
    assert_eq!(1, b.starts());
}

#[test]
fn live_temporary_children_are_stopped_with_the_others_and_not_started_again() {
    let ids = Ids::new();
    let (a, b, c, d) = (Probe::new(), Probe::new(), Probe::new(), Probe::new());
    let mut sup = spawn(
        Supervisor::builder()
            .strategy(SupervisionStrategy::RestForOne)
            .restart_intensity(five_in_ten_seconds())
            .child(policy(RestartPolicy::Temporary), make_child_starter(&ids, &a))
            .child(ChildSpec::default(), make_child_starter(&ids, &b))
            .child(policy(RestartPolicy::Temporary), make_failing_starter(&ids, &c, 1))
            .child(policy(RestartPolicy::Temporary), make_child_starter(&ids, &d)),
    )
    .expect("supervisor should start");
    sup.log.clear();
    sup.crash(&b);
    assert_eq!(
        vec![
            "stop 4 5000000000",
            "stop 3 5000000000",
            "stop 2 5000000000",
            "link 5 Permanent"
        ],
        sup.log
    );
    assert_eq!(vec![Some(1), Some(5), None, None], sup.cells());
    assert_eq!(
        (1, 2, 1, 1),
        (a.starts(), b.starts(), c.starts(), d.starts())
    );
}

#[test]
fn leading_temporary_children_are_passed_over() {
    let ids = Ids::new();
    let (a, b) = (Probe::new(), Probe::new());
    let mut sup = spawn(
        Supervisor::builder()
            .strategy(SupervisionStrategy::OneForAll)
            .restart_intensity(five_in_ten_seconds())
            .child(policy(RestartPolicy::Temporary), make_child_starter(&ids, &a))
            .child(ChildSpec::default(), make_child_starter(&ids, &b)),
    )
    .expect("supervisor should start");
    sup.crash(&b);
    assert_eq!(vec![None, Some(3)], sup.cells());
    assert_eq!((1, 2), (a.starts(), b.starts()));
}

#[test]
fn a_failed_restart_leaves_the_child_and_those_after_it_dead() {
    let ids = Ids::new();
    let (a, b, c) = (Probe::new(), Probe::new(), Probe::new());
    let mut sup = spawn(
        Supervisor::builder()
            .strategy(SupervisionStrategy::OneForAll)
            .restart_intensity(five_in_ten_seconds())
            .child(ChildSpec::default(), make_child_starter(&ids, &a))
            .child(ChildSpec::default(), make_failing_starter(&ids, &b, 1))
            .child(ChildSpec::default(), make_child_starter(&ids, &c)),
    )
    .expect("supervisor should start");
    let result = sup.handle(SupervisionEvent::ActorFailed(c.latest()));
    assert_eq!(Err(String::from("no luck")), result);
    assert_eq!(vec![Some(4), None, None], sup.cells());
    assert_eq!((2, 1, 1), (a.starts(), b.starts(), c.starts()));
}

#[test]
fn a_failed_restart_of_one_child_touches_no_other() {
    let ids = Ids::new();
    let (a, b) = (Probe::new(), Probe::new());
    let mut sup = spawn(
        Supervisor::builder()
            .child(ChildSpec::default(), make_failing_starter(&ids, &a, 1))
            .child(ChildSpec::default(), make_child_starter(&ids, &b)),
    )
    .expect("supervisor should start");
    let result = sup.handle(SupervisionEvent::ActorFailed(a.latest()));
    assert_eq!(Err(String::from("no luck")), result);
    assert_eq!(vec![None, Some(2)], sup.cells());
}

#[test]
fn unknown_actors_are_ignored() {
    let ids = Ids::new();
    let a = Probe::new();
    let mut sup = spawn(
        Supervisor::builder().child(ChildSpec::default(), make_child_starter(&ids, &a)),
    )
    .expect("supervisor should start");
    let now = Instant { nanos: 0 };
    let stranger = ActorCell { id: 77 };
    let decision = sup.supervisor.handle_supervisor_evt_at(
        SupervisionEvent::ActorFailed(stranger),
        &mut sup.state,
        now,
    );
    assert!(matches!(decision, ExitDecision::Ignore));
    assert_eq!(vec![Some(1)], sup.cells());
    assert!(sup.state.restart_timestamps.is_empty());
}

#[test]
fn events_that_are_no_exits_are_ignored() {
    let ids = Ids::new();
    let a = Probe::new();
    let mut sup = spawn(
        Supervisor::builder().child(ChildSpec::default(), make_child_starter(&ids, &a)),
    )
    .expect("supervisor should start");
    let events = vec![
        SupervisionEvent::ActorStarted(a.latest()),
        SupervisionEvent::ProcessGroupChanged,
        SupervisionEvent::PidLifecycleEvent,
    ];
    for evt in events {
        let now = Instant { nanos: 0 };
        let decision = sup.supervisor.handle_supervisor_evt_at(evt, &mut sup.state, now);
        assert!(matches!(decision, ExitDecision::Ignore));
    }
    assert_eq!(1, a.starts());
    assert_eq!(vec![Some(1)], sup.cells());
}

#[test]
fn transient_children_restart_after_a_failure_only() {
    for reason in vec![None, Some(String::from("done"))] {
        let ids = Ids::new();
        let a = Probe::new();
        let mut sup = spawn(
            Supervisor::builder()
                .child(policy(RestartPolicy::Transient), make_child_starter(&ids, &a)),
        )
        .expect("supervisor should start");
        sup.crash(&a);
        assert_eq!(2, a.starts());
        sup.handle(SupervisionEvent::ActorTerminated(a.latest(), reason)).expect("no restart");
        assert_eq!(2, a.starts());
        assert_eq!(vec![None], sup.cells());
    }
}

#[test]
fn permanent_children_restart_after_a_clean_stop() {
    let ids = Ids::new();
    let a = Probe::new();
    let mut sup = spawn(
        Supervisor::builder().child(ChildSpec::default(), make_child_starter(&ids, &a)),
    )
    .expect("supervisor should start");
    sup.handle(SupervisionEvent::ActorTerminated(a.latest(), None)).expect("restart failed");
    assert_eq!(2, a.starts());
}

#[test]
fn the_real_clock_counts_restarts_too() {
    let ids = Ids::new();
    let a = Probe::new();
    let mut sup = spawn(
        Supervisor::builder().child(ChildSpec::default(), make_child_starter(&ids, &a)),
    )
    .expect("supervisor should start");
    let decision = sup
        .supervisor
        .handle_supervisor_evt(SupervisionEvent::ActorFailed(a.latest()), &mut sup.state);
    assert!(matches!(decision, ExitDecision::Restart(_)));
    sup.carry_out(decision, true).expect("restart failed");
    let decision = handle_child_exit(&mut sup.state, a.latest().id, false);
    match decision {
        ExitDecision::StopSupervisor { reason } => {
            assert_eq!("restart intensity exceeded", reason);
        }
        _ => panic!("two restarts in five seconds are one too many"),
    }
    assert_eq!(2, sup.state.restart_timestamps.len());
    assert!(sup.state.restart_timestamps[0].nanos <= sup.state.restart_timestamps[1].nanos);
}

#[test]
fn restart_out_of_turn_changes_nothing() {
    let ids = Ids::new();
    let a = Probe::new();
    let mut sup = spawn(
        Supervisor::builder().child(ChildSpec::default(), make_child_starter(&ids, &a)),
    )
    .expect("supervisor should start");
    let decision = handle_child_exit(&mut sup.state, a.latest().id, false);
    let mut restart = match decision {
        ExitDecision::Restart(restart) => restart,
        _ => panic!("a restart is due"),
    };
    let before = restart;
    let early: RestartReply<String> = RestartReply::Stopped(true);
    assert!(matches!(restart.step(&mut sup.state, early), RestartCommand::OutOfTurn));
    assert_eq!(before, restart);
}
