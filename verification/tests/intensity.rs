//! Restart policies and restart intensity.

use supervisor::builder::Supervisor;
use supervisor::startup::{StartupCommand, StartupReply};
use supervisor::supervisor::{
    check_intensity, check_intensity_at, should_restart, RestartIntensity, SupervisorState,
};
use supervisor::time::{Duration, Instant};
use supervisor::{ChildSpec, RestartPolicy, SupervisionStrategy};

/// A supervisor without children that allows so many restarts in so many seconds.
fn state(max_restarts: u32, secs: u64) -> SupervisorState<()> {
    let supervisor: Supervisor<()> = Supervisor::builder()
        .restart_intensity(RestartIntensity { max_restarts, period: Duration::from_secs(secs) })
        .build();
    let reply: StartupReply<()> = StartupReply::Ready;
    match supervisor.pre_start().step(&supervisor, reply) {
        StartupCommand::Finished(Ok(state)) => state,
        _ => panic!("nothing to start"),
    }
}

fn at(nanos: u128) -> Instant {
    Instant { nanos }
}

const SEC: u128 = 1_000_000_000;

#[test]
fn policies_decide_by_the_nature_of_the_exit() {
    assert!(should_restart(RestartPolicy::Permanent, true));
    assert!(should_restart(RestartPolicy::Permanent, false));
    assert!(!should_restart(RestartPolicy::Transient, true));
    assert!(should_restart(RestartPolicy::Transient, false));
    assert!(!should_restart(RestartPolicy::Temporary, true));
    assert!(!should_restart(RestartPolicy::Temporary, false));
}

#[test]
fn one_restart_more_than_allowed_is_too_many() {
    let mut state = state(2, 10);
    assert!(!check_intensity_at(&mut state, at(0)));
    assert!(!check_intensity_at(&mut state, at(SEC)));
    assert!(check_intensity_at(&mut state, at(2 * SEC)));
    assert_eq!(3, state.restart_timestamps.len());
}

#[test]
fn a_restart_exactly_one_period_back_still_counts() {
    let mut state = state(1, 10);
    assert!(!check_intensity_at(&mut state, at(0)));
    assert!(check_intensity_at(&mut state, at(10 * SEC)));
}

#[test]
fn a_restart_further_back_than_the_period_is_forgotten() {
    let mut state = state(1, 10);
    assert!(!check_intensity_at(&mut state, at(0)));
    assert!(!check_intensity_at(&mut state, at(10 * SEC + 1)));
    assert_eq!(1, state.restart_timestamps.len());
    assert_eq!(at(10 * SEC + 1), state.restart_timestamps[0]);
}

#[test]
fn no_restarts_allowed() {
    let mut state = state(0, 10);
    assert!(check_intensity_at(&mut state, at(3)));
}

#[test]
fn the_limit_is_that_of_a_sliding_window() {
    let times: Vec<u128> = vec![0, 3, 4, 9, 14, 14, 15, 24, 25, 26, 37, 38, 39, 40];
    let max = 3;
    let mut state = state(max as u32, 10);
    for k in 0..times.len() {
        let expected = k >= max && times[k] - times[k - max] <= 10;
        assert_eq!(expected, check_intensity_at(&mut state, at(times[k] * SEC)));
    }
}

#[test]
fn time_that_runs_backwards_counts_as_standing_still() {
    let mut state = state(1, 0);
    assert!(!check_intensity_at(&mut state, at(5)));
    assert!(check_intensity_at(&mut state, at(4)));
    assert_eq!(Duration { nanos: 0 }, at(4).duration_since(at(5)));
    assert_eq!(Duration { nanos: 1 }, at(5).duration_since(at(4)));
}

#[test]
fn the_clock_moves_on() {
    let mut state = state(100, 3600);
    for _ in 0..3 {
        assert!(!check_intensity(&mut state));
    }
    assert_eq!(3, state.restart_timestamps.len());
    for i in 1..3 {
        assert!(state.restart_timestamps[i - 1].nanos <= state.restart_timestamps[i].nanos);
    }
    // The clock is not standing still.
    let mut readings = 3;
    while state.restart_timestamps[0] == state.restart_timestamps[readings - 1] {
        check_intensity(&mut state);
        readings += 1;
    }
}

#[test]
fn defaults() {
    assert_eq!(RestartPolicy::Permanent, RestartPolicy::default());
    assert_eq!(SupervisionStrategy::OneForOne, SupervisionStrategy::default());
    assert_eq!(
        RestartIntensity { max_restarts: 1, period: Duration { nanos: 5 * SEC } },
        RestartIntensity::default()
    );
    assert_eq!(
        ChildSpec {
            shutdown_timeout: Duration { nanos: 5 * SEC },
            restart_policy: RestartPolicy::Permanent
        },
        ChildSpec::default()
    );
}

#[test]
fn the_longest_span_of_seconds_is_exact() {
    assert_eq!(18_446_744_073_709_551_615 * SEC, Duration::from_secs(u64::MAX).nanos);
}

#[test]
fn the_builder_keeps_what_was_set_last() {
    let intensity = RestartIntensity { max_restarts: 7, period: Duration::from_secs(3) };
    let second = ChildSpec { restart_policy: RestartPolicy::Temporary, ..ChildSpec::default() };
    let builder = Supervisor::builder()
        .strategy(SupervisionStrategy::OneForAll)
        .child(ChildSpec::default(), 'a')
        .restart_intensity(RestartIntensity::default())
        .child(second, 'b')
        .restart_intensity(intensity)
        .strategy(SupervisionStrategy::RestForOne);
    let supervisor = builder.build();
    assert_eq!(SupervisionStrategy::RestForOne, supervisor.strategy);
    assert_eq!(intensity, supervisor.intensity);
    let defs: Vec<(ChildSpec, char)> =
        supervisor.child_defs.iter().map(|(spec, starter)| (*spec, **starter)).collect();
    assert_eq!(vec![(ChildSpec::default(), 'a'), (second, 'b')], defs);
}
