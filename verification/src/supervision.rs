//! What a supervisor knows of each of its children.

use crate::time::{Duration, NANOS_PER_SEC};
use vstd::prelude::*;

verus! {

/// How a supervisor should respond when a child exits.
#[derive(Debug, Clone, Copy, PartialEq, Eq, Structural)]
pub enum RestartPolicy {
    /// Always restart the child (OTP `permanent`).
    Permanent,
    /// Restart only on abnormal exit: crash or error, not clean stop (OTP `transient`).
    Transient,
    /// Never restart (OTP `temporary`).
    Temporary,
}

impl Default for RestartPolicy {
    fn default() -> (policy: Self)
        ensures
            policy == RestartPolicy::Permanent,
    {
        RestartPolicy::Permanent
    }
}

/// Per-child configuration in a supervision tree.
#[derive(Debug, Clone, Copy, PartialEq, Eq, Structural)]
pub struct ChildSpec {
    /// Maximum time to wait for graceful stop before killing.
    pub shutdown_timeout: Duration,
    /// When to restart this child after exit.
    pub restart_policy: RestartPolicy,
}

impl Default for ChildSpec {
    /// Five seconds to stop, and always restarted.
    fn default() -> (spec: Self)
        ensures
            spec == default_child_spec(),
    {
        ChildSpec {
            shutdown_timeout: Duration::from_secs(5),
            restart_policy: RestartPolicy::default(),
        }
    }
}

/// The configuration of a child that was given none.
pub open spec fn default_child_spec() -> ChildSpec {
    ChildSpec {
        shutdown_timeout: Duration { nanos: (5 * NANOS_PER_SEC) as u128 },
        restart_policy: RestartPolicy::Permanent,
    }
}

} // verus!
