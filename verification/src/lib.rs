//! Supervision of actors in the style of OTP: restart policies, restart intensity,
//! supervision strategies and the supervision tree.
//!
//! The library decides; it never talks to an actor itself. Where a decision needs something
//! from outside (stopping an actor, starting one, reading whether it is gone), a step function
//! hands the caller a command and takes the outcome back with the next step.

pub mod actor;
pub mod builder;
pub mod child_map;
pub mod commands;
pub mod events;
pub mod exit_laws;
pub mod notify;
pub mod notify_laws;
pub mod readings;
pub mod restart;
pub mod restart_laws;
pub mod run_laws;
pub mod shutdown;
pub mod shutdown_laws;
pub mod startup;
pub mod startup_laws;
pub mod supervision;
pub mod supervisor;
pub mod supervisor_laws;
pub mod time;
pub mod tree;
pub mod tree_laws;

pub use actor::{ActorCell, ActorId};
pub use builder::{Supervisor, SupervisorBuilder};
pub use events::SupervisionEvent;
pub use supervision::{ChildSpec, RestartPolicy};
pub use supervisor::{RestartIntensity, SupervisionStrategy, SupervisorState};
pub use time::{Duration, Instant};
pub use tree::SupervisionTree;
