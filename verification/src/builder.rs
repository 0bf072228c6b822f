//! Configuring a supervisor.

use crate::supervision::ChildSpec;
use crate::supervisor::{
    default_intensity, ChildStarter, RestartIntensity, SupervisionStrategy,
};
use std::sync::Arc;
use vstd::prelude::*;

verus! {

/// A built-in OTP-style supervisor.
///
/// Use [`Supervisor::builder()`] to construct it.
pub struct Supervisor<F> {
    /// How children are restarted.
    pub strategy: SupervisionStrategy,
    /// How many restarts are allowed.
    pub intensity: RestartIntensity,
    /// The children, in the order in which they are started.
    pub child_defs: Vec<(ChildSpec, ChildStarter<F>)>,
}

/// Builder for constructing a [`Supervisor`].
pub struct SupervisorBuilder<F> {
    /// How children are restarted.
    pub strategy: SupervisionStrategy,
    /// How many restarts are allowed.
    pub intensity: RestartIntensity,
    /// The children, in the order in which they were registered.
    pub children: Vec<(ChildSpec, ChildStarter<F>)>,
}

/// What a supervisor is configured to do.
#[verifier::ext_equal]
pub struct Config<F> {
    pub strategy: SupervisionStrategy,
    pub intensity: RestartIntensity,
    pub children: Seq<(ChildSpec, ChildStarter<F>)>,
}

impl<F> View for Supervisor<F> {
    type V = Config<F>;

    open spec fn view(&self) -> Config<F> {
        Config {
            strategy: self.strategy,
            intensity: self.intensity,
            children: self.child_defs@,
        }
    }
}

impl<F> View for SupervisorBuilder<F> {
    type V = Config<F>;

    open spec fn view(&self) -> Config<F> {
        Config { strategy: self.strategy, intensity: self.intensity, children: self.children@ }
    }
}

impl<F> Supervisor<F> {
    /// Create a new supervisor builder.
    pub fn builder() -> (builder: SupervisorBuilder<F>)
        ensures
            builder@ == (Config::<F> {
                strategy: SupervisionStrategy::OneForOne,
                intensity: default_intensity(),
                children: Seq::empty(),
            }),
    {
        SupervisorBuilder {
            strategy: SupervisionStrategy::default(),
            intensity: RestartIntensity::default(),
            children: Vec::new(),
        }
    }
}

impl<F> SupervisorBuilder<F> {
    /// Set the restart strategy.
    #[must_use]
    pub fn strategy(self, strategy: SupervisionStrategy) -> (builder: Self)
        ensures
            builder@ == (Config { strategy, ..self@ }),
    {
        let mut builder = self;
        builder.strategy = strategy;
        builder
    }

    /// Set the restart intensity (max restarts within a time period).
    #[must_use]
    pub fn restart_intensity(self, intensity: RestartIntensity) -> (builder: Self)
        ensures
            builder@ == (Config { intensity, ..self@ }),
    {
        let mut builder = self;
        builder.intensity = intensity;
        builder
    }

    /// Register a child with its spec and starter.
    ///
    /// The starter is what the caller runs, with the supervisor's cell, to spawn the child
    /// linked to the supervisor.
    #[must_use]
    pub fn child(self, spec: ChildSpec, starter: F) -> (builder: Self)
        ensures
            builder@ == (Config { children: self@.children.push((spec, Arc::new(starter))), ..self@
            }),
    {
        let mut builder = self;
        builder.children.push((spec, Arc::new(starter)));
        builder
    }

    /// The supervisor as configured, not yet started.
    pub fn build(self) -> (supervisor: Supervisor<F>)
        ensures
            supervisor@ == self@,
    {
        Supervisor {
            strategy: self.strategy,
            intensity: self.intensity,
            child_defs: self.children,
        }
    }
}

} // verus!
