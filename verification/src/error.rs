//! What can go wrong before and while an orchestration runs.

use vstd::prelude::*;

verus! {

/// A fault in the declared steps, found before anything is dispatched.
#[derive(Debug, Clone, PartialEq, Eq)]
pub enum ConfigError {
    /// A step depends on a name that no step carries.
    UnknownDependency(String),
    /// Two steps carry the same name.
    DuplicateName(String),
}

/// The dependencies run in a circle. `node` is the index of a step on it.
#[derive(Debug, Clone, Copy, PartialEq, Eq)]
pub struct CycleError {
    pub node: usize,
}

/// Why no execution order exists for a set of steps.
#[derive(Debug, Clone, PartialEq, Eq)]
pub enum OrchestrationError {
    Config(ConfigError),
    Cycle(CycleError),
}

/// Why a remote run was not started.
#[derive(Debug, Clone, Copy, PartialEq, Eq)]
pub enum TriggerError {
    /// The request never reached the remote side, or no answer came back.
    Transport,
    /// The remote side answered with a status other than "accepted".
    Rejected(u16),
}

} // verus!
