//! Orchestration of remote workflow runs across repositories.
//!
//! The crate holds the decisions of an orchestrator: how declared steps become a
//! dependency graph, in which order they run, how one remote run is triggered and
//! polled, and how the outcomes of all steps are gathered into a report. The
//! network, the clock and the terminal are left to the caller, which performs the
//! actions that the state machines here ask for and hands back what happened.

pub mod backoff;
pub mod digraph;
pub mod driver;
pub mod error;
pub mod github;
pub mod graph;
pub mod orchestration;
pub mod plan;
pub mod runner;
pub mod steps;
pub mod term_ui;
pub mod toposort;
