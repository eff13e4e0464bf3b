//! Injects a user's environment into any container, and drives devcontainers.
//!
//! The library decides; it runs nothing itself. What is to be run is described
//! as [`invocation::Invocation`]s, [`invocation::Job`]s and [`script::Step`]s,
//! and what came of it is handed back: three machines, [`devcontainer::start`],
//! [`inject::graft`] and [`forward::run_daemon`], take one event at a time and
//! say what comes next.
pub mod cli;
pub mod config;
pub mod container;
pub mod deps;
pub mod devcontainer;
pub mod docker;
pub mod features;
pub mod forward;
pub mod inject;
pub mod invocation;
pub mod json;
pub mod lists;
pub mod num;
pub mod path;
pub mod runtime;
pub mod script;
pub mod shell;
pub mod ssh;
pub mod table;
pub mod text;
pub mod verbose;
