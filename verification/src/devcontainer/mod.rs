//! Dev containers: what devcontainer.json asks for, and how the container is
//! brought up.
use vstd::prelude::*;

pub mod backend;
pub mod config;
pub mod hash;
pub mod hooks;
pub mod lookup;
pub mod naming;
pub mod ports;
pub mod run;
pub mod start;
pub mod vars;
pub mod workdir;

pub use self::start::{start, stop, Started};

verus! {

} // verus!
