//! What the library needs to know of the process that it runs in.
use vstd::prelude::*;

use crate::verbose::Verbosity;

verus! {

/// The process: how much it tells, and where it may leave files.
#[derive(Debug, PartialEq, Eq)]
pub struct Runtime {
    pub verbosity: Verbosity,
    /// The directory for temporary files.
    pub temp_dir: String,
    /// The process id, which tells the temporary files of processes apart.
    pub pid: u32,
}

impl Runtime {
    /// The same, once more.
    pub fn copy(&self) -> (r: Runtime)
        ensures
            r == *self,
    {
        Runtime { verbosity: self.verbosity, temp_dir: self.temp_dir.clone(), pid: self.pid }
    }
}

} // verus!
