//! The errors of spawning a task.
use vstd::prelude::*;

verus! {

/// Why a task could not be spawned.
#[derive(Debug, Clone, Copy, PartialEq, Eq)]
pub enum SpawnError {
    /// No memory is left for the task.
    NoMemory,
    /// The spawner is busy.
    Busy,
}

} // verus!
