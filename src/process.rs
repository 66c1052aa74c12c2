//! Process calls that belong to this core.
use vstd::prelude::*;

verus! {

/// Waits for a child process to end. This core creates no processes, so
/// there is no child to wait for and the call returns at once.
pub fn sys_wait() {
}

} // verus!
