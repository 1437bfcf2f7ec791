//! The decisions of the process that watches its parent: it stops when it
//! is told that the parent died, or when its parent process changed.

use vstd::prelude::*;

verus! {

/// What the watcher does next.
#[derive(Debug, Clone, Copy, PartialEq, Eq)]
pub enum WatchStep {
    /// Stop watching and clean up.
    Stop,
    /// Sleep, then look again.
    Sleep,
}

/// The process id of `init`, which adopts orphaned processes.
pub const INIT_PID: i32 = 1;

/// Whether there is nothing to watch: the parent is already `init`.
pub fn parent_is_init(parent: i32) -> (r: bool)
    ensures
        r == (parent == INIT_PID),
{
    parent == INIT_PID
}

/// The next step, given whether the parent-death signal arrived, the
/// current parent process and the parent watched from the start.
pub fn watch_step(signalled: bool, parent_now: i32, parent_at_start: i32) -> (r: WatchStep)
    ensures
        r == WatchStep::Stop <==> (signalled || parent_now == INIT_PID || parent_now != parent_at_start),
{
    if signalled || parent_now == INIT_PID || parent_now != parent_at_start {
        WatchStep::Stop
    } else {
        WatchStep::Sleep
    }
}

} // verus!
