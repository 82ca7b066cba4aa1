//! Small shared enums of the fugue system and the loop bookkeeping a
//! running fugue does with them.

use vstd::prelude::*;

verus! {

/// How a promoted fugue places itself on the song grid when its quantize
/// target isn't aligned to its duration.
#[derive(Clone, Copy, PartialEq, Eq, Structural, Debug)]
pub enum StartMode {
    /// Join the implicit always-running grid at its current phase.
    Phase,
    /// Wait for the next iteration boundary, then play from pattern beat 0.
    Boundary,
}

impl Default for StartMode {
    fn default() -> (r: Self)
        ensures
            r == StartMode::Phase,
    {
        StartMode::Phase
    }
}

/// Looping behaviour of a fugue.
#[derive(Clone, Copy, PartialEq, Eq, Structural, Debug)]
pub enum LoopMode {
    /// Play once.
    Once,
    /// Play the given number of times.
    Times(u32),
    /// Loop until cancelled.
    Forever,
}

/// Whether a fugue is done: cancelled, or all its loops played.
pub open spec fn spec_is_finished(cancelled: bool, loop_mode: LoopMode, current_loop: u32) -> bool {
    cancelled || match loop_mode {
        LoopMode::Once => current_loop >= 1,
        LoopMode::Times(n) => current_loop >= n,
        LoopMode::Forever => false,
    }
}

/// Whether a fugue with this loop state has completed all loops or was
/// cancelled.
pub fn is_finished(cancelled: bool, loop_mode: LoopMode, current_loop: u32) -> (r: bool)
    ensures
        r == spec_is_finished(cancelled, loop_mode, current_loop),
{
    if cancelled {
        return true;
    }
    match loop_mode {
        LoopMode::Once => current_loop >= 1,
        LoopMode::Times(n) => current_loop >= n,
        LoopMode::Forever => false,
    }
}

/// Total number of loops a fugue plays (`None` for forever), as listed in
/// its info.
pub fn total_loops(loop_mode: LoopMode) -> (r: Option<u32>)
    ensures
        r == match loop_mode {
            LoopMode::Once => Some(1u32),
            LoopMode::Times(n) => Some(n),
            LoopMode::Forever => None,
        },
{
    match loop_mode {
        LoopMode::Once => Some(1),
        LoopMode::Times(n) => Some(n),
        LoopMode::Forever => None,
    }
}

/// A forever-looping fugue never finishes on its own; any other fugue
/// finishes once it has played as many loops as it lists.
pub proof fn lemma_finished_iff_loops_played(loop_mode: LoopMode, current_loop: u32)
    ensures
        spec_is_finished(false, loop_mode, current_loop) <==> match loop_mode {
            LoopMode::Forever => false,
            LoopMode::Once => current_loop >= 1,
            LoopMode::Times(n) => current_loop >= n,
        },
        spec_is_finished(true, loop_mode, current_loop),
{
}

/// Result of an attempted native file drag.
#[derive(Debug)]
pub enum DragStart {
    /// Native drag started; the OS handles the rest.
    Started,
    /// Drag not supported on this platform.
    Unsupported,
    /// No parent window to drag from.
    NoWindow,
    /// The drag failed with this error.
    Failed(String),
}

} // verus!
