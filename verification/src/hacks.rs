//! Small audio-thread workarounds kept apart from the scheduler.

use vstd::prelude::*;

verus! {

/// Shift a NoteOff's sample offset one sample earlier so that a NoteOn for
/// the same pitch landing on the same sample is seen strictly after it.
/// At sample 0 the shift collapses to 0.
pub fn note_off_skewed_sample(sample_offset: u32) -> (r: u32)
    ensures
        r == if sample_offset == 0 { 0 } else { (sample_offset - 1) as u32 },
{
    sample_offset.saturating_sub(1)
}

} // verus!
