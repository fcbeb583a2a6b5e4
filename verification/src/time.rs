//! Frame timing: the engine runs at a fixed 60 frames per second, so game code can assume the
//! same time step every frame.

use vstd::prelude::*;

verus! {

/// The frames the engine runs each second.
pub const FRAMES_PER_SECOND: u32 = 60;

/// The time between frames in nanoseconds: one second split evenly across the frames, rounded
/// down to the nanosecond as dividing a duration does.
pub fn frame_nanos() -> (nanos: u32)
    ensures
        nanos == 1_000_000_000int / (FRAMES_PER_SECOND as int),
        nanos * FRAMES_PER_SECOND <= 1_000_000_000int < (nanos + 1) * FRAMES_PER_SECOND,
{
    1_000_000_000 / FRAMES_PER_SECOND
}

} // verus!
