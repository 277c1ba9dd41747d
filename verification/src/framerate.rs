//! The pacing of frames: how long a frame lasts, and whether it is over.
//!
//! Times are readings of a clock that never runs backwards, in nanoseconds.
//! The caller reads the clock; nothing here waits.

use vstd::prelude::*;

verus! {

/// The number of nanoseconds in a second.
pub const NANOS_PER_SECOND: u32 = 1_000_000_000;

/// The time that has gone by from `start` to `now`; none, where the clock
/// reads less at `now` than it did at `start`.
pub open spec fn elapsed(now: u64, start: u64) -> int {
    if now >= start {
        now - start
    } else {
        0
    }
}

/// Holds a loop to a given number of frames in a second.
pub struct FramerateRegulator {
    framerate_duration: u32,
    start_time: u64,
}

impl FramerateRegulator {
    /// The length of a frame, in nanoseconds.
    pub closed spec fn framerate_duration(&self) -> int {
        self.framerate_duration as int
    }

    /// The time at which the frame that is running began.
    pub closed spec fn start_time(&self) -> u64 {
        self.start_time
    }

    /// A regulator for `framerate` frames in a second, whose first frame
    /// begins at `now`.
    pub fn new(framerate: u32, now: u64) -> (regulator: FramerateRegulator)
        requires
            framerate > 0,
        ensures
            regulator.framerate_duration() == NANOS_PER_SECOND / framerate,
            regulator.start_time() == now,
    {
        FramerateRegulator { framerate_duration: NANOS_PER_SECOND / framerate, start_time: now }
    }

    /// One look at the clock while waiting for the end of a frame. The wait
    /// began at `delay_start` and the clock reads `now`. While the frame has
    /// time left, returns `None`: the caller reads the clock and asks again.
    /// Once the frame is over, starts the next frame at `now` and returns
    /// the time waited.
    pub fn delay(&mut self, delay_start: u64, now: u64) -> (waited: Option<u64>)
        ensures
            final(self).framerate_duration() == old(self).framerate_duration(),
            elapsed(now, old(self).start_time()) < old(self).framerate_duration() ==> waited is None
                && final(self).start_time() == old(self).start_time(),
            elapsed(now, old(self).start_time()) >= old(self).framerate_duration() ==> waited
                == Some(elapsed(now, delay_start) as u64) && final(self).start_time() == now,
    {
        if now.saturating_sub(self.start_time) < self.framerate_duration as u64 {
            None
        } else {
            self.start_time = now;
            Some(now.saturating_sub(delay_start))
        }
    }
}

} // verus!
