//! The blinking caret: toggled on a fixed-period timer, independent of the
//! text animation's timing.

use vstd::prelude::*;

verus! {

/// Milliseconds between caret flips.
pub const BLINK_PERIOD_MS: u64 = 500;

/// The caret's visibility state and the next instant it flips.
pub struct CursorBlink {
    pub visible: bool,
    pub flip_time: u64,
    pub blink_duration: u64,
}

impl CursorBlink {
    /// A caret that starts hidden and first flips one period from `now`.
    pub fn new(now: u64, blink_duration: u64) -> (r: CursorBlink)
        ensures
            r.visible == false,
            r.flip_time == crate::animation::spec_saturating_add(now, blink_duration),
            r.blink_duration == blink_duration,
    {
        let flip_time: u64 = if blink_duration <= u64::MAX - now {
            now + blink_duration
        } else {
            u64::MAX
        };
        CursorBlink { visible: false, flip_time, blink_duration }
    }

    /// One per-frame tick: once the flip instant has passed, the caret
    /// toggles and the next flip moves one period later (at most one
    /// toggle per tick).
    pub fn update(&mut self, now: u64)
        ensures
            old(self).flip_time < now ==> final(self).visible == !old(self).visible,
            old(self).flip_time < now ==> final(self).flip_time
                == crate::animation::spec_saturating_add(
                old(self).flip_time,
                old(self).blink_duration,
            ),
            old(self).flip_time >= now ==> *final(self) == *old(self),
            final(self).blink_duration == old(self).blink_duration,
    {
        if self.flip_time < now {
            self.flip_time = if self.blink_duration <= u64::MAX - self.flip_time {
                self.flip_time + self.blink_duration
            } else {
                u64::MAX
            };
            self.visible = !self.visible;
        }
    }
}

} // verus!
