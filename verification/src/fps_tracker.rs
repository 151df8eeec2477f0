//! The frame rate over the last second.

use crate::math::round_div;
use crate::time::Time;
use std::collections::VecDeque;
use vstd::arithmetic::div_mod::lemma_fundamental_div_mod_converse;
use vstd::prelude::*;

verus! {

/// The microseconds in a second.
pub const SECOND: u64 = 1_000_000;

/// The frames that are kept at time `now`: those before the first frame
/// that is no older than a second are dropped.
pub open spec fn kept(frames: Seq<(u64, u64)>, now: u64) -> Seq<(u64, u64)>
    decreases frames.len(),
{
    if frames.len() > 0 && now > frames[0].0 + SECOND {
        kept(frames.drop_first(), now)
    } else {
        frames
    }
}

/// The sum of the delta times of the first `n` frames.
pub open spec fn total_delta(frames: Seq<(u64, u64)>, n: int) -> int
    decreases n,
{
    if n <= 0 {
        0
    } else {
        total_delta(frames, n - 1) + frames[n - 1].1
    }
}

/// The frame rate over `frames`: one over their mean delta time, in frames
/// per second, rounded to the nearest and held to what an `i32` can say; the
/// largest `i32` if no time has passed.
pub open spec fn frame_rate(frames: Seq<(u64, u64)>) -> int {
    let total = total_delta(frames, frames.len() as int);
    if total <= 0 {
        i32::MAX as int
    } else {
        let rate = round_div(SECOND * frames.len(), total);
        if rate > i32::MAX {
            i32::MAX as int
        } else {
            rate
        }
    }
}

/// Keeps the frames of the last second, each with the time at which it
/// began and its delta time.
pub struct FPSTracker {
    frames: VecDeque<(u64, u64)>,
}

impl View for FPSTracker {
    type V = Seq<(u64, u64)>;

    closed spec fn view(&self) -> Seq<(u64, u64)> {
        self.frames@
    }
}

impl FPSTracker {
    pub fn new() -> (tracker: Self)
        ensures
            tracker@ == Seq::<(u64, u64)>::empty(),
    {
        Self { frames: VecDeque::new() }
    }

    /// Takes in the frame of `time`, drops the frames that began more than
    /// a second before it, and hands back the frame rate over those that are
    /// left.
    pub fn on_update(&mut self, time: &Time) -> (fps: i32)
        ensures
            final(self)@ == kept(old(self)@.push((time@.1, time@.0)), time@.1),
            fps == frame_rate(final(self)@),
    {
        let now = time.unscaled_time();
        self.frames.push_back((now, time.delta_time()));
        let ghost all = self.frames@;
        while self.frames.len() > 0 && now as u128 > self.frames[0].0 as u128 + SECOND as u128
            invariant
                kept(self.frames@, now) == kept(all, now),
            decreases self.frames.len(),
        {
            self.frames.pop_front();
        }
        let n = self.frames.len();
        let mut total: u128 = 0;
        let mut i: usize = 0;
        while i < n
            invariant
                i <= n,
                n == self.frames.len(),
                total == total_delta(self.frames@, i as int),
                total <= i * 0xffff_ffff_ffff_ffff,
            decreases n - i,
        {
            total = total + self.frames[i].1 as u128;
            i += 1;
        }
        if total == 0 {
            return i32::MAX;
        }
        let frames: u128 = SECOND as u128 * n as u128;
        if total > 0x1_0000_0000_0000_0000_0000_0000 {
            proof {
                // fewer than half a frame per second
                lemma_fundamental_div_mod_converse(
                    2 * frames + total,
                    2 * total,
                    0,
                    2 * frames + total,
                );
            }
            return 0;
        }
        let rate = (2 * frames + total) / (2 * total);
        if rate > i32::MAX as u128 {
            i32::MAX
        } else {
            rate as i32
        }
    }
}

} // verus!
