//! Frame time, in microseconds.
//!
//! The frame driver owns a [`Clock`], feeds it the time of every frame, and
//! hands the [`Time`] that comes out to the scheduler.

use vstd::prelude::*;

verus! {

/// The time of one frame: how long the frame before took, and how long the
/// clock has run.
#[derive(Clone, Copy, Debug, PartialEq, Eq, Structural)]
pub struct Time {
    delta_time: u64,
    unscaled_time: u64,
}

impl View for Time {
    type V = (u64, u64);

    /// The delta time, then the unscaled time.
    closed spec fn view(&self) -> (u64, u64) {
        (self.delta_time, self.unscaled_time)
    }
}

impl Time {
    pub fn new() -> (time: Self)
        ensures
            time@ == (0u64, 0u64),
    {
        Self { delta_time: 0, unscaled_time: 0 }
    }

    pub fn delta_time(&self) -> (delta_time: u64)
        ensures
            delta_time == self@.0,
    {
        self.delta_time
    }

    pub fn set_delta_time(&mut self, delta_time: u64)
        ensures
            final(self)@ == (delta_time, old(self)@.1),
    {
        self.delta_time = delta_time;
    }

    pub fn unscaled_time(&self) -> (unscaled_time: u64)
        ensures
            unscaled_time == self@.1,
    {
        self.unscaled_time
    }

    pub fn set_unscaled_time(&mut self, unscaled_time: u64)
        ensures
            final(self)@ == (old(self)@.0, unscaled_time),
    {
        self.unscaled_time = unscaled_time;
    }
}

/// What a [`Clock`] holds: the time of the first frame, if there has been
/// one, and the unscaled time of the last frame.
pub struct ClockView {
    pub start: Option<u64>,
    pub last_unscaled_time: u64,
}

impl ClockView {
    /// The time from which the clock counts once it has seen `now`.
    pub open spec fn start_at(self, now: u64) -> u64 {
        match self.start {
            Some(start) => start,
            None => now,
        }
    }

    /// The time that the clock has run at `now`. A clock that is set back
    /// before its start has run for no time.
    pub open spec fn unscaled_at(self, now: u64) -> u64 {
        if now >= self.start_at(now) {
            (now - self.start_at(now)) as u64
        } else {
            0
        }
    }

    /// The time that has passed between the last frame and `now`; none if
    /// the clock was set back.
    pub open spec fn delta_at(self, now: u64) -> u64 {
        if self.unscaled_at(now) >= self.last_unscaled_time {
            (self.unscaled_at(now) - self.last_unscaled_time) as u64
        } else {
            0
        }
    }
}

/// Turns the times at which frames begin into frame times.
pub struct Clock {
    start: Option<u64>,
    last_unscaled_time: u64,
}

impl View for Clock {
    type V = ClockView;

    closed spec fn view(&self) -> ClockView {
        ClockView { start: self.start, last_unscaled_time: self.last_unscaled_time }
    }
}

impl Clock {
    /// A clock that has seen no frame.
    pub fn new() -> (clock: Self)
        ensures
            clock@ == (ClockView { start: None, last_unscaled_time: 0 }),
    {
        Self { start: None, last_unscaled_time: 0 }
    }

    /// The time of the frame that begins at `now`. The first frame starts
    /// the clock.
    pub fn advance(&mut self, now: u64) -> (time: Time)
        ensures
            time@ == (old(self)@.delta_at(now), old(self)@.unscaled_at(now)),
            final(self)@ == (ClockView {
                start: Some(old(self)@.start_at(now)),
                last_unscaled_time: old(self)@.unscaled_at(now),
            }),
    {
        let start = match self.start {
            Some(start) => start,
            None => now,
        };
        let unscaled_time = if now >= start {
            now - start
        } else {
            0
        };
        let delta_time = if unscaled_time >= self.last_unscaled_time {
            unscaled_time - self.last_unscaled_time
        } else {
            0
        };
        self.start = Some(start);
        self.last_unscaled_time = unscaled_time;
        Time { delta_time, unscaled_time }
    }
}

} // verus!
