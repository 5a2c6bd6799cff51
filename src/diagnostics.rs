//! A frame counter that samples the frame rate every so many frames.

use vstd::prelude::*;

verus! {

/// How many frames pass between two samples of the frame rate.
pub const SAMPLE_EVERY: i64 = 50;

pub struct Diagnostics {
    counter: i64,
    last_fps: i32,
}

/// Frames counted so far, and the last frame rate sampled.
pub struct DiagnosticsView {
    pub counter: int,
    pub last_fps: int,
}

impl View for Diagnostics {
    type V = DiagnosticsView;

    closed spec fn view(&self) -> DiagnosticsView {
        DiagnosticsView { counter: self.counter as int, last_fps: self.last_fps as int }
    }
}

impl Diagnostics {
    pub fn new() -> (d: Diagnostics)
        ensures
            d@.counter == 0,
            d@.last_fps == 0,
    {
        Diagnostics { counter: 0, last_fps: 0 }
    }

    /// Counts one frame; returns whether the frame rate is due to be sampled,
    /// which is every `SAMPLE_EVERY`-th frame.
    pub fn on_loop(&mut self) -> (due: bool)
        requires
            old(self)@.counter < i64::MAX,
        ensures
            final(self)@.counter == old(self)@.counter + 1,
            final(self)@.last_fps == old(self)@.last_fps,
            due == (final(self)@.counter % (SAMPLE_EVERY as int) == 0),
    {
        self.counter = self.counter + 1;
        self.counter % SAMPLE_EVERY == 0
    }

    /// Frames counted so far.
    pub fn frames(&self) -> (n: i64)
        ensures
            n == self@.counter,
    {
        self.counter
    }

    /// Keeps `fps` as the last frame rate sampled.
    pub fn record_fps(&mut self, fps: i32)
        ensures
            final(self)@.counter == old(self)@.counter,
            final(self)@.last_fps == fps,
    {
        self.last_fps = fps;
    }

    pub fn last_fps(&self) -> (fps: i32)
        ensures
            fps == self@.last_fps,
    {
        self.last_fps
    }
}

} // verus!
