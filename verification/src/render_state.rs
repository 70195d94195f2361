//! What the drawing loop keeps from frame to frame.
//!
//! Times are counted in nanoseconds from a moment that the caller picks; the
//! caller reads the clock.

use vstd::prelude::*;

verus! {

/// What the terrain is drawn as.
#[derive(Debug, Copy, Clone, PartialEq, Eq, Structural)]
pub enum RenderingMode {
    /// Every surface block as a cube.
    Discrete,
    /// The smooth surface.
    Implicit,
}

/// When the frames were drawn.
#[derive(Debug, Copy, Clone, PartialEq, Eq, Structural)]
pub struct Timing {
    /// The time between the last two frames.
    pub delta_time: u128,
    /// The time from the start to the last frame.
    pub running_time: u128,
    /// When the timing was started.
    pub starting_time: u128,
    /// When the last frame was recorded.
    pub last_frame: u128,
}

/// The state of the drawing loop.
#[derive(Debug, Copy, Clone, PartialEq, Eq, Structural)]
pub struct RenderState {
    pub timing: Timing,
    pub cursor_captured: bool,
    pub render_wireframe: bool,
    pub render_mode: RenderingMode,
}

impl Timing {
    /// No frame lies before the start.
    pub open spec fn wf(&self) -> bool {
        self.starting_time <= self.last_frame
    }

    /// A timing that starts at `now`, with no frame recorded.
    pub fn new(now: u128) -> (timing: Self)
        ensures
            timing.wf(),
            timing.delta_time == 0,
            timing.running_time == 0,
            timing.starting_time == now,
            timing.last_frame == now,
    {
        Timing { delta_time: 0, running_time: 0, starting_time: now, last_frame: now }
    }

    /// Records a frame drawn at `now`.
    pub fn record_frame(&mut self, now: u128)
        requires
            old(self).starting_time <= old(self).last_frame <= now,
        ensures
            final(self).wf(),
            final(self).delta_time == now - old(self).last_frame,
            final(self).running_time == now - old(self).starting_time,
            final(self).last_frame == now,
            final(self).starting_time == old(self).starting_time,
    {
        self.delta_time = now - self.last_frame;
        self.running_time = now - self.starting_time;
        self.last_frame = now;
    }
}

impl RenderState {
    /// The state at the start, at time `now`: the cursor free, the faces
    /// filled, the smooth surface shown.
    pub fn new(now: u128) -> (state: Self)
        ensures
            state.timing == (Timing {
                delta_time: 0,
                running_time: 0,
                starting_time: now,
                last_frame: now,
            }),
            state.timing.wf(),
            !state.cursor_captured,
            !state.render_wireframe,
            state.render_mode == RenderingMode::Implicit,
    {
        RenderState {
            timing: Timing::new(now),
            cursor_captured: false,
            render_wireframe: false,
            render_mode: RenderingMode::Implicit,
        }
    }
}

} // verus!
