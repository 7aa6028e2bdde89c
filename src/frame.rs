use vstd::prelude::*;

verus! {

/// The nanoseconds of one frame at 60 frames a second, rounded.
pub const FRAME_NANOS: u32 = 16_666_667;

/// Where the frame loop stands.
#[derive(Debug, Clone, Copy, PartialEq, Eq, Structural)]
pub enum Phase {
    /// Built, the start callbacks not run yet.
    Uninitialized,
    /// The start callbacks are running.
    Starting,
    /// Frames are running.
    Running,
    /// The window was closed or a callback failed; nothing runs any more.
    Stopped,
}

/// The window's size and title.
pub struct WindowProps {
    pub width: i32,
    pub height: i32,
    pub title: String,
}

/// What one frame is to do, decided before any of its callbacks run.
pub enum FrameStep {
    /// The loop is not running: there is nothing to do.
    Idle,
    /// The window was closed: the loop ends.
    Stop,
    /// Run a frame: resize and retitle the window where asked, then call the
    /// update callbacks with `delta_nanos`, then the draw callbacks, then
    /// flush the render queue.
    Run { delta_nanos: u64, resize: Option<(i32, i32)>, retitle: Option<String> },
}

/// The decisions of the frame loop: its phase, the time of the last frame,
/// and the window properties last handed to the renderer.
pub struct FrameScheduler {
    phase: Phase,
    last_frame_nanos: u64,
    applied_width: i32,
    applied_height: i32,
    applied_title: String,
}

impl FrameScheduler {
    pub closed spec fn spec_phase(&self) -> Phase {
        self.phase
    }

    /// When the last frame began, in nanoseconds of the caller's clock.
    pub closed spec fn last_frame(&self) -> u64 {
        self.last_frame_nanos
    }

    /// The window size last handed to the renderer.
    pub closed spec fn applied_size(&self) -> (i32, i32) {
        (self.applied_width, self.applied_height)
    }

    /// The window title last handed to the renderer.
    pub closed spec fn applied_title(&self) -> Seq<char> {
        self.applied_title@
    }

    /// A scheduler for a window that opens with `window`'s size and title.
    pub fn new(window: WindowProps) -> (r: FrameScheduler)
        ensures
            r.spec_phase() == Phase::Uninitialized,
            r.last_frame() == 0,
            r.applied_size() == (window.width, window.height),
            r.applied_title() == window.title@,
    {
        FrameScheduler {
            phase: Phase::Uninitialized,
            last_frame_nanos: 0,
            applied_width: window.width,
            applied_height: window.height,
            applied_title: window.title,
        }
    }

    /// The current phase.
    pub fn phase(&self) -> (r: Phase)
        ensures
            r == self.spec_phase(),
    {
        self.phase
    }

    /// Enters the start phase, once: returns whether the start callbacks are
    /// to run now.
    pub fn begin_start(&mut self) -> (r: bool)
        ensures
            r == (old(self).spec_phase() == Phase::Uninitialized),
            final(self).spec_phase() == if r {
                Phase::Starting
            } else {
                old(self).spec_phase()
            },
            final(self).last_frame() == old(self).last_frame(),
            final(self).applied_size() == old(self).applied_size(),
            final(self).applied_title() == old(self).applied_title(),
    {
        if self.phase == Phase::Uninitialized {
            self.phase = Phase::Starting;
            true
        } else {
            false
        }
    }

    /// Leaves the start phase at time `now`: frames run from here on, the
    /// first one measured from `now`. Returns whether it was starting.
    pub fn finish_start(&mut self, now: u64) -> (r: bool)
        ensures
            r == (old(self).spec_phase() == Phase::Starting),
            r ==> final(self).spec_phase() == Phase::Running && final(self).last_frame() == now,
            !r ==> final(self).spec_phase() == old(self).spec_phase() && final(self).last_frame()
                == old(self).last_frame(),
            final(self).applied_size() == old(self).applied_size(),
            final(self).applied_title() == old(self).applied_title(),
    {
        if self.phase == Phase::Starting {
            self.phase = Phase::Running;
            self.last_frame_nanos = now;
            true
        } else {
            false
        }
    }

    /// A callback failed: the loop stops for good.
    pub fn fail(&mut self)
        ensures
            final(self).spec_phase() == Phase::Stopped,
            final(self).last_frame() == old(self).last_frame(),
            final(self).applied_size() == old(self).applied_size(),
            final(self).applied_title() == old(self).applied_title(),
    {
        self.phase = Phase::Stopped;
    }

    /// Decides the frame that begins at time `now`. A closed window stops
    /// the loop. Otherwise the frame's time step runs from the last frame to
    /// `now` (none where the clock went back), and the window is resized or
    /// retitled only where `desired` differs from what was last applied.
    pub fn begin_frame(&mut self, now: u64, close_requested: bool, desired: &WindowProps) -> (r:
        FrameStep)
        ensures
            old(self).spec_phase() != Phase::Running ==> r is Idle && *final(self) == *old(self),
            old(self).spec_phase() == Phase::Running && close_requested ==> r is Stop
                && final(self).spec_phase() == Phase::Stopped && final(self).last_frame() == old(
                self,
            ).last_frame() && final(self).applied_size() == old(self).applied_size()
                && final(self).applied_title() == old(self).applied_title(),
            old(self).spec_phase() == Phase::Running && !close_requested ==> {
                &&& final(self).spec_phase() == Phase::Running
                &&& final(self).last_frame() == now
                &&& final(self).applied_size() == (desired.width, desired.height)
                &&& final(self).applied_title() == desired.title@
                &&& r matches FrameStep::Run { delta_nanos, resize, retitle }
                &&& delta_nanos == if now >= old(self).last_frame() {
                    (now - old(self).last_frame()) as u64
                } else {
                    0
                }
                &&& resize == if old(self).applied_size() != (desired.width, desired.height) {
                    Some((desired.width, desired.height))
                } else {
                    None::<(i32, i32)>
                }
                &&& retitle.is_some() == (old(self).applied_title() != desired.title@)
                &&& retitle is Some ==> retitle.unwrap()@ == desired.title@
            },
    {
        if self.phase != Phase::Running {
            return FrameStep::Idle;
        }
        if close_requested {
            self.phase = Phase::Stopped;
            return FrameStep::Stop;
        }
        let resize = if self.applied_width != desired.width || self.applied_height != desired.height {
            self.applied_width = desired.width;
            self.applied_height = desired.height;
            Some((desired.width, desired.height))
        } else {
            None
        };
        let retitle = if self.applied_title != desired.title {
            self.applied_title = desired.title.clone();
            Some(desired.title.clone())
        } else {
            None
        };
        let delta_nanos = if now >= self.last_frame_nanos {
            now - self.last_frame_nanos
        } else {
            0
        };
        self.last_frame_nanos = now;
        FrameStep::Run { delta_nanos, resize, retitle }
    }
}

/// How long a script's `wait(seconds)` sleeps, as whole seconds and
/// nanoseconds: one frame at 60 frames a second where `seconds` is exactly
/// zero, else `whole_seconds` (the request with its fraction dropped).
pub fn wait_span(whole_seconds: u64, exactly_zero: bool) -> (r: (u64, u32))
    ensures
        r == if exactly_zero {
            (0u64, FRAME_NANOS)
        } else {
            (whole_seconds, 0u32)
        },
{
    if exactly_zero {
        (0, FRAME_NANOS)
    } else {
        (whole_seconds, 0)
    }
}

} // verus!
