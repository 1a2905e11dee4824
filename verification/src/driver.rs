//! The frame loop: which step comes next, how many frames are in flight,
//! and how long frames take.

use vstd::prelude::*;
use crate::image::Extent;

verus! {

/// How many frames were presented, and how long they took together.
#[derive(Clone, Copy, Debug, PartialEq, Eq, Structural)]
pub struct FrameStats {
    frames: u64,
    total_nanos: u128,
}

/// Frame statistics as values.
pub struct StatsView {
    pub frames: int,
    pub total_nanos: int,
}

impl StatsView {
    /// The statistics after one more frame that took `nanos` nanoseconds.
    /// Once `u64::MAX` frames are counted, nothing is added any more.
    pub open spec fn recorded(self, nanos: u64) -> StatsView {
        if self.frames < u64::MAX {
            StatsView { frames: self.frames + 1, total_nanos: self.total_nanos + nanos }
        } else {
            self
        }
    }

    /// The mean time of a frame in nanoseconds, rounded down; 0 before the
    /// first frame.
    pub open spec fn average_nanos(self) -> int {
        if self.frames <= 0 {
            0
        } else {
            self.total_nanos / self.frames
        }
    }

    /// No frame took longer than `u64::MAX` nanoseconds.
    pub open spec fn wf(self) -> bool {
        0 <= self.frames <= u64::MAX && 0 <= self.total_nanos <= self.frames * u64::MAX
    }
}

impl View for FrameStats {
    type V = StatsView;

    closed spec fn view(&self) -> StatsView {
        StatsView { frames: self.frames as int, total_nanos: self.total_nanos as int }
    }
}

impl FrameStats {
    /// No frame that was counted took longer than `u64::MAX` nanoseconds.
    pub closed spec fn wf(&self) -> bool {
        self@.wf()
    }

    /// What `wf` says of the view.
    pub proof fn lemma_wf(&self)
        requires
            self.wf(),
        ensures
            self@.wf(),
    {
    }

    /// The statistics before the first frame.
    pub fn new() -> (stats: FrameStats)
        ensures
            stats.wf(),
            stats@ == (StatsView { frames: 0, total_nanos: 0 }),
    {
        FrameStats { frames: 0, total_nanos: 0 }
    }

    /// Counts one more frame, which took `nanos` nanoseconds.
    pub fn record(&mut self, nanos: u64)
        requires
            old(self).wf(),
        ensures
            final(self).wf(),
            final(self)@ == old(self)@.recorded(nanos),
    {
        if self.frames < u64::MAX {
            proof {
                let f = self.frames as int;
                let m = u64::MAX as int;
                assert(f * m <= m * m) by (nonlinear_arith)
                    requires
                        0 <= f <= m,
                        0 <= m,
                ;
            }
            self.total_nanos = self.total_nanos + nanos as u128;
            self.frames = self.frames + 1;
        }
    }

    /// How many frames were counted.
    pub fn frames(&self) -> (frames: u64)
        ensures
            frames == self@.frames,
    {
        self.frames
    }

    /// How long the counted frames took together, in nanoseconds.
    pub fn total_nanos(&self) -> (total: u128)
        ensures
            total == self@.total_nanos,
    {
        self.total_nanos
    }

    /// The mean time of a frame in nanoseconds, rounded down; 0 before the
    /// first frame.
    pub fn average_nanos(&self) -> (average: u64)
        requires
            self.wf(),
        ensures
            average == self@.average_nanos(),
    {
        if self.frames == 0 {
            0
        } else {
            proof {
                let f = self.frames as int;
                let t = self.total_nanos as int;
                let m = u64::MAX as int;
                assert(t / f <= m) by (nonlinear_arith)
                    requires
                        0 < f,
                        0 <= t <= f * m,
                ;
            }
            (self.total_nanos / (self.frames as u128)) as u64
        }
    }
}

/// Where the frame loop stands.
#[derive(Clone, Copy, Debug, PartialEq, Eq, Structural)]
pub enum Phase {
    /// Between two frames.
    Idle,
    /// Waiting for the frame in flight to complete.
    Draining,
    /// Waiting for the next presentable image.
    Acquiring,
    /// The shared per-frame resources are refreshed for an image of
    /// dimensions `extent`.
    Updating { extent: Extent },
    /// The frame is recorded and submitted at `extent`.
    Rendering { extent: Extent },
    /// The frame is handed over for presentation.
    Presenting,
    /// The loop has ended.
    Stopped,
}

/// What happened outside.
#[derive(Clone, Copy, Debug, PartialEq, Eq, Structural)]
pub enum Event {
    /// It is time for the next frame.
    Tick,
    /// The frame in flight has completed.
    PreviousFrameDone,
    /// The presentation engine handed out an image of dimensions `extent`.
    ImageAcquired { extent: Extent },
    /// The presentable images no longer fit the surface.
    OutOfDate,
    /// The shared per-frame resources are refreshed.
    ResourcesReady,
    /// The frame was recorded and submitted.
    FrameSubmitted,
    /// The frame could not be recorded or submitted.
    FrameFailed,
    /// The frame was handed over; `nanos` nanoseconds have passed since the
    /// frame before it was.
    Presented { nanos: u64 },
    /// The window is to be closed.
    CloseRequested,
}

/// What is to be done outside next.
#[derive(Clone, Copy, Debug, PartialEq, Eq, Structural)]
pub enum Action {
    /// Nothing: the event does not belong to the phase, or the frame is
    /// complete.
    Nothing,
    /// Wait for the frame in flight to complete.
    WaitForPreviousFrame,
    /// Ask for the next presentable image.
    AcquireImage,
    /// Make new presentable images that fit the surface.
    RecreateSwapchain,
    /// Refresh the shared per-frame resources.
    UpdateProducers,
    /// Record and submit the frame at `extent`.
    RenderFrame { extent: Extent },
    /// Hand the frame over for presentation.
    Present,
    /// Leave the loop.
    Stop,
}

/// What a frame driver holds.
pub struct DriverView {
    pub phase: Phase,
    /// Whether a submitted frame has not been waited for yet.
    pub in_flight: bool,
    pub stats: StatsView,
}

impl DriverView {
    /// A frame is acquired, refreshed and rendered only while no other frame
    /// is in flight.
    pub open spec fn one_in_flight(self) -> bool {
        (self.phase is Acquiring || self.phase is Updating || self.phase is Rendering)
            ==> !self.in_flight
    }

    /// The state and the action that follow `event`.
    ///
    /// A tick in `Idle` starts a frame: the frame in flight, if there is
    /// one, is waited for first, then an image is acquired. With the image
    /// the resources are refreshed, then the frame is rendered at the
    /// dimensions of the image, then presented; a presented frame is
    /// counted. Images that are out of date are recreated and the frame is
    /// given up. A frame that fails and a request to close end the loop. An
    /// event that does not belong to the phase changes nothing.
    pub open spec fn after(self, event: Event) -> (DriverView, Action) {
        match (self.phase, event) {
            (Phase::Stopped, _) => (self, Action::Nothing),
            (_, Event::CloseRequested) => (
                DriverView { phase: Phase::Stopped, ..self },
                Action::Stop,
            ),
            (Phase::Idle, Event::Tick) => if self.in_flight {
                (DriverView { phase: Phase::Draining, ..self }, Action::WaitForPreviousFrame)
            } else {
                (DriverView { phase: Phase::Acquiring, ..self }, Action::AcquireImage)
            },
            (Phase::Draining, Event::PreviousFrameDone) => (
                DriverView { phase: Phase::Acquiring, in_flight: false, ..self },
                Action::AcquireImage,
            ),
            (Phase::Acquiring, Event::ImageAcquired { extent }) => (
                DriverView { phase: Phase::Updating { extent }, ..self },
                Action::UpdateProducers,
            ),
            (Phase::Acquiring, Event::OutOfDate) => (
                DriverView { phase: Phase::Idle, ..self },
                Action::RecreateSwapchain,
            ),
            (Phase::Updating { extent }, Event::ResourcesReady) => (
                DriverView { phase: Phase::Rendering { extent }, ..self },
                Action::RenderFrame { extent },
            ),
            (Phase::Rendering { .. }, Event::FrameSubmitted) => (
                DriverView { phase: Phase::Presenting, in_flight: true, ..self },
                Action::Present,
            ),
            (Phase::Rendering { .. }, Event::FrameFailed) => (
                DriverView { phase: Phase::Stopped, ..self },
                Action::Stop,
            ),
            (Phase::Presenting, Event::Presented { nanos }) => (
                DriverView { phase: Phase::Idle, stats: self.stats.recorded(nanos), ..self },
                Action::Nothing,
            ),
            (Phase::Presenting, Event::OutOfDate) => (
                DriverView { phase: Phase::Idle, ..self },
                Action::RecreateSwapchain,
            ),
            _ => (self, Action::Nothing),
        }
    }
}

/// Decides the steps of the frame loop. The loop itself runs outside: it
/// performs each action and reports what happened as the next event.
#[derive(Clone, Copy, Debug, PartialEq, Eq, Structural)]
pub struct FrameDriver {
    phase: Phase,
    in_flight: bool,
    stats: FrameStats,
}

impl View for FrameDriver {
    type V = DriverView;

    closed spec fn view(&self) -> DriverView {
        DriverView { phase: self.phase, in_flight: self.in_flight, stats: self.stats@ }
    }
}

impl FrameDriver {
    /// The statistics are in order, and no frame is begun while another is
    /// in flight.
    pub closed spec fn wf(&self) -> bool {
        self.stats.wf() && self@.one_in_flight()
    }

    /// What `wf` says of the view.
    pub proof fn lemma_wf(&self)
        requires
            self.wf(),
        ensures
            self@.stats.wf(),
            self@.one_in_flight(),
    {
    }

    /// A driver between frames, with no frame in flight and none counted.
    pub fn new() -> (driver: FrameDriver)
        ensures
            driver.wf(),
            driver@ == (DriverView {
                phase: Phase::Idle,
                in_flight: false,
                stats: StatsView { frames: 0, total_nanos: 0 },
            }),
    {
        FrameDriver { phase: Phase::Idle, in_flight: false, stats: FrameStats::new() }
    }

    /// Where the loop stands.
    pub fn phase(&self) -> (phase: Phase)
        ensures
            phase == self@.phase,
    {
        self.phase
    }

    /// Whether a submitted frame has not been waited for yet.
    pub fn in_flight(&self) -> (in_flight: bool)
        ensures
            in_flight == self@.in_flight,
    {
        self.in_flight
    }

    /// The timing of the frames presented so far.
    pub fn stats(&self) -> (stats: FrameStats)
        requires
            self.wf(),
        ensures
            stats.wf(),
            stats@ == self@.stats,
    {
        self.stats
    }

    /// Takes in `event` and says what is to be done next.
    pub fn step(&mut self, event: Event) -> (action: Action)
        requires
            old(self).wf(),
        ensures
            final(self).wf(),
            (final(self)@, action) == old(self)@.after(event),
    {
        match (self.phase, event) {
            (Phase::Stopped, _) => Action::Nothing,
            (_, Event::CloseRequested) => {
                self.phase = Phase::Stopped;
                Action::Stop
            },
            (Phase::Idle, Event::Tick) => {
                if self.in_flight {
                    self.phase = Phase::Draining;
                    Action::WaitForPreviousFrame
                } else {
                    self.phase = Phase::Acquiring;
                    Action::AcquireImage
                }
            },
            (Phase::Draining, Event::PreviousFrameDone) => {
                self.phase = Phase::Acquiring;
                self.in_flight = false;
                Action::AcquireImage
            },
            (Phase::Acquiring, Event::ImageAcquired { extent }) => {
                self.phase = Phase::Updating { extent };
                Action::UpdateProducers
            },
            (Phase::Acquiring, Event::OutOfDate) => {
                self.phase = Phase::Idle;
                Action::RecreateSwapchain
            },
            (Phase::Updating { extent }, Event::ResourcesReady) => {
                self.phase = Phase::Rendering { extent };
                Action::RenderFrame { extent }
            },
            (Phase::Rendering { .. }, Event::FrameSubmitted) => {
                self.phase = Phase::Presenting;
                self.in_flight = true;
                Action::Present
            },
            (Phase::Rendering { .. }, Event::FrameFailed) => {
                self.phase = Phase::Stopped;
                Action::Stop
            },
            (Phase::Presenting, Event::Presented { nanos }) => {
                self.phase = Phase::Idle;
                self.stats.record(nanos);
                Action::Nothing
            },
            (Phase::Presenting, Event::OutOfDate) => {
                self.phase = Phase::Idle;
                Action::RecreateSwapchain
            },
            _ => Action::Nothing,
        }
    }
}

/// A frame is handed over for presentation only when no other frame is in
/// flight, and it is rendered only after the resources were refreshed for
/// an acquired image, at the dimensions of that image.
pub proof fn lemma_one_frame_at_a_time(state: DriverView, event: Event)
    requires
        state.one_in_flight(),
    ensures
        state.after(event).0.one_in_flight(),
        state.after(event).1 is Present ==> !state.in_flight && state.phase is Rendering,
        state.after(event).1 matches Action::RenderFrame { extent } ==> state.phase
            == (Phase::Updating { extent }),
        state.after(event).1 is UpdateProducers ==> state.phase is Acquiring && event
            is ImageAcquired,
{
}

/// The mean of frames that all took `nanos` nanoseconds is `nanos`, and one
/// more such frame leaves it so.
pub proof fn lemma_average_of_equal_frames(frames: int, nanos: u64)
    requires
        0 < frames < u64::MAX,
    ensures
        (StatsView { frames, total_nanos: frames * nanos }).average_nanos() == nanos,
        (StatsView { frames, total_nanos: frames * nanos }).recorded(nanos).average_nanos() == nanos,
{
    assert((frames * nanos) / frames == nanos) by (nonlinear_arith)
        requires
            frames > 0,
    ;
    assert(frames * nanos + nanos == (frames + 1) * nanos) by (nonlinear_arith);
    assert(((frames + 1) * nanos) / (frames + 1) == nanos) by (nonlinear_arith)
        requires
            frames > 0,
    ;
}

} // verus!
