//! Latest-state terminal output scheduling.
//!
//! Terminal writes are ordered side effects: dropping an incremental diff can
//! invalidate every later diff. This scheduler therefore drops stale deltas
//! and requires the caller to submit a complete repaint before deltas resume.
//!
//! Times are nanoseconds on a monotonic clock of the caller's choice.

use vstd::prelude::*;

verus! {

#[derive(Clone, Debug, Eq, PartialEq)]
pub struct Frame {
    pub bytes: Vec<u8>,
    pub complete: bool,
}

#[derive(Clone, Debug, Eq, PartialEq)]
pub struct FrameScheduler {
    in_flight: bool,
    pending: Option<Frame>,
    resync_required: bool,
}

/// The state of a scheduler.
pub struct SchedulerState {
    /// A frame has been handed out and its write is not finished.
    pub in_flight: bool,
    /// The frame to write next.
    pub pending: Option<Frame>,
    /// A delta was dropped and no complete frame has come since: the caller is to
    /// be asked for one.
    pub resync_required: bool,
}

/// Whether the state takes a delta.
pub open spec fn takes_delta(state: SchedulerState) -> bool {
    !state.resync_required && !state.in_flight && state.pending is None
}

/// The state after a delta was submitted.
pub open spec fn with_delta(state: SchedulerState, frame: Frame) -> SchedulerState {
    if takes_delta(state) {
        SchedulerState { pending: Some(frame), ..state }
    } else {
        SchedulerState { resync_required: true, ..state }
    }
}

/// The state after a complete frame was submitted.
pub open spec fn with_complete(state: SchedulerState, frame: Frame) -> SchedulerState {
    SchedulerState {
        pending: Some(frame),
        resync_required: false,
        ..state
    }
}

/// The frame that the state hands out.
pub open spec fn next_frame(state: SchedulerState) -> Option<Frame> {
    if state.in_flight {
        None
    } else {
        state.pending
    }
}

/// The state after it was asked for a frame.
pub open spec fn with_frame_taken(state: SchedulerState) -> SchedulerState {
    if next_frame(state) is Some {
        SchedulerState { in_flight: true, pending: None, ..state }
    } else {
        state
    }
}

/// The state after the write in flight was finished.
pub open spec fn with_write_finished(state: SchedulerState) -> SchedulerState {
    SchedulerState { in_flight: false, ..state }
}

/// Once a delta was refused, every delta is refused, whatever is taken and
/// finished in between, until a complete frame comes.
pub proof fn law_no_delta_after_a_dropped_one(state: SchedulerState, frame: Frame, later: Frame)
    requires
        !takes_delta(state),
    ensures
        with_delta(state, frame).resync_required,
        ({
            let dropped = with_delta(state, frame);
            &&& with_delta(dropped, later).resync_required && !takes_delta(dropped)
            &&& with_frame_taken(dropped).resync_required
            &&& with_write_finished(dropped).resync_required
            &&& !with_complete(dropped, later).resync_required
        }),
        forall|other: SchedulerState| #[trigger] other.resync_required ==> !takes_delta(other),
{
}

/// A delta is taken exactly when no repaint is asked for, nothing is in flight and
/// nothing waits. One that is taken is the frame handed out next. One that is
/// refused is dropped: what waits stays as it is, and a repaint is asked for, also
/// when a frame is taken and when a write is finished, until a complete frame comes.
pub proof fn law_a_delta_is_handed_out_or_asks_for_a_repaint(state: SchedulerState, frame: Frame)
    ensures
        takes_delta(state) <==> !(state.resync_required || state.in_flight || state.pending is Some),
        takes_delta(state) ==> next_frame(with_delta(state, frame)) == Some(frame),
        !takes_delta(state) ==> ({
            let dropped = with_delta(state, frame);
            &&& dropped.resync_required
            &&& dropped.pending == state.pending && dropped.in_flight == state.in_flight
            &&& with_frame_taken(dropped).resync_required
            &&& with_write_finished(dropped).resync_required
            &&& with_write_finished(with_frame_taken(dropped)).resync_required
            &&& forall|complete: Frame|
                !(#[trigger] with_complete(dropped, complete)).resync_required
        }),
{
}

/// While one frame is in flight no other is handed out.
pub proof fn law_one_frame_in_flight(state: SchedulerState)
    requires
        next_frame(state) is Some,
    ensures
        with_frame_taken(state).in_flight,
        next_frame(with_frame_taken(state)) is None,
{
}

impl Default for FrameScheduler {
    fn default() -> (scheduler: Self)
        ensures
            scheduler@ == (SchedulerState {
                in_flight: false,
                pending: None,
                resync_required: false,
            }),
    {
        FrameScheduler {
            in_flight: false,
            pending: None,
            resync_required: false,
        }
    }
}

impl View for FrameScheduler {
    type V = SchedulerState;

    closed spec fn view(&self) -> SchedulerState {
        SchedulerState {
            in_flight: self.in_flight,
            pending: self.pending,
            resync_required: self.resync_required,
        }
    }
}

impl FrameScheduler {
    /// Queue an incremental frame. It is refused, and a complete repaint is asked
    /// for, while another frame waits or is written or a delta was dropped.
    pub fn submit_delta(&mut self, bytes: Vec<u8>) -> (accepted: bool)
        ensures
            accepted == !(old(self)@.resync_required || old(self)@.in_flight || old(
                self,
            )@.pending is Some),
            final(self)@ == with_delta(old(self)@, Frame { bytes, complete: false }),
    {
        if self.resync_required || self.in_flight || self.pending.is_some() {
            self.resync_required = true;
            return false;
        }
        self.pending = Some(Frame { bytes, complete: false });
        true
    }

    /// Queue a complete frame in place of whatever waits.
    pub fn submit_complete(&mut self, bytes: Vec<u8>) -> (accepted: bool)
        ensures
            accepted,
            final(self)@ == with_complete(old(self)@, Frame { bytes, complete: true }),
    {
        self.pending = Some(Frame { bytes, complete: true });
        self.resync_required = false;
        true
    }

    /// Take the frame to write, unless a write is in flight.
    pub fn take_next(&mut self) -> (frame: Option<Frame>)
        ensures
            frame == next_frame(old(self)@),
            final(self)@ == with_frame_taken(old(self)@),
    {
        if self.in_flight {
            return None;
        }
        match self.pending.take() {
            Some(frame) => {
                self.in_flight = true;
                Some(frame)
            },
            None => None,
        }
    }

    pub fn finish_write(&mut self)
        ensures
            final(self)@ == with_write_finished(old(self)@),
    {
        self.in_flight = false;
    }

    pub fn needs_repaint(&self) -> (yes: bool)
        ensures
            yes == self@.resync_required,
    {
        self.resync_required
    }

    pub fn has_in_flight_write(&self) -> (yes: bool)
        ensures
            yes == self@.in_flight,
    {
        self.in_flight
    }

    pub fn has_pending_frame(&self) -> (yes: bool)
        ensures
            yes == (self@.pending is Some),
    {
        self.pending.is_some()
    }

    /// Drops a delta that waits; a complete frame stays.
    fn drop_pending_delta(&mut self)
        ensures
            final(self)@ == without_delta(old(self)@),
    {
        if let Some(frame) = self.pending.take() {
            if frame.complete {
                self.pending = Some(frame);
            }
        }
    }
}

/// The state without a delta that waits.
pub open spec fn without_delta(state: SchedulerState) -> SchedulerState {
    match state.pending {
        Some(frame) if !frame.complete => SchedulerState { pending: None, ..state },
        _ => state,
    }
}

#[derive(Clone, Debug)]
pub struct ResizeCoalescer {
    pending: Option<(u16, u16)>,
    last_event: Option<u64>,
    settle_after: u64,
}

/// The state of a coalescer: the geometry and the time of the last resize that
/// has not been taken, and how long a resize must rest.
pub struct ResizeState {
    pub last: Option<(u16, u16, u64)>,
    pub settle_after: u64,
}

/// The geometry that has settled at a time: that of the last resize, once it has
/// rested long enough. A clock that went backwards has not moved.
pub open spec fn settled(state: ResizeState, now: u64) -> Option<(u16, u16)> {
    match state.last {
        Some((width, height, at)) => {
            let rested: int = if now >= at {
                now - at
            } else {
                0
            };
            if rested >= state.settle_after {
                Some((width, height))
            } else {
                None
            }
        },
        None => None,
    }
}

impl View for ResizeCoalescer {
    type V = ResizeState;

    closed spec fn view(&self) -> ResizeState {
        ResizeState {
            last: match (self.pending, self.last_event) {
                (Some((width, height)), Some(at)) => Some((width, height, at)),
                _ => None,
            },
            settle_after: self.settle_after,
        }
    }
}

impl ResizeCoalescer {
    /// A geometry and its time come and go together.
    pub closed spec fn wf(&self) -> bool {
        self.pending is Some <==> self.last_event is Some
    }

    pub fn new(settle_after: u64) -> (coalescer: Self)
        ensures
            coalescer.wf(),
            coalescer@ == (ResizeState { last: None, settle_after }),
    {
        ResizeCoalescer { pending: None, last_event: None, settle_after }
    }

    pub fn push(&mut self, width: u16, height: u16, now: u64)
        ensures
            final(self).wf(),
            final(self)@ == (ResizeState { last: Some((width, height, now)), ..old(self)@ }),
    {
        self.pending = Some((width, height));
        self.last_event = Some(now);
    }

    pub fn take_settled(&mut self, now: u64) -> (geometry: Option<(u16, u16)>)
        requires
            old(self).wf(),
        ensures
            final(self).wf(),
            geometry == settled(old(self)@, now),
            final(self)@ == (if geometry is Some {
                ResizeState { last: None, ..old(self)@ }
            } else {
                old(self)@
            }),
    {
        let at: u64 = match self.last_event {
            Some(at) => at,
            None => {
                return None;
            },
        };
        let rested: u64 = if now >= at {
            now - at
        } else {
            0
        };
        if rested < self.settle_after {
            return None;
        }
        self.last_event = None;
        self.pending.take()
    }
}

/// Of a burst of resizes only the last one ever settles.
pub proof fn law_only_the_last_resize_settles(
    state: ResizeState,
    first: (u16, u16, u64),
    second: (u16, u16, u64),
    now: u64,
)
    ensures
        ({
            let once = ResizeState { last: Some(first), ..state };
            let twice = ResizeState { last: Some(second), ..once };
            settled(twice, now) matches Some(geometry) ==> geometry == (second.0, second.1)
        }),
{
}

/// Terminal geometry used by [`RenderLoop`].
#[derive(Clone, Copy, Debug, Eq, PartialEq, Structural)]
pub struct TerminalSize {
    pub width: u16,
    pub height: u16,
}

impl Default for TerminalSize {
    fn default() -> (size: Self)
        ensures
            size == (TerminalSize { width: 0, height: 0 }),
    {
        TerminalSize { width: 0, height: 0 }
    }
}

/// Work returned by [`RenderLoop::next`].
///
/// A resize or a dropped delta first produces [`RenderWork::Repaint`]. The
/// caller renders a complete frame for that geometry and submits it with
/// [`RenderLoop::submit_complete`]. Only then can incremental writes resume.
#[derive(Clone, Debug, Eq, PartialEq)]
pub enum RenderWork {
    Repaint { size: TerminalSize },
    Write(Frame),
}

/// Small orchestration layer for a terminal render loop.
///
/// `FrameScheduler` owns write ordering while `ResizeCoalescer` owns resize
/// timing. Keeping those policies together gives callers one deterministic
/// event-loop boundary: feed input and invalidations into this type, then poll
/// [`RenderLoop::next`] from the terminal task. Resize bursts do not trigger
/// repeated full renders, and a resize can never allow a stale delta to be
/// written after the geometry changed.
#[derive(Clone, Debug)]
pub struct RenderLoop {
    scheduler: FrameScheduler,
    resize: ResizeCoalescer,
    size: TerminalSize,
    complete_repaint_required: bool,
    repaint_announced: bool,
}

/// The state of a render loop.
pub struct LoopState {
    pub scheduler: SchedulerState,
    pub resize: ResizeState,
    pub size: TerminalSize,
    /// Nothing but a complete frame may be written.
    pub complete_repaint_required: bool,
    /// The caller has been asked for that frame.
    pub repaint_announced: bool,
}

impl View for RenderLoop {
    type V = LoopState;

    closed spec fn view(&self) -> LoopState {
        LoopState {
            scheduler: self.scheduler@,
            resize: self.resize@,
            size: self.size,
            complete_repaint_required: self.complete_repaint_required,
            repaint_announced: self.repaint_announced,
        }
    }
}

/// The state with a complete repaint asked for anew.
pub open spec fn with_repaint_required(state: LoopState) -> LoopState {
    LoopState { complete_repaint_required: true, repaint_announced: false, ..state }
}

/// The state after the resize that has settled was applied.
pub open spec fn with_resize_applied(state: LoopState, now: u64) -> LoopState {
    match settled(state.resize, now) {
        Some((width, height)) => {
            let rested = LoopState { resize: ResizeState { last: None, ..state.resize }, ..state };
            let size = TerminalSize { width, height };
            if size == state.size {
                rested
            } else {
                with_repaint_required(LoopState { size, ..rested })
            }
        },
        None => state,
    }
}

/// The state as `next` decides on it: a settled resize applied, and a repaint
/// required where the scheduler asks for one.
pub open spec fn ready_state(state: LoopState, now: u64) -> LoopState {
    let resized = with_resize_applied(state, now);
    LoopState {
        complete_repaint_required: resized.complete_repaint_required
            || resized.scheduler.resync_required,
        ..resized
    }
}

/// Whether `next` asks for a repaint.
pub open spec fn announces(state: LoopState, now: u64) -> bool {
    let ready = ready_state(state, now);
    ready.complete_repaint_required && !ready.repaint_announced
}

/// The scheduler as it stands when `next` takes a frame from it: while a complete
/// repaint is required, a delta that waits is dropped.
pub open spec fn writable(state: LoopState) -> SchedulerState {
    if state.complete_repaint_required {
        without_delta(state.scheduler)
    } else {
        state.scheduler
    }
}

/// What `next` gives.
pub open spec fn next_work(state: LoopState, now: u64) -> Option<RenderWork> {
    let ready = ready_state(state, now);
    if announces(state, now) {
        Some(RenderWork::Repaint { size: ready.size })
    } else {
        match next_frame(writable(ready)) {
            Some(frame) => Some(RenderWork::Write(frame)),
            None => None,
        }
    }
}

/// The state after `next`.
pub open spec fn with_work_taken(state: LoopState, now: u64) -> LoopState {
    let ready = ready_state(state, now);
    if announces(state, now) {
        LoopState { repaint_announced: true, ..ready }
    } else {
        LoopState { scheduler: with_frame_taken(writable(ready)), ..ready }
    }
}

/// The state after a complete frame was submitted.
pub open spec fn with_complete_frame(state: LoopState, frame: Frame) -> LoopState {
    LoopState {
        scheduler: with_complete(state.scheduler, frame),
        complete_repaint_required: false,
        repaint_announced: false,
        ..state
    }
}

/// While a complete repaint is required, nothing incremental is written: neither
/// after a settled resize nor after a dropped delta.
pub proof fn law_no_delta_while_a_repaint_is_required(state: LoopState, now: u64)
    requires
        ready_state(state, now).complete_repaint_required,
    ensures
        next_work(state, now) matches Some(RenderWork::Write(frame)) ==> frame.complete,
        with_work_taken(state, now).complete_repaint_required,
{
}

/// A required repaint is announced once: asked again, the loop does not repeat it.
pub proof fn law_a_repaint_is_announced_once(state: LoopState, now: u64, later: u64)
    requires
        announces(state, now),
        settled(with_work_taken(state, now).resize, later) is None,
    ensures
        !announces(with_work_taken(state, now), later),
{
}

/// A burst of resizes to other geometries, once settled, gives one repaint request for the
/// last geometry.
pub proof fn law_a_resize_burst_repaints_once(
    state: LoopState,
    first: (u16, u16, u64),
    second: (u16, u16, u64),
    now: u64,
    later: u64,
)
    requires
        state.size != (TerminalSize { width: second.0, height: second.1 }),
        now >= second.2 + state.resize.settle_after,
    ensures
        ({
            let burst = LoopState {
                resize: ResizeState { last: Some(second), ..(ResizeState {
                    last: Some(first),
                    ..state.resize
                }) },
                ..state
            };
            &&& next_work(burst, now) == Some(
                RenderWork::Repaint { size: TerminalSize { width: second.0, height: second.1 } },
            )
            &&& !announces(with_work_taken(burst, now), later)
        }),
{
}

impl RenderLoop {
    pub closed spec fn wf(&self) -> bool {
        self.resize.wf()
    }

    pub fn new(width: u16, height: u16, settle_after: u64) -> (render_loop: Self)
        ensures
            render_loop.wf(),
            render_loop@ == (LoopState {
                scheduler: SchedulerState {
                    in_flight: false,
                    pending: None,
                    resync_required: false,
                },
                resize: ResizeState { last: None, settle_after },
                size: TerminalSize { width, height },
                complete_repaint_required: false,
                repaint_announced: false,
            }),
    {
        RenderLoop {
            scheduler: FrameScheduler::default(),
            resize: ResizeCoalescer::new(settle_after),
            size: TerminalSize { width, height },
            complete_repaint_required: false,
            repaint_announced: false,
        }
    }

    pub fn size(&self) -> (size: TerminalSize)
        ensures
            size == self@.size,
    {
        self.size
    }

    /// Record a terminal resize. The geometry is applied when the resize has
    /// settled, as observed by the next call to [`Self::next`].
    pub fn resize(&mut self, width: u16, height: u16, now: u64)
        ensures
            final(self).wf(),
            final(self)@ == (LoopState {
                resize: ResizeState { last: Some((width, height, now)), ..old(self)@.resize },
                ..old(self)@
            }),
    {
        self.resize.push(width, height, now);
    }

    /// Request a complete repaint for the current geometry.
    pub fn request_repaint(&mut self)
        requires
            old(self).wf(),
        ensures
            final(self).wf(),
            final(self)@ == with_repaint_required(old(self)@),
    {
        self.complete_repaint_required = true;
        self.repaint_announced = false;
    }

    /// Queue an incremental frame unless a complete repaint is required.
    pub fn submit_delta(&mut self, bytes: Vec<u8>) -> (accepted: bool)
        requires
            old(self).wf(),
        ensures
            final(self).wf(),
            accepted == (!old(self)@.complete_repaint_required && takes_delta(
                old(self)@.scheduler,
            )),
            final(self)@ == (if old(self)@.complete_repaint_required {
                old(self)@
            } else {
                let queued = LoopState {
                    scheduler: with_delta(
                        old(self)@.scheduler,
                        Frame { bytes, complete: false },
                    ),
                    ..old(self)@
                };
                if accepted {
                    queued
                } else {
                    with_repaint_required(queued)
                }
            }),
    {
        if self.complete_repaint_required {
            return false;
        }
        let accepted = self.scheduler.submit_delta(bytes);
        if !accepted {
            self.complete_repaint_required = true;
            self.repaint_announced = false;
        }
        accepted
    }

    /// Queue a complete frame and release the loop's resynchronization gate.
    pub fn submit_complete(&mut self, bytes: Vec<u8>) -> (accepted: bool)
        requires
            old(self).wf(),
        ensures
            final(self).wf(),
            accepted,
            final(self)@ == with_complete_frame(old(self)@, Frame { bytes, complete: true }),
    {
        let accepted = self.scheduler.submit_complete(bytes);
        if accepted {
            self.complete_repaint_required = false;
            self.repaint_announced = false;
        }
        accepted
    }

    /// Return the next repaint request or terminal write.
    ///
    /// The clock is the caller's, so resize behaviour can be tested without
    /// sleeping.
    pub fn next(&mut self, now: u64) -> (work: Option<RenderWork>)
        requires
            old(self).wf(),
        ensures
            final(self).wf(),
            work == next_work(old(self)@, now),
            final(self)@ == with_work_taken(old(self)@, now),
    {
        if let Some((width, height)) = self.resize.take_settled(now) {
            let next_size = TerminalSize { width, height };
            if next_size != self.size {
                self.size = next_size;
                self.request_repaint();
            }
        }
        if self.scheduler.needs_repaint() {
            self.complete_repaint_required = true;
        }
        if self.complete_repaint_required && !self.repaint_announced {
            self.repaint_announced = true;
            return Some(RenderWork::Repaint { size: self.size });
        }
        if self.complete_repaint_required {
            self.scheduler.drop_pending_delta();
        }
        match self.scheduler.take_next() {
            Some(frame) => Some(RenderWork::Write(frame)),
            None => None,
        }
    }

    pub fn finish_write(&mut self)
        requires
            old(self).wf(),
        ensures
            final(self).wf(),
            final(self)@ == (LoopState {
                scheduler: with_write_finished(old(self)@.scheduler),
                ..old(self)@
            }),
    {
        self.scheduler.finish_write();
    }

    pub fn has_in_flight_write(&self) -> (yes: bool)
        ensures
            yes == self@.scheduler.in_flight,
    {
        self.scheduler.has_in_flight_write()
    }

    pub fn has_pending_frame(&self) -> (yes: bool)
        ensures
            yes == (self@.scheduler.pending is Some),
    {
        self.scheduler.has_pending_frame()
    }

    pub fn needs_repaint(&self) -> (yes: bool)
        ensures
            yes == (self@.complete_repaint_required || self@.scheduler.resync_required),
    {
        self.complete_repaint_required || self.scheduler.needs_repaint()
    }
}

} // verus!
