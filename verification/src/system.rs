//! The baseline that readings are compared with, and the short-lived views
//! through which it is compared and advanced.

use crate::frame::{delta_of, frame_of, Frame, FrameDelta};
use crate::sample::{Pid, ProcessSample, SystemSample};
use std::time::{Duration, Instant};
use vstd::prelude::*;

verus! {

/// A moment on the monotonic clock of `std::time`. Nothing is known of what
/// is inside one.
#[verifier::external_type_specification]
#[verifier::external_body]
pub struct ExInstant(Instant);

/// Calls `Instant::now`, which reads the clock. Nothing is claimed of the
/// moment that comes back.
#[verifier::external_body]
pub(crate) fn clock_now() -> (now: Instant) {
    Instant::now()
}

/// The time that passed from `earlier` to `later`, as
/// `Instant::duration_since` gives it.
pub uninterp spec fn instant_gap(later: Instant, earlier: Instant) -> Duration;

/// Calls `Instant::duration_since`, which gives the time that passed from
/// `earlier` to `later`, and no time at all where `earlier` is the later of
/// the two. The call reads no clock: the same two moments give the same time.
#[verifier::external_body]
pub(crate) fn gap_between(later: &Instant, earlier: &Instant) -> (gap: Duration)
    ensures
        gap == instant_gap(*later, *earlier),
{
    later.duration_since(*earlier)
}

/// The latest reading together with the baseline: the aggregate CPU usage and
/// the frame that were last committed, and the moment the frame was committed.
pub struct SystemState {
    sys: SystemSample,
    prev_cpu_total: u32,
    prev_frame: Frame,
    last_frame_update: Instant,
}

impl SystemState {
    /// The latest reading.
    pub closed spec fn sys(&self) -> SystemSample {
        self.sys
    }

    /// The aggregate CPU usage of the baseline.
    pub closed spec fn spec_baseline_cpu_total(&self) -> u32 {
        self.prev_cpu_total
    }

    /// The frame of the baseline.
    pub closed spec fn spec_baseline_frame(&self) -> &Frame {
        &self.prev_frame
    }

    /// The moment the frame of the baseline was committed.
    pub closed spec fn committed_at(&self) -> Instant {
        self.last_frame_update
    }

    /// Takes `sys` as the latest reading and as the baseline, committed at `now`.
    pub fn new_at(sys: SystemSample, now: Instant) -> (state: Self)
        ensures
            state.sys() == sys,
            state.baseline_cpu_total() == sys.cpu_total,
            state.baseline_frame()@ == frame_of(sys.processes@),
            state.committed_at() == now,
    {
        SystemState {
            prev_cpu_total: sys.cpu_total,
            prev_frame: Frame::from_sys(&sys),
            sys,
            last_frame_update: now,
        }
    }

    /// Takes `sys` as the latest reading and as the baseline, committed now.
    pub fn new(sys: SystemSample) -> (state: Self)
        ensures
            state.sys() == sys,
            state.baseline_cpu_total() == sys.cpu_total,
            state.baseline_frame()@ == frame_of(sys.processes@),
    {
        SystemState::new_at(sys, clock_now())
    }

    /// Takes `sys` as the latest reading. The baseline stays as it is.
    pub fn refresh(&mut self, sys: SystemSample)
        ensures
            final(self).sys() == sys,
            final(self).baseline_cpu_total() == old(self).baseline_cpu_total(),
            final(self).baseline_frame() == old(self).baseline_frame(),
            final(self).committed_at() == old(self).committed_at(),
    {
        self.sys = sys;
    }

    /// Begins a comparison of the latest reading with the baseline. The state
    /// is borrowed until the comparison is committed or dropped.
    pub fn delta(&mut self) -> (delta: SystemDelta<'_>)
        ensures
            *delta.held() == *old(self),
            delta.curr_cpu_total() == old(self).sys().cpu_total,
            *final(self) == *final(delta.held()),
    {
        SystemDelta { curr_cpu_total: self.sys.cpu_total, sys_state: self }
    }

    /// What the latest reading says of `pid`.
    pub fn process(&self, pid: Pid) -> (r: Option<&ProcessSample>)
        ensures
            r.is_some() == self.sys().processes@.dom().contains(pid),
            r matches Some(p) ==> *p == self.sys().processes@[pid],
    {
        self.sys.process(pid)
    }

    /// The aggregate CPU usage of the baseline.
    #[verifier::when_used_as_spec(spec_baseline_cpu_total)]
    pub fn baseline_cpu_total(&self) -> (cpu: u32)
        ensures
            cpu == self.spec_baseline_cpu_total(),
    {
        self.prev_cpu_total
    }

    /// The frame of the baseline.
    #[verifier::when_used_as_spec(spec_baseline_frame)]
    pub fn baseline_frame(&self) -> (frame: &Frame)
        ensures
            frame == self.spec_baseline_frame(),
    {
        &self.prev_frame
    }
}

/// A comparison of the latest reading with the baseline, in aggregate. It
/// holds the state for as long as it lasts, and only a commit changes the
/// state through it.
pub struct SystemDelta<'a> {
    sys_state: &'a mut SystemState,
    curr_cpu_total: u32,
}

impl<'a> SystemDelta<'a> {
    /// The state that the comparison holds: `*self.held()` is the state as
    /// the comparison found it, `*final(self.held())` the state as the
    /// comparison leaves it.
    pub closed spec fn held(&self) -> &'a mut SystemState {
        self.sys_state
    }

    /// The aggregate CPU usage of the latest reading, as it was captured when
    /// the comparison began.
    pub closed spec fn curr_cpu_total(&self) -> u32 {
        self.curr_cpu_total
    }

    /// A comparison that is dropped without a commit leaves the state as it
    /// found it.
    pub proof fn lemma_dropped(&self)
        requires
            has_resolved(*self),
        ensures
            *final(self.held()) == *self.held(),
    {
    }

    /// How far the aggregate CPU usage rose above the baseline. It is negative
    /// where the usage fell.
    pub fn cpu_total_delta(&self) -> (delta: i64)
        ensures
            delta == self.curr_cpu_total() - self.held().baseline_cpu_total(),
    {
        self.curr_cpu_total as i64 - self.sys_state.prev_cpu_total as i64
    }

    /// The time from the commit of the frame of the baseline to the moment
    /// `now`. A commit of the aggregate alone does not count.
    pub fn elapsed_at(&self, now: &Instant) -> (gap: Duration)
        ensures
            gap == instant_gap(*now, self.held().committed_at()),
    {
        gap_between(now, &self.sys_state.last_frame_update)
    }

    /// The time since the frame of the baseline was committed: the time from
    /// that commit to the moment the clock gives. A commit of the aggregate
    /// alone does not count.
    pub fn elapsed(&self) -> (gap: Duration)
        ensures
            exists|now: Instant| gap == #[trigger] instant_gap(now, self.held().committed_at()),
    {
        let now = clock_now();
        self.elapsed_at(&now)
    }

    /// Commits the aggregate only: the aggregate CPU usage of the latest
    /// reading becomes that of the baseline. The frame of the baseline and
    /// the moment of its commit stay as they are.
    pub fn update(self)
        ensures
            final(self.held()).baseline_cpu_total() == self.curr_cpu_total(),
            final(self.held()).baseline_frame() == self.held().baseline_frame(),
            final(self.held()).committed_at() == self.held().committed_at(),
            final(self.held()).sys() == self.held().sys(),
    {
        self.sys_state.prev_cpu_total = self.curr_cpu_total;
    }

    /// Builds the frame of the latest reading, to compare it with the frame
    /// of the baseline.
    pub fn frame_delta(self) -> (delta: SystemFrameDelta<'a>)
        ensures
            delta.held() == self.held(),
            delta.curr_cpu_total() == self.curr_cpu_total(),
            delta.curr_frame()@ == frame_of(self.held().sys().processes@),
            delta.curr_frame()@.dom().finite(),
    {
        SystemFrameDelta { curr_frame: Frame::from_sys(&self.sys_state.sys), sys_delta: self }
    }
}

/// A comparison of the latest reading with the baseline, process by process.
/// It holds the state for as long as it lasts, and only a commit changes the
/// state through it.
pub struct SystemFrameDelta<'a> {
    sys_delta: SystemDelta<'a>,
    curr_frame: Frame,
}

impl<'a> SystemFrameDelta<'a> {
    /// The state that the comparison holds: `*self.held()` is the state as
    /// the comparison found it, `*final(self.held())` the state as the
    /// comparison leaves it.
    pub closed spec fn held(&self) -> &'a mut SystemState {
        self.sys_delta.held()
    }

    /// The aggregate CPU usage of the latest reading, as it was captured when
    /// the comparison began.
    pub closed spec fn curr_cpu_total(&self) -> u32 {
        self.sys_delta.curr_cpu_total()
    }

    /// The frame of the latest reading.
    pub closed spec fn curr_frame(&self) -> Frame {
        self.curr_frame
    }

    /// A comparison that is dropped without a commit leaves the state as it
    /// found it.
    pub proof fn lemma_dropped(&self)
        requires
            has_resolved(*self),
        ensures
            *final(self.held()) == *self.held(),
    {
    }

    /// The processes that surfaced since the baseline, with `threshold` as
    /// the noise floor. The comparison can be asked again.
    pub fn deltas(&self, threshold: u32) -> (deltas: FrameDelta)
        ensures
            deltas@ == delta_of(
                self.curr_frame()@,
                self.held().baseline_frame()@,
                threshold,
            ),
            deltas@.dom().finite(),
            deltas@.dom().len() <= self.curr_frame()@.dom().len(),
    {
        self.curr_frame.delta(&self.sys_delta.sys_state.prev_frame, threshold)
    }

    /// The time from the commit of the frame of the baseline to the moment
    /// `now`.
    pub fn elapsed_at(&self, now: &Instant) -> (gap: Duration)
        ensures
            gap == instant_gap(*now, self.held().committed_at()),
    {
        self.sys_delta.elapsed_at(now)
    }

    /// The time since the frame of the baseline was committed: the time from
    /// that commit to the moment the clock gives.
    pub fn elapsed(&self) -> (gap: Duration)
        ensures
            exists|now: Instant| gap == #[trigger] instant_gap(now, self.held().committed_at()),
    {
        let now = clock_now();
        self.elapsed_at(&now)
    }

    /// Commits in full, at the moment `now`: the frame and the aggregate CPU
    /// usage of the latest reading become those of the baseline, and `now`
    /// becomes the moment of the commit.
    pub fn update_at(self, now: Instant)
        ensures
            final(self.held()).baseline_frame() == self.curr_frame(),
            final(self.held()).baseline_cpu_total() == self.curr_cpu_total(),
            final(self.held()).committed_at() == now,
            final(self.held()).sys() == self.held().sys(),
    {
        self.sys_delta.sys_state.prev_frame = self.curr_frame;
        self.sys_delta.sys_state.last_frame_update = now;
        self.sys_delta.update();
    }

    /// Commits in full, now: the frame and the aggregate CPU usage of the
    /// latest reading become those of the baseline, and the moment the clock
    /// gives becomes the moment of the commit.
    pub fn update(self)
        ensures
            final(self.held()).baseline_frame() == self.curr_frame(),
            final(self.held()).baseline_cpu_total() == self.curr_cpu_total(),
            final(self.held()).sys() == self.held().sys(),
    {
        self.update_at(clock_now());
    }

    /// What the latest reading says of `pid`.
    pub fn process(&self, pid: Pid) -> (r: Option<&ProcessSample>)
        ensures
            r.is_some() == self.held().sys().processes@.dom().contains(pid),
            r matches Some(p) ==> *p == self.held().sys().processes@[pid],
    {
        self.sys_delta.sys_state.process(pid)
    }
}

} // verus!
