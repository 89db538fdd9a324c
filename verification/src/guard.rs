//! Instrumentation guards.
//!
//! A guard is armed when an instrumented call begins and finished exactly
//! once when it ends; finishing computes the call's delta and hands one
//! measurement to the session's channel without ever blocking. A timing
//! guard measures elapsed time between two clock readings; an allocation
//! guard brackets a frame of the accounting stack.

use vstd::prelude::*;

use crate::report::ProfilingMode;
use crate::session::{send_alloc_measurement, send_duration_measurement, HotPathState};
use crate::stack::{
    stack_pop_frames, stack_push, AllocationInfo, AllocationInfoStack, MAX_DEPTH,
};

verus! {

/// A timing guard: remembers the clock reading at which the call began.
pub struct MeasurementGuard {
    pub name: String,
    pub start_ns: u64,
    /// Whether this call brackets the whole session.
    pub wrapper: bool,
}

impl MeasurementGuard {
    /// Arms a timing guard at the given clock reading.
    pub fn new(name: &str, wrapper: bool, start_ns: u64) -> (r: MeasurementGuard)
        ensures
            r.name@ == name@,
            r.start_ns == start_ns,
            r.wrapper == wrapper,
    {
        MeasurementGuard { name: name.to_owned(), start_ns, wrapper }
    }

    /// The elapsed time the guard reports for a clock reading at its end;
    /// a clock that appears to run backwards yields zero rather than wrapping.
    pub open spec fn spec_delta(self, end_ns: u64) -> u64 {
        if end_ns >= self.start_ns {
            (end_ns - self.start_ns) as u64
        } else {
            0
        }
    }

    /// Computes the guard's elapsed time at the given end reading.
    pub fn delta(&self, end_ns: u64) -> (r: u64)
        ensures
            r == self.spec_delta(end_ns),
    {
        if end_ns >= self.start_ns {
            end_ns - self.start_ns
        } else {
            0
        }
    }

    /// Ends the measured call: sends one duration measurement with the
    /// guard's delta, never blocking and never failing.
    pub fn finish(self, end_ns: u64, state: &HotPathState) {
        let d = self.delta(end_ns);
        send_duration_measurement(state, self.name.as_str(), d, self.wrapper);
    }
}

/// The value an allocation frame reports under each profiling mode.
pub open spec fn spec_frame_value(mode: ProfilingMode, f: AllocationInfo) -> u64 {
    match mode {
        ProfilingMode::Timing => 0,
        ProfilingMode::AllocBytesTotal => f.bytes_total,
        ProfilingMode::AllocBytesMax => f.bytes_max,
        ProfilingMode::AllocCountTotal => f.count_total,
        ProfilingMode::AllocCountMax => f.count_max,
    }
}

/// Reads the value a popped frame reports under the given mode.
pub fn frame_value(mode: ProfilingMode, f: &AllocationInfo) -> (r: u64)
    ensures
        r == spec_frame_value(mode, *f),
{
    match mode {
        ProfilingMode::Timing => 0,
        ProfilingMode::AllocBytesTotal => f.bytes_total,
        ProfilingMode::AllocBytesMax => f.bytes_max,
        ProfilingMode::AllocCountTotal => f.count_total,
        ProfilingMode::AllocCountMax => f.count_max,
    }
}

/// An allocation guard: owns one frame of the calling thread's accounting
/// stack for the duration of the instrumented call, unless the call was
/// marked unsupported, in which case it touches no frame at all.
pub struct AllocGuard {
    pub name: String,
    /// Whether this call brackets the whole session.
    pub wrapper: bool,
    /// The call's allocations cannot be attributed; no frame was pushed.
    pub unsupported_async: bool,
}

impl AllocGuard {
    /// Arms an allocation guard: begins a fresh accounting frame, except for
    /// an unsupported call. The fixed stack capacity is a hard bound; running
    /// past it is a programmer contract violation callers must rule out.
    pub fn new(
        name: &str,
        wrapper: bool,
        unsupported_async: bool,
        stack: &mut AllocationInfoStack,
    ) -> (r: AllocGuard)
        requires
            old(stack).wf(),
            !unsupported_async ==> old(stack).depth + 1 < MAX_DEPTH,
        ensures
            r.name@ == name@,
            r.wrapper == wrapper,
            r.unsupported_async == unsupported_async,
            final(stack).wf(),
            final(stack).cumulative == old(stack).cumulative,
            !unsupported_async ==> final(stack).depth == old(stack).depth + 1
                && final(stack).elements@ == stack_push(
                old(stack).elements@,
                old(stack).depth as int,
            ),
            unsupported_async ==> *final(stack) == *old(stack),
    {
        if !unsupported_async {
            stack.push();
        }
        AllocGuard { name: name.to_owned(), wrapper, unsupported_async }
    }

    /// Ends the measured call. An attributable same-thread call pops its
    /// frame — merging it into the caller's frame under cumulative
    /// accounting — and sends the frame's value for the session's mode. An
    /// unsupported or thread-migrated call leaves this thread's stack alone
    /// and sends an explicitly unattributable measurement instead.
    pub fn finish(self, stack: &mut AllocationInfoStack, state: &HotPathState, cross_thread: bool)
        requires
            old(stack).wf(),
            !self.unsupported_async && !cross_thread ==> old(stack).depth >= 1,
        ensures
            final(stack).wf(),
            final(stack).cumulative == old(stack).cumulative,
            self.unsupported_async || cross_thread ==> *final(stack) == *old(stack),
            !self.unsupported_async && !cross_thread ==> final(stack).depth == old(stack).depth - 1
                && final(stack).elements@ == stack_pop_frames(
                old(stack).elements@,
                old(stack).depth as int,
                old(stack).cumulative,
            ),
    {
        if self.unsupported_async || cross_thread {
            send_alloc_measurement(
                state,
                self.name.as_str(),
                0,
                self.unsupported_async,
                self.wrapper,
                cross_thread,
            );
        } else {
            let frame = stack.pop();
            let value = frame_value(state.mode, &frame);
            send_alloc_measurement(
                state,
                self.name.as_str(),
                value,
                frame.unsupported_async,
                self.wrapper,
                false,
            );
        }
    }
}

/// A guard for an async call whose allocations cannot be attributed at all:
/// it performs no accounting and reports one explicitly unsupported
/// measurement, so the report shows a marked cell instead of a wrong number.
pub struct NoopAsyncAllocGuard {
    pub name: String,
}

impl NoopAsyncAllocGuard {
    /// Arms the no-op guard.
    pub fn new(name: &str) -> (r: NoopAsyncAllocGuard)
        ensures
            r.name@ == name@,
    {
        NoopAsyncAllocGuard { name: name.to_owned() }
    }

    /// Ends the call: sends one measurement marked unsupported.
    pub fn finish(self, state: &HotPathState) {
        send_alloc_measurement(state, self.name.as_str(), 0, true, false, false);
    }
}

} // verus!
