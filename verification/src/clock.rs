//! Wall-clock frame timing.

use vstd::prelude::*;
use std::time::{Duration, Instant};

verus! {

#[verifier::external_type_specification]
#[verifier::external_body]
pub struct ExInstant(Instant);

/// Calls `Instant::now`; the reading depends on the system clock, so nothing is claimed
/// about it.
#[verifier::external_body]
fn now() -> (t: Instant) {
    Instant::now()
}

/// The time from reading `earlier` to reading `later`, as `Instant::duration_since` gives it:
/// a function of the two readings alone.
pub uninterp spec fn elapsed_between(later: Instant, earlier: Instant) -> Duration;

/// Calls `Instant::duration_since`, the time from `earlier` to `later` (zero when `earlier`
/// is the later one).  The contract names the result and claims only that it depends on
/// the two readings alone; its value is not stated.
#[verifier::external_body]
fn duration_since(later: Instant, earlier: Instant) -> (d: Duration)
    ensures
        d == elapsed_between(later, earlier),
{
    later.duration_since(earlier)
}

/// Minimal game clock - tracks the time between ticks.
#[derive(Debug)]
pub struct Clock {
    last_tick: Instant,
}

impl Clock {
    /// The clock reading the next tick measures from.
    pub closed spec fn spec_last_tick(self) -> Instant {
        self.last_tick
    }

    /// Create a clock starting now.
    pub fn new() -> (c: Self) {
        Self { last_tick: now() }
    }

    /// Time since the last tick (or reset); the clock then counts from this moment.
    pub fn tick(&mut self) -> (delta: Duration)
        ensures
            delta == elapsed_between(final(self).spec_last_tick(), old(self).spec_last_tick()),
    {
        let t = now();
        let delta = duration_since(t, self.last_tick);
        self.last_tick = t;
        delta
    }

    /// Restart the clock from the current time.
    pub fn reset(&mut self) {
        self.last_tick = now();
    }
}

impl Default for Clock {
    /// A clock starting now, as `Clock::new`.
    fn default() -> (c: Self) {
        Clock::new()
    }
}

/// Timing of one frame: its number, time since the sequence started, and time since the
/// previous frame.
pub struct FrameInfo {
    pub number: u64,
    pub time: Duration,
    pub delta: Duration,
}

impl FrameInfo {
    /// Frame `number`, at `time` since the sequence started, `delta` after the previous frame.
    pub fn new(number: u64, time: Duration, delta: Duration) -> (f: Self)
        ensures
            f.number == number,
            f.time == time,
            f.delta == delta,
    {
        FrameInfo { number, time, delta }
    }
}

/// Endless sequence of frames, numbered from 0.
pub struct FrameIterator {
    frame_number: u64,
    start_time: Instant,
    last_frame_time: Instant,
}

impl FrameIterator {
    /// Number of the next frame to be produced.
    pub closed spec fn spec_frame_number(self) -> u64 {
        self.frame_number
    }

    /// Clock reading at which the sequence started.
    pub closed spec fn spec_start(self) -> Instant {
        self.start_time
    }

    /// Clock reading of the previous frame (the start, before the first frame).
    pub closed spec fn spec_last_frame(self) -> Instant {
        self.last_frame_time
    }

    /// Start a frame sequence at frame 0; the previous-frame reading is the start reading.
    pub fn new() -> (it: Self)
        ensures
            it.spec_frame_number() == 0,
            it.spec_last_frame() == it.spec_start(),
    {
        let t = now();
        Self { frame_number: 0, start_time: t, last_frame_time: t }
    }

    /// Number of the next frame to be produced.
    pub fn frame_number(&self) -> (n: u64)
        ensures
            n == self.spec_frame_number(),
    {
        self.frame_number
    }

    /// Time from the start of the sequence to a reading taken now.
    pub fn time(&self) -> (t: Duration)
        ensures
            exists|reading: Instant| #[trigger] elapsed_between(reading, self.spec_start()) == t,
    {
        let reading = now();
        let t = duration_since(reading, self.start_time);
        assert(elapsed_between(reading, self.spec_start()) == t);
        t
    }

    /// Produce the next frame; frame numbers count up by one from 0.
    pub fn next_frame(&mut self) -> (f: FrameInfo)
        requires
            old(self).spec_frame_number() < u64::MAX,
        ensures
            f.number == old(self).spec_frame_number(),
            final(self).spec_frame_number() == old(self).spec_frame_number() + 1,
            final(self).spec_start() == old(self).spec_start(),
            f.time == elapsed_between(final(self).spec_last_frame(), old(self).spec_start()),
            f.delta == elapsed_between(final(self).spec_last_frame(), old(self).spec_last_frame()),
            frame_step(*old(self), *final(self), f),
    {
        let t = now();
        let delta = duration_since(t, self.last_frame_time);
        let time = duration_since(t, self.start_time);
        let info = FrameInfo::new(self.frame_number, time, delta);
        self.frame_number = self.frame_number + 1;
        self.last_frame_time = t;
        info
    }
}

impl Default for FrameIterator {
    fn default() -> (it: Self)
        ensures
            it.spec_frame_number() == 0,
            it.spec_last_frame() == it.spec_start(),
    {
        FrameIterator::new()
    }
}

/// The first frame of a sequence comes as long after the start as after the previous frame:
/// its time and its delta are equal.
pub proof fn lemma_first_frame_time_is_delta(it: FrameIterator, next: FrameIterator, f: FrameInfo)
    requires
        it.spec_last_frame() == it.spec_start(),
        f.time == elapsed_between(next.spec_last_frame(), it.spec_start()),
        f.delta == elapsed_between(next.spec_last_frame(), it.spec_last_frame()),
    ensures
        f.time == f.delta,
{
}

/// One call of `next_frame` took the sequence from `before` to `after` and produced `f`.
pub open spec fn frame_step(before: FrameIterator, after: FrameIterator, f: FrameInfo) -> bool {
    &&& f.number == before.spec_frame_number()
    &&& after.spec_frame_number() == before.spec_frame_number() + 1
}

/// Over any run of `next_frame` calls from a new sequence (`states[j]` before call `j + 1`,
/// `frames[j]` what it produced), the `j`-th frame (from 0) is numbered `j`, and after `m`
/// calls the next frame number is `m`.
pub proof fn lemma_frames_numbered_in_order(states: Seq<FrameIterator>, frames: Seq<FrameInfo>)
    requires
        states.len() == frames.len() + 1,
        states[0].spec_frame_number() == 0,
        forall|j: int| 0 <= j < frames.len() ==> frame_step(#[trigger] states[j], states[j + 1], frames[j]),
    ensures
        forall|j: int| 0 <= j < states.len() ==> (#[trigger] states[j]).spec_frame_number() == j,
        forall|j: int| 0 <= j < frames.len() ==> (#[trigger] frames[j]).number == j,
    decreases frames.len(),
{
    if frames.len() > 0 {
        let m = frames.len() - 1;
        lemma_frames_numbered_in_order(states.drop_last(), frames.drop_last());
        assert(states[m] == states.drop_last()[m]);
        assert(frame_step(states[m], states[m + 1], frames[m]));
        assert forall|j: int| 0 <= j < states.len() implies (#[trigger] states[j]).spec_frame_number() == j by {
            if j < states.len() - 1 {
                assert(states[j] == states.drop_last()[j]);
            }
        }
        assert forall|j: int| 0 <= j < frames.len() implies (#[trigger] frames[j]).number == j by {
            assert(frame_step(states[j], states[j + 1], frames[j]));
            assert(states[j].spec_frame_number() == j);
        }
    }
}

} // verus!
