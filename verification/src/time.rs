//! Time spans, and the clock.

use vstd::prelude::*;

verus! {

/// Nanoseconds in a microsecond.
pub const NANOS_PER_MICRO: u128 = 1_000;

/// A span of time, counted in nanoseconds.
#[derive(Clone, Copy, Debug, PartialEq, Eq, Structural)]
pub struct Duration {
    pub nanos: u128,
}

impl Duration {
    /// The number of whole microseconds in the span.
    pub open spec fn micros(self) -> nat {
        (self.nanos / NANOS_PER_MICRO) as nat
    }

    pub fn from_nanos(nanos: u128) -> (res: Duration)
        ensures
            res.nanos == nanos,
    {
        Duration { nanos }
    }

    pub fn from_micros(micros: u64) -> (res: Duration)
        ensures
            res.nanos == micros * 1_000,
            res.micros() == micros,
    {
        Duration { nanos: micros as u128 * NANOS_PER_MICRO }
    }

    pub fn from_millis(millis: u64) -> (res: Duration)
        ensures
            res.nanos == millis * 1_000_000,
            res.micros() == millis * 1_000,
    {
        Duration { nanos: millis as u128 * 1_000_000 }
    }

    pub fn is_zero(&self) -> (res: bool)
        ensures
            res == (self.nanos == 0),
    {
        self.nanos == 0
    }

    /// Whole microseconds; the fraction is dropped.
    pub fn as_micros(&self) -> (res: u128)
        ensures
            res == self.micros(),
    {
        self.nanos / NANOS_PER_MICRO
    }

    /// The span from `earlier` to `self`, or zero where `earlier` lies after
    /// `self`, both measured from the same origin.
    pub fn saturating_since(&self, earlier: Duration) -> (res: Duration)
        ensures
            res.nanos == if self.nanos >= earlier.nanos {
                self.nanos - earlier.nanos
            } else {
                0
            },
    {
        if self.nanos >= earlier.nanos {
            Duration { nanos: self.nanos - earlier.nanos }
        } else {
            Duration { nanos: 0 }
        }
    }
}

/// A reading of the monotonic clock. Only the time that has passed since one
/// is ever looked at.
#[verifier::external_type_specification]
#[verifier::external_body]
pub struct ExInstant(std::time::Instant);

/// Reads the clock with `std::time::Instant::now`. Nothing is claimed of the
/// reading.
#[verifier::external_body]
pub(crate) fn clock_now() -> (res: std::time::Instant) {
    std::time::Instant::now()
}

/// Calls `std::time::Instant::elapsed`, and gives the span in nanoseconds.
/// Nothing is claimed of the result: it depends on when the call is made.
#[verifier::external_body]
pub(crate) fn clock_nanos_since(start: &std::time::Instant) -> (res: u128) {
    start.elapsed().as_nanos()
}

/// `reading` is one that `clock_now` can give.
pub closed spec fn is_clock_reading(reading: std::time::Instant) -> bool {
    call_ensures(clock_now, (), reading)
}

/// `nanos` is a number of nanoseconds that `clock_nanos_since` can give for
/// `start`.
pub closed spec fn is_time_since(start: std::time::Instant, nanos: u128) -> bool {
    call_ensures(clock_nanos_since, (&start,), nanos)
}

/// A time since `start` is what the clock gave for it, in the clock's own unit
/// and counted from no other reading, and a reading is the clock's own.
pub(crate) proof fn lemma_time_is_the_clocks(start: std::time::Instant, nanos: u128)
    ensures
        is_time_since(start, nanos) <==> call_ensures(clock_nanos_since, (&start,), nanos),
        is_clock_reading(start) <==> call_ensures(clock_now, (), start),
{
}

fn ask_now<F: Fn() -> std::time::Instant>(clock: F) -> (res: std::time::Instant)
    requires
        call_requires(clock, ()),
    ensures
        call_ensures(clock, (), res),
{
    clock()
}

fn ask_since<F: Fn(&std::time::Instant) -> u128>(clock: F, start: &std::time::Instant) -> (res:
    u128)
    requires
        call_requires(clock, (start,)),
    ensures
        call_ensures(clock, (start,), res),
{
    clock(start)
}

/// Reads the clock.
pub(crate) fn read_clock() -> (res: std::time::Instant)
    ensures
        is_clock_reading(res),
{
    ask_now(clock_now)
}

/// The time since `start`, by the clock.
pub(crate) fn time_since(start: &std::time::Instant) -> (res: Duration)
    ensures
        is_time_since(*start, res.nanos),
{
    Duration { nanos: ask_since(clock_nanos_since, start) }
}

/// The whole microseconds of a span are no longer than it, and less than one
/// microsecond shorter.
pub proof fn lemma_whole_micros(span: Duration)
    ensures
        span.micros() * 1_000 <= span.nanos < span.micros() * 1_000 + 1_000,
{
}

} // verus!
