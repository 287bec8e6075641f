//! The frame timer: a gate that opens at most once per interval.

use std::time::{Duration, Instant};
use vstd::prelude::*;

verus! {

/// `std::time::Instant`, known to the verifier as an opaque type.
#[verifier::external_type_specification]
#[verifier::external_body]
pub struct ExInstant(std::time::Instant);

/// The length of a duration, in nanoseconds.
pub uninterp spec fn duration_nanos(d: Duration) -> nat;

/// The time that passes from `earlier` to `later`.
pub uninterp spec fn elapsed_between(later: Instant, earlier: Instant) -> Duration;

/// `Instant::now`. Trusted to return; nothing is claimed of the instant that
/// the clock gives.
#[verifier::external_body]
fn instant_now() -> Instant {
    Instant::now()
}

/// `Instant::duration_since`, which gives the time from `earlier` to `later`
/// and does not panic (it gives zero where `earlier` is the later one).
/// Trusted: the result depends on the two instants alone.
#[verifier::external_body]
fn instant_duration_since(later: &Instant, earlier: &Instant) -> (elapsed: Duration)
    ensures
        elapsed == elapsed_between(*later, *earlier),
{
    later.duration_since(*earlier)
}

/// `Duration::as_nanos`. Trusted: the result is the length of the duration
/// in nanoseconds.
#[verifier::external_body]
fn duration_as_nanos(d: &Duration) -> (nanos: u128)
    ensures
        nanos == duration_nanos(*d),
{
    d.as_nanos()
}

/// A countdown of a fixed interval from the instant of its last reset.
pub struct Timer {
    duration: Duration,
    start_time: Instant,
}

impl Timer {
    /// The interval of the timer.
    pub closed spec fn interval(&self) -> Duration {
        self.duration
    }

    /// The instant from which the timer counts: its making or its last firing.
    pub closed spec fn start(&self) -> Instant {
        self.start_time
    }

    /// Whether at `now` at least the interval has passed since the start.
    pub open spec fn is_due(&self, now: Instant) -> bool {
        duration_nanos(elapsed_between(now, self.start())) >= duration_nanos(self.interval())
    }

    /// Whether `after` is what a check at `now` makes of `before`: a timer that
    /// is due counts from `now` on, one that is not due is left as it is.
    pub open spec fn checked_at(before: &Timer, now: Instant, after: &Timer) -> bool {
        &&& after.interval() == before.interval()
        &&& after.start() == if before.is_due(now) {
            now
        } else {
            before.start()
        }
    }

    /// A timer of the given interval that counts from the present instant.
    pub fn new(duration: Duration) -> (timer: Self)
        ensures
            timer.interval() == duration,
    {
        Self::starting_at(duration, instant_now())
    }

    /// A timer of the given interval that counts from `start`.
    pub fn starting_at(duration: Duration, start: Instant) -> (timer: Self)
        ensures
            timer.interval() == duration,
            timer.start() == start,
    {
        Self { duration, start_time: start }
    }

    /// Reads the clock and checks the timer at that instant. Returns `true`
    /// and counts anew from that instant where at least the interval has
    /// passed; returns `false` and changes nothing where it has not.
    ///
    /// Whatever the clock gives, the call is a check at some instant.
    pub fn check_with_reset(&mut self) -> (fired: bool)
        ensures
            exists|now: Instant|
                fired == old(self).is_due(now) && #[trigger] Timer::checked_at(
                    old(self),
                    now,
                    final(self),
                ),
            !fired ==> *final(self) == *old(self),
    {
        let now = instant_now();
        self.check_with_reset_at(now)
    }

    /// Checks the timer at the instant `now`. Returns `true` and counts anew
    /// from `now` where at least the interval has passed since the start;
    /// returns `false` and changes nothing where it has not. Intervals that
    /// were missed are not made up for: a late check fires once.
    pub fn check_with_reset_at(&mut self, now: Instant) -> (fired: bool)
        ensures
            fired == old(self).is_due(now),
            Timer::checked_at(old(self), now, final(self)),
            !fired ==> *final(self) == *old(self),
    {
        let elapsed_time = instant_duration_since(&now, &self.start_time);
        if duration_as_nanos(&elapsed_time) >= duration_as_nanos(&self.duration) {
            self.start_time = now;
            return true;
        }
        false
    }
}

} // verus!
