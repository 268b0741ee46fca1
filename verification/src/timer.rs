//! What the board relies on of the countdown timer and of durations.
//!
//! Nothing in this file is proved: it states how `rusty_time::Timer`
//! behaves, and Verus takes that on trust.

use vstd::prelude::*;
use std::time::Duration;
use rusty_time::Timer;

verus! {

/// The countdown timer of `rusty_time`. Its fields are not read here.
#[verifier::external_type_specification]
#[verifier::external_body]
pub struct ExTimer(Timer);

/// The time that a timer still has to run, in nanoseconds: its field
/// `time_left`.
pub uninterp spec fn timer_left(timer: Timer) -> nat;

/// Whether a timer has run out: its field `ready`.
pub uninterp spec fn timer_ready(timer: Timer) -> bool;

/// The length of a `std::time::Duration` in nanoseconds, as its
/// `as_nanos` gives it.
pub uninterp spec fn duration_nanos(duration: Duration) -> nat;

/// Nanoseconds in a millisecond.
pub open spec fn nanos_of_millis(ms: nat) -> nat {
    ms * 1_000_000
}

/// `Timer::from_millis` gives a timer with the whole period ahead of it,
/// which has not run out, whatever the period.
pub assume_specification[ Timer::from_millis ](ms: u64) -> (timer: Timer)
    ensures
        timer_left(timer) == nanos_of_millis(ms as nat),
        !timer_ready(timer),
;

/// `Timer::update` leaves a timer that has run out as it is. Otherwise it
/// takes `delta` off the time left where that much is left, and where
/// less is left it sets the time left to zero and marks the timer as run
/// out. A timer that reaches zero exactly has not run out yet.
pub assume_specification[ Timer::update ](timer: &mut Timer, delta: Duration)
    ensures
        timer_ready(*old(timer)) ==> timer_ready(*final(timer)) && timer_left(*final(timer))
            == timer_left(*old(timer)),
        !timer_ready(*old(timer)) && duration_nanos(delta) <= timer_left(*old(timer)) ==> !timer_ready(
            *final(timer),
        ) && timer_left(*final(timer)) == timer_left(*old(timer)) - duration_nanos(delta),
        !timer_ready(*old(timer)) && duration_nanos(delta) > timer_left(*old(timer)) ==> timer_ready(
            *final(timer),
        ) && timer_left(*final(timer)) == 0,
;

/// Copies a timer, by the `Clone` that `rusty_time` derives for it: the
/// copy has the fields of the timer.
#[verifier::external_body]
pub(crate) fn timer_copy(timer: &Timer) -> (copy: Timer)
    ensures
        timer_left(copy) == timer_left(*timer),
        timer_ready(copy) == timer_ready(*timer),
{
    timer.clone()
}

/// Reads the field `ready` of a timer.
#[verifier::external_body]
pub(crate) fn timer_is_ready(timer: &Timer) -> (ready: bool)
    ensures
        ready == timer_ready(*timer),
{
    timer.ready
}

} // verus!
