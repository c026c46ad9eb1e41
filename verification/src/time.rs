//! Arithmetic on monotonic time, counted in nanoseconds.

use vstd::prelude::*;

verus! {

/// Nanoseconds in one second.
pub const NANOS_PER_SEC: u128 = 1_000_000_000;

/// How long the scheduler blocks while nothing is pending: one million
/// seconds, long enough to stand for "until the next submission".
pub const IDLE_WAIT: u128 = 1_000_000_000_000_000;

/// The time left from `now` until `deadline`, zero once the deadline has
/// been reached.
pub open spec fn time_left(deadline: u128, now: u128) -> u128 {
    if deadline > now {
        (deadline - now) as u128
    } else {
        0
    }
}

/// The deadline of a request made at `now` for a wait of `duration`, or
/// `None` where that instant lies beyond what the clock can count.
pub fn deadline_after(now: u128, duration: u128) -> (deadline: Option<u128>)
    ensures
        now + duration <= u128::MAX ==> deadline == Some((now + duration) as u128),
        now + duration > u128::MAX ==> deadline.is_none(),
{
    now.checked_add(duration)
}

/// The time left from `now` until `deadline`, clamped to zero.
pub fn remaining(deadline: u128, now: u128) -> (left: u128)
    ensures
        left == time_left(deadline, now),
{
    if deadline > now {
        deadline - now
    } else {
        0
    }
}

/// Splits a span of `nanos` nanoseconds into whole seconds and the
/// nanoseconds beyond them. A span of more seconds than `u64` can count comes
/// back as the longest span that the two parts can say.
pub fn to_parts(nanos: u128) -> (parts: (u64, u32))
    ensures
        parts.1 < NANOS_PER_SEC,
        nanos / NANOS_PER_SEC <= u64::MAX ==> parts.0 * NANOS_PER_SEC + parts.1 == nanos,
        nanos / NANOS_PER_SEC > u64::MAX ==> parts == (u64::MAX, 999_999_999u32),
{
    let secs: u128 = nanos / NANOS_PER_SEC;
    let beyond: u128 = nanos % NANOS_PER_SEC;
    if secs <= u64::MAX as u128 {
        (secs as u64, beyond as u32)
    } else {
        (u64::MAX, 999_999_999)
    }
}

} // verus!
