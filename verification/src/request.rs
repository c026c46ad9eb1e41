//! The unit that the scheduler tracks.

use vstd::prelude::*;

verus! {

/// A pending wake-up: a deadline paired with the handle through which the
/// waiting party is released.
///
/// The scheduler never looks inside the handle. It keeps each request from the
/// moment it is accepted until it hands it back, and handing it back is what
/// releases the party that waits on it.
pub struct WakeRequest<H> {
    /// The instant before which the request must not be released.
    pub deadline: u128,
    /// The single-use handle of the waiting party.
    pub completion: H,
}

impl<H> WakeRequest<H> {
    /// Whether the deadline has been reached at `now`.
    pub open spec fn is_due(self, now: u128) -> bool {
        self.deadline <= now
    }

    /// A request that is to be released at `deadline` or later.
    pub fn new(deadline: u128, completion: H) -> (request: Self)
        ensures
            request.deadline == deadline,
            request.completion == completion,
    {
        WakeRequest { deadline, completion }
    }

    /// Whether the deadline has been reached at `now`.
    pub fn due_at(&self, now: u128) -> (due: bool)
        ensures
            due == self.is_due(now),
    {
        self.deadline <= now
    }
}

} // verus!
