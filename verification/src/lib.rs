//! The decision core of a runtime-agnostic timer.
//!
//! A single scheduler owns a queue of wake requests ordered by deadline. It
//! releases each request once its deadline has passed and tells its driver how
//! long it may block before the next deadline. Nothing here reads a clock or
//! blocks: the driver supplies the current time and the events, and carries
//! out what the scheduler decides.
//!
//! Time is counted in nanoseconds on a monotonic clock, as `u128`.

pub mod time;

pub mod request;
pub mod queue;
pub mod scheduler;
pub mod laws;
