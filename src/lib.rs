//! Time-driven particle emission: the catch-up spawn scheduler with jitter,
//! the lifetime reaper, and the timing that the update behaviours read.
//!
//! All times are nanoseconds on the host's monotonic clock.

pub mod jitter;
pub mod particle;
pub mod schedule;
pub mod spewer;
