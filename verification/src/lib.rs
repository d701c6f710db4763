//! An approximate sliding-window rate limiter.
//!
//! Requests are counted per key in a ring of slots: one current slot that
//! takes the increments and a bounded queue of prior slots that only age.
//! A rotation, made by the caller at a fixed pace, retires the oldest slot,
//! so a key is limited by what the last few slots hold for it.
//!
//! `RateLimiter` is the limiter that threads share; `SlottedCounter` is the
//! same ring for a single owner; `Counts` says in plain mathematics what
//! either holds, and `admission` and `aging` prove what follows from it.
pub mod admission;
pub mod aging;
pub mod counter;
pub mod counts;
pub mod limiter;
pub mod ring;
pub mod sync;

pub use crate::counter::SlottedCounter;
pub use crate::limiter::RateLimiter;
