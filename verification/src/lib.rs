//! A memoizing cache around a single-argument computation, and a small
//! workout planner that is built on it.

pub mod cacher;
pub mod laws;
pub mod workout;

pub use crate::cacher::Cacher;
pub use crate::workout::{generate_workout, Workout};
