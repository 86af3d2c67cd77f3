//! Ambient cellular-automaton engine for an LED matrix, plus the small time
//! helpers of the bus-arrival sign.

pub mod clock;
pub mod laws;
pub mod schedule;
pub mod timestamp;
pub mod universe;

pub use clock::duration_as_minutes;
pub use timestamp::Timestamp;
