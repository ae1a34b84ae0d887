//! Timekeeping.

pub mod time;
