//! Frame-rate-driven CPU frequency policy: cycle-delta sampling, frequency
//! table navigation, and PID gain evolution.
pub mod cycles;
pub mod evolution;
pub mod parse;
pub mod schedule;
pub mod store;
