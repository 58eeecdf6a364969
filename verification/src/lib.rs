//! Route scheduling and feasibility core for a vehicle routing solver.
//!
//! Given an ordered tour of activities assigned to a vehicle, this library
//! computes a consistent time schedule, maintains the derived state used by
//! search heuristics, repairs the departure time to respect route-wide cost
//! spans and offset-anchored time windows, decides whether proposed insertions
//! satisfy job-time limits, and materialises driver-rest intervals into an
//! output tour.
//!
//! All times are integral: a timestamp, duration or distance is an `i64`
//! number of time units. Time windows, spans and schedules are built from
//! those units, and every public operation carries a contract over them.

pub mod times;
pub mod model;
pub mod transport;
pub mod schedule;
pub mod state;
pub mod departure;
pub mod features;
pub mod limits;
pub mod breaks;
pub mod checker;

pub use times::{TimeWindow, TimeSpan, ReservedTimeSpan, Schedule};
