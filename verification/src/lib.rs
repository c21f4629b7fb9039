//! Round-robin allocation of fixed membership groups (and, for two course
//! categories, individual participants) to recurring timetable slots across a
//! multi-week calendar.
//!
//! The library builds the calendar and the per-category rotation queues,
//! runs the scheduler over every day in calendar order, and hands the filled
//! calendar back to the caller.  Two invariants are stated and proved here:
//! no participant is booked into two slots sharing a start time on the same
//! day, and every rotation only reorders a queue, never losing or duplicating
//! a unit.

#![verifier::loop_isolation(false)]

pub mod calendar;
pub mod laws;
pub mod occupancy;
pub mod roster;
pub mod scheduler;
pub mod types;
