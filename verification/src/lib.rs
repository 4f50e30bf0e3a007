//! Core of a microscopic traffic simulation: per-vehicle routing and
//! termination (`Router`), an event-sourced metrics aggregator (`Analytics`),
//! and the sliding-time-window counter (`Window`) the aggregator's throughput
//! queries are built on.
//!
//! Time, duration and distance are plain `u64` ticks/units throughout; the
//! road map and the parking occupancy bookkeeping are consumed through small
//! data-backed model types (`MapModel`, `ParkingSimState`) that expose exactly
//! the queries the core reads.

pub mod analytics;
pub mod histogram;
pub mod idmap;
pub mod map_model;
pub mod parking;
pub mod router;
pub mod types;
pub mod ui;
pub mod window;

use vstd::prelude::*;

verus! {

/// Smallest representable time step; the synthetic drop-off sample of a
/// throughput query sits this far past the end of the sliding window.
pub const EPSILON_TICKS: u64 = 1;

/// Simulated days start at tick zero.
pub const START_OF_DAY: u64 = 0;

} // verus!
