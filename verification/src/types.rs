//! Plain identifier and value types shared by the router and the analytics.
//!
//! Times, durations and distances are unitless `u64` ticks; identifiers are
//! indices into the tables of [`crate::map_model::MapModel`] or opaque
//! numbers handed through unchanged.

use vstd::prelude::*;

verus! {

/// Coarse travel category of an agent, derived from its kind.
#[derive(Clone, Copy, PartialEq, Eq, Structural, Debug)]
pub enum TripMode {
    Walk,
    Bike,
    Transit,
    Drive,
}

/// The sub-kind of a vehicle, which decides its trip mode.
#[derive(Clone, Copy, PartialEq, Eq, Structural, Debug)]
pub enum VehicleType {
    Car,
    Bike,
    Bus,
}

/// A vehicle's identity: a number plus its sub-kind.
#[derive(Clone, Copy, PartialEq, Eq, Structural, Debug)]
pub struct CarID {
    pub id: usize,
    pub vehicle_type: VehicleType,
}

/// An agent moving through the simulation: a pedestrian or a vehicle.
#[derive(Clone, Copy, PartialEq, Eq, Structural, Debug)]
pub enum AgentID {
    Pedestrian(usize),
    Car(CarID),
}

/// One atomic piece of a route: a lane-like stretch, or a turn through a
/// junction. Identifiers index the lane/turn tables of a `MapModel`.
#[derive(Clone, Copy, PartialEq, Eq, Structural, Debug)]
pub enum Traversable {
    Lane(usize),
    Turn(usize),
}

impl Traversable {
    /// The lane identifier of a lane-like segment. The caller must know the
    /// segment is a lane; asking this of a turn would be meaningless.
    pub fn as_lane(self) -> (l: usize)
        requires
            self is Lane,
        ensures
            self == Traversable::Lane(l),
    {
        match self {
            Traversable::Lane(l) => l,
            Traversable::Turn(_) => 0,
        }
    }
}

/// A point along a lane: the lane and the distance from its start.
#[derive(Clone, Copy, PartialEq, Eq, Structural, Debug)]
pub struct Position {
    pub lane: usize,
    pub dist: u64,
}

impl Position {
    pub fn new(lane: usize, dist: u64) -> (p: Position)
        ensures
            p == (Position { lane, dist }),
    {
        Position { lane, dist }
    }

    /// The distance along the lane.
    pub fn dist_along(self) -> (d: u64)
        ensures
            d == self.dist,
    {
        self.dist
    }

    /// The lane this position sits on.
    pub fn lane(self) -> (l: usize)
        ensures
            l == self.lane,
    {
        self.lane
    }
}

/// The vehicle a router steers. Spot compatibility lives with the parking
/// collaborator, so the router only carries the identity.
#[derive(Clone, Copy, PartialEq, Eq, Structural, Debug)]
pub struct Vehicle {
    pub id: CarID,
}

/// One parking spot: the parking lane it belongs to and its index there.
#[derive(Clone, Copy, PartialEq, Eq, Structural, Debug)]
pub struct ParkingSpot {
    pub lane: usize,
    pub idx: usize,
}

} // verus!
