//! Parking occupancy, consumed at the boundary the router reads it through:
//! is a spot free, which is the first free spot near a position suitable for
//! a vehicle, and where along the driving lane does a spot project to. The
//! bookkeeping behind those answers is outside this core; here they are
//! tables per parking lane, with suitability folded into the free flags.

use crate::map_model::MapModel;
use crate::types::{ParkingSpot, Position, Vehicle};
use vstd::prelude::*;

verus! {

/// The spots of one parking lane: whether each is free, and the distance
/// along the adjacent driving lane a vehicle lines up to for each.
pub struct ParkingLane {
    pub free: Vec<bool>,
    pub driving_dist: Vec<u64>,
}

impl ParkingLane {
    /// Both tables describe the same spots.
    pub open spec fn wf(self) -> bool {
        self.free@.len() == self.driving_dist@.len()
    }
}

/// The parking occupancy collaborator, shared by all routers.
pub struct ParkingSimState {
    /// Parking lanes by lane identifier; `None` where a lane has no spots.
    pub lanes: Vec<Option<ParkingLane>>,
}

impl ParkingSimState {
    pub open spec fn wf(self) -> bool {
        forall|l: int|
            0 <= l < self.lanes@.len() && self.lanes@[l] is Some ==> (#[trigger] self.lanes@[
                l
            ])->Some_0.wf()
    }

    /// Whether `spot` names a real spot of some parking lane here.
    pub open spec fn spec_valid_spot(self, spot: ParkingSpot) -> bool {
        &&& spot.lane < self.lanes@.len()
        &&& self.lanes@[spot.lane as int] is Some
        &&& spot.idx < self.lanes@[spot.lane as int]->Some_0.free@.len()
    }

    /// Whether `spot` is currently free; an unknown spot is not.
    pub open spec fn spec_is_free(self, spot: ParkingSpot) -> bool {
        &&& self.spec_valid_spot(spot)
        &&& self.lanes@[spot.lane as int]->Some_0.free@[spot.idx as int]
    }

    /// The first free spot on `pos`'s lane, by spot index, if any.
    pub open spec fn spec_first_free_spot(self, pos: Position) -> Option<ParkingSpot> {
        if pos.lane < self.lanes@.len() && self.lanes@[pos.lane as int] is Some {
            let lane = self.lanes@[pos.lane as int]->Some_0;
            if exists|i: int| 0 <= i < lane.free@.len() && lane.free@[i] {
                let i = spec_first_true(lane.free@);
                Some(ParkingSpot { lane: pos.lane, idx: i as usize })
            } else {
                None
            }
        } else {
            None
        }
    }

    /// The distance along the driving lane that `spot` projects to.
    pub open spec fn spec_spot_dist(self, spot: ParkingSpot) -> u64 {
        self.lanes@[spot.lane as int]->Some_0.driving_dist@[spot.idx as int]
    }

    /// Whether `spot` is free. Occupancy of a spot this state does not know
    /// is never reported free.
    pub fn is_free(&self, spot: ParkingSpot) -> (r: bool)
        ensures
            r == self.spec_is_free(spot),
    {
        if spot.lane < self.lanes.len() {
            match &self.lanes[spot.lane] {
                Some(lane) => {
                    spot.idx < lane.free.len() && lane.free[spot.idx]
                },
                None => false,
            }
        } else {
            false
        }
    }

    /// The first free spot suitable for `vehicle` near `pos`: the lowest-
    /// index free spot of `pos`'s lane. Suitability is this collaborator's
    /// concern and is folded into the free flags.
    pub fn get_first_free_spot(&self, pos: Position, vehicle: &Vehicle) -> (r: Option<ParkingSpot>)
        ensures
            r == self.spec_first_free_spot(pos),
            r is Some ==> self.spec_is_free(r->Some_0),
    {
        if pos.lane >= self.lanes.len() {
            return None;
        }
        match &self.lanes[pos.lane] {
            Some(lane) => {
                let mut i: usize = 0;
                while i < lane.free.len()
                    invariant
                        pos.lane < self.lanes@.len(),
                        self.lanes@[pos.lane as int] == Some(*lane),
                        i <= lane.free@.len(),
                        forall|j: int| 0 <= j < i ==> !lane.free@[j],
                    decreases lane.free@.len() - i,
                {
                    if lane.free[i] {
                        proof {
                            assert(lane.free@[i as int]);
                            assert(exists|j: int| 0 <= j < lane.free@.len() && lane.free@[j]);
                            lemma_first_true(lane.free@, i as int);
                            assert(self.lanes@[pos.lane as int]->Some_0 == *lane);
                        }
                        return Some(ParkingSpot { lane: pos.lane, idx: i });
                    }
                    i += 1;
                }
                None
            },
            None => None,
        }
    }

    /// Project `spot` back to a position along the driving lane `driving`
    /// the vehicle is on.
    pub fn spot_to_driving_pos(
        &self,
        spot: ParkingSpot,
        vehicle: &Vehicle,
        driving: usize,
        map: &MapModel,
    ) -> (p: Position)
        requires
            self.spec_valid_spot(spot),
            self.wf(),
        ensures
            p == (Position { lane: driving, dist: self.spec_spot_dist(spot) }),
    {
        let lane = self.lanes[spot.lane].as_ref().unwrap();
        Position { lane: driving, dist: lane.driving_dist[spot.idx] }
    }
}

/// The first index at which `s` holds `true`; meaningful only when one does.
pub open spec fn spec_first_true(s: Seq<bool>) -> int
    decreases s.len(),
{
    if s.len() == 0 {
        0
    } else if s[0] {
        0
    } else {
        1 + spec_first_true(s.drop_first())
    }
}

/// Where some entry is true, the first true index is in range and true.
pub proof fn lemma_first_true_holds(s: Seq<bool>)
    requires
        exists|i: int| 0 <= i < s.len() && s[i],
    ensures
        0 <= spec_first_true(s) < s.len(),
        s[spec_first_true(s)],
    decreases s.len(),
{
    if s.len() > 0 && !s[0] {
        let i = choose|i: int| 0 <= i < s.len() && s[i];
        assert(s.drop_first()[i - 1]);
        lemma_first_true_holds(s.drop_first());
    }
}

/// If everything before `i` is false and `s[i]` is true, then `i` is the
/// first true index.
pub proof fn lemma_first_true(s: Seq<bool>, i: int)
    requires
        0 <= i < s.len(),
        s[i],
        forall|j: int| 0 <= j < i ==> !s[j],
    ensures
        spec_first_true(s) == i,
    decreases i,
{
    if i > 0 {
        lemma_first_true(s.drop_first(), i - 1);
    }
}

} // verus!
