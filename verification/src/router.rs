//! Per-vehicle routing and termination: a `Router` owns the remaining route
//! (front is always the current segment) and a goal, advances one segment at
//! a time, and resolves what happens at the end of the committed path —
//! vanish, or start parking at a resolved spot, discovering one on demand
//! when none was pre-assigned or the assigned one was taken.

use crate::map_model::MapModel;
use crate::parking::ParkingSimState;
use crate::types::{ParkingSpot, Position, Traversable, Vehicle};
use std::collections::VecDeque;
use vstd::prelude::*;

verus! {

/// The termination condition of a route.
#[derive(Clone, Copy, Debug)]
pub enum Goal {
    /// Park near this building; `spot` caches a resolved `(spot, distance
    /// along the final driving segment)` once one is found, and is
    /// re-validated against live occupancy on every terminal-action check.
    ParkNearBuilding { target: usize, spot: Option<(ParkingSpot, u64)> },
    /// Stop at this distance along the last segment of the path.
    StopSuddenly { end_dist: u64 },
}

/// What must happen when the vehicle reaches the end of its committed path.
#[derive(Clone, Copy, PartialEq, Eq, Structural, Debug)]
pub enum ActionAtEnd {
    Vanish,
    StartParking(ParkingSpot),
    GotoLaneEnd,
}

/// The lane identifier at the front of a route, where the front is a lane.
pub open spec fn front_lane_of(path: Seq<Traversable>) -> usize {
    if path.len() > 0 && path[0] is Lane {
        path[0]->Lane_0
    } else {
        0
    }
}

/// What on-demand parking discovery finds from a driving position: the
/// nearest reachable parking lane's first free spot, projected back to a
/// distance along the driving segment; `None` when there is no reachable
/// parking lane or no free spot on it.
pub open spec fn spec_find_parking_spot(
    map: MapModel,
    parking: ParkingSimState,
    driving_lane: usize,
    front: u64,
) -> Option<(ParkingSpot, u64)> {
    match map.lanes@[driving_lane as int].closest_parking {
        Some(pl) => {
            let dist = if front <= map.lanes@[pl as int].length {
                front
            } else {
                map.lanes@[pl as int].length
            };
            match parking.spec_first_free_spot(Position { lane: pl, dist }) {
                Some(spot) => Some((spot, parking.spec_spot_dist(spot))),
                None => None,
            }
        },
        None => None,
    }
}

/// The goal after one terminal-action check at distance `front` into the
/// final segment whose lane is `front_lane`: a parking goal re-resolves its
/// spot when none is cached or the cached one is no longer free; everything
/// else is untouched.
pub open spec fn spec_resolve_goal(
    goal: Goal,
    front_lane: usize,
    front: u64,
    parking: ParkingSimState,
    map: MapModel,
) -> Goal {
    match goal {
        Goal::StopSuddenly { end_dist } => goal,
        Goal::ParkNearBuilding { target, spot } => {
            let need_new = match spot {
                Some((s, d)) => !parking.spec_is_free(s),
                None => true,
            };
            if need_new {
                match spec_find_parking_spot(map, parking, front_lane, front) {
                    Some(found) => Goal::ParkNearBuilding { target, spot: Some(found) },
                    None => goal,
                }
            } else {
                goal
            }
        },
    }
}

/// The action a terminal-action check reports, alongside the goal change of
/// [`spec_resolve_goal`]: vanish at the stop distance or when no parking can
/// be found; start parking when the vehicle stands exactly at the resolved
/// spot's distance; nothing yet otherwise.
pub open spec fn spec_resolve_action(
    goal: Goal,
    front_lane: usize,
    front: u64,
    parking: ParkingSimState,
    map: MapModel,
) -> Option<ActionAtEnd> {
    match goal {
        Goal::StopSuddenly { end_dist } => if end_dist == front {
            Some(ActionAtEnd::Vanish)
        } else {
            None
        },
        Goal::ParkNearBuilding { target, spot } => {
            let need_new = match spot {
                Some((s, d)) => !parking.spec_is_free(s),
                None => true,
            };
            let resolved = if need_new {
                spec_find_parking_spot(map, parking, front_lane, front)
            } else {
                spot
            };
            match resolved {
                Some((s, d)) => if d == front {
                    Some(ActionAtEnd::StartParking(s))
                } else {
                    None
                },
                None => Some(ActionAtEnd::Vanish),
            }
        },
    }
}

/// Per-vehicle routing state: the remaining route, front first, and the
/// goal fixed at construction.
pub struct Router {
    path: VecDeque<Traversable>,
    goal: Goal,
}

impl Router {
    /// The remaining route; the front is the vehicle's current segment.
    pub closed spec fn spec_path(self) -> Seq<Traversable> {
        self.path@
    }

    /// The goal fixed at construction (only a parking goal's cached spot
    /// ever changes).
    pub closed spec fn spec_goal(self) -> Goal {
        self.goal
    }

    /// The requirements a terminal-action check places on the router: a
    /// parking goal needs the current segment to be a driving lane the map
    /// knows, since discovery searches from it.
    pub open spec fn can_handle_end(self, map: MapModel) -> bool {
        self.spec_goal() is ParkNearBuilding ==> {
            &&& self.spec_path().len() >= 1
            &&& self.spec_path()[0] is Lane
            &&& self.spec_path()[0]->Lane_0 < map.lanes@.len()
        }
    }

    /// Route a vehicle to a fixed stop distance along the last segment of
    /// `path`. A stop at or past the end of that segment could never be
    /// reached, so such input is rejected at this boundary.
    pub fn stop_suddenly(path: Vec<Traversable>, end_dist: u64, map: &MapModel) -> (r: Router)
        requires
            path@.len() >= 1,
            map.spec_valid_traversable(path@.last()),
            end_dist < map.spec_length(path@.last()),
        ensures
            r.spec_path() == path@,
            r.spec_goal() == (Goal::StopSuddenly { end_dist }),
            end_dist < map.spec_length(r.spec_path().last()),
    {
        let mut dq: VecDeque<Traversable> = VecDeque::new();
        let mut i: usize = 0;
        while i < path.len()
            invariant
                i <= path@.len(),
                dq@ =~= path@.take(i as int),
            decreases path@.len() - i,
        {
            dq.push_back(path[i]);
            i += 1;
        }
        proof {
            assert(dq@ =~= path@);
        }
        Router { path: dq, goal: Goal::StopSuddenly { end_dist } }
    }

    /// Route a vehicle to park near a building; the goal starts with no
    /// resolved spot.
    pub fn park_near(path: Vec<Traversable>, bldg: usize) -> (r: Router)
        requires
            path@.len() >= 1,
        ensures
            r.spec_path() == path@,
            r.spec_goal() == (Goal::ParkNearBuilding { target: bldg, spot: None }),
    {
        let mut dq: VecDeque<Traversable> = VecDeque::new();
        let mut i: usize = 0;
        while i < path.len()
            invariant
                i <= path@.len(),
                dq@ =~= path@.take(i as int),
            decreases path@.len() - i,
        {
            dq.push_back(path[i]);
            i += 1;
        }
        proof {
            assert(dq@ =~= path@);
        }
        Router { path: dq, goal: Goal::ParkNearBuilding { target: bldg, spot: None } }
    }

    /// Whether a vehicle may be placed at `start_dist` on its first segment:
    /// a single-segment route whose stop distance is at or behind the start
    /// would be a degenerate, unreachable move. The caller must treat
    /// `false` as fatal.
    pub fn validate_start_dist(&self, start_dist: u64) -> (ok: bool)
        ensures
            ok == !(self.spec_goal() is StopSuddenly && self.spec_path().len() == 1
                && start_dist >= self.spec_goal()->StopSuddenly_end_dist),
    {
        match self.goal {
            Goal::StopSuddenly { end_dist } => !(self.path.len() == 1 && start_dist >= end_dist),
            Goal::ParkNearBuilding { .. } => true,
        }
    }

    /// The vehicle's current segment: the front of the route.
    pub fn head(&self) -> (t: Traversable)
        requires
            self.spec_path().len() >= 1,
        ensures
            t == self.spec_path()[0],
    {
        self.path[0]
    }

    /// The segment after the current one; meaningless on the last step.
    pub fn next(&self) -> (t: Traversable)
        requires
            self.spec_path().len() >= 2,
        ensures
            t == self.spec_path()[1],
    {
        self.path[1]
    }

    /// The last segment of the route.
    pub fn last_step(&self) -> (r: bool)
        ensures
            r == (self.spec_path().len() == 1),
    {
        self.path.len() == 1
    }

    /// The distance along the final segment at which the route ends: the
    /// fixed stop distance, or the resolved spot's distance. Must not be
    /// asked before the last step, nor before a parking spot is resolved.
    pub fn get_end_dist(&self) -> (d: u64)
        requires
            self.spec_path().len() == 1,
            self.spec_goal() is ParkNearBuilding ==> self.spec_goal()->ParkNearBuilding_spot
                is Some,
        ensures
            d == match self.spec_goal() {
                Goal::StopSuddenly { end_dist } => end_dist,
                Goal::ParkNearBuilding { target, spot } => spot->Some_0.1,
            },
    {
        match &self.goal {
            Goal::StopSuddenly { end_dist } => *end_dist,
            Goal::ParkNearBuilding { spot, .. } => spot.unwrap().1,
        }
    }

    /// Pop the current segment and hand it back as the step just finished.
    /// When that leaves exactly one segment, a terminal-action check runs at
    /// distance zero into it, purely to force early parking discovery; its
    /// action is discarded.
    pub fn advance(
        &mut self,
        vehicle: &Vehicle,
        parking: &ParkingSimState,
        map: &MapModel,
    ) -> (prev: Traversable)
        requires
            old(self).spec_path().len() >= 1,
            map.wf(),
            parking.wf(),
            old(self).spec_path().len() == 2 && old(self).spec_goal() is ParkNearBuilding ==> {
                &&& old(self).spec_path()[1] is Lane
                &&& old(self).spec_path()[1]->Lane_0 < map.lanes@.len()
            },
        ensures
            prev == old(self).spec_path()[0],
            final(self).spec_path() == old(self).spec_path().drop_first(),
            final(self).spec_goal() == if old(self).spec_path().len() == 2 {
                spec_resolve_goal(
                    old(self).spec_goal(),
                    front_lane_of(old(self).spec_path().drop_first()),
                    0,
                    *parking,
                    *map,
                )
            } else {
                old(self).spec_goal()
            },
            (final(self).spec_path(), final(self).spec_goal()) == spec_advance_step(
                old(self).spec_path(),
                old(self).spec_goal(),
                *parking,
                *map,
            ),
    {
        let prev = self.path.pop_front().unwrap();
        proof {
            assert(self.path@ =~= old(self).spec_path().drop_first());
        }
        if self.last_step() {
            self.maybe_handle_end(0, vehicle, parking, map);
        }
        prev
    }

    /// The terminal-action check, run eagerly on entering the final segment
    /// and again while queued at its end, at the vehicle's current distance
    /// `front` into that segment. Resolves or re-resolves the parking spot
    /// as [`spec_resolve_goal`] says, and reports the action of
    /// [`spec_resolve_action`]: `None` while the vehicle must keep moving,
    /// vanish at the stop point or when no parking can be found, or start
    /// parking at the resolved spot.
    pub fn maybe_handle_end(
        &mut self,
        front: u64,
        vehicle: &Vehicle,
        parking: &ParkingSimState,
        map: &MapModel,
    ) -> (action: Option<ActionAtEnd>)
        requires
            old(self).can_handle_end(*map),
            map.wf(),
            parking.wf(),
        ensures
            final(self).spec_path() == old(self).spec_path(),
            final(self).spec_goal() == spec_resolve_goal(
                old(self).spec_goal(),
                front_lane_of(old(self).spec_path()),
                front,
                *parking,
                *map,
            ),
            action == spec_resolve_action(
                old(self).spec_goal(),
                front_lane_of(old(self).spec_path()),
                front,
                *parking,
                *map,
            ),
    {
        match &mut self.goal {
            Goal::StopSuddenly { end_dist } => {
                if *end_dist == front {
                    Some(ActionAtEnd::Vanish)
                } else {
                    None
                }
            },
            Goal::ParkNearBuilding { spot, .. } => {
                let need_new_spot = match spot {
                    Some((s, _)) => !parking.is_free(*s),
                    None => true,
                };
                if need_new_spot {
                    let driving_pos = Position::new(self.path[0].as_lane(), front);
                    match find_parking_spot(driving_pos, vehicle, map, parking) {
                        Some(new_spot) => {
                            *spot = Some(new_spot);
                        },
                        None => {
                            // No reachable parking lane or no free spot: the
                            // vehicle is removed rather than rerouted.
                            return Some(ActionAtEnd::Vanish);
                        },
                    }
                }
                if spot.unwrap().1 == front {
                    Some(ActionAtEnd::StartParking(spot.unwrap().0))
                } else {
                    None
                }
            },
        }
    }
}

/// The observable effect of one advance on a route and its goal: the front
/// segment is popped, and when one segment then remains the goal is resolved
/// once at distance zero into it.
pub open spec fn spec_advance_step(
    path: Seq<Traversable>,
    goal: Goal,
    parking: ParkingSimState,
    map: MapModel,
) -> (Seq<Traversable>, Goal) {
    (
        path.drop_first(),
        if path.len() == 2 {
            spec_resolve_goal(goal, front_lane_of(path.drop_first()), 0, parking, map)
        } else {
            goal
        },
    )
}

/// The route and goal after `k` advances.
pub open spec fn spec_advance_k(
    path: Seq<Traversable>,
    goal: Goal,
    k: nat,
    parking: ParkingSimState,
    map: MapModel,
) -> (Seq<Traversable>, Goal)
    decreases k,
{
    if k == 0 {
        (path, goal)
    } else {
        let (p, g) = spec_advance_k(path, goal, (k - 1) as nat, parking, map);
        spec_advance_step(p, g, parking, map)
    }
}

/// Advancing a router exactly `len(path) - 1` times leaves exactly one
/// segment; the goal is touched — the single terminal-action evaluation, run
/// eagerly at distance zero — only by that final advance, and every earlier
/// advance leaves it exactly as constructed.
pub proof fn lemma_advance_to_last_step(
    path: Seq<Traversable>,
    goal: Goal,
    k: nat,
    parking: ParkingSimState,
    map: MapModel,
)
    requires
        path.len() >= 1,
        k <= path.len() - 1,
    ensures
        spec_advance_k(path, goal, k, parking, map).0 =~= path.skip(k as int),
        k == path.len() - 1 ==> spec_advance_k(path, goal, k, parking, map).0.len() == 1,
        k < path.len() - 1 ==> spec_advance_k(path, goal, k, parking, map).1 == goal,
        k == path.len() - 1 && k >= 1 ==> spec_advance_k(path, goal, k, parking, map).1
            == spec_resolve_goal(goal, front_lane_of(path.skip(k as int)), 0, parking, map),
    decreases k,
{
    if k > 0 {
        lemma_advance_to_last_step(path, goal, (k - 1) as nat, parking, map);
        assert(path.skip(k as int - 1).drop_first() =~= path.skip(k as int));
    }
}

/// Parking resolution is idempotent while the cached spot stays free: a
/// terminal-action check leaves the cached spot exactly as it was, without
/// consulting discovery, and a repeated check reports the same action.
pub proof fn lemma_cached_spot_reused(
    goal: Goal,
    front_lane: usize,
    front: u64,
    parking: ParkingSimState,
    map: MapModel,
)
    requires
        goal is ParkNearBuilding,
        goal->ParkNearBuilding_spot is Some,
        parking.spec_is_free(goal->ParkNearBuilding_spot->Some_0.0),
    ensures
        spec_resolve_goal(goal, front_lane, front, parking, map) == goal,
        spec_resolve_action(
            spec_resolve_goal(goal, front_lane, front, parking, map),
            front_lane,
            front,
            parking,
            map,
        ) == spec_resolve_action(goal, front_lane, front, parking, map),
{
}

/// A cached spot that another vehicle took is never reused: the next
/// terminal-action check behaves exactly as if no spot were cached at all,
/// re-resolving from live occupancy (on a failed re-resolution only the
/// action — vanish — is observable, so the goals agree whenever discovery
/// succeeds).
pub proof fn lemma_stale_spot_reresolved(
    target: usize,
    stale: (ParkingSpot, u64),
    front_lane: usize,
    front: u64,
    parking: ParkingSimState,
    map: MapModel,
)
    requires
        !parking.spec_is_free(stale.0),
    ensures
        spec_resolve_action(
            Goal::ParkNearBuilding { target, spot: Some(stale) },
            front_lane,
            front,
            parking,
            map,
        ) == spec_resolve_action(
            Goal::ParkNearBuilding { target, spot: None },
            front_lane,
            front,
            parking,
            map,
        ),
        spec_find_parking_spot(map, parking, front_lane, front) is Some ==> spec_resolve_goal(
            Goal::ParkNearBuilding { target, spot: Some(stale) },
            front_lane,
            front,
            parking,
            map,
        ) == spec_resolve_goal(
            Goal::ParkNearBuilding { target, spot: None },
            front_lane,
            front,
            parking,
            map,
        ),
{
}

/// Every start-parking action names a spot that is free right now: a reused
/// cached spot was just re-validated, and a freshly discovered one is the
/// first free spot of its lane.
pub proof fn lemma_start_parking_spot_free(
    goal: Goal,
    front_lane: usize,
    front: u64,
    parking: ParkingSimState,
    map: MapModel,
)
    requires
        spec_resolve_action(goal, front_lane, front, parking, map) matches Some(
            ActionAtEnd::StartParking(s),
        ),
    ensures
        parking.spec_is_free(
            spec_resolve_action(goal, front_lane, front, parking, map)->Some_0->StartParking_0,
        ),
{
    match goal {
        Goal::StopSuddenly { end_dist } => {},
        Goal::ParkNearBuilding { target, spot } => {
            let need_new = match spot {
                Some((s, d)) => !parking.spec_is_free(s),
                None => true,
            };
            if need_new {
                match map.lanes@[front_lane as int].closest_parking {
                    Some(pl) => {
                        let dist = if front <= map.lanes@[pl as int].length {
                            front
                        } else {
                            map.lanes@[pl as int].length
                        };
                        let pos = Position { lane: pl, dist };
                        if pos.lane < parking.lanes@.len() && parking.lanes@[pos.lane as int]
                            is Some {
                            let lane = parking.lanes@[pos.lane as int]->Some_0;
                            if exists|i: int| 0 <= i < lane.free@.len() && lane.free@[i] {
                                crate::parking::lemma_first_true_holds(lane.free@);
                                vstd::std_specs::vec::axiom_spec_len(&lane.free);
                                let fi = crate::parking::spec_first_true(lane.free@);
                                let s = ParkingSpot { lane: pos.lane, idx: fi as usize };
                                assert(s.idx as int == fi);
                                assert(parking.spec_first_free_spot(pos) == Some(s));
                                assert(parking.spec_is_free(s));
                            }
                        }
                    },
                    None => {},
                }
            }
        },
    }
}

/// On-demand parking discovery: from the vehicle's driving position, find
/// the nearest reachable parking lane, its first free spot suitable for the
/// vehicle, and the distance along the driving segment to line up to.
fn find_parking_spot(
    driving_pos: Position,
    vehicle: &Vehicle,
    map: &MapModel,
    parking: &ParkingSimState,
) -> (r: Option<(ParkingSpot, u64)>)
    requires
        driving_pos.lane < map.lanes@.len(),
        map.wf(),
        parking.wf(),
    ensures
        r == spec_find_parking_spot(*map, *parking, driving_pos.lane, driving_pos.dist),
{
    let parking_lane = match map.find_closest_parking_lane(driving_pos.lane()) {
        Some(pl) => pl,
        None => {
            return None;
        },
    };
    let spot = match parking.get_first_free_spot(map.equiv_pos(driving_pos, parking_lane), vehicle)
        {
        Some(s) => s,
        None => {
            return None;
        },
    };
    Some((spot, parking.spot_to_driving_pos(spot, vehicle, driving_pos.lane(), map).dist_along()))
}

} // verus!
