//! The road network at the boundary the core reads it through: per-lane and
//! per-turn tables answering segment length, the road or intersection a
//! segment belongs to, the turn group of a movement, the nearest reachable
//! parking lane, and a route lookup for trip-phase reconstruction. How these
//! answers are computed is the map's own business; here they are plain data.

use crate::types::{Position, Traversable};
use vstd::prelude::*;

verus! {

/// What the core reads of one lane.
#[derive(Clone, Copy, PartialEq, Eq, Debug)]
pub struct LaneInfo {
    /// Physical length of the lane.
    pub length: u64,
    /// The road the lane belongs to.
    pub parent: usize,
    /// The nearest lane of parking type reachable from this lane, if any.
    pub closest_parking: Option<usize>,
}

/// What the core reads of one turn.
#[derive(Clone, Copy, PartialEq, Eq, Debug)]
pub struct TurnInfo {
    /// Physical length of the movement.
    pub length: u64,
    /// The intersection the turn moves through.
    pub parent: usize,
    /// The coarser turn group the movement belongs to, if it maps to one.
    pub turn_group: Option<usize>,
}

/// An ordered route of segments, as handed around by events.
#[derive(PartialEq, Eq, Debug)]
pub struct Path {
    pub steps: Vec<Traversable>,
}

impl View for Path {
    type V = Seq<Traversable>;

    open spec fn view(&self) -> Seq<Traversable> {
        self.steps@
    }
}

impl Clone for Path {
    fn clone(&self) -> (r: Self)
        ensures
            r@ == self@,
    {
        let mut steps: Vec<Traversable> = Vec::new();
        let mut i: usize = 0;
        while i < self.steps.len()
            invariant
                i <= self.steps@.len(),
                steps@ =~= self.steps@.take(i as int),
            decreases self.steps@.len() - i,
        {
            steps.push(self.steps[i]);
            i += 1;
        }
        proof {
            assert(steps@ =~= self.steps@);
        }
        Path { steps }
    }
}

/// A routing request: where the route should start and end.
#[derive(Clone, Copy, PartialEq, Eq, Structural, Debug)]
pub struct PathRequest {
    pub start: Position,
    pub end: Position,
}

/// First route stored for `req` in `routes`, as its sequence of steps.
pub open spec fn spec_route_lookup(
    routes: Seq<(PathRequest, Path)>,
    req: PathRequest,
) -> Option<Seq<Traversable>>
    decreases routes.len(),
{
    if routes.len() == 0 {
        None
    } else if routes[0].0 == req {
        Some(routes[0].1@)
    } else {
        spec_route_lookup(routes.drop_first(), req)
    }
}

/// The road network, consumed as tables indexed by lane and turn identifier.
pub struct MapModel {
    pub lanes: Vec<LaneInfo>,
    pub turns: Vec<TurnInfo>,
    /// Known routes: the answer the pathfinder gave to each request it was
    /// asked. Route computation itself is outside this core.
    pub routes: Vec<(PathRequest, Path)>,
}

impl MapModel {
    /// Every nearest-parking-lane pointer names a lane of this map.
    pub open spec fn wf(self) -> bool {
        forall|l: int|
            0 <= l < self.lanes@.len() && (#[trigger] self.lanes@[l]).closest_parking is Some
                ==> self.lanes@[l].closest_parking->Some_0 < self.lanes@.len()
    }

    /// A segment identifier points into the right table.
    pub open spec fn spec_valid_traversable(self, t: Traversable) -> bool {
        match t {
            Traversable::Lane(l) => l < self.lanes@.len(),
            Traversable::Turn(t) => t < self.turns@.len(),
        }
    }

    /// Physical length of a segment.
    pub open spec fn spec_length(self, t: Traversable) -> u64 {
        match t {
            Traversable::Lane(l) => self.lanes@[l as int].length,
            Traversable::Turn(t) => self.turns@[t as int].length,
        }
    }

    /// The route stored for `req`: the first matching entry, if any.
    pub open spec fn spec_pathfind(self, req: PathRequest) -> Option<Seq<Traversable>> {
        spec_route_lookup(self.routes@, req)
    }

    pub fn valid_traversable(&self, t: Traversable) -> (r: bool)
        ensures
            r == self.spec_valid_traversable(t),
    {
        match t {
            Traversable::Lane(l) => l < self.lanes.len(),
            Traversable::Turn(t) => t < self.turns.len(),
        }
    }

    /// Length of a segment.
    pub fn length(&self, t: Traversable) -> (len: u64)
        requires
            self.spec_valid_traversable(t),
        ensures
            len == self.spec_length(t),
    {
        match t {
            Traversable::Lane(l) => self.lanes[l].length,
            Traversable::Turn(t) => self.turns[t].length,
        }
    }

    /// The road a lane belongs to.
    pub fn lane_parent(&self, l: usize) -> (r: usize)
        requires
            l < self.lanes@.len(),
        ensures
            r == self.lanes@[l as int].parent,
    {
        self.lanes[l].parent
    }

    /// The intersection a turn moves through.
    pub fn turn_parent(&self, t: usize) -> (i: usize)
        requires
            t < self.turns@.len(),
        ensures
            i == self.turns@[t as int].parent,
    {
        self.turns[t].parent
    }

    /// The turn group a movement belongs to, if it maps to one.
    pub fn get_turn_group(&self, t: usize) -> (g: Option<usize>)
        requires
            t < self.turns@.len(),
        ensures
            g == self.turns@[t as int].turn_group,
    {
        self.turns[t].turn_group
    }

    /// The nearest lane of parking type reachable from `l`, if any.
    pub fn find_closest_parking_lane(&self, l: usize) -> (r: Option<usize>)
        requires
            l < self.lanes@.len(),
        ensures
            r == self.lanes@[l as int].closest_parking,
    {
        self.lanes[l].closest_parking
    }

    /// The position on `lane` equivalent to `pos` on its own lane: the same
    /// distance along, clamped to the other lane's length.
    pub fn equiv_pos(&self, pos: Position, lane: usize) -> (p: Position)
        requires
            lane < self.lanes@.len(),
        ensures
            p.lane == lane,
            p.dist == if pos.dist <= self.lanes@[lane as int].length {
                pos.dist
            } else {
                self.lanes@[lane as int].length
            },
    {
        let len = self.lanes[lane].length;
        Position { lane, dist: if pos.dist <= len { pos.dist } else { len } }
    }

    /// The route stored for `req`, if the pathfinder was ever asked it.
    pub fn pathfind(&self, req: PathRequest) -> (r: Option<Path>)
        ensures
            match r {
                Some(p) => self.spec_pathfind(req) == Some(p@),
                None => self.spec_pathfind(req) is None,
            },
    {
        proof {
            assert(self.routes@.skip(0) =~= self.routes@);
        }
        let mut i: usize = 0;
        while i < self.routes.len()
            invariant
                i <= self.routes@.len(),
                spec_route_lookup(self.routes@, req) == spec_route_lookup(
                    self.routes@.skip(i as int),
                    req,
                ),
            decreases self.routes@.len() - i,
        {
            proof {
                assert(self.routes@.skip(i as int)[0] == self.routes@[i as int]);
            }
            if self.routes[i].0 == req {
                return Some(self.routes[i].1.clone());
            }
            proof {
                assert(self.routes@.skip(i as int).drop_first() =~= self.routes@.skip(i + 1));
            }
            i += 1;
        }
        None
    }
}

} // verus!
