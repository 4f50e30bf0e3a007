//! The event-sourced metrics aggregator: a single ingestion entry point
//! consumes typed events in non-decreasing timestamp order and maintains
//! append-only per-category logs plus cumulative counters; read-only queries
//! derive windowed throughput, bus delays, finished-trip distributions,
//! trip-phase reconstructions and parking overhead from those logs.

use crate::histogram::Histogram;
use crate::idmap::IdMap;
use crate::map_model::{MapModel, Path, PathRequest};
use crate::types::{AgentID, CarID, Traversable, TripMode, VehicleType};
use crate::window::{count_in_window, Window};
use std::collections::VecDeque;
use vstd::multiset::Multiset;
use vstd::prelude::*;

verus! {

broadcast use vstd::seq_lib::group_to_multiset_ensures;

/// The entry of a map of vectors, empty when the key is absent.
pub open spec fn vec_entry<T>(m: Map<usize, Vec<T>>, k: usize) -> Seq<T> {
    if m.contains_key(k) {
        m[k]@
    } else {
        Seq::empty()
    }
}

/// The entry of a map of histograms, empty when the key is absent.
pub open spec fn hist_entry(m: Map<usize, Histogram>, k: usize) -> Multiset<u64> {
    if m.contains_key(k) {
        m[k]@
    } else {
        Multiset::empty()
    }
}

/// The category of one reconstructed trip phase, fixed where the phase is
/// produced. The parking-overhead analysis tells driving from walking and
/// parking-search by this tag; the free text of an uncategorised phase is
/// carried for display only.
#[derive(PartialEq, Eq, Debug)]
pub enum TripPhaseDesc {
    /// Driving as this vehicle.
    Driving(CarID),
    /// Walking to, or searching, a spot away from the current lane.
    ParkingSomewhereElse,
    /// Parking on the current lane.
    ParkingCurrentLane,
    /// On foot as this pedestrian.
    Walking(usize),
    /// Anything else (waiting for a bus, scenario labels).
    Other(String),
    /// Sentinel the ingestion appends when a trip finishes.
    Finished,
    /// Sentinel the ingestion appends when a trip aborts.
    Aborted,
}

impl Clone for TripPhaseDesc {
    fn clone(&self) -> (r: Self)
        ensures
            r == *self,
    {
        match self {
            TripPhaseDesc::Driving(c) => TripPhaseDesc::Driving(*c),
            TripPhaseDesc::ParkingSomewhereElse => TripPhaseDesc::ParkingSomewhereElse,
            TripPhaseDesc::ParkingCurrentLane => TripPhaseDesc::ParkingCurrentLane,
            TripPhaseDesc::Walking(p) => TripPhaseDesc::Walking(*p),
            TripPhaseDesc::Other(s) => TripPhaseDesc::Other(s.clone()),
            TripPhaseDesc::Finished => TripPhaseDesc::Finished,
            TripPhaseDesc::Aborted => TripPhaseDesc::Aborted,
        }
    }
}

/// One simulation event, externally produced, immutable once ingested. The
/// timestamp is supplied separately at ingestion.
#[derive(Debug)]
pub enum Event {
    AgentEntersTraversable(AgentID, Traversable),
    /// Bus, route, stop.
    BusArrivedAtStop(CarID, usize, usize),
    /// Pedestrian, stop, route.
    PedReachedBusStop(usize, usize, usize),
    /// Trip, mode, duration.
    TripFinished(usize, TripMode, u64),
    TripAborted(usize),
    /// Intersection, delay.
    IntersectionDelayMeasured(usize, u64),
    /// Trip, the route request the phase runs, free-text description.
    TripPhaseStarting(usize, Option<PathRequest>, TripPhaseDesc),
    PathAmended(Path),
}

/// Equality of phase descriptions, by category and carried value.
pub open spec fn spec_desc_eq(a: TripPhaseDesc, b: TripPhaseDesc) -> bool {
    match (a, b) {
        (TripPhaseDesc::Driving(x), TripPhaseDesc::Driving(y)) => x == y,
        (TripPhaseDesc::ParkingSomewhereElse, TripPhaseDesc::ParkingSomewhereElse) => true,
        (TripPhaseDesc::ParkingCurrentLane, TripPhaseDesc::ParkingCurrentLane) => true,
        (TripPhaseDesc::Walking(x), TripPhaseDesc::Walking(y)) => x == y,
        (TripPhaseDesc::Other(x), TripPhaseDesc::Other(y)) => x@ == y@,
        (TripPhaseDesc::Finished, TripPhaseDesc::Finished) => true,
        (TripPhaseDesc::Aborted, TripPhaseDesc::Aborted) => true,
        _ => false,
    }
}

/// Exact equality of two events, as the test-expectation matching uses it.
pub open spec fn spec_event_eq(a: Event, b: Event) -> bool {
    match (a, b) {
        (Event::AgentEntersTraversable(a1, t1), Event::AgentEntersTraversable(a2, t2)) => a1 == a2
            && t1 == t2,
        (Event::BusArrivedAtStop(c1, r1, s1), Event::BusArrivedAtStop(c2, r2, s2)) => c1 == c2
            && r1 == r2 && s1 == s2,
        (Event::PedReachedBusStop(p1, s1, r1), Event::PedReachedBusStop(p2, s2, r2)) => p1 == p2
            && s1 == s2 && r1 == r2,
        (Event::TripFinished(i1, m1, d1), Event::TripFinished(i2, m2, d2)) => i1 == i2 && m1 == m2
            && d1 == d2,
        (Event::TripAborted(i1), Event::TripAborted(i2)) => i1 == i2,
        (Event::IntersectionDelayMeasured(i1, d1), Event::IntersectionDelayMeasured(i2, d2)) => i1
            == i2 && d1 == d2,
        (Event::TripPhaseStarting(i1, r1, d1), Event::TripPhaseStarting(i2, r2, d2)) => i1 == i2
            && r1 == r2 && spec_desc_eq(d1, d2),
        (Event::PathAmended(p1), Event::PathAmended(p2)) => p1@ == p2@,
        _ => false,
    }
}

/// Whether two phase descriptions are the same.
fn desc_eq(a: &TripPhaseDesc, b: &TripPhaseDesc) -> (r: bool)
    ensures
        r == spec_desc_eq(*a, *b),
{
    match (a, b) {
        (TripPhaseDesc::Driving(x), TripPhaseDesc::Driving(y)) => *x == *y,
        (TripPhaseDesc::ParkingSomewhereElse, TripPhaseDesc::ParkingSomewhereElse) => true,
        (TripPhaseDesc::ParkingCurrentLane, TripPhaseDesc::ParkingCurrentLane) => true,
        (TripPhaseDesc::Walking(x), TripPhaseDesc::Walking(y)) => *x == *y,
        (TripPhaseDesc::Other(x), TripPhaseDesc::Other(y)) => x.eq(y),
        (TripPhaseDesc::Finished, TripPhaseDesc::Finished) => true,
        (TripPhaseDesc::Aborted, TripPhaseDesc::Aborted) => true,
        _ => false,
    }
}

/// Whether two routes take the same steps.
fn steps_eq(a: &Vec<Traversable>, b: &Vec<Traversable>) -> (r: bool)
    ensures
        r == (a@ == b@),
{
    if a.len() != b.len() {
        proof {
            assert(a@.len() != b@.len());
        }
        return false;
    }
    let mut i: usize = 0;
    while i < a.len()
        invariant
            a@.len() == b@.len(),
            i <= a@.len(),
            forall|j: int| 0 <= j < i ==> a@[j] == b@[j],
        decreases a@.len() - i,
    {
        if a[i] != b[i] {
            proof {
                assert(a@[i as int] != b@[i as int]);
            }
            return false;
        }
        i += 1;
    }
    proof {
        assert(a@ =~= b@);
    }
    true
}

/// Whether two events are exactly the same.
fn event_eq(a: &Event, b: &Event) -> (r: bool)
    ensures
        r == spec_event_eq(*a, *b),
{
    match (a, b) {
        (Event::AgentEntersTraversable(a1, t1), Event::AgentEntersTraversable(a2, t2)) => {
            *a1 == *a2 && *t1 == *t2
        },
        (Event::BusArrivedAtStop(c1, r1, s1), Event::BusArrivedAtStop(c2, r2, s2)) => {
            *c1 == *c2 && *r1 == *r2 && *s1 == *s2
        },
        (Event::PedReachedBusStop(p1, s1, r1), Event::PedReachedBusStop(p2, s2, r2)) => {
            *p1 == *p2 && *s1 == *s2 && *r1 == *r2
        },
        (Event::TripFinished(i1, m1, d1), Event::TripFinished(i2, m2, d2)) => {
            *i1 == *i2 && *m1 == *m2 && *d1 == *d2
        },
        (Event::TripAborted(i1), Event::TripAborted(i2)) => *i1 == *i2,
        (Event::IntersectionDelayMeasured(i1, d1), Event::IntersectionDelayMeasured(i2, d2)) => {
            *i1 == *i2 && *d1 == *d2
        },
        (Event::TripPhaseStarting(i1, r1, d1), Event::TripPhaseStarting(i2, r2, d2)) => {
            let req_same = match (r1, r2) {
                (Some(x), Some(y)) => *x == *y,
                (None, None) => true,
                _ => false,
            };
            *i1 == *i2 && req_same && desc_eq(d1, d2)
        },
        (Event::PathAmended(p1), Event::PathAmended(p2)) => steps_eq(&p1.steps, &p2.steps),
        _ => false,
    }
}

/// The trip mode an agent is classified into.
pub open spec fn spec_mode_of(a: AgentID) -> TripMode {
    match a {
        AgentID::Pedestrian(_) => TripMode::Walk,
        AgentID::Car(c) => match c.vehicle_type {
            VehicleType::Car => TripMode::Drive,
            VehicleType::Bike => TripMode::Bike,
            VehicleType::Bus => TripMode::Transit,
        },
    }
}

fn mode_of(a: AgentID) -> (m: TripMode)
    ensures
        m == spec_mode_of(a),
{
    match a {
        AgentID::Pedestrian(_) => TripMode::Walk,
        AgentID::Car(c) => match c.vehicle_type {
            VehicleType::Car => TripMode::Drive,
            VehicleType::Bike => TripMode::Bike,
            VehicleType::Bus => TripMode::Transit,
        },
    }
}

/// A cumulative counter's value for a key; zero before the first increment.
pub open spec fn spec_cnt(m: Map<usize, u64>, k: usize) -> u64 {
    if m.contains_key(k) {
        m[k]
    } else {
        0
    }
}

/// An increment that sticks at the top of the range instead of wrapping.
pub open spec fn spec_inc_sat(v: u64) -> u64 {
    if v < u64::MAX {
        (v + 1) as u64
    } else {
        v
    }
}

/// A demand counter's value for a turn group; zero before the first change.
pub open spec fn spec_dmd(m: Map<usize, i64>, k: usize) -> i64 {
    if m.contains_key(k) {
        m[k]
    } else {
        0
    }
}

pub open spec fn spec_inc_sat_i64(v: i64) -> i64 {
    if v < i64::MAX {
        (v + 1) as i64
    } else {
        v
    }
}

pub open spec fn spec_dec_sat_i64(v: i64) -> i64 {
    if v > i64::MIN {
        (v - 1) as i64
    } else {
        v
    }
}

/// A throughput log's times never decrease and never pass `clock`.
pub open spec fn spec_thru_log_ok(s: Seq<(u64, TripMode, usize)>, clock: u64) -> bool {
    &&& (forall|i: int, j: int| 0 <= i <= j < s.len() ==> s[i].0 <= s[j].0)
    &&& (forall|i: int| 0 <= i < s.len() ==> s[i].0 <= clock)
}

/// The bus-arrival log's times never decrease and never pass `clock`.
pub open spec fn spec_bus_log_ok(s: Seq<(u64, CarID, usize, usize)>, clock: u64) -> bool {
    &&& (forall|i: int, j: int| 0 <= i <= j < s.len() ==> s[i].0 <= s[j].0)
    &&& (forall|i: int| 0 <= i < s.len() ==> s[i].0 <= clock)
}

/// The waiting-passenger log's times never decrease and never pass `clock`.
pub open spec fn spec_ped_log_ok(s: Seq<(u64, usize, usize)>, clock: u64) -> bool {
    &&& (forall|i: int, j: int| 0 <= i <= j < s.len() ==> s[i].0 <= s[j].0)
    &&& (forall|i: int| 0 <= i < s.len() ==> s[i].0 <= clock)
}

/// The finished-trip log's times never decrease and never pass `clock`.
pub open spec fn spec_fin_log_ok(s: Seq<(u64, usize, Option<TripMode>, u64)>, clock: u64) -> bool {
    &&& (forall|i: int, j: int| 0 <= i <= j < s.len() ==> s[i].0 <= s[j].0)
    &&& (forall|i: int| 0 <= i < s.len() ==> s[i].0 <= clock)
}

/// The trip-phase log's times never decrease and never pass `clock`.
pub open spec fn spec_phase_log_ok(
    s: Seq<(u64, usize, Option<PathRequest>, TripPhaseDesc)>,
    clock: u64,
) -> bool {
    &&& (forall|i: int, j: int| 0 <= i <= j < s.len() ==> s[i].0 <= s[j].0)
    &&& (forall|i: int| 0 <= i < s.len() ==> s[i].0 <= clock)
}

/// A delay list's times never decrease and never pass `clock`.
pub open spec fn spec_delay_list_ok(s: Seq<(u64, u64)>, clock: u64) -> bool {
    &&& (forall|i: int, j: int| 0 <= i <= j < s.len() ==> s[i].0 <= s[j].0)
    &&& (forall|i: int| 0 <= i < s.len() ==> s[i].0 <= clock)
}

/// An event's segment references must point into the map's tables.
pub open spec fn spec_event_valid(ev: Event, map: MapModel) -> bool {
    match ev {
        Event::AgentEntersTraversable(_, to) => map.spec_valid_traversable(to),
        Event::PathAmended(p) => forall|i: int|
            0 <= i < p@.len() ==> map.spec_valid_traversable(p@[i]),
        _ => true,
    }
}

/// The raw per-road throughput log after one event: entering a lane appends
/// `(time, mode, road)`.
pub open spec fn spec_raw_road_after(
    log: Seq<(u64, TripMode, usize)>,
    ev: Event,
    time: u64,
    map: MapModel,
) -> Seq<(u64, TripMode, usize)> {
    match ev {
        Event::AgentEntersTraversable(a, Traversable::Lane(l)) => log.push(
            (time, spec_mode_of(a), map.lanes@[l as int].parent),
        ),
        _ => log,
    }
}

/// The raw per-intersection throughput log after one event: entering a turn
/// appends `(time, mode, intersection)`.
pub open spec fn spec_raw_intersection_after(
    log: Seq<(u64, TripMode, usize)>,
    ev: Event,
    time: u64,
    map: MapModel,
) -> Seq<(u64, TripMode, usize)> {
    match ev {
        Event::AgentEntersTraversable(a, Traversable::Turn(t)) => log.push(
            (time, spec_mode_of(a), map.turns@[t as int].parent),
        ),
        _ => log,
    }
}

/// The cumulative per-road counters after one event.
pub open spec fn spec_road_counts_after(
    m: Map<usize, u64>,
    ev: Event,
    map: MapModel,
) -> Map<usize, u64> {
    match ev {
        Event::AgentEntersTraversable(a, Traversable::Lane(l)) => {
            let r = map.lanes@[l as int].parent;
            m.insert(r, spec_inc_sat(spec_cnt(m, r)))
        },
        _ => m,
    }
}

/// The cumulative per-intersection counters after one event.
pub open spec fn spec_intersection_counts_after(
    m: Map<usize, u64>,
    ev: Event,
    map: MapModel,
) -> Map<usize, u64> {
    match ev {
        Event::AgentEntersTraversable(a, Traversable::Turn(t)) => {
            let i = map.turns@[t as int].parent;
            m.insert(i, spec_inc_sat(spec_cnt(m, i)))
        },
        _ => m,
    }
}

/// The demand counters after re-walking an amended route: each movement
/// step that maps to a turn group gains one outstanding demand.
pub open spec fn spec_record_demand_map(
    m: Map<usize, i64>,
    steps: Seq<Traversable>,
    map: MapModel,
) -> Map<usize, i64>
    decreases steps.len(),
{
    if steps.len() == 0 {
        m
    } else {
        let m1 = spec_record_demand_map(m, steps.drop_last(), map);
        match steps.last() {
            Traversable::Turn(t) => match map.turns@[t as int].turn_group {
                Some(g) => m1.insert(g, spec_inc_sat_i64(spec_dmd(m1, g))),
                None => m1,
            },
            Traversable::Lane(_) => m1,
        }
    }
}

/// The demand counters after one event: completing a movement lowers its
/// turn group's demand; an amended path raises demand along its steps. The
/// counter is signed on purpose — decrements and increments arrive on
/// different event paths, so transients may go negative.
pub open spec fn spec_demand_after(
    m: Map<usize, i64>,
    ev: Event,
    map: MapModel,
) -> Map<usize, i64> {
    match ev {
        Event::AgentEntersTraversable(a, Traversable::Turn(t)) => {
            match map.turns@[t as int].turn_group {
                Some(g) => m.insert(g, spec_dec_sat_i64(spec_dmd(m, g))),
                None => m,
            }
        },
        Event::PathAmended(p) => spec_record_demand_map(m, p@, map),
        _ => m,
    }
}

/// The pending expected-event queue after one event: an exact match with
/// the front pops it.
pub open spec fn spec_expectations_after(q: Seq<Event>, ev: Event) -> Seq<Event> {
    if q.len() > 0 && spec_event_eq(q[0], ev) {
        q.drop_first()
    } else {
        q
    }
}

/// The bus-arrival log after one event.
pub open spec fn spec_bus_arrivals_after(
    log: Seq<(u64, CarID, usize, usize)>,
    ev: Event,
    time: u64,
) -> Seq<(u64, CarID, usize, usize)> {
    match ev {
        Event::BusArrivedAtStop(bus, route, stop) => log.push((time, bus, route, stop)),
        _ => log,
    }
}

/// The waiting-passenger log after one event.
pub open spec fn spec_bus_passengers_after(
    log: Seq<(u64, usize, usize)>,
    ev: Event,
    time: u64,
) -> Seq<(u64, usize, usize)> {
    match ev {
        Event::PedReachedBusStop(_, stop, route) => log.push((time, stop, route)),
        _ => log,
    }
}

/// The finished-trip log after one event: a finish records its mode and
/// duration; an abort records no mode and duration zero.
pub open spec fn spec_finished_after(
    log: Seq<(u64, usize, Option<TripMode>, u64)>,
    ev: Event,
    time: u64,
) -> Seq<(u64, usize, Option<TripMode>, u64)> {
    match ev {
        Event::TripFinished(id, mode, dt) => log.push((time, id, Some(mode), dt)),
        Event::TripAborted(id) => log.push((time, id, None, 0)),
        _ => log,
    }
}

/// One intersection's delay log after one event.
pub open spec fn spec_delay_log_after(
    prev: Seq<(u64, u64)>,
    k: usize,
    ev: Event,
    time: u64,
) -> Seq<(u64, u64)> {
    match ev {
        Event::IntersectionDelayMeasured(i, d) => if i == k {
            prev.push((time, d))
        } else {
            prev
        },
        _ => prev,
    }
}

/// The trip-phase log after one event: a starting phase is recorded as
/// given; finishes and aborts append their sentinel descriptions.
pub open spec fn spec_trip_log_after(
    log: Seq<(u64, usize, Option<PathRequest>, TripPhaseDesc)>,
    ev: Event,
    time: u64,
) -> Seq<(u64, usize, Option<PathRequest>, TripPhaseDesc)> {
    match ev {
        Event::TripPhaseStarting(id, req, desc) => log.push((time, id, req, desc)),
        Event::TripAborted(id) => log.push((time, id, None, TripPhaseDesc::Aborted)),
        Event::TripFinished(id, _, _) => log.push((time, id, None, TripPhaseDesc::Finished)),
        _ => log,
    }
}

/// The cumulative throughput state: counters for dashboards, the raw logs
/// the windowed queries replay, and the live turn-group demand counters.
pub struct ThruputStats {
    pub count_per_road: IdMap<u64>,
    pub count_per_intersection: IdMap<u64>,
    pub raw_per_road: Vec<(u64, TripMode, usize)>,
    pub raw_per_intersection: Vec<(u64, TripMode, usize)>,
    pub demand: IdMap<i64>,
}

/// The aggregator. One instance lives for a whole simulation run; an
/// instance restored for passive inspection records nothing further.
pub struct Analytics {
    pub thruput_stats: ThruputStats,
    /// Scripted scenario assertions: the front is popped on an exact match.
    pub test_expectations: VecDeque<Event>,
    /// Time, bus, route, stop.
    pub bus_arrivals: Vec<(u64, CarID, usize, usize)>,
    /// Time, stop, route.
    pub bus_passengers_waiting: Vec<(u64, usize, usize)>,
    /// Time, trip, mode (`None` marks an abort), duration.
    pub finished_trips: Vec<(u64, usize, Option<TripMode>, u64)>,
    /// Time, trip, optional route request, description.
    pub trip_log: Vec<(u64, usize, Option<PathRequest>, TripPhaseDesc)>,
    /// Per intersection: time, delay.
    pub intersection_delays: IdMap<Vec<(u64, u64)>>,
    /// Whether ingestion records anything; false for restored instances.
    pub record_anything: bool,
    /// No ingested timestamp exceeds this.
    pub clock: Ghost<u64>,
}

/// One intersection's delay log, empty when none was measured.
pub open spec fn spec_delay_log(a: Analytics, k: usize) -> Seq<(u64, u64)> {
    if a.intersection_delays@.contains_key(k) {
        a.intersection_delays@[k]@
    } else {
        Seq::empty()
    }
}

impl Analytics {
    /// Every per-category log is append-only in non-decreasing time order,
    /// bounded by the ingestion clock, and every keyed store has distinct
    /// keys. The windowed and range queries are correct only under this.
    pub open spec fn wf(self) -> bool {
        &&& self.thruput_stats.count_per_road.wf()
        &&& self.thruput_stats.count_per_intersection.wf()
        &&& self.thruput_stats.demand.wf()
        &&& self.intersection_delays.wf()
        &&& spec_thru_log_ok(self.thruput_stats.raw_per_road@, self.clock@)
        &&& spec_thru_log_ok(self.thruput_stats.raw_per_intersection@, self.clock@)
        &&& spec_bus_log_ok(self.bus_arrivals@, self.clock@)
        &&& spec_ped_log_ok(self.bus_passengers_waiting@, self.clock@)
        &&& spec_fin_log_ok(self.finished_trips@, self.clock@)
        &&& spec_phase_log_ok(self.trip_log@, self.clock@)
        &&& forall|k: usize|
            self.intersection_delays@.contains_key(k) ==> spec_delay_list_ok(
                (#[trigger] self.intersection_delays@[k])@,
                self.clock@,
            )
    }

    /// A fresh, recording aggregator with everything empty.
    pub fn new() -> (a: Analytics)
        ensures
            a.wf(),
            a.record_anything,
            a.clock@ == 0,
            a.thruput_stats.count_per_road@ == Map::<usize, u64>::empty(),
            a.thruput_stats.count_per_intersection@ == Map::<usize, u64>::empty(),
            a.thruput_stats.raw_per_road@ == Seq::<(u64, TripMode, usize)>::empty(),
            a.thruput_stats.raw_per_intersection@ == Seq::<(u64, TripMode, usize)>::empty(),
            a.thruput_stats.demand@ == Map::<usize, i64>::empty(),
            a.test_expectations@ == Seq::<Event>::empty(),
            a.bus_arrivals@ == Seq::<(u64, CarID, usize, usize)>::empty(),
            a.bus_passengers_waiting@ == Seq::<(u64, usize, usize)>::empty(),
            a.finished_trips@ == Seq::<(u64, usize, Option<TripMode>, u64)>::empty(),
            a.trip_log@ == Seq::<(u64, usize, Option<PathRequest>, TripPhaseDesc)>::empty(),
            a.intersection_delays@ == Map::<usize, Vec<(u64, u64)>>::empty(),
    {
        Analytics {
            thruput_stats: ThruputStats {
                count_per_road: IdMap::new(),
                count_per_intersection: IdMap::new(),
                raw_per_road: Vec::new(),
                raw_per_intersection: Vec::new(),
                demand: IdMap::new(),
            },
            test_expectations: VecDeque::new(),
            bus_arrivals: Vec::new(),
            bus_passengers_waiting: Vec::new(),
            finished_trips: Vec::new(),
            trip_log: Vec::new(),
            intersection_delays: IdMap::new(),
            record_anything: true,
            clock: Ghost(0),
        }
    }

    /// The single ingestion entry point: one event at its timestamp.
    /// Timestamps must be non-decreasing across calls; a non-recording
    /// instance ignores the call entirely.
    pub fn event(&mut self, ev: Event, time: u64, map: &MapModel)
        requires
            old(self).wf(),
            time >= old(self).clock@,
            spec_event_valid(ev, *map),
        ensures
            final(self).wf(),
            !old(self).record_anything ==> *final(self) == *old(self),
            old(self).record_anything ==> {
                &&& final(self).record_anything
                &&& final(self).clock@ == time
                &&& final(self).thruput_stats.raw_per_road@ == spec_raw_road_after(
                    old(self).thruput_stats.raw_per_road@,
                    ev,
                    time,
                    *map,
                )
                &&& final(self).thruput_stats.raw_per_intersection@
                    == spec_raw_intersection_after(
                    old(self).thruput_stats.raw_per_intersection@,
                    ev,
                    time,
                    *map,
                )
                &&& final(self).thruput_stats.count_per_road@ == spec_road_counts_after(
                    old(self).thruput_stats.count_per_road@,
                    ev,
                    *map,
                )
                &&& final(self).thruput_stats.count_per_intersection@
                    == spec_intersection_counts_after(
                    old(self).thruput_stats.count_per_intersection@,
                    ev,
                    *map,
                )
                &&& final(self).thruput_stats.demand@ == spec_demand_after(
                    old(self).thruput_stats.demand@,
                    ev,
                    *map,
                )
                &&& final(self).test_expectations@ == spec_expectations_after(
                    old(self).test_expectations@,
                    ev,
                )
                &&& final(self).bus_arrivals@ == spec_bus_arrivals_after(
                    old(self).bus_arrivals@,
                    ev,
                    time,
                )
                &&& final(self).bus_passengers_waiting@ == spec_bus_passengers_after(
                    old(self).bus_passengers_waiting@,
                    ev,
                    time,
                )
                &&& final(self).finished_trips@ == spec_finished_after(
                    old(self).finished_trips@,
                    ev,
                    time,
                )
                &&& forall|k: usize|
                    spec_delay_log(*final(self), k) == spec_delay_log_after(
                        spec_delay_log(*old(self), k),
                        k,
                        ev,
                        time,
                    )
                &&& final(self).trip_log@ == spec_trip_log_after(old(self).trip_log@, ev, time)
            },
    {
        if !self.record_anything {
            return ;
        }
        proof {
            self.clock@ = time;
        }
        // Throughput
        match &ev {
            Event::AgentEntersTraversable(a, to) => {
                let mode = mode_of(*a);
                match to {
                    Traversable::Lane(l) => {
                        let r = map.lane_parent(*l);
                        inc_counter(&mut self.thruput_stats.count_per_road, r);
                        self.thruput_stats.raw_per_road.push((time, mode, r));
                    },
                    Traversable::Turn(t) => {
                        let p = map.turn_parent(*t);
                        inc_counter(&mut self.thruput_stats.count_per_intersection, p);
                        self.thruput_stats.raw_per_intersection.push((time, mode, p));
                        match map.get_turn_group(*t) {
                            Some(g) => {
                                dec_demand(&mut self.thruput_stats.demand, g);
                            },
                            None => {},
                        }
                    },
                }
            },
            _ => {},
        }
        // Test expectations
        if self.test_expectations.len() > 0 {
            let front_matches = event_eq(&self.test_expectations[0], &ev);
            if front_matches {
                let _met = self.test_expectations.pop_front();
                proof {
                    assert(self.test_expectations@ =~= old(self).test_expectations@.drop_first());
                }
            }
        }
        // Bus arrivals
        match &ev {
            Event::BusArrivedAtStop(bus, route, stop) => {
                self.bus_arrivals.push((time, *bus, *route, *stop));
            },
            _ => {},
        }
        // Bus passengers
        match &ev {
            Event::PedReachedBusStop(_, stop, route) => {
                self.bus_passengers_waiting.push((time, *stop, *route));
            },
            _ => {},
        }
        // Finished trips
        match &ev {
            Event::TripFinished(id, mode, dt) => {
                self.finished_trips.push((time, *id, Some(*mode), *dt));
            },
            Event::TripAborted(id) => {
                self.finished_trips.push((time, *id, None, 0));
            },
            _ => {},
        }
        // Intersection delays
        match &ev {
            Event::IntersectionDelayMeasured(i, delay) => {
                let mut list = match self.intersection_delays.remove(*i) {
                    Some(l) => l,
                    None => Vec::new(),
                };
                list.push((time, *delay));
                self.intersection_delays.set(*i, list);
            },
            _ => {},
        }
        // Trip-phase log and demand recording consume the event.
        match ev {
            Event::TripPhaseStarting(id, maybe_req, desc) => {
                self.trip_log.push((time, id, maybe_req, desc));
            },
            Event::TripAborted(id) => {
                self.trip_log.push((time, id, None, TripPhaseDesc::Aborted));
            },
            Event::TripFinished(id, _, _) => {
                self.trip_log.push((time, id, None, TripPhaseDesc::Finished));
            },
            Event::PathAmended(path) => {
                self.record_demand(&path, map);
            },
            _ => {},
        }
    }

    /// Re-walk an amended route and raise each mapped turn group's live
    /// demand by one per movement step.
    pub fn record_demand(&mut self, path: &Path, map: &MapModel)
        requires
            old(self).thruput_stats.demand.wf(),
            forall|i: int| 0 <= i < path@.len() ==> map.spec_valid_traversable(path@[i]),
        ensures
            final(self).thruput_stats.demand.wf(),
            final(self).thruput_stats.demand@ == spec_record_demand_map(
                old(self).thruput_stats.demand@,
                path@,
                *map,
            ),
            final(self).thruput_stats.count_per_road == old(self).thruput_stats.count_per_road,
            final(self).thruput_stats.count_per_intersection == old(
                self,
            ).thruput_stats.count_per_intersection,
            final(self).thruput_stats.raw_per_road == old(self).thruput_stats.raw_per_road,
            final(self).thruput_stats.raw_per_intersection == old(
                self,
            ).thruput_stats.raw_per_intersection,
            final(self).test_expectations == old(self).test_expectations,
            final(self).bus_arrivals == old(self).bus_arrivals,
            final(self).bus_passengers_waiting == old(self).bus_passengers_waiting,
            final(self).finished_trips == old(self).finished_trips,
            final(self).trip_log == old(self).trip_log,
            final(self).intersection_delays == old(self).intersection_delays,
            final(self).record_anything == old(self).record_anything,
            final(self).clock@ == old(self).clock@,
    {
        let ghost dm0 = self.thruput_stats.demand@;
        let mut i: usize = 0;
        while i < path.steps.len()
            invariant
                i <= path@.len(),
                self.thruput_stats.demand.wf(),
                self.thruput_stats.demand@ == spec_record_demand_map(dm0, path@.take(i as int), *map),
                forall|j: int| 0 <= j < path@.len() ==> map.spec_valid_traversable(path@[j]),
                self.thruput_stats.count_per_road == old(self).thruput_stats.count_per_road,
                self.thruput_stats.count_per_intersection == old(
                    self,
                ).thruput_stats.count_per_intersection,
                self.thruput_stats.raw_per_road == old(self).thruput_stats.raw_per_road,
                self.thruput_stats.raw_per_intersection == old(
                    self,
                ).thruput_stats.raw_per_intersection,
                self.test_expectations == old(self).test_expectations,
                self.bus_arrivals == old(self).bus_arrivals,
                self.bus_passengers_waiting == old(self).bus_passengers_waiting,
                self.finished_trips == old(self).finished_trips,
                self.trip_log == old(self).trip_log,
                self.intersection_delays == old(self).intersection_delays,
                self.record_anything == old(self).record_anything,
                self.clock@ == old(self).clock@,
                dm0 == old(self).thruput_stats.demand@,
            decreases path@.len() - i,
        {
            match path.steps[i] {
                Traversable::Turn(t) => {
                    match map.get_turn_group(t) {
                        Some(g) => {
                            inc_demand(&mut self.thruput_stats.demand, g);
                        },
                        None => {},
                    }
                },
                Traversable::Lane(_) => {},
            }
            proof {
                assert(path@.take(i + 1).drop_last() =~= path@.take(i as int));
                assert(path@.take(i + 1).last() == path@[i as int]);
            }
            i += 1;
        }
        proof {
            assert(path@.take(path@.len() as int) =~= path@);
        }
    }
}

impl Default for Analytics {
    /// A non-recording instance: what a snapshot restored for passive
    /// inspection starts from. It equals a fresh aggregator except that
    /// ingestion is disabled, so every later `event` call is a no-op.
    fn default() -> (a: Analytics)
        ensures
            a.wf(),
            !a.record_anything,
            a.clock@ == 0,
            a.thruput_stats.count_per_road@ == Map::<usize, u64>::empty(),
            a.thruput_stats.count_per_intersection@ == Map::<usize, u64>::empty(),
            a.thruput_stats.raw_per_road@ == Seq::<(u64, TripMode, usize)>::empty(),
            a.thruput_stats.raw_per_intersection@ == Seq::<(u64, TripMode, usize)>::empty(),
            a.thruput_stats.demand@ == Map::<usize, i64>::empty(),
            a.test_expectations@ == Seq::<Event>::empty(),
            a.bus_arrivals@ == Seq::<(u64, CarID, usize, usize)>::empty(),
            a.bus_passengers_waiting@ == Seq::<(u64, usize, usize)>::empty(),
            a.finished_trips@ == Seq::<(u64, usize, Option<TripMode>, u64)>::empty(),
            a.trip_log@ == Seq::<(u64, usize, Option<PathRequest>, TripPhaseDesc)>::empty(),
            a.intersection_delays@ == Map::<usize, Vec<(u64, u64)>>::empty(),
    {
        let mut a = Analytics::new();
        a.record_anything = false;
        a
    }
}

/// The durations of trips finished in mode `mode` by `now`.
pub open spec fn spec_finished_durations(
    log: Seq<(u64, usize, Option<TripMode>, u64)>,
    now: u64,
    mode: TripMode,
) -> Multiset<u64>
    decreases log.len(),
{
    if log.len() == 0 {
        Multiset::empty()
    } else {
        let m = spec_finished_durations(log.drop_last(), now, mode);
        if log.last().0 <= now && log.last().2 == Some(mode) {
            m.insert(log.last().3)
        } else {
            m
        }
    }
}

/// The durations of all trips finished, in any mode, by `now`.
pub open spec fn spec_all_durations(
    log: Seq<(u64, usize, Option<TripMode>, u64)>,
    now: u64,
) -> Multiset<u64>
    decreases log.len(),
{
    if log.len() == 0 {
        Multiset::empty()
    } else {
        let m = spec_all_durations(log.drop_last(), now);
        if log.last().0 <= now && log.last().2 is Some {
            m.insert(log.last().3)
        } else {
            m
        }
    }
}

/// How many trips were aborted by `now`.
pub open spec fn spec_aborted_count(log: Seq<(u64, usize, Option<TripMode>, u64)>, now: u64) -> nat
    decreases log.len(),
{
    if log.len() == 0 {
        0
    } else {
        spec_aborted_count(log.drop_last(), now) + if log.last().0 <= now && log.last().2 is None {
            1nat
        } else {
            0nat
        }
    }
}

/// The duration each trip finished with by `now`; a trip finished twice
/// keeps the later record's duration.
pub open spec fn spec_trip_durations(
    log: Seq<(u64, usize, Option<TripMode>, u64)>,
    now: u64,
) -> Map<usize, u64>
    decreases log.len(),
{
    if log.len() == 0 {
        Map::empty()
    } else {
        let m = spec_trip_durations(log.drop_last(), now);
        if log.last().0 <= now && log.last().2 is Some {
            m.insert(log.last().1, log.last().3)
        } else {
            m
        }
    }
}

/// Whether record `i` is the last finish of its trip by `now`.
pub open spec fn spec_is_last_finished(
    log: Seq<(u64, usize, Option<TripMode>, u64)>,
    now: u64,
    i: int,
) -> bool {
    &&& log[i].0 <= now
    &&& log[i].2 is Some
    &&& forall|j: int|
        i < j < log.len() ==> !(log[j].0 <= now && log[j].2 is Some && (#[trigger] log[j]).1
            == log[i].1)
}

/// Per-trip duration deltas, baseline minus current, one per trip finished
/// in both worlds, in the order the current world's last finish records
/// stand in its log.
pub open spec fn spec_deltas_upto(
    log: Seq<(u64, usize, Option<TripMode>, u64)>,
    now: u64,
    baseline: Map<usize, u64>,
    n: int,
) -> Seq<i128>
    decreases n,
{
    if n <= 0 {
        Seq::empty()
    } else {
        let prev = spec_deltas_upto(log, now, baseline, n - 1);
        if spec_is_last_finished(log, now, n - 1) && baseline.contains_key(log[n - 1].1) {
            prev.push((baseline[log[n - 1].1] - log[n - 1].3) as i128)
        } else {
            prev
        }
    }
}

/// The delays measured at one intersection between `t1` and `t2` inclusive.
pub open spec fn spec_delays_between(list: Seq<(u64, u64)>, t1: u64, t2: u64) -> Multiset<u64>
    decreases list.len(),
{
    if list.len() == 0 {
        Multiset::empty()
    } else {
        let m = spec_delays_between(list.drop_last(), t1, t2);
        if t1 <= list.last().0 && list.last().0 <= t2 {
            m.insert(list.last().1)
        } else {
            m
        }
    }
}

/// One value per trip mode.
pub struct PerMode<T> {
    pub walk: T,
    pub bike: T,
    pub transit: T,
    pub drive: T,
}

impl<T> PerMode<T> {
    /// The value for one mode.
    pub open spec fn spec_get(self, m: TripMode) -> T {
        match m {
            TripMode::Walk => self.walk,
            TripMode::Bike => self.bike,
            TripMode::Transit => self.transit,
            TripMode::Drive => self.drive,
        }
    }

    /// The value for one mode.
    pub fn get(&self, m: TripMode) -> (v: &T)
        ensures
            *v == self.spec_get(m),
    {
        match m {
            TripMode::Walk => &self.walk,
            TripMode::Bike => &self.bike,
            TripMode::Transit => &self.transit,
            TripMode::Drive => &self.drive,
        }
    }
}

impl Analytics {
    /// The distribution of durations of trips finished in `mode` by `now`.
    pub fn finished_trips(&self, now: u64, mode: TripMode) -> (distrib: Histogram)
        ensures
            distrib@ == spec_finished_durations(self.finished_trips@, now, mode),
    {
        let mut distrib = Histogram::new();
        let mut i: usize = 0;
        while i < self.finished_trips.len()
            invariant
                i <= self.finished_trips@.len(),
                distrib@ == spec_finished_durations(
                    self.finished_trips@.take(i as int),
                    now,
                    mode,
                ),
            decreases self.finished_trips@.len() - i,
        {
            let r = self.finished_trips[i];
            if r.0 <= now && r.2 == Some(mode) {
                distrib.add(r.3);
            }
            proof {
                assert(self.finished_trips@.take(i + 1).drop_last() =~= self.finished_trips@.take(
                    i as int,
                ));
                assert(self.finished_trips@.take(i + 1).last() == self.finished_trips@[i as int]);
            }
            i += 1;
        }
        proof {
            assert(self.finished_trips@.take(self.finished_trips@.len() as int)
                =~= self.finished_trips@);
        }
        distrib
    }

    /// Everything about trips done by `now`: the distribution over all
    /// finished trips, the number of aborted trips, and the distribution
    /// per mode.
    pub fn all_finished_trips(&self, now: u64) -> (r: (Histogram, usize, PerMode<Histogram>))
        ensures
            r.0@ == spec_all_durations(self.finished_trips@, now),
            r.1 == spec_aborted_count(self.finished_trips@, now),
            forall|m: TripMode|
                (#[trigger] r.2.spec_get(m))@ == spec_finished_durations(
                    self.finished_trips@,
                    now,
                    m,
                ),
    {
        let mut all = Histogram::new();
        let mut num_aborted: usize = 0;
        let mut per_mode = PerMode {
            walk: Histogram::new(),
            bike: Histogram::new(),
            transit: Histogram::new(),
            drive: Histogram::new(),
        };
        let mut i: usize = 0;
        while i < self.finished_trips.len()
            invariant
                i <= self.finished_trips@.len(),
                num_aborted <= i,
                all@ == spec_all_durations(self.finished_trips@.take(i as int), now),
                num_aborted == spec_aborted_count(self.finished_trips@.take(i as int), now),
                per_mode.walk@ == spec_finished_durations(
                    self.finished_trips@.take(i as int),
                    now,
                    TripMode::Walk,
                ),
                per_mode.bike@ == spec_finished_durations(
                    self.finished_trips@.take(i as int),
                    now,
                    TripMode::Bike,
                ),
                per_mode.transit@ == spec_finished_durations(
                    self.finished_trips@.take(i as int),
                    now,
                    TripMode::Transit,
                ),
                per_mode.drive@ == spec_finished_durations(
                    self.finished_trips@.take(i as int),
                    now,
                    TripMode::Drive,
                ),
            decreases self.finished_trips@.len() - i,
        {
            let r = self.finished_trips[i];
            if r.0 <= now {
                match r.2 {
                    Some(mode) => {
                        all.add(r.3);
                        match mode {
                            TripMode::Walk => per_mode.walk.add(r.3),
                            TripMode::Bike => per_mode.bike.add(r.3),
                            TripMode::Transit => per_mode.transit.add(r.3),
                            TripMode::Drive => per_mode.drive.add(r.3),
                        }
                    },
                    None => {
                        num_aborted += 1;
                    },
                }
            }
            proof {
                assert(self.finished_trips@.take(i + 1).drop_last() =~= self.finished_trips@.take(
                    i as int,
                ));
                assert(self.finished_trips@.take(i + 1).last() == self.finished_trips@[i as int]);
            }
            i += 1;
        }
        proof {
            assert(self.finished_trips@.take(self.finished_trips@.len() as int)
                =~= self.finished_trips@);
        }
        (all, num_aborted, per_mode)
    }

    /// Per-trip duration deltas against a baseline run over the same trips,
    /// one entry per trip finished in both by `now`; positive means the
    /// baseline was slower.
    pub fn finished_trip_deltas(&self, now: u64, baseline: &Analytics) -> (deltas: Vec<i128>)
        ensures
            deltas@ == spec_deltas_upto(
                self.finished_trips@,
                now,
                spec_trip_durations(baseline.finished_trips@, now),
                self.finished_trips@.len() as int,
            ),
    {
        let mut bmap: IdMap<u64> = IdMap::new();
        let mut i: usize = 0;
        while i < baseline.finished_trips.len()
            invariant
                i <= baseline.finished_trips@.len(),
                bmap.wf(),
                bmap@ == spec_trip_durations(baseline.finished_trips@.take(i as int), now),
            decreases baseline.finished_trips@.len() - i,
        {
            let r = baseline.finished_trips[i];
            if r.0 <= now && r.2.is_some() {
                bmap.set(r.1, r.3);
            }
            proof {
                assert(baseline.finished_trips@.take(i + 1).drop_last()
                    =~= baseline.finished_trips@.take(i as int));
                assert(baseline.finished_trips@.take(i + 1).last() == baseline.finished_trips@[i as int]);
            }
            i += 1;
        }
        proof {
            assert(baseline.finished_trips@.take(baseline.finished_trips@.len() as int)
                =~= baseline.finished_trips@);
        }
        let ghost b = bmap@;
        let mut deltas: Vec<i128> = Vec::new();
        let mut i: usize = 0;
        while i < self.finished_trips.len()
            invariant
                i <= self.finished_trips@.len(),
                bmap.wf(),
                bmap@ == b,
                deltas@ == spec_deltas_upto(self.finished_trips@, now, b, i as int),
            decreases self.finished_trips@.len() - i,
        {
            let r = self.finished_trips[i];
            if r.0 <= now && r.2.is_some() {
                // Only the last finish of a trip counts, as a map keyed by
                // trip would keep only it.
                let mut later_exists = false;
                let mut j: usize = i + 1;
                while j < self.finished_trips.len()
                    invariant
                        i < j <= self.finished_trips@.len(),
                        later_exists == exists|j2: int|
                            i < j2 < j && (#[trigger] self.finished_trips@[j2]).0 <= now
                                && self.finished_trips@[j2].2 is Some
                                && self.finished_trips@[j2].1 == self.finished_trips@[i as int].1,
                        r == self.finished_trips@[i as int],
                    decreases self.finished_trips@.len() - j,
                {
                    let s = self.finished_trips[j];
                    if s.0 <= now && s.2.is_some() && s.1 == r.1 {
                        later_exists = true;
                    }
                    j += 1;
                }
                if !later_exists {
                    match bmap.get(r.1) {
                        Some(dt2) => {
                            deltas.push((*dt2 as i128) - (r.3 as i128));
                        },
                        None => {},
                    }
                }
            }
            i += 1;
        }
        deltas
    }

    /// The distribution of delays measured at intersection `i` between `t1`
    /// and `t2` inclusive.
    pub fn intersection_delays(&self, i: usize, t1: u64, t2: u64) -> (delays: Histogram)
        requires
            self.wf(),
        ensures
            delays@ == spec_delays_between(spec_delay_log(*self, i), t1, t2),
    {
        let mut delays = Histogram::new();
        match self.intersection_delays.get(i) {
            Some(list) => {
                let mut k: usize = 0;
                while k < list.len()
                    invariant
                        k <= list@.len(),
                        list@ == spec_delay_log(*self, i),
                        delays@ == spec_delays_between(list@.take(k as int), t1, t2),
                    decreases list@.len() - k,
                {
                    let r = list[k];
                    if t1 <= r.0 && r.0 <= t2 {
                        delays.add(r.1);
                    }
                    proof {
                        assert(list@.take(k + 1).drop_last() =~= list@.take(k as int));
                        assert(list@.take(k + 1).last() == list@[k as int]);
                    }
                    k += 1;
                }
                proof {
                    assert(list@.take(list@.len() as int) =~= list@);
                }
            },
            None => {},
        }
        delays
    }
}

/// The times of the raw throughput records for one entity and one mode, up
/// to `now`, in log order.
pub open spec fn spec_matching_times(
    data: Seq<(u64, TripMode, usize)>,
    obj: usize,
    mode: TripMode,
    now: u64,
) -> Seq<u64>
    decreases data.len(),
{
    if data.len() == 0 {
        Seq::empty()
    } else {
        let p = spec_matching_times(data.drop_last(), obj, mode, now);
        if data.last().2 == obj && data.last().1 == mode && data.last().0 <= now {
            p.push(data.last().0)
        } else {
            p
        }
    }
}

/// The piecewise-constant step samples a fresh sliding window of length `w`
/// produces when the event times are replayed through it: a zero sample at
/// the start of the day, then one `(time, count-in-window)` sample per event.
pub open spec fn spec_thru_points(times: Seq<u64>, w: u64) -> Seq<(u64, usize)>
    decreases times.len(),
{
    if times.len() == 0 {
        seq![(crate::START_OF_DAY, 0usize)]
    } else {
        spec_thru_points(times.drop_last(), w).push(
            (times.last(), count_in_window(times, times.last(), w) as usize),
        )
    }
}

/// The full sample series for one mode: the replayed samples, a synthetic
/// drop-off sample one epsilon past the end of the window after the last
/// sample (or at `now` if that comes sooner), and a final sample pinned at
/// `now`.
pub open spec fn spec_thru_series(times: Seq<u64>, w: u64, now: u64) -> Seq<(u64, usize)> {
    let pts = spec_thru_points(times, w);
    let last_t = pts.last().0;
    let t1 = if last_t + w + crate::EPSILON_TICKS <= now {
        (last_t + w + crate::EPSILON_TICKS) as u64
    } else {
        now
    };
    let pts2 = if t1 != last_t {
        pts.push((t1, count_in_window(times, t1, w) as usize))
    } else {
        pts
    };
    if pts2.last().0 != now {
        pts2.push((now, count_in_window(times, now, w) as usize))
    } else {
        pts2
    }
}

/// The sample series of one mode for one entity: every raw record of that
/// entity and mode up to `now` replayed through a fresh window.
fn mode_series(
    now: u64,
    obj: usize,
    window_size: u64,
    mode: TripMode,
    data: &Vec<(u64, TripMode, usize)>,
) -> (pts: Vec<(u64, usize)>)
    requires
        forall|i: int, j: int| 0 <= i <= j < data@.len() ==> data@[i].0 <= data@[j].0,
    ensures
        pts@ == spec_thru_series(
            spec_matching_times(data@, obj, mode, now),
            window_size,
            now,
        ),
{
    let mut win = Window::new(window_size);
    let mut pts: Vec<(u64, usize)> = Vec::new();
    pts.push((crate::START_OF_DAY, 0));
    proof {
        assert(spec_matching_times(data@.take(0), obj, mode, now) =~= Seq::<u64>::empty());
        assert(pts@ =~= spec_thru_points(win.spec_history(), window_size));
    }
    let mut i: usize = 0;
    while i < data.len()
        invariant
            i <= data@.len(),
            forall|i2: int, j2: int| 0 <= i2 <= j2 < data@.len() ==> data@[i2].0 <= data@[j2].0,
            win.wf(),
            win.spec_window_size() == window_size,
            win.spec_history() == spec_matching_times(data@.take(i as int), obj, mode, now),
            win.spec_history().len() <= i,
            win.spec_watermark() == if win.spec_history().len() == 0 {
                0
            } else {
                win.spec_history().last()
            },
            win.spec_watermark() <= now,
            win.spec_watermark() == 0 || exists|k: int|
                0 <= k < i && data@[k].0 == win.spec_watermark(),
            pts@ == spec_thru_points(win.spec_history(), window_size),
            pts@.len() == win.spec_history().len() + 1,
            pts@.last().0 == win.spec_watermark(),
        decreases data@.len() - i,
    {
        let r = data[i];
        proof {
            assert(data@.take(i + 1).drop_last() =~= data@.take(i as int));
            assert(data@.take(i + 1).last() == data@[i as int]);
        }
        if r.2 == obj && r.1 == mode && r.0 <= now {
            let ghost h0 = win.spec_history();
            proof {
                if win.spec_watermark() != 0 {
                    let k = choose|k: int| 0 <= k < i && data@[k].0 == win.spec_watermark();
                    assert(data@[k].0 <= data@[i as int].0);
                }
                crate::window::lemma_count_le_len(h0.push(r.0), r.0, window_size);
            }
            let count = win.add(r.0);
            pts.push((r.0, count));
            proof {
                assert(win.spec_history() == h0.push(r.0));
                assert(h0.push(r.0).drop_last() =~= h0);
                assert(h0.push(r.0).last() == r.0);
            }
        }
        i += 1;
    }
    proof {
        assert(data@.take(data@.len() as int) =~= data@);
    }
    let ghost times = win.spec_history();
    let last_t = pts[pts.len() - 1].0;
    let t1: u64 = if now - last_t > window_size {
        last_t + window_size + crate::EPSILON_TICKS
    } else {
        now
    };
    if t1 != last_t {
        proof {
            crate::window::lemma_count_le_len(times, t1, window_size);
        }
        let c = win.count(t1);
        pts.push((t1, c));
    }
    let last_t2 = pts[pts.len() - 1].0;
    if last_t2 != now {
        proof {
            crate::window::lemma_count_le_len(times, now, window_size);
        }
        let c = win.count(now);
        pts.push((now, c));
    }
    pts
}

impl Analytics {
    /// The per-mode throughput step series for one entity over a sliding
    /// window: each raw record of that entity up to `now` replayed through a
    /// fresh window of length `window_size`, plus a drop-off sample and a
    /// final sample at `now`.
    fn throughput(
        now: u64,
        obj: usize,
        window_size: u64,
        data: &Vec<(u64, TripMode, usize)>,
    ) -> (r: PerMode<Vec<(u64, usize)>>)
        requires
            forall|i: int, j: int| 0 <= i <= j < data@.len() ==> data@[i].0 <= data@[j].0,
        ensures
            forall|m: TripMode|
                (#[trigger] r.spec_get(m))@ == spec_thru_series(
                    spec_matching_times(data@, obj, m, now),
                    window_size,
                    now,
                ),
    {
        let r = PerMode {
            walk: mode_series(now, obj, window_size, TripMode::Walk, data),
            bike: mode_series(now, obj, window_size, TripMode::Bike, data),
            transit: mode_series(now, obj, window_size, TripMode::Transit, data),
            drive: mode_series(now, obj, window_size, TripMode::Drive, data),
        };
        proof {
            assert(forall|m: TripMode| (#[trigger] r.spec_get(m)) == match m {
                TripMode::Walk => r.walk,
                TripMode::Bike => r.bike,
                TripMode::Transit => r.transit,
                TripMode::Drive => r.drive,
            });
        }
        r
    }

    /// Throughput over time for one road, by mode.
    pub fn throughput_road(&self, now: u64, road: usize, window_size: u64) -> (r: PerMode<
        Vec<(u64, usize)>,
    >)
        requires
            self.wf(),
        ensures
            forall|m: TripMode|
                (#[trigger] r.spec_get(m))@ == spec_thru_series(
                    spec_matching_times(self.thruput_stats.raw_per_road@, road, m, now),
                    window_size,
                    now,
                ),
    {
        Self::throughput(now, road, window_size, &self.thruput_stats.raw_per_road)
    }

    /// Throughput over time for one intersection, by mode.
    pub fn throughput_intersection(
        &self,
        now: u64,
        intersection: usize,
        window_size: u64,
    ) -> (r: PerMode<Vec<(u64, usize)>>)
        requires
            self.wf(),
        ensures
            forall|m: TripMode|
                (#[trigger] r.spec_get(m))@ == spec_thru_series(
                    spec_matching_times(
                        self.thruput_stats.raw_per_intersection@,
                        intersection,
                        m,
                        now,
                    ),
                    window_size,
                    now,
                ),
    {
        Self::throughput(now, intersection, window_size, &self.thruput_stats.raw_per_intersection)
    }
}

/// The latest arrival of `car` on `route` at `stop` strictly before index
/// `i` of the bus-arrival log.
pub open spec fn spec_last_same_car(
    log: Seq<(u64, CarID, usize, usize)>,
    route: usize,
    car: CarID,
    stop: usize,
    i: int,
) -> Option<int>
    decreases i,
{
    if i <= 0 {
        None
    } else if log[i - 1].2 == route && log[i - 1].1 == car && log[i - 1].3 == stop {
        Some(i - 1)
    } else {
        spec_last_same_car(log, route, car, stop, i - 1)
    }
}

/// Per stop, the headway samples of route `route` up to `now`: for each
/// arrival at the stop, the gap since the same bus's previous arrival at
/// that same stop, with the arrival's time, in log order.
pub open spec fn spec_bus_gap_list_upto(
    log: Seq<(u64, CarID, usize, usize)>,
    now: u64,
    route: usize,
    stop: usize,
    n: int,
) -> Seq<(u64, u64)>
    decreases n,
{
    if n <= 0 {
        Seq::empty()
    } else {
        let prev = spec_bus_gap_list_upto(log, now, route, stop, n - 1);
        let r = log[n - 1];
        if r.0 <= now && r.2 == route && r.3 == stop {
            match spec_last_same_car(log, route, r.1, stop, n - 1) {
                Some(j) => prev.push((r.0, (r.0 - log[j].0) as u64)),
                None => prev,
            }
        } else {
            prev
        }
    }
}

/// A waiting record still counts at `now` if no bus of the route has called
/// at its stop since the passenger arrived (by `now`).
pub open spec fn spec_kept_waiting(
    wlog: Seq<(u64, usize, usize)>,
    alog: Seq<(u64, CarID, usize, usize)>,
    now: u64,
    route: usize,
    i: int,
) -> bool {
    &&& wlog[i].0 <= now
    &&& wlog[i].2 == route
    &&& forall|a: int|
        0 <= a < alog.len() ==> !((#[trigger] alog[a]).0 <= now && alog[a].2 == route && alog[a].3
            == wlog[i].1 && wlog[i].0 <= alog[a].0)
}

/// Per stop, how long the passengers still waiting at `now` have waited.
pub open spec fn spec_waiting_upto(
    wlog: Seq<(u64, usize, usize)>,
    alog: Seq<(u64, CarID, usize, usize)>,
    now: u64,
    route: usize,
    stop: usize,
    n: int,
) -> Multiset<u64>
    decreases n,
{
    if n <= 0 {
        Multiset::empty()
    } else {
        let prev = spec_waiting_upto(wlog, alog, now, route, stop, n - 1);
        if spec_kept_waiting(wlog, alog, now, route, n - 1) && wlog[n - 1].1 == stop {
            prev.insert((now - wlog[n - 1].0) as u64)
        } else {
            prev
        }
    }
}

impl Analytics {
    /// For each stop of the route, the arrival times and headways of its
    /// buses up to `now`: each arrival paired with the gap since the same
    /// bus's previous arrival at that same stop.
    pub fn bus_arrivals_over_time(&self, now: u64, r: usize) -> (out: IdMap<Vec<(u64, u64)>>)
        requires
            self.wf(),
        ensures
            out.wf(),
            forall|stop: usize|
                #![trigger vec_entry(out@, stop)]
                vec_entry(out@, stop) == spec_bus_gap_list_upto(
                    self.bus_arrivals@,
                    now,
                    r,
                    stop,
                    self.bus_arrivals@.len() as int,
                ),
    {
        let mut out: IdMap<Vec<(u64, u64)>> = IdMap::new();
        let mut i: usize = 0;
        while i < self.bus_arrivals.len()
            invariant
                i <= self.bus_arrivals@.len(),
                self.wf(),
                out.wf(),
                forall|stop: usize|
                    #![trigger vec_entry(out@, stop)]
                    vec_entry(out@, stop) == spec_bus_gap_list_upto(
                        self.bus_arrivals@,
                        now,
                        r,
                        stop,
                        i as int,
                    ),
            decreases self.bus_arrivals@.len() - i,
        {
            let rec = self.bus_arrivals[i];
            let ghost out0 = out@;
            if rec.0 <= now && rec.2 == r {
                let mut j: usize = i;
                let mut found = false;
                let mut prev_idx: usize = 0;
                while j > 0 && !found
                    invariant
                        j <= i,
                        i < self.bus_arrivals@.len(),
                        rec == self.bus_arrivals@[i as int],
                        !found ==> spec_last_same_car(
                            self.bus_arrivals@,
                            r,
                            rec.1,
                            rec.3,
                            i as int,
                        ) == spec_last_same_car(
                            self.bus_arrivals@,
                            r,
                            rec.1,
                            rec.3,
                            j as int,
                        ),
                        found ==> prev_idx < i && spec_last_same_car(
                            self.bus_arrivals@,
                            r,
                            rec.1,
                            rec.3,
                            i as int,
                        ) == Some(prev_idx as int),
                    decreases j,
                {
                    let cand = self.bus_arrivals[j - 1];
                    if cand.2 == r && cand.1 == rec.1 && cand.3 == rec.3 {
                        found = true;
                        prev_idx = j - 1;
                    }
                    j -= 1;
                }
                if found {
                    let prev_rec = self.bus_arrivals[prev_idx];
                    proof {
                        assert(prev_rec.0 <= rec.0);
                    }
                    let gap = rec.0 - prev_rec.0;
                    let mut list = match out.remove(rec.3) {
                        Some(l) => l,
                        None => Vec::new(),
                    };
                    proof {
                        assert(list@ == vec_entry(out0, rec.3));
                    }
                    list.push((rec.0, gap));
                    out.set(rec.3, list);
                    proof {
                        assert forall|stop: usize| #![trigger vec_entry(out@, stop)]
                            vec_entry(out@, stop) == spec_bus_gap_list_upto(
                                self.bus_arrivals@,
                                now,
                                r,
                                stop,
                                i + 1,
                            ) by {
                            if stop == rec.3 {
                                assert(vec_entry(out@, stop) == vec_entry(out0, stop).push(
                                    (rec.0, gap),
                                ));
                            } else {
                                assert(vec_entry(out@, stop) == vec_entry(out0, stop));
                            }
                        }
                    }
                } else {
                    proof {
                        assert(spec_last_same_car(self.bus_arrivals@, r, rec.1, rec.3, i as int)
                            is None);
                        assert(forall|stop: usize| #![trigger vec_entry(out@, stop)]
                            vec_entry(out@, stop) == spec_bus_gap_list_upto(
                                self.bus_arrivals@,
                                now,
                                r,
                                stop,
                                i + 1,
                            ));
                    }
                }
            } else {
                proof {
                    assert(forall|stop: usize| #![trigger vec_entry(out@, stop)]
                        vec_entry(out@, stop) == spec_bus_gap_list_upto(
                            self.bus_arrivals@,
                            now,
                            r,
                            stop,
                            i + 1,
                        ));
                }
            }
            i += 1;
        }
        out
    }

    /// For each stop of the route, the distribution of headways — gaps
    /// between consecutive arrivals of the same bus at that stop — up to
    /// `now`.
    pub fn bus_arrivals(&self, now: u64, r: usize) -> (out: IdMap<Histogram>)
        requires
            self.wf(),
        ensures
            out.wf(),
            forall|stop: usize|
                #![trigger hist_entry(out@, stop)]
                hist_entry(out@, stop) == spec_bus_gap_list_upto(
                    self.bus_arrivals@,
                    now,
                    r,
                    stop,
                    self.bus_arrivals@.len() as int,
                ).map_values(|p: (u64, u64)| p.1).to_multiset(),
    {
        let lists = self.bus_arrivals_over_time(now, r);
        let mut out: IdMap<Histogram> = IdMap::new();
        let mut k: usize = 0;
        while k < lists.len()
            invariant
                k <= lists.spec_pairs().len(),
                lists.wf(),
                out.wf(),
                forall|stop: usize|
                    #![trigger vec_entry(lists@, stop)]
                    vec_entry(lists@, stop) == spec_bus_gap_list_upto(
                        self.bus_arrivals@,
                        now,
                        r,
                        stop,
                        self.bus_arrivals@.len() as int,
                    ),
                forall|stop: usize|
                    #![trigger hist_entry(out@, stop)]
                    hist_entry(out@, stop) == if exists|k2: int|
                        0 <= k2 < k && lists.spec_pairs()[k2].0 == stop {
                        vec_entry(lists@, stop).map_values(|p: (u64, u64)| p.1).to_multiset()
                    } else {
                        Multiset::<u64>::empty()
                    },
            decreases lists.spec_pairs().len() - k,
        {
            let stop = lists.key_at(k);
            let list = lists.val_at(k);
            proof {
                crate::idmap::lemma_as_map_at(lists.spec_pairs(), k as int);
            }
            let mut h = Histogram::new();
            let mut j: usize = 0;
            while j < list.len()
                invariant
                    j <= list@.len(),
                    h@ == list@.take(j as int).map_values(|p: (u64, u64)| p.1).to_multiset(),
                decreases list@.len() - j,
            {
                h.add(list[j].1);
                proof {
                    assert(list@.take(j + 1).map_values(|p: (u64, u64)| p.1) =~= list@.take(
                        j as int,
                    ).map_values(|p: (u64, u64)| p.1).push(list@[j as int].1));
                }
                j += 1;
            }
            proof {
                assert(list@.take(list@.len() as int) =~= list@);
            }
            let ghost out0 = out@;
            out.set(stop, h);
            proof {
                assert(vec_entry(lists@, stop) == list@);
                assert forall|s2: usize| #![trigger hist_entry(out@, s2)]
                    hist_entry(out@, s2) == if exists|k2: int|
                        0 <= k2 < k + 1 && lists.spec_pairs()[k2].0 == s2 {
                        vec_entry(lists@, s2).map_values(|p: (u64, u64)| p.1).to_multiset()
                    } else {
                        Multiset::<u64>::empty()
                    } by {
                    if s2 == stop {
                        assert(lists.spec_pairs()[k as int].0 == s2);
                    } else {
                        assert(hist_entry(out@, s2) == hist_entry(out0, s2));
                        assert((exists|k2: int| 0 <= k2 < k + 1 && lists.spec_pairs()[k2].0 == s2)
                            == (exists|k2: int| 0 <= k2 < k && lists.spec_pairs()[k2].0 == s2));
                    }
                }
            }
            k += 1;
        }
        proof {
            assert forall|stop: usize| #![trigger hist_entry(out@, stop)]
                hist_entry(out@, stop) == spec_bus_gap_list_upto(
                    self.bus_arrivals@,
                    now,
                    r,
                    stop,
                    self.bus_arrivals@.len() as int,
                ).map_values(|p: (u64, u64)| p.1).to_multiset() by {
                crate::idmap::lemma_as_map_contains(lists.spec_pairs(), stop);
                if !(exists|k2: int|
                    0 <= k2 < lists.spec_pairs().len() && lists.spec_pairs()[k2].0 == stop) {
                    assert(vec_entry(lists@, stop) == Seq::<(u64, u64)>::empty());
                    assert(Seq::<(u64, u64)>::empty().map_values(|p: (u64, u64)| p.1)
                        =~= Seq::<u64>::empty());
                }
            }
        }
        out
    }

    /// For each stop of the route, the distribution of how long the
    /// passengers still waiting there at `now` have been waiting: a
    /// passenger stops waiting once a bus of the route calls at the stop.
    pub fn bus_passenger_delays(&self, now: u64, r: usize) -> (out: IdMap<Histogram>)
        requires
            self.wf(),
        ensures
            out.wf(),
            forall|stop: usize|
                #![trigger hist_entry(out@, stop)]
                hist_entry(out@, stop) == spec_waiting_upto(
                    self.bus_passengers_waiting@,
                    self.bus_arrivals@,
                    now,
                    r,
                    stop,
                    self.bus_passengers_waiting@.len() as int,
                ),
    {
        let mut out: IdMap<Histogram> = IdMap::new();
        let mut i: usize = 0;
        while i < self.bus_passengers_waiting.len()
            invariant
                i <= self.bus_passengers_waiting@.len(),
                self.wf(),
                out.wf(),
                forall|stop: usize|
                    #![trigger hist_entry(out@, stop)]
                    hist_entry(out@, stop) == spec_waiting_upto(
                        self.bus_passengers_waiting@,
                        self.bus_arrivals@,
                        now,
                        r,
                        stop,
                        i as int,
                    ),
            decreases self.bus_passengers_waiting@.len() - i,
        {
            let w = self.bus_passengers_waiting[i];
            if w.0 <= now && w.2 == r {
                let mut kept = true;
                let mut a: usize = 0;
                while a < self.bus_arrivals.len()
                    invariant
                        a <= self.bus_arrivals@.len(),
                        i < self.bus_passengers_waiting@.len(),
                        w == self.bus_passengers_waiting@[i as int],
                        kept == forall|a2: int|
                            0 <= a2 < a ==> !((#[trigger] self.bus_arrivals@[a2]).0 <= now
                                && self.bus_arrivals@[a2].2 == r && self.bus_arrivals@[a2].3 == w.1
                                && w.0 <= self.bus_arrivals@[a2].0),
                    decreases self.bus_arrivals@.len() - a,
                {
                    let arr = self.bus_arrivals[a];
                    if arr.0 <= now && arr.2 == r && arr.3 == w.1 && w.0 <= arr.0 {
                        kept = false;
                    }
                    a += 1;
                }
                let ghost out0 = out@;
                if kept {
                    let mut h = match out.remove(w.1) {
                        Some(h0) => h0,
                        None => Histogram::new(),
                    };
                    proof {
                        assert(h@ == hist_entry(out0, w.1));
                    }
                    h.add(now - w.0);
                    out.set(w.1, h);
                    proof {
                        assert forall|stop: usize| #![trigger hist_entry(out@, stop)]
                            hist_entry(out@, stop) == spec_waiting_upto(
                                self.bus_passengers_waiting@,
                                self.bus_arrivals@,
                                now,
                                r,
                                stop,
                                i + 1,
                            ) by {
                            if stop == w.1 {
                                assert(hist_entry(out@, stop) == hist_entry(out0, stop).insert(
                                    (now - w.0) as u64,
                                ));
                            } else {
                                assert(hist_entry(out@, stop) == hist_entry(out0, stop));
                            }
                        }
                    }
                } else {
                    proof {
                        assert(!spec_kept_waiting(
                            self.bus_passengers_waiting@,
                            self.bus_arrivals@,
                            now,
                            r,
                            i as int,
                        ));
                        assert(forall|stop: usize| #![trigger hist_entry(out@, stop)]
                            hist_entry(out@, stop) == spec_waiting_upto(
                                self.bus_passengers_waiting@,
                                self.bus_arrivals@,
                                now,
                                r,
                                stop,
                                i + 1,
                            ));
                    }
                }
            } else {
                proof {
                    assert(forall|stop: usize| #![trigger hist_entry(out@, stop)]
                        hist_entry(out@, stop) == spec_waiting_upto(
                            self.bus_passengers_waiting@,
                            self.bus_arrivals@,
                            now,
                            r,
                            stop,
                            i + 1,
                        ));
                }
            }
            i += 1;
        }
        out
    }
}

/// One phase of a trip's timeline, reconstructed on demand from the
/// trip-phase log: its start, its end (the next phase's start, once known),
/// the route it ran with the start distance along it, and its description.
pub struct TripPhase {
    pub start_time: u64,
    pub end_time: Option<u64>,
    pub path: Option<(u64, Path)>,
    pub description: TripPhaseDesc,
}

/// Whether a description is one of the two sentinels ingestion appends for
/// a finished or aborted trip.
pub open spec fn spec_is_sentinel(d: TripPhaseDesc) -> bool {
    d is Finished || d is Aborted
}

/// Whether some record before index `n` already carries the trip's
/// sentinel: reconstruction for that trip stops there.
pub open spec fn spec_trip_stopped(
    log: Seq<(u64, usize, Option<PathRequest>, TripPhaseDesc)>,
    trip: usize,
    n: int,
) -> bool {
    exists|i: int| 0 <= i < n && (#[trigger] log[i]).1 == trip && spec_is_sentinel(log[i].3)
}

/// The indexes of the records a walk of the trip-phase log for one trip
/// visits: those of the trip up to and including its first sentinel.
pub open spec fn spec_trip_records_upto(
    log: Seq<(u64, usize, Option<PathRequest>, TripPhaseDesc)>,
    trip: usize,
    n: int,
) -> Seq<int>
    decreases n,
{
    if n <= 0 {
        Seq::empty()
    } else {
        let prev = spec_trip_records_upto(log, trip, n - 1);
        if log[n - 1].1 == trip && !spec_trip_stopped(log, trip, n - 1) {
            prev.push(n - 1)
        } else {
            prev
        }
    }
}

/// Once a trip's walk has stopped, later records change nothing.
proof fn lemma_trip_records_stable(
    log: Seq<(u64, usize, Option<PathRequest>, TripPhaseDesc)>,
    trip: usize,
    i: int,
    n: int,
)
    requires
        0 <= i <= n,
        spec_trip_stopped(log, trip, i),
    ensures
        spec_trip_records_upto(log, trip, n) == spec_trip_records_upto(log, trip, i),
    decreases n,
{
    if n > i {
        lemma_trip_records_stable(log, trip, i, n - 1);
    }
}

/// What one reconstructed phase must hold, given the visited record indexes
/// `rs`: it starts at its record's time, ends when the next visited record
/// starts (still open if none), carries the record's description, and — when
/// the record names a route request — the request's start distance and the
/// map's route for it.
pub open spec fn spec_phase_matches(
    log: Seq<(u64, usize, Option<PathRequest>, TripPhaseDesc)>,
    map: MapModel,
    rs: Seq<int>,
    phases: Seq<TripPhase>,
    k: int,
) -> bool {
    let idx = rs[k];
    &&& phases[k].start_time == log[idx].0
    &&& phases[k].end_time == if k + 1 < rs.len() {
        Some(log[rs[k + 1]].0)
    } else {
        None::<u64>
    }
    &&& phases[k].description == log[idx].3
    &&& (phases[k].path is Some) == (log[idx].2 is Some)
    &&& (log[idx].2 is Some ==> {
        &&& phases[k].path->Some_0.0 == log[idx].2->Some_0.start.dist
        &&& Some(phases[k].path->Some_0.1@) == map.spec_pathfind(log[idx].2->Some_0)
    })
}

impl Analytics {
    /// Reconstruct one trip's timeline from the trip-phase log: each phase
    /// of the trip in order, closed by the next record's start time,
    /// stopping at the trip's finished or aborted sentinel. Every route
    /// request in the walked records must be one the map can answer, since
    /// it was the request actually routed.
    pub fn get_trip_phases(&self, trip: usize, map: &MapModel) -> (phases: Vec<TripPhase>)
        requires
            forall|i: int|
                0 <= i < self.trip_log@.len() && (#[trigger] self.trip_log@[i]).1 == trip
                    && !spec_trip_stopped(self.trip_log@, trip, i) && !spec_is_sentinel(
                    self.trip_log@[i].3,
                ) && self.trip_log@[i].2 is Some ==> map.spec_pathfind(
                    self.trip_log@[i].2->Some_0,
                ) is Some,
        ensures
            ({
                let rs = spec_trip_records_upto(self.trip_log@, trip, self.trip_log@.len() as int);
                let pc: int = if rs.len() > 0 && spec_is_sentinel(self.trip_log@[rs.last()].3) {
                    rs.len() - 1
                } else {
                    rs.len() as int
                };
                &&& phases@.len() == pc
                &&& forall|k: int|
                    0 <= k < pc ==> spec_phase_matches(self.trip_log@, *map, rs, phases@, k)
            }),
    {
        let ghost log = self.trip_log@;
        let mut phases: Vec<TripPhase> = Vec::new();
        let mut done = false;
        let mut i: usize = 0;
        while i < self.trip_log.len() && !done
            invariant
                i <= log.len(),
                log == self.trip_log@,
                forall|i2: int|
                    0 <= i2 < log.len() && (#[trigger] log[i2]).1 == trip && !spec_trip_stopped(
                        log,
                        trip,
                        i2,
                    ) && !spec_is_sentinel(log[i2].3) && log[i2].2 is Some ==> map.spec_pathfind(
                        log[i2].2->Some_0,
                    ) is Some,
                done == spec_trip_stopped(log, trip, i as int),
                ({
                    let rs = spec_trip_records_upto(log, trip, i as int);
                    let pc: int = if done {
                        rs.len() - 1
                    } else {
                        rs.len() as int
                    };
                    &&& phases@.len() == pc
                    &&& (done ==> rs.len() >= 1 && spec_is_sentinel(log[rs.last()].3))
                    &&& forall|k: int|
                        0 <= k < pc ==> spec_phase_matches(log, *map, rs, phases@, k)
                }),
            decreases log.len() - i,
        {
            let rec = &self.trip_log[i];
            let ghost rs0 = spec_trip_records_upto(log, trip, i as int);
            let ghost phases0 = phases@;
            if rec.1 == trip {
                if phases.len() > 0 {
                    let mut last = phases.pop().unwrap();
                    last.end_time = Some(rec.0);
                    phases.push(last);
                    proof {
                        assert(phases@ =~= phases0.update(
                            phases0.len() - 1,
                            phases@.last(),
                        ));
                    }
                }
                let sentinel = match &rec.3 {
                    TripPhaseDesc::Finished => true,
                    TripPhaseDesc::Aborted => true,
                    _ => false,
                };
                if sentinel {
                    done = true;
                } else {
                    let path = match rec.2 {
                        Some(req) => {
                            proof {
                                assert(log[i as int].2 is Some);
                            }
                            let p = map.pathfind(req);
                            Some((req.start.dist_along(), p.unwrap()))
                        },
                        None => None,
                    };
                    phases.push(
                        TripPhase {
                            start_time: rec.0,
                            end_time: None,
                            path,
                            description: rec.3.clone(),
                        },
                    );
                }
                proof {
                    assert(spec_trip_records_upto(log, trip, i + 1) =~= rs0.push(i as int));
                    if sentinel {
                        assert(spec_trip_stopped(log, trip, i + 1));
                    } else {
                        assert(!spec_trip_stopped(log, trip, i + 1));
                    }
                    let rs1 = rs0.push(i as int);
                    assert(rs1.last() == i as int);
                    assert forall|k: int|
                        0 <= k < (if sentinel {
                            rs1.len() - 1
                        } else {
                            rs1.len() as int
                        }) implies spec_phase_matches(log, *map, rs1, phases@, k) by {
                        if k < rs0.len() - 1 {
                            assert(rs1[k] == rs0[k]);
                            assert(rs1[k + 1] == rs0[k + 1]);
                            assert(phases@[k] == phases0[k]);
                            assert(spec_phase_matches(log, *map, rs0, phases0, k));
                        } else if k == rs0.len() - 1 {
                            assert(rs1[k] == rs0[k]);
                            assert(rs1[k + 1] == i as int);
                            assert(spec_phase_matches(log, *map, rs0, phases0, k));
                        } else {
                            assert(k == rs0.len());
                            assert(rs1[k] == i as int);
                        }
                    }
                }
            } else {
                proof {
                    assert(spec_trip_records_upto(log, trip, i + 1) =~= rs0);
                    assert(spec_trip_stopped(log, trip, i + 1) == spec_trip_stopped(
                        log,
                        trip,
                        i as int,
                    ));
                }
            }
            i += 1;
        }
        proof {
            if done {
                lemma_trip_records_stable(log, trip, i as int, log.len() as int);
            } else {
                assert(i == log.len());
                let rs = spec_trip_records_upto(log, trip, log.len() as int);
                if rs.len() > 0 && spec_is_sentinel(log[rs.last()].3) {
                    lemma_trip_records_in_range(log, trip, log.len() as int);
                    assert(spec_trip_stopped(log, trip, log.len() as int));
                }
            }
        }
        phases
    }
}

/// Every visited record index is in range, belongs to the trip, and sits
/// before the trip's first sentinel.
proof fn lemma_trip_records_in_range(
    log: Seq<(u64, usize, Option<PathRequest>, TripPhaseDesc)>,
    trip: usize,
    n: int,
)
    requires
        n <= log.len(),
    ensures
        ({
            let rs = spec_trip_records_upto(log, trip, n);
            forall|k: int|
                0 <= k < rs.len() ==> 0 <= #[trigger] rs[k] < n && log[rs[k]].1 == trip
        }),
    decreases n,
{
    if n > 0 {
        lemma_trip_records_in_range(log, trip, n - 1);
        let prev = spec_trip_records_upto(log, trip, n - 1);
        let rs = spec_trip_records_upto(log, trip, n);
        assert forall|k: int| 0 <= k < rs.len() implies 0 <= #[trigger] rs[k] < n && log[rs[k]].1
            == trip by {
            if k < prev.len() {
                assert(rs[k] == prev[k]);
            } else {
                assert(rs[k] == n - 1);
            }
        }
    }
}

/// The walk of the whole trip-phase log for one trip, as the parking
/// analysis needs it: whether the trip currently has an entry (an abort
/// drops it, later records recreate it), and its phases so far. Unlike the
/// single-trip reconstruction, a finish keeps collecting and records after
/// an abort start over.
pub open spec fn spec_analysis_state(
    log: Seq<(u64, usize, Option<PathRequest>, TripPhaseDesc)>,
    trip: usize,
    n: int,
) -> (bool, Seq<TripPhase>)
    decreases n,
{
    if n <= 0 {
        (false, Seq::empty())
    } else {
        let (present, phases) = spec_analysis_state(log, trip, n - 1);
        let r = log[n - 1];
        if r.1 != trip {
            (present, phases)
        } else {
            let closed = if phases.len() > 0 {
                phases.update(
                    phases.len() - 1,
                    TripPhase {
                        start_time: phases.last().start_time,
                        end_time: Some(r.0),
                        path: phases.last().path,
                        description: phases.last().description,
                    },
                )
            } else {
                phases
            };
            if r.3 is Finished {
                (true, closed)
            } else if r.3 is Aborted {
                (false, Seq::empty())
            } else {
                (
                    true,
                    closed.push(
                        TripPhase {
                            start_time: r.0,
                            end_time: None,
                            path: None,
                            description: r.3,
                        },
                    ),
                )
            }
        }
    }
}

/// Total time spent driving across a trip's closed phases.
pub open spec fn spec_phase_driving(phases: Seq<TripPhase>) -> int
    decreases phases.len(),
{
    if phases.len() == 0 {
        0
    } else {
        spec_phase_driving(phases.drop_last()) + if phases.last().end_time is Some
            && phases.last().description is Driving {
            phases.last().end_time->0 - phases.last().start_time
        } else {
            0
        }
    }
}

/// Total overhead time across a trip's closed phases: walking and looking
/// for parking. Waiting for a bus counts as neither.
pub open spec fn spec_phase_overhead(phases: Seq<TripPhase>) -> int
    decreases phases.len(),
{
    if phases.len() == 0 {
        0
    } else {
        spec_phase_overhead(phases.drop_last()) + if phases.last().end_time is Some && match phases
            .last().description {
            TripPhaseDesc::ParkingSomewhereElse => true,
            TripPhaseDesc::ParkingCurrentLane => true,
            TripPhaseDesc::Walking(_) => true,
            _ => false,
        } {
            phases.last().end_time->0 - phases.last().start_time
        } else {
            0
        }
    }
}

/// The overhead percentage of one trip's completed timeline, or `None` when
/// the trip has no entry, no phases, an open last phase, or lacks either a
/// driving or an overhead portion.
pub open spec fn spec_trip_pct(
    log: Seq<(u64, usize, Option<PathRequest>, TripPhaseDesc)>,
    trip: usize,
) -> Option<u64> {
    let (present, phases) = spec_analysis_state(log, trip, log.len() as int);
    if !present || phases.len() == 0 {
        None
    } else if phases.last().end_time is None {
        None
    } else {
        let d = spec_phase_driving(phases);
        let o = spec_phase_overhead(phases);
        if d == 0 || o == 0 {
            None
        } else {
            Some((o * 100 / (d + o)) as u64)
        }
    }
}

/// Whether record `i` is the first mention of its trip in the log.
pub open spec fn spec_first_occurrence(
    log: Seq<(u64, usize, Option<PathRequest>, TripPhaseDesc)>,
    i: int,
) -> bool {
    forall|j: int| 0 <= j < i ==> (#[trigger] log[j]).1 != log[i].1
}

/// The overhead percentages of all qualifying trips mentioned in the first
/// `n` records, one per distinct trip.
pub open spec fn spec_parking_pcts_upto(
    log: Seq<(u64, usize, Option<PathRequest>, TripPhaseDesc)>,
    n: int,
) -> Multiset<u64>
    decreases n,
{
    if n <= 0 {
        Multiset::empty()
    } else {
        let prev = spec_parking_pcts_upto(log, n - 1);
        if spec_first_occurrence(log, n - 1) {
            match spec_trip_pct(log, log[n - 1].1) {
                Some(p) => prev.insert(p),
                None => prev,
            }
        } else {
            prev
        }
    }
}

/// In a time-ordered log, every phase starts no later than any later
/// record's time, every phase but the last is closed, closed phases end no
/// earlier than they start, and no phase carries a route.
proof fn lemma_analysis_state_wf(
    log: Seq<(u64, usize, Option<PathRequest>, TripPhaseDesc)>,
    trip: usize,
    n: int,
)
    requires
        forall|i: int, j: int| 0 <= i <= j < log.len() ==> log[i].0 <= log[j].0,
        0 <= n <= log.len(),
    ensures
        ({
            let (present, phases) = spec_analysis_state(log, trip, n);
            &&& forall|k: int, m: int|
                0 <= k < phases.len() && n <= m < log.len() ==> (#[trigger] phases[k]).start_time
                    <= (#[trigger] log[m]).0
            &&& forall|k: int|
                0 <= k < phases.len() && (#[trigger] phases[k]).end_time is Some ==> phases[
                    k
                ].start_time <= phases[k].end_time->0
            &&& forall|k: int| 0 <= k < phases.len() - 1 ==> (#[trigger] phases[k]).end_time is Some
            &&& forall|k: int|
                0 <= k < phases.len() - 1 ==> (#[trigger] phases[k]).end_time->0 <= phases[
                    k + 1
                ].start_time
            &&& forall|k: int| 0 <= k < phases.len() ==> (#[trigger] phases[k]).path is None
            &&& forall|k: int, m: int|
                0 <= k < phases.len() && n <= m < log.len() && (#[trigger] phases[k]).end_time
                    is Some ==> phases[k].end_time->0 <= (#[trigger] log[m]).0
        }),
    decreases n,
{
    if n > 0 {
        lemma_analysis_state_wf(log, trip, n - 1);
        let (p0, ph0) = spec_analysis_state(log, trip, n - 1);
        let (p1, ph1) = spec_analysis_state(log, trip, n);
        assert forall|k: int, m: int|
            0 <= k < ph1.len() && n <= m < log.len() implies (#[trigger] ph1[k]).start_time
            <= (#[trigger] log[m]).0 by {
            assert(log[n - 1].0 <= log[m].0);
            if k < ph0.len() {
                assert(ph0[k].start_time <= log[n - 1].0 || ph1[k].start_time == log[n - 1].0
                    || ph1[k].start_time == ph0[k].start_time);
            }
        }
        assert forall|k: int, m: int|
            0 <= k < ph1.len() && n <= m < log.len() && (#[trigger] ph1[k]).end_time
                is Some implies ph1[k].end_time->0 <= (#[trigger] log[m]).0 by {
            assert(log[n - 1].0 <= log[m].0);
        }
    }
}

/// Across a completed, chain-ordered timeline, driving plus overhead time
/// never exceeds the span from the first start to the last end.
#[verifier::rlimit(60)]
proof fn lemma_phase_sums_bounded(phases: Seq<TripPhase>)
    requires
        phases.len() >= 1,
        forall|k: int| 0 <= k < phases.len() ==> (#[trigger] phases[k]).end_time is Some,
        forall|k: int|
            0 <= k < phases.len() ==> (#[trigger] phases[k]).start_time <= phases[k].end_time->0,
        forall|k: int|
            0 <= k < phases.len() - 1 ==> (#[trigger] phases[k]).end_time->0 <= phases[
                k + 1
            ].start_time,
    ensures
        0 <= spec_phase_driving(phases),
        0 <= spec_phase_overhead(phases),
        spec_phase_driving(phases) + spec_phase_overhead(phases) <= phases.last().end_time->0
            - phases[0].start_time,
    decreases phases.len(),
{
    assert(phases.last() == phases[phases.len() - 1]);
    assert(phases.last().start_time <= phases.last().end_time->0);
    if phases.len() == 1 {
        assert(phases.drop_last() =~= Seq::<TripPhase>::empty());
        assert(spec_phase_driving(Seq::<TripPhase>::empty()) == 0);
        assert(spec_phase_overhead(Seq::<TripPhase>::empty()) == 0);
    } else {
        let prev = phases.drop_last();
        assert(forall|k: int| 0 <= k < prev.len() ==> prev[k] == phases[k]);
        lemma_phase_sums_bounded(prev);
        assert(prev[0] == phases[0]);
        assert(prev.last() == phases[phases.len() - 2]);
        assert(prev.last().end_time->0 <= phases.last().start_time);
    }
}

impl Analytics {
    /// The walk of [`spec_analysis_state`] for one trip, over the whole log.
    fn analysis_phases(&self, trip: usize) -> (r: (bool, Vec<TripPhase>))
        ensures
            ({
                let (present, phases) = spec_analysis_state(
                    self.trip_log@,
                    trip,
                    self.trip_log@.len() as int,
                );
                r.0 == present && r.1@ == phases
            }),
    {
        let ghost log = self.trip_log@;
        let mut present = false;
        let mut phases: Vec<TripPhase> = Vec::new();
        let mut i: usize = 0;
        while i < self.trip_log.len()
            invariant
                i <= log.len(),
                log == self.trip_log@,
                (present, phases@) == spec_analysis_state(log, trip, i as int),
            decreases log.len() - i,
        {
            let rec = &self.trip_log[i];
            let ghost phases0 = phases@;
            if rec.1 == trip {
                if phases.len() > 0 {
                    let mut last = phases.pop().unwrap();
                    last.end_time = Some(rec.0);
                    phases.push(last);
                    proof {
                        assert(phases@ =~= phases0.update(phases0.len() - 1, phases@.last()));
                    }
                }
                match &rec.3 {
                    TripPhaseDesc::Finished => {
                        present = true;
                    },
                    TripPhaseDesc::Aborted => {
                        present = false;
                        phases = Vec::new();
                    },
                    _ => {
                        present = true;
                        phases.push(
                            TripPhase {
                                start_time: rec.0,
                                end_time: None,
                                path: None,
                                description: rec.3.clone(),
                            },
                        );
                    },
                }
            }
            i += 1;
        }
        (present, phases)
    }

    /// The overhead percentage of one trip's completed timeline, when the
    /// trip qualifies for the parking analysis.
    #[verifier::rlimit(100)]
    #[verifier::spinoff_prover]
    fn trip_pct(&self, trip: usize) -> (r: Option<u64>)
        requires
            self.wf(),
        ensures
            r == spec_trip_pct(self.trip_log@, trip),
    {
        let ghost log = self.trip_log@;
        let (present, phases) = self.analysis_phases(trip);
        proof {
            lemma_analysis_state_wf(log, trip, log.len() as int);
        }
        if !present || phases.len() == 0 {
            return None;
        }
        if phases[phases.len() - 1].end_time.is_none() {
            return None;
        }
        let mut driving: u128 = 0;
        let mut overhead: u128 = 0;
        let mut k: usize = 0;
        while k < phases.len()
            invariant
                k <= phases@.len(),
                phases@.len() >= 1,
                forall|k2: int|
                    0 <= k2 < phases@.len() ==> (#[trigger] phases@[k2]).end_time is Some,
                forall|k2: int|
                    0 <= k2 < phases@.len() ==> (#[trigger] phases@[k2]).start_time <= phases@[
                        k2
                    ].end_time->0,
                forall|k2: int|
                    0 <= k2 < phases@.len() - 1 ==> (#[trigger] phases@[k2]).end_time->0
                        <= phases@[k2 + 1].start_time,
                driving == spec_phase_driving(phases@.take(k as int)),
                overhead == spec_phase_overhead(phases@.take(k as int)),
                driving + overhead <= u64::MAX as u128,
            decreases phases@.len() - k,
        {
            let p = &phases[k];
            match p.end_time {
                Some(end) => {
                    let dt = (end - p.start_time) as u128;
                    match &p.description {
                        TripPhaseDesc::Driving(_) => {
                            driving = driving + dt;
                        },
                        TripPhaseDesc::ParkingSomewhereElse => {
                            overhead = overhead + dt;
                        },
                        TripPhaseDesc::ParkingCurrentLane => {
                            overhead = overhead + dt;
                        },
                        TripPhaseDesc::Walking(_) => {
                            overhead = overhead + dt;
                        },
                        _ => {},
                    }
                },
                None => {},
            }
            proof {
                assert(phases@.take(k + 1).drop_last() =~= phases@.take(k as int));
                assert(phases@.take(k + 1).last() == phases@[k as int]);
                let pre = phases@.take(k + 1);
                assert(forall|k2: int| 0 <= k2 < pre.len() ==> pre[k2] == phases@[k2]);
                lemma_phase_sums_bounded(pre);
            }
            k += 1;
        }
        proof {
            assert(phases@.take(phases@.len() as int) =~= phases@);
        }
        if driving != 0 && overhead != 0 {
            let total = driving + overhead;
            proof {
                vstd::arithmetic::div_mod::lemma_div_is_ordered(
                    overhead * 100,
                    total * 100,
                    total as int,
                );
                vstd::arithmetic::div_mod::lemma_div_by_multiple(100, total as int);
                assert(total * 100 == 100 * total) by (nonlinear_arith);
            }
            let pct = (overhead * 100) / total;
            Some(pct as u64)
        } else {
            None
        }
    }

    /// Of all completed trips with both a driving and an overhead portion,
    /// the distribution of the percentage of total trip time spent as
    /// overhead — walking to or from the parked car and looking for
    /// parking. Zero percent would mean the whole trip was the drive.
    pub fn analyze_parking_phases(&self) -> (distrib: Histogram)
        requires
            self.wf(),
        ensures
            distrib@ == spec_parking_pcts_upto(self.trip_log@, self.trip_log@.len() as int),
    {
        let ghost log = self.trip_log@;
        let mut distrib = Histogram::new();
        let mut i: usize = 0;
        while i < self.trip_log.len()
            invariant
                i <= log.len(),
                log == self.trip_log@,
                self.wf(),
                distrib@ == spec_parking_pcts_upto(log, i as int),
            decreases log.len() - i,
        {
            let trip = self.trip_log[i].1;
            let mut first = true;
            let mut j: usize = 0;
            while j < i
                invariant
                    j <= i,
                    i < log.len(),
                    log == self.trip_log@,
                    trip == log[i as int].1,
                    first == forall|j2: int| 0 <= j2 < j ==> (#[trigger] log[j2]).1 != trip,
                decreases i - j,
            {
                if self.trip_log[j].1 == trip {
                    first = false;
                }
                j += 1;
            }
            if first {
                match self.trip_pct(trip) {
                    Some(p) => {
                        distrib.add(p);
                    },
                    None => {},
                }
            }
            i += 1;
        }
        distrib
    }
}

/// The model of the exec bucket rows: each boundary with the multiset of
/// delays its histogram holds.
pub open spec fn bucket_model(results: Seq<(u64, Histogram)>) -> Seq<(u64, Multiset<u64>)> {
    Seq::new(results.len(), |k: int| (results[k].0, results[k].1@))
}

/// Empty buckets opened until the boundary reaches time `t`: each new
/// boundary sits `bucket` past the previous one, capped at `now`.
pub open spec fn spec_open_buckets(
    res: Seq<(u64, Multiset<u64>)>,
    maxb: u64,
    t: u64,
    now: u64,
    bucket: u64,
) -> (Seq<(u64, Multiset<u64>)>, u64)
    decreases now - maxb,
{
    if t <= maxb || maxb >= now {
        (res, maxb)
    } else {
        let nb: u64 = if bucket == 0 || maxb + bucket > now {
            now
        } else {
            (maxb + bucket) as u64
        };
        spec_open_buckets(res.push((nb, Multiset::<u64>::empty())), nb, t, now, bucket)
    }
}

/// The bucketized delay report after the first `n` delay records: bucket
/// boundaries every `bucket` ticks from the start of the day, capped at
/// `now` and opened as far as records demand, so that every record with
/// `t <= now` accumulates into the bucket containing its time.
pub open spec fn spec_buckets_upto(
    list: Seq<(u64, u64)>,
    now: u64,
    bucket: u64,
    n: int,
) -> (Seq<(u64, Multiset<u64>)>, u64)
    decreases n,
{
    if n <= 0 {
        let m0: u64 = if crate::START_OF_DAY + bucket <= now {
            (crate::START_OF_DAY + bucket) as u64
        } else {
            now
        };
        (seq![(crate::START_OF_DAY, Multiset::<u64>::empty()), (m0, Multiset::<u64>::empty())], m0)
    } else {
        let (res, maxb) = spec_buckets_upto(list, now, bucket, n - 1);
        let r = list[n - 1];
        if r.0 > now {
            (res, maxb)
        } else {
            let (res2, nb) = spec_open_buckets(res, maxb, r.0, now, bucket);
            (res2.update(res2.len() - 1, (res2.last().0, res2.last().1.insert(r.1))), nb)
        }
    }
}

impl Analytics {
    /// One intersection's delays up to `now`, partitioned into time buckets
    /// of width `bucket` from the start of the day (the last one capped at
    /// `now`), each holding the distribution of the delays measured in it.
    pub fn intersection_delays_bucketized(
        &self,
        now: u64,
        i: usize,
        bucket: u64,
    ) -> (results: Vec<(u64, Histogram)>)
        requires
            self.wf(),
            bucket >= 1,
        ensures
            bucket_model(results@) == spec_buckets_upto(
                spec_delay_log(*self, i),
                now,
                bucket,
                spec_delay_log(*self, i).len() as int,
            ).0,
    {
        let mut max_this_bucket: u64 = if bucket <= now {
            bucket
        } else {
            now
        };
        let mut results: Vec<(u64, Histogram)> = Vec::new();
        results.push((crate::START_OF_DAY, Histogram::new()));
        results.push((max_this_bucket, Histogram::new()));
        proof {
            assert(bucket_model(results@) =~= spec_buckets_upto(
                spec_delay_log(*self, i),
                now,
                bucket,
                0,
            ).0);
        }
        match self.intersection_delays.get(i) {
            Some(list) => {
                let ghost l = list@;
                let mut k: usize = 0;
                while k < list.len()
                    invariant
                        k <= l.len(),
                        l == spec_delay_log(*self, i),
                        list@ == l,
                        bucket >= 1,
                        max_this_bucket <= now,
                        results@.len() >= 2,
                        ({
                            let (spec_res, maxb) = spec_buckets_upto(l, now, bucket, k as int);
                            &&& maxb == max_this_bucket
                            &&& bucket_model(results@) == spec_res
                        }),
                    decreases l.len() - k,
                {
                    let r = list[k];
                    if r.0 <= now {
                        let ghost res_in = bucket_model(results@);
                        let ghost maxb_in = max_this_bucket;
                        // Open empty buckets until the record's time is
                        // covered by the current boundary.
                        while r.0 > max_this_bucket
                            invariant
                                bucket >= 1,
                                r.0 <= now,
                                max_this_bucket <= now,
                                results@.len() >= 2,
                                spec_open_buckets(
                                    bucket_model(results@),
                                    max_this_bucket,
                                    r.0,
                                    now,
                                    bucket,
                                ) == spec_open_buckets(res_in, maxb_in, r.0, now, bucket),
                            decreases now - max_this_bucket,
                        {
                            let ghost m0 = bucket_model(results@);
                            let nb: u64 = if now - max_this_bucket >= bucket {
                                max_this_bucket + bucket
                            } else {
                                now
                            };
                            results.push((nb, Histogram::new()));
                            proof {
                                assert(bucket_model(results@) =~= m0.push(
                                    (nb, Multiset::<u64>::empty()),
                                ));
                            }
                            max_this_bucket = nb;
                        }
                        let ghost res2 = bucket_model(results@);
                        let (t, mut h) = results.pop().unwrap();
                        h.add(r.1);
                        results.push((t, h));
                        proof {
                            assert(bucket_model(results@) =~= res2.update(
                                res2.len() - 1,
                                (res2.last().0, res2.last().1.insert(r.1)),
                            ));
                        }
                    }
                    k += 1;
                }
                proof {
                    assert(l.take(l.len() as int) =~= l);
                }
            },
            None => {
                proof {
                    assert(spec_delay_log(*self, i) =~= Seq::<(u64, u64)>::empty());
                }
            },
        }
        results
    }
}

/// Raise a cumulative counter by one, sticking at the top of the range.
fn inc_counter(m: &mut IdMap<u64>, k: usize)
    requires
        old(m).wf(),
    ensures
        final(m).wf(),
        final(m)@ == old(m)@.insert(k, spec_inc_sat(spec_cnt(old(m)@, k))),
{
    let cur: u64 = match m.get(k) {
        Some(v) => *v,
        None => 0,
    };
    let nv: u64 = if cur < u64::MAX {
        cur + 1
    } else {
        cur
    };
    m.set(k, nv);
}

/// Raise a demand counter by one.
fn inc_demand(m: &mut IdMap<i64>, k: usize)
    requires
        old(m).wf(),
    ensures
        final(m).wf(),
        final(m)@ == old(m)@.insert(k, spec_inc_sat_i64(spec_dmd(old(m)@, k))),
{
    let cur: i64 = match m.get(k) {
        Some(v) => *v,
        None => 0,
    };
    let nv: i64 = if cur < i64::MAX {
        cur + 1
    } else {
        cur
    };
    m.set(k, nv);
}

/// Lower a demand counter by one; a movement completed is demanded no more.
fn dec_demand(m: &mut IdMap<i64>, k: usize)
    requires
        old(m).wf(),
    ensures
        final(m).wf(),
        final(m)@ == old(m)@.insert(k, spec_dec_sat_i64(spec_dmd(old(m)@, k))),
{
    let cur: i64 = match m.get(k) {
        Some(v) => *v,
        None => 0,
    };
    let nv: i64 = if cur > i64::MIN {
        cur - 1
    } else {
        cur
    };
    m.set(k, nv);
}

} // verus!
