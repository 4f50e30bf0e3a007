use sim_core::analytics::{Analytics, Event, TripPhaseDesc};
use sim_core::map_model::{LaneInfo, MapModel, TurnInfo};
use sim_core::types::{AgentID, CarID, TripMode, Traversable, VehicleType};

fn test_map() -> MapModel {
    MapModel {
        lanes: vec![
            LaneInfo { length: 50, parent: 7, closest_parking: None },
            LaneInfo { length: 80, parent: 8, closest_parking: None },
        ],
        turns: vec![
            TurnInfo { length: 5, parent: 2, turn_group: Some(5) },
            TurnInfo { length: 6, parent: 2, turn_group: None },
        ],
        routes: Vec::new(),
    }
}

fn drive_car() -> AgentID {
    AgentID::Car(CarID { id: 1, vehicle_type: VehicleType::Car })
}

fn bus(id: usize) -> CarID {
    CarID { id, vehicle_type: VehicleType::Bus }
}

// Trip-phase reconstruction: phases close at the next record's start and
// stop at the finished sentinel.
#[test]
fn trip_phases_reconstruct_in_order() {
    let map = test_map();
    let mut a = Analytics::new();
    a.event(
        Event::TripPhaseStarting(1, None, TripPhaseDesc::Other(String::from("A"))),
        10,
        &map,
    );
    a.event(
        Event::TripPhaseStarting(1, None, TripPhaseDesc::Other(String::from("B"))),
        25,
        &map,
    );
    a.event(Event::TripFinished(1, TripMode::Drive, 30), 40, &map);
    let phases = a.get_trip_phases(1, &map);
    assert_eq!(phases.len(), 2);
    assert_eq!(phases[0].start_time, 10);
    assert_eq!(phases[0].end_time, Some(25));
    assert_eq!(phases[0].description, TripPhaseDesc::Other(String::from("A")));
    assert_eq!(phases[1].start_time, 25);
    assert_eq!(phases[1].end_time, Some(40));
    assert_eq!(phases[1].description, TripPhaseDesc::Other(String::from("B")));
}

// A finished Drive trip and an aborted trip: one sample in the Drive
// bucket, one abort counted.
#[test]
fn finished_and_aborted_trips_are_counted() {
    let map = test_map();
    let mut a = Analytics::new();
    a.event(Event::TripFinished(1, TripMode::Drive, 300), 100, &map);
    a.event(Event::TripAborted(2), 150, &map);
    let (all, num_aborted, per_mode) = a.all_finished_trips(200);
    assert_eq!(all.count(), 1);
    assert_eq!(num_aborted, 1);
    assert_eq!(per_mode.get(TripMode::Drive).count(), 1);
    assert_eq!(per_mode.get(TripMode::Walk).count(), 0);
    let drive = a.finished_trips(200, TripMode::Drive);
    assert_eq!(drive.count(), 1);
    assert_eq!(drive.samples(), &vec![300]);
    // Queried before the finish, nothing is counted yet.
    assert_eq!(a.finished_trips(99, TripMode::Drive).count(), 0);
}

// Throughput over a sliding window reproduces a by-hand replay of each
// matching event through a fresh window of the same length.
#[test]
fn throughput_matches_window_replay() {
    let map = test_map();
    let mut a = Analytics::new();
    for t in [5u64, 12, 14, 30] {
        a.event(Event::AgentEntersTraversable(drive_car(), Traversable::Lane(0)), t, &map);
    }
    // A record for another road is ignored by road 7's query.
    a.event(Event::AgentEntersTraversable(drive_car(), Traversable::Lane(1)), 31, &map);
    let series = a.throughput_road(40, 7, 10);
    assert_eq!(
        series.get(TripMode::Drive),
        &vec![(0, 0), (5, 1), (12, 2), (14, 3), (30, 1), (40, 1)]
    );
    // No walking events: just the start sample, the drop-off one epsilon
    // past the window, and the final sample at `now`.
    assert_eq!(series.get(TripMode::Walk), &vec![(0, 0), (11, 0), (40, 0)]);
    assert_eq!(*a.thruput_stats.count_per_road.get(7).unwrap(), 4);
}

// Completing a movement lowers its turn group's demand; re-routing over it
// raises it. Decrements can outrun increments, so the counter goes
// negative in transients.
#[test]
fn demand_is_signed_and_transiently_negative() {
    let map = test_map();
    let mut a = Analytics::new();
    a.event(Event::AgentEntersTraversable(drive_car(), Traversable::Turn(0)), 10, &map);
    a.event(Event::AgentEntersTraversable(drive_car(), Traversable::Turn(0)), 11, &map);
    assert_eq!(*a.thruput_stats.demand.get(5).unwrap(), -2);
    a.event(
        Event::PathAmended(sim_core::map_model::Path {
            steps: vec![Traversable::Lane(0), Traversable::Turn(0), Traversable::Turn(1)],
        }),
        12,
        &map,
    );
    assert_eq!(*a.thruput_stats.demand.get(5).unwrap(), -1);
    // Turn 1 maps to no turn group and records nothing.
    assert!(a.thruput_stats.demand.get(99).is_none());
    assert_eq!(*a.thruput_stats.count_per_intersection.get(2).unwrap(), 2);
}

// Bus headways: the gap between consecutive arrivals of the same bus at
// the same stop; a bus's hop from one stop to the next is travel time,
// not a headway, and contributes nothing.
#[test]
fn bus_arrival_headways_group_by_bus_and_stop() {
    let map = test_map();
    let mut a = Analytics::new();
    a.event(Event::BusArrivedAtStop(bus(1), 1, 3), 10, &map);
    a.event(Event::BusArrivedAtStop(bus(2), 1, 4), 15, &map);
    a.event(Event::BusArrivedAtStop(bus(1), 1, 4), 20, &map);
    a.event(Event::BusArrivedAtStop(bus(1), 1, 3), 35, &map);
    a.event(Event::BusArrivedAtStop(bus(2), 1, 4), 40, &map);
    // An arrival on another route never mixes in.
    a.event(Event::BusArrivedAtStop(bus(1), 9, 3), 41, &map);
    let over_time = a.bus_arrivals_over_time(100, 1);
    // Bus 1 called at stop 3 at t=10 and t=35; its t=20 call at stop 4 is
    // its only one there and pairs with nothing.
    assert_eq!(over_time.get(3).unwrap(), &vec![(35, 25)]);
    // Bus 2 called at stop 4 at t=15 and t=40.
    assert_eq!(over_time.get(4).unwrap(), &vec![(40, 25)]);
    let hists = a.bus_arrivals(100, 1);
    assert_eq!(hists.get(3).unwrap().samples(), &vec![25]);
    assert_eq!(hists.get(4).unwrap().samples(), &vec![25]);
    assert!(hists.get(7).is_none());
}

// A passenger waits until a bus of the route calls at the stop; the
// distribution holds how long the still-waiting have waited.
#[test]
fn waiting_passengers_pruned_by_arrivals() {
    let map = test_map();
    let mut a = Analytics::new();
    a.event(Event::PedReachedBusStop(1, 3, 1), 5, &map);
    a.event(Event::BusArrivedAtStop(bus(1), 1, 3), 10, &map);
    a.event(Event::PedReachedBusStop(2, 3, 1), 12, &map);
    a.event(Event::PedReachedBusStop(3, 9, 1), 7, &map);
    let delays = a.bus_passenger_delays(20, 1);
    // The passenger from t=5 boarded at t=10; the one from t=12 still waits.
    assert_eq!(delays.get(3).unwrap().samples(), &vec![8]);
    // No bus ever called at stop 9.
    assert_eq!(delays.get(9).unwrap().samples(), &vec![13]);
}

// Trip duration deltas against a baseline: positive means the baseline
// was slower; trips finished in only one world are skipped.
#[test]
fn trip_deltas_compare_runs() {
    let map = test_map();
    let mut current = Analytics::new();
    current.event(Event::TripFinished(1, TripMode::Drive, 10), 50, &map);
    current.event(Event::TripFinished(2, TripMode::Walk, 30), 60, &map);
    let mut baseline = Analytics::new();
    baseline.event(Event::TripFinished(1, TripMode::Drive, 25), 55, &map);
    baseline.event(Event::TripFinished(3, TripMode::Bike, 40), 70, &map);
    let deltas = current.finished_trip_deltas(100, &baseline);
    assert_eq!(deltas, vec![15]);
}

// A quiet stretch still gets its empty buckets: a record after a gap
// wider than a bucket lands in the bucket containing its time, with the
// skipped buckets present and empty.
#[test]
fn sparse_delays_open_intermediate_buckets() {
    let map = test_map();
    let mut a = Analytics::new();
    a.event(Event::IntersectionDelayMeasured(2, 2), 5, &map);
    a.event(Event::IntersectionDelayMeasured(2, 9), 35, &map);
    let buckets = a.intersection_delays_bucketized(100, 2, 10);
    let shape: Vec<(u64, usize)> = buckets.iter().map(|(t, h)| (*t, h.count())).collect();
    assert_eq!(shape, vec![(0, 0), (10, 1), (20, 0), (30, 0), (40, 1)]);
    assert_eq!(buckets[4].1.samples(), &vec![9]);
}

// Intersection delays between two times, and bucketized from the start of
// the day.
#[test]
fn intersection_delays_range_and_buckets() {
    let map = test_map();
    let mut a = Analytics::new();
    a.event(Event::IntersectionDelayMeasured(2, 2), 5, &map);
    a.event(Event::IntersectionDelayMeasured(2, 7), 15, &map);
    a.event(Event::IntersectionDelayMeasured(2, 9), 27, &map);
    let mid = a.intersection_delays(2, 10, 30);
    assert_eq!(mid.samples(), &vec![7, 9]);
    assert_eq!(a.intersection_delays(9, 0, 100).count(), 0);
    let buckets = a.intersection_delays_bucketized(30, 2, 10);
    let shape: Vec<(u64, usize)> = buckets.iter().map(|(t, h)| (*t, h.count())).collect();
    assert_eq!(shape, vec![(0, 0), (10, 1), (20, 1), (30, 1)]);
}

// The parking-overhead analysis: a trip that walks 10 ticks and drives 30
// spends a quarter of its time as overhead.
#[test]
fn parking_overhead_percentage() {
    let map = test_map();
    let mut a = Analytics::new();
    a.event(Event::TripPhaseStarting(1, None, TripPhaseDesc::Walking(9)), 0, &map);
    a.event(
        Event::TripPhaseStarting(
            1,
            None,
            TripPhaseDesc::Driving(CarID { id: 4, vehicle_type: VehicleType::Car }),
        ),
        10,
        &map,
    );
    a.event(Event::TripFinished(1, TripMode::Drive, 40), 40, &map);
    // A drive-only trip has no overhead portion and is left out.
    a.event(
        Event::TripPhaseStarting(
            2,
            None,
            TripPhaseDesc::Driving(CarID { id: 5, vehicle_type: VehicleType::Car }),
        ),
        50,
        &map,
    );
    a.event(Event::TripFinished(2, TripMode::Drive, 10), 60, &map);
    let distrib = a.analyze_parking_phases();
    assert_eq!(distrib.samples(), &vec![25]);
}

// An aborted trip leaves the analysis entirely.
#[test]
fn aborted_trips_leave_parking_analysis() {
    let map = test_map();
    let mut a = Analytics::new();
    a.event(Event::TripPhaseStarting(1, None, TripPhaseDesc::Walking(9)), 0, &map);
    a.event(
        Event::TripPhaseStarting(
            1,
            None,
            TripPhaseDesc::Driving(CarID { id: 4, vehicle_type: VehicleType::Car }),
        ),
        10,
        &map,
    );
    a.event(Event::TripAborted(1), 40, &map);
    assert_eq!(a.analyze_parking_phases().count(), 0);
}

// Scripted expectations: the front of the queue pops only on an exact
// match.
#[test]
fn test_expectations_match_exactly() {
    let map = test_map();
    let mut a = Analytics::new();
    a.test_expectations.push_back(Event::TripAborted(1));
    a.event(Event::TripAborted(2), 5, &map);
    assert_eq!(a.test_expectations.len(), 1);
    a.event(Event::TripAborted(1), 6, &map);
    assert_eq!(a.test_expectations.len(), 0);
}

// A restored, passive instance records nothing.
#[test]
fn passive_instance_ignores_events() {
    let map = test_map();
    let mut a = Analytics::default();
    a.event(Event::TripFinished(1, TripMode::Drive, 10), 5, &map);
    assert_eq!(a.finished_trips.len(), 0);
    assert_eq!(a.trip_log.len(), 0);
}

// Empty logs yield empty reports, never errors.
#[test]
fn empty_logs_yield_empty_reports() {
    let map = test_map();
    let a = Analytics::new();
    assert_eq!(a.finished_trips(100, TripMode::Drive).count(), 0);
    let (all, aborted, _) = a.all_finished_trips(100);
    assert_eq!(all.count(), 0);
    assert_eq!(aborted, 0);
    assert!(a.bus_arrivals(100, 1).len() == 0);
    assert!(a.bus_passenger_delays(100, 1).len() == 0);
    assert_eq!(a.finished_trip_deltas(100, &Analytics::new()), Vec::<i128>::new());
    assert_eq!(a.get_trip_phases(1, &map).len(), 0);
    assert_eq!(a.analyze_parking_phases().count(), 0);
    let buckets = a.intersection_delays_bucketized(30, 2, 10);
    assert_eq!(buckets.len(), 2);
    assert_eq!(buckets[0].0, 0);
    assert_eq!(buckets[1].0, 10);
}

// A trip finished twice keeps the later record's duration, as a map keyed
// by trip would.
#[test]
fn repeated_finish_keeps_last_duration() {
    let map = test_map();
    let mut current = Analytics::new();
    current.event(Event::TripFinished(1, TripMode::Drive, 10), 50, &map);
    current.event(Event::TripFinished(1, TripMode::Drive, 12), 60, &map);
    let mut baseline = Analytics::new();
    baseline.event(Event::TripFinished(1, TripMode::Drive, 20), 55, &map);
    assert_eq!(current.finished_trip_deltas(100, &baseline), vec![8]);
}
