use sim_core::map_model::{LaneInfo, MapModel, TurnInfo};
use sim_core::parking::{ParkingLane, ParkingSimState};
use sim_core::router::{ActionAtEnd, Router};
use sim_core::types::{CarID, Traversable, Vehicle, VehicleType};

// A map with three driving lanes; lane 0 is the final driving lane with a
// parking lane (lane 3) reachable from it, and one turn between lanes.
fn test_map() -> MapModel {
    MapModel {
        lanes: vec![
            LaneInfo { length: 50, parent: 0, closest_parking: Some(3) },
            LaneInfo { length: 80, parent: 1, closest_parking: None },
            LaneInfo { length: 60, parent: 2, closest_parking: None },
            LaneInfo { length: 40, parent: 0, closest_parking: None },
        ],
        turns: vec![TurnInfo { length: 5, parent: 0, turn_group: Some(0) }],
        routes: Vec::new(),
    }
}

// Parking lane 3 with two spots; spot 0 projects to distance 30 along the
// driving lane, spot 1 to distance 35.
fn parking_with(free0: bool, free1: bool) -> ParkingSimState {
    ParkingSimState {
        lanes: vec![
            None,
            None,
            None,
            Some(ParkingLane { free: vec![free0, free1], driving_dist: vec![30, 35] }),
        ],
    }
}

fn car() -> Vehicle {
    Vehicle { id: CarID { id: 1, vehicle_type: VehicleType::Car } }
}

#[test]
fn stop_suddenly_holds_its_distance() {
    let map = test_map();
    let r = Router::stop_suddenly(vec![Traversable::Lane(1), Traversable::Lane(0)], 40, &map);
    assert_eq!(r.head(), Traversable::Lane(1));
    assert_eq!(r.next(), Traversable::Lane(0));
    assert!(!r.last_step());
    assert!(r.validate_start_dist(0));
}

#[test]
fn validate_start_dist_rejects_degenerate_single_segment() {
    let map = test_map();
    let r = Router::stop_suddenly(vec![Traversable::Lane(0)], 40, &map);
    assert!(r.validate_start_dist(10));
    assert!(!r.validate_start_dist(40));
    assert!(!r.validate_start_dist(45));
}

// A single-segment route with a stop at 40: after one advance the popped
// segment comes back, and resolving at the stop distance vanishes the car.
#[test]
fn stop_suddenly_vanishes_at_stop_point() {
    let map = test_map();
    let parking = parking_with(true, true);
    let vehicle = car();
    let mut r = Router::stop_suddenly(vec![Traversable::Lane(0)], 40, &map);
    let prev = r.advance(&vehicle, &parking, &map);
    assert_eq!(prev, Traversable::Lane(0));
    assert!(!r.last_step());
    assert_eq!(r.maybe_handle_end(30, &vehicle, &parking, &map), None);
    assert_eq!(r.maybe_handle_end(40, &vehicle, &parking, &map), Some(ActionAtEnd::Vanish));
}

// Advancing len(path)-1 times reaches the final segment; the final advance
// eagerly resolves a parking spot so queueing logic can react early.
#[test]
fn advance_to_last_step_resolves_parking_early() {
    let map = test_map();
    let parking = parking_with(true, true);
    let vehicle = car();
    let mut r = Router::park_near(
        vec![Traversable::Lane(1), Traversable::Turn(0), Traversable::Lane(0)],
        7,
    );
    assert_eq!(r.advance(&vehicle, &parking, &map), Traversable::Lane(1));
    assert!(!r.last_step());
    assert_eq!(r.advance(&vehicle, &parking, &map), Traversable::Turn(0));
    assert!(r.last_step());
    // The eager resolution cached spot 0, which lines up at distance 30.
    assert_eq!(r.get_end_dist(), 30);
}

// While the cached spot stays free, repeated terminal-action checks reuse
// it unchanged.
#[test]
fn cached_spot_reused_while_free() {
    let map = test_map();
    let parking = parking_with(true, true);
    let vehicle = car();
    let mut r = Router::park_near(vec![Traversable::Lane(0)], 7);
    assert_eq!(r.maybe_handle_end(0, &vehicle, &parking, &map), None);
    assert_eq!(r.get_end_dist(), 30);
    assert_eq!(r.maybe_handle_end(10, &vehicle, &parking, &map), None);
    assert_eq!(r.maybe_handle_end(20, &vehicle, &parking, &map), None);
    assert_eq!(r.get_end_dist(), 30);
    let act = r.maybe_handle_end(30, &vehicle, &parking, &map);
    match act {
        Some(ActionAtEnd::StartParking(spot)) => {
            assert_eq!(spot.lane, 3);
            assert_eq!(spot.idx, 0);
        },
        other => panic!("expected start-parking, got {:?}", other),
    }
}

// If the cached spot is taken before arrival, the next check re-resolves
// against live occupancy instead of reusing the stale spot.
#[test]
fn stale_spot_is_reresolved() {
    let map = test_map();
    let vehicle = car();
    let mut r = Router::park_near(vec![Traversable::Lane(0)], 7);
    let before = parking_with(true, true);
    assert_eq!(r.maybe_handle_end(0, &vehicle, &before, &map), None);
    assert_eq!(r.get_end_dist(), 30);
    // Another vehicle takes spot 0; only spot 1 (distance 35) is left.
    let after = parking_with(false, true);
    assert_eq!(r.maybe_handle_end(30, &vehicle, &after, &map), None);
    assert_eq!(r.get_end_dist(), 35);
    let act = r.maybe_handle_end(35, &vehicle, &after, &map);
    match act {
        Some(ActionAtEnd::StartParking(spot)) => {
            assert_eq!(spot.idx, 1);
        },
        other => panic!("expected start-parking, got {:?}", other),
    }
}

// A vehicle that cannot resolve parking vanishes: no reachable parking
// lane, or no free spot on it.
#[test]
fn parking_failure_vanishes_vehicle() {
    let map = test_map();
    let vehicle = car();
    // Lane 1 has no reachable parking lane.
    let mut r = Router::park_near(vec![Traversable::Lane(1)], 7);
    let parking = parking_with(true, true);
    assert_eq!(r.maybe_handle_end(0, &vehicle, &parking, &map), Some(ActionAtEnd::Vanish));
    // Lane 0 reaches the parking lane, but every spot is taken.
    let mut r2 = Router::park_near(vec![Traversable::Lane(0)], 7);
    let full = parking_with(false, false);
    assert_eq!(r2.maybe_handle_end(0, &vehicle, &full, &map), Some(ActionAtEnd::Vanish));
}
