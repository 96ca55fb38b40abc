use intersection_manager::traffic_light_controller::{
    admission_check, conflicting, eligible_candidates, resolve_conflicts,
};
use intersection_manager::{
    Candidate, Direction, Origin, SimplifiedCar, TrafficLight, TrafficLightController,
    TrafficLightState,
};

fn car(o: Origin, d: Direction) -> SimplifiedCar {
    SimplifiedCar::new(o, d)
}

const NS: usize = 1;
const EL: usize = 6;

#[test]
fn queue_counts_follow_arrivals_and_departures() {
    let mut c = TrafficLightController::new();
    let ns = car(Origin::North, Direction::Straight);
    assert_eq!(c.queue(Origin::North, Direction::Straight), 0);
    c.add_car(ns);
    c.add_car(ns);
    c.remove_car(ns);
    assert_eq!(c.queue(Origin::North, Direction::Straight), 1);
    c.remove_car(ns);
    assert_eq!(c.queue(Origin::North, Direction::Straight), 0);
    assert_eq!(c.queue(Origin::East, Direction::Left), 0);
}

#[test]
fn lone_movement_is_admitted_with_no_delay() {
    let mut c = TrafficLightController::new();
    c.add_car(car(Origin::East, Direction::Left));
    c.update(0);
    let l = c.get_traffic_light(Origin::East, Direction::Left);
    assert!(l.green_requested);
    assert_eq!(l.green_delay, 0);
    assert_eq!(l.state, TrafficLightState::Red);
    c.update(1);
    assert!(c.is_green(Origin::East, Direction::Left));
    assert!(!c.is_yellow(Origin::East, Direction::Left, 1));
}

#[test]
fn longer_queue_is_admitted_over_green_peer_after_its_delay() {
    let mut c = TrafficLightController::new();
    c.add_car(car(Origin::East, Direction::Left));
    c.update(0);
    c.update(1);
    assert!(c.is_green(Origin::East, Direction::Left));
    for _ in 0..5 {
        c.add_car(car(Origin::North, Direction::Straight));
    }
    c.update(1000);
    let ns = c.get_traffic_light(Origin::North, Direction::Straight);
    let expected = c.get_traffic_light(Origin::North, Direction::Straight).intersecting_lights[EL];
    assert_eq!(expected, Some(1500));
    assert!(ns.green_requested);
    assert_eq!(Some(ns.green_delay), expected);
    assert_eq!(ns.green_requested_at, 1000);
    // The green peer is let go to red as soon as the longer queue is admitted.
    let el = c.get_traffic_light(Origin::East, Direction::Left);
    assert_eq!(el.state, TrafficLightState::Yellow);
    assert_eq!(el.red_start, 1000);
    c.update(2499);
    assert!(!c.is_green(Origin::North, Direction::Straight));
    assert_eq!(c.get_traffic_light(Origin::East, Direction::Left).state, TrafficLightState::Yellow);
    c.update(2500);
    assert_eq!(c.get_traffic_light(Origin::East, Direction::Left).state, TrafficLightState::Red);
    assert!(c.is_green(Origin::North, Direction::Straight));
}

#[test]
fn pending_request_of_a_red_peer_does_not_block_admission() {
    let mut c = TrafficLightController::new();
    c.add_car(car(Origin::East, Direction::Left));
    c.update(0);
    c.update(1);
    for _ in 0..5 {
        c.add_car(car(Origin::North, Direction::Straight));
    }
    c.update(1000);
    assert!(c.get_traffic_light(Origin::North, Direction::Straight).green_requested);
    // West-left conflicts with north-straight, whose request is pending, and
    // with east-left, which is yellow.
    let wl = c.get_traffic_light(Origin::West, Direction::Left);
    assert!(wl.intersecting_lights[NS].is_some());
    assert_eq!(wl.intersecting_lights[EL], Some(1500));
    for _ in 0..9 {
        c.add_car(car(Origin::West, Direction::Left));
    }
    c.update(1100);
    let wl = c.get_traffic_light(Origin::West, Direction::Left);
    assert!(wl.green_requested);
    assert_eq!(wl.green_requested_at, 1100);
    assert_eq!(wl.green_delay, 1500);
    // North-straight falls due first and turns green once east-left is red.
    c.update(2500);
    assert!(c.is_green(Origin::North, Direction::Straight));
    // West-left falls due while north-straight is green: it waits.
    c.update(2600);
    assert!(!c.is_green(Origin::West, Direction::Left));
    assert!(c.get_traffic_light(Origin::West, Direction::Left).green_requested);
}

#[test]
fn conflicting_requests_due_together_fire_in_index_order() {
    let mut c = TrafficLightController::new();
    c.add_car(car(Origin::East, Direction::Left));
    c.update(0);
    c.update(1);
    for _ in 0..5 {
        c.add_car(car(Origin::North, Direction::Straight));
    }
    c.update(1000);
    for _ in 0..9 {
        c.add_car(car(Origin::West, Direction::Left));
    }
    c.update(1100);
    // Both requests are due at 2600; the lower movement index fires.
    c.update(2600);
    assert!(c.is_green(Origin::North, Direction::Straight));
    assert!(!c.is_green(Origin::West, Direction::Left));
}

#[test]
fn no_two_conflicting_movements_are_ever_active() {
    let mut c = TrafficLightController::new();
    let table = intersection_manager::conflict::build_conflict_table();
    let mut seed: u64 = 12345;
    for step in 0..3000u64 {
        seed = seed.wrapping_mul(6364136223846793005).wrapping_add(1442695040888963407);
        let m = SimplifiedCar::from_index(((seed >> 33) % 12) as usize);
        if (seed >> 20) % 3 == 0 {
            c.add_car(m);
        } else if c.queue(m.origin, m.direction) > 0 && c.is_green(m.origin, m.direction) {
            c.remove_car(m);
        }
        c.update(step * 50);
        for a in 0..12 {
            for b in 0..12 {
                let ma = SimplifiedCar::from_index(a);
                let mb = SimplifiedCar::from_index(b);
                if a != b && table[a][b].is_some() {
                    assert!(!(c.is_green(ma.origin, ma.direction) && c.is_green(mb.origin, mb.direction)));
                }
            }
        }
    }
}

#[test]
fn peer_within_minimum_green_blocks_admission() {
    let mut c = TrafficLightController::new();
    c.add_car(car(Origin::East, Direction::Left));
    c.update(0);
    c.update(1);
    for _ in 0..5 {
        c.add_car(car(Origin::North, Direction::Straight));
    }
    c.update(100);
    assert!(!c.get_traffic_light(Origin::North, Direction::Straight).green_requested);
}

#[test]
fn queue_not_larger_than_competing_is_not_eligible() {
    let mut c = TrafficLightController::new();
    c.add_car(car(Origin::East, Direction::Left));
    c.add_car(car(Origin::East, Direction::Left));
    c.update(0);
    c.update(1);
    c.add_car(car(Origin::North, Direction::Straight));
    c.add_car(car(Origin::North, Direction::Straight));
    c.update(1000);
    assert!(!c.get_traffic_light(Origin::North, Direction::Straight).green_requested);
}

#[test]
fn conflicting_candidates_keep_the_longer_queue() {
    let lights = TrafficLightController::generate_traffic_lights();
    let strong = Candidate { light: NS, queue: 8, delay: 0 };
    let weak = Candidate { light: EL, queue: 3, delay: 0 };
    assert!(conflicting(&lights, strong, weak));
    assert_eq!(resolve_conflicts(vec![strong, weak], &lights), vec![strong]);
    assert_eq!(resolve_conflicts(vec![weak, strong], &lights), vec![strong]);
}

#[test]
fn tie_goes_to_the_shorter_delay() {
    let lights = TrafficLightController::generate_traffic_lights();
    let quick = Candidate { light: NS, queue: 4, delay: 100 };
    let slow = Candidate { light: EL, queue: 4, delay: 900 };
    assert_eq!(resolve_conflicts(vec![slow, quick], &lights), vec![quick]);
    assert_eq!(resolve_conflicts(vec![quick, slow], &lights), vec![quick]);
}

#[test]
fn non_conflicting_candidates_all_survive() {
    let lights = TrafficLightController::generate_traffic_lights();
    // North straight and south straight run in parallel lanes.
    let a = Candidate { light: NS, queue: 2, delay: 0 };
    let b = Candidate { light: 4, queue: 7, delay: 0 };
    assert!(!conflicting(&lights, a, b));
    assert_eq!(resolve_conflicts(vec![a, b], &lights), vec![a, b]);
    assert_eq!(resolve_conflicts(vec![], &lights), vec![]);
}

#[test]
fn resolution_leaves_no_conflicting_pair() {
    let lights = TrafficLightController::generate_traffic_lights();
    let cands: Vec<Candidate> = (0..12)
        .map(|i| Candidate { light: i, queue: (i * 7) % 5 + 1, delay: (i as u64) * 10 })
        .collect();
    let kept = resolve_conflicts(cands.clone(), &lights);
    assert!(!kept.is_empty());
    for a in &kept {
        assert!(cands.contains(a));
        for b in &kept {
            assert!(!conflicting(&lights, *a, *b));
        }
    }
}

#[test]
fn mutually_conflicting_candidates_through_a_tick() {
    let mut c = TrafficLightController::new();
    for _ in 0..8 {
        c.add_car(car(Origin::North, Direction::Straight));
    }
    for _ in 0..3 {
        c.add_car(car(Origin::East, Direction::Left));
    }
    c.update(0);
    assert!(c.get_traffic_light(Origin::North, Direction::Straight).green_requested);
    assert!(!c.get_traffic_light(Origin::East, Direction::Left).green_requested);
    for t in [1u64, 100, 500, 1000, 5000] {
        c.update(t);
        assert!(c.is_green(Origin::North, Direction::Straight));
        assert!(!c.is_green(Origin::East, Direction::Left));
    }
}

fn isolated_lights(isolated: usize) -> Vec<TrafficLight> {
    let mut lights = TrafficLightController::generate_traffic_lights();
    for i in 0..12 {
        lights[i].intersecting_lights[isolated] = None;
    }
    lights[isolated].intersecting_lights = vec![None; 12];
    lights
}

#[test]
fn isolated_movement_is_eligible_with_no_delay() {
    let lights = isolated_lights(NS);
    let mut queue = vec![0usize; 12];
    queue[NS] = 2;
    queue[EL] = 9;
    let found = admission_check(&lights, &queue, NS, 0);
    assert_eq!(found, Some(Candidate { light: NS, queue: 2, delay: 0 }));
    let cands = eligible_candidates(&lights, &queue, 0);
    assert_eq!(cands.len(), 2);
    let kept = resolve_conflicts(cands, &lights);
    assert!(kept.contains(&Candidate { light: NS, queue: 2, delay: 0 }));
}

#[test]
fn empty_queue_is_not_eligible() {
    let lights = TrafficLightController::generate_traffic_lights();
    let queue = vec![0usize; 12];
    assert_eq!(admission_check(&lights, &queue, NS, 0), None);
    assert!(eligible_candidates(&lights, &queue, 0).is_empty());
}

#[test]
fn unpause_moves_pending_requests() {
    let mut c = TrafficLightController::new();
    c.add_car(car(Origin::East, Direction::Left));
    c.update(0);
    c.update(1);
    for _ in 0..5 {
        c.add_car(car(Origin::North, Direction::Straight));
    }
    c.update(1000);
    c.unpause(10_000);
    let ns = c.get_traffic_light(Origin::North, Direction::Straight);
    assert_eq!(ns.green_requested_at, 11_000);
    assert_eq!(c.get_traffic_light(Origin::East, Direction::Left).green_start, 10_001);
    c.update(12_499);
    assert!(!c.is_green(Origin::North, Direction::Straight));
    c.update(12_500);
    assert!(c.is_green(Origin::North, Direction::Straight));
}

#[test]
fn green_movement_yields_when_its_queue_empties() {
    let mut c = TrafficLightController::new();
    let el = car(Origin::East, Direction::Left);
    c.add_car(el);
    c.update(0);
    c.update(1);
    c.remove_car(el);
    c.update(100);
    assert_eq!(c.get_traffic_light(Origin::East, Direction::Left).state, TrafficLightState::Green);
    c.update(201);
    assert_eq!(c.get_traffic_light(Origin::East, Direction::Left).state, TrafficLightState::Yellow);
    assert!(c.is_yellow(Origin::East, Direction::Left, 201));
    c.update(1701);
    assert_eq!(c.get_traffic_light(Origin::East, Direction::Left).state, TrafficLightState::Red);
}

#[test]
fn dropped_candidates_conflict_with_a_survivor() {
    let lights = TrafficLightController::generate_traffic_lights();
    // The three northern movements share a lane and conflict pairwise; the
    // eastern right turn meets none of them.
    let nl = Candidate { light: 0, queue: 3, delay: 0 };
    let ns = Candidate { light: NS, queue: 9, delay: 0 };
    let nr = Candidate { light: 2, queue: 5, delay: 0 };
    let er = Candidate { light: 8, queue: 1, delay: 0 };
    assert!(conflicting(&lights, nl, ns) && conflicting(&lights, ns, nr) && conflicting(&lights, nl, nr));
    assert!(!conflicting(&lights, er, nl) && !conflicting(&lights, er, ns) && !conflicting(&lights, er, nr));
    let kept = resolve_conflicts(vec![nl, ns, nr, er], &lights);
    assert_eq!(kept, vec![ns, er]);
}
