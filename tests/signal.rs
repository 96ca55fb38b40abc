use intersection_manager::{Direction, Origin, TrafficLight, TrafficLightState};

fn light() -> TrafficLight {
    TrafficLight::new(Origin::North, Direction::Straight)
}

#[test]
fn new_light_is_red_with_its_conflict_row() {
    let l = light();
    assert_eq!(l.state, TrafficLightState::Red);
    assert!(!l.green_requested);
    assert_eq!(l.intersecting_lights.len(), 12);
    assert_eq!(l.intersecting_lights[1], None);
    assert_eq!(l.intersecting_lights[6], Some(1500));
    assert!(!l.is_green());
}

#[test]
fn red_turns_green_only_when_request_falls_due() {
    let mut l = light();
    l.update(100, 3);
    assert_eq!(l.state, TrafficLightState::Red);
    l.change_to_green(500, 1000);
    assert!(l.green_requested);
    l.update(1499, 3);
    assert_eq!(l.state, TrafficLightState::Red);
    l.update(1500, 3);
    assert_eq!(l.state, TrafficLightState::Green);
    assert_eq!(l.green_start, 1500);
    assert!(!l.green_requested);
}

#[test]
fn arming_is_idempotent() {
    let mut l = light();
    l.change_to_green(500, 1000);
    l.change_to_green(0, 1200);
    assert_eq!(l.green_requested_at, 1000);
    assert_eq!(l.green_delay, 500);
}

#[test]
fn minimum_green_before_yellow() {
    let mut l = light();
    l.change_to_green(0, 0);
    l.update(0, 0);
    assert_eq!(l.state, TrafficLightState::Green);
    l.update(199, 0);
    assert_eq!(l.state, TrafficLightState::Green);
    l.update(200, 2);
    assert_eq!(l.state, TrafficLightState::Green);
    l.update(200, 0);
    assert_eq!(l.state, TrafficLightState::Yellow);
    assert_eq!(l.red_start, 200);
    assert!(l.is_green());
}

#[test]
fn yellow_turns_red_after_yellow_interval() {
    let mut l = light();
    l.change_to_green(0, 0);
    l.update(0, 0);
    l.update(300, 0);
    assert_eq!(l.state, TrafficLightState::Yellow);
    assert!(l.is_yellow(300));
    assert!(l.is_yellow(749));
    assert!(!l.is_yellow(750));
    l.update(1799, 0);
    assert_eq!(l.state, TrafficLightState::Yellow);
    l.update(1800, 0);
    assert_eq!(l.state, TrafficLightState::Red);
    assert!(!l.is_yellow(1800));
}

#[test]
fn can_change_to_red_needs_minimum_green_and_no_request() {
    let mut l = light();
    l.change_to_green(0, 0);
    assert!(!l.can_change_to_red(1000));
    l.update(10, 1);
    assert!(!l.can_change_to_red(100));
    assert!(l.can_change_to_red(210));
    assert_eq!(l.green_time(210), 200);
}

#[test]
fn unpause_shifts_stored_times() {
    let mut l = light();
    l.change_to_green(300, 1000);
    l.unpause(5000);
    assert_eq!(l.green_requested_at, 6000);
    assert_eq!(l.green_start, 5000);
    assert_eq!(l.red_start, 5000);
    l.update(6299, 1);
    assert_eq!(l.state, TrafficLightState::Red);
    l.update(6300, 1);
    assert_eq!(l.state, TrafficLightState::Green);
}
