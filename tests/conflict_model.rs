use intersection_manager::conflict::{
    build_conflict_table, clearance_time, conflict_delay, conflict_row, distance_along,
    entry_time, find_first_collision,
};
use intersection_manager::path::generate_path;
use intersection_manager::{Direction, Origin, SimplifiedCar};

fn m(o: Origin, d: Direction) -> SimplifiedCar {
    SimplifiedCar::new(o, d)
}

#[test]
fn kinematic_times() {
    assert_eq!(entry_time(0), 0);
    assert_eq!(entry_time(27), 10);
    assert_eq!(clearance_time(300_000), 1000);
    assert_eq!(clearance_time(299_999), 999);
}

#[test]
fn distances_along_paths() {
    let straight = generate_path(m(Origin::North, Direction::Straight));
    assert_eq!(distance_along(&straight, 9, 12), 156_600);
    assert_eq!(distance_along(&straight, 12, 9), 0);
    let left = generate_path(m(Origin::North, Direction::Left));
    assert_eq!(distance_along(&left, 8, 10), 55_899);
}

#[test]
fn first_collision_is_found_in_moving_order() {
    let moving = generate_path(m(Origin::East, Direction::Straight));
    let waiting = generate_path(m(Origin::North, Direction::Left));
    assert_eq!(find_first_collision(&moving, &waiting), Some((12, 8)));
    let a = generate_path(m(Origin::North, Direction::Straight));
    let b = generate_path(m(Origin::South, Direction::Straight));
    assert_eq!(find_first_collision(&a, &b), None);
}

#[test]
fn conflict_entries() {
    let nl = m(Origin::North, Direction::Left);
    let ns = m(Origin::North, Direction::Straight);
    let el = m(Origin::East, Direction::Left);
    let es = m(Origin::East, Direction::Straight);
    let er = m(Origin::East, Direction::Right);
    let ss = m(Origin::South, Direction::Straight);
    assert_eq!(conflict_delay(nl, nl), None);
    assert_eq!(conflict_delay(nl, es), Some(2544));
    assert_eq!(conflict_delay(nl, er), None);
    assert_eq!(conflict_delay(ns, ss), None);
    assert_eq!(conflict_delay(nl, ss), Some(1727));
    // The table is asymmetric in its values.
    assert_eq!(conflict_delay(ns, el), Some(1500));
    assert_eq!(conflict_delay(el, ns), Some(1987));
}

#[test]
fn every_entry_includes_the_yellow_interval() {
    let table = build_conflict_table();
    assert_eq!(table.len(), 12);
    for w in 0..12 {
        assert_eq!(table[w].len(), 12);
        assert_eq!(table[w][w], None);
        for k in 0..12 {
            if let Some(d) = table[w][k] {
                assert!(d >= 1500);
            }
            // Whether two paths meet does not depend on which one waits.
            assert_eq!(table[w][k].is_some(), table[k][w].is_some());
        }
    }
}

#[test]
fn conflict_table_rebuilds_identically() {
    let first = build_conflict_table();
    let second = build_conflict_table();
    assert_eq!(first, second);
    for w in 0..12 {
        assert_eq!(conflict_row(SimplifiedCar::from_index(w)), first[w]);
    }
}

#[test]
fn northern_left_turn_row() {
    let row = conflict_row(m(Origin::North, Direction::Left));
    let expected = vec![
        None,
        Some(1500),
        Some(1500),
        Some(1500),
        Some(1727),
        Some(1500),
        Some(1644),
        Some(2544),
        None,
        Some(1500),
        Some(1987),
        None,
    ];
    assert_eq!(row, expected);
}
