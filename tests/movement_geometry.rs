use intersection_manager::geometry::{
    ccw, footprint, footprints_intersect, integer_sqrt, line_intersect, Point,
};
use intersection_manager::path::{generate_path, path_length, waiting_point_index, waypoint};
use intersection_manager::{Direction, Origin, SimplifiedCar};

fn pt(x: i64, y: i64) -> Point {
    Point { x, y }
}

#[test]
fn origin_rotations_compose() {
    for i in 0..4 {
        let o = Origin::from(i);
        assert_eq!(o.to(), i);
        assert_eq!(o.right().right(), o.opposite());
        assert_eq!(o.left().left(), o.opposite());
        assert_eq!(o.right().left(), o);
        assert_eq!(o.opposite().opposite(), o);
    }
    assert_eq!(Origin::North.right(), Origin::East);
    assert_eq!(Origin::North.left(), Origin::West);
    assert_eq!(Origin::East.opposite(), Origin::West);
}

#[test]
fn direction_from_index() {
    assert_eq!(Direction::from(0), Direction::Left);
    assert_eq!(Direction::from(1), Direction::Right);
    assert_eq!(Direction::from(2), Direction::Straight);
}

#[test]
fn movement_index_round_trip() {
    for i in 0..12 {
        let m = SimplifiedCar::from_index(i);
        assert_eq!(m.index(), i);
    }
    assert_eq!(SimplifiedCar::new(Origin::North, Direction::Left).index(), 0);
    assert_eq!(SimplifiedCar::new(Origin::North, Direction::Straight).index(), 1);
    assert_eq!(SimplifiedCar::new(Origin::East, Direction::Left).index(), 6);
    assert_eq!(SimplifiedCar::new(Origin::West, Direction::Right).index(), 11);
}

#[test]
fn orientation_is_strict() {
    assert!(ccw(pt(0, 0), pt(10, 0), pt(0, 10)));
    assert!(!ccw(pt(0, 0), pt(0, 10), pt(10, 0)));
    assert!(!ccw(pt(0, 0), pt(5, 5), pt(10, 10)));
}

#[test]
fn crossing_segments_intersect() {
    assert!(line_intersect((pt(0, 0), pt(10, 10)), &(pt(0, 10), pt(10, 0))));
    assert!(!line_intersect((pt(0, 0), pt(10, 0)), &(pt(0, 5), pt(10, 5))));
}

#[test]
fn collinear_segments_do_not_intersect() {
    assert!(!line_intersect((pt(0, 0), pt(10, 0)), &(pt(5, 0), pt(15, 0))));
    assert!(!line_intersect((pt(0, 0), pt(10, 0)), &(pt(10, 0), pt(20, 0))));
    // An endpoint resting on the other segment's line away from it stays apart.
    assert!(!line_intersect((pt(0, 0), pt(10, 0)), &(pt(20, 0), pt(20, 10))));
}

#[test]
fn integer_square_roots() {
    assert_eq!(integer_sqrt(0), 0);
    assert_eq!(integer_sqrt(1), 1);
    assert_eq!(integer_sqrt(99), 9);
    assert_eq!(integer_sqrt(100), 10);
    assert_eq!(integer_sqrt(2_000_000_000_000), 1_414_213);
}

#[test]
fn footprint_follows_heading() {
    let east = footprint(pt(100_000, 100_000), pt(0, 100_000));
    assert_eq!(east.front_left, pt(75_000, 83_500));
    assert_eq!(east.front_right, pt(125_000, 83_500));
    assert_eq!(east.back_right, pt(125_000, 116_500));
    assert_eq!(east.back_left, pt(75_000, 116_500));
    let south = footprint(pt(100_000, 100_000), pt(100_000, 0));
    assert_eq!(south.front_left, pt(116_500, 75_000));
    assert_eq!(south.front_right, pt(116_500, 125_000));
    assert_eq!(south.back_right, pt(83_500, 125_000));
    assert_eq!(south.back_left, pt(83_500, 75_000));
}

#[test]
fn footprints_overlap_only_when_close() {
    let a = footprint(pt(100_000, 100_000), pt(0, 100_000));
    let b = footprint(pt(110_000, 110_000), pt(110_000, 0));
    let far = footprint(pt(400_000, 400_000), pt(400_000, 0));
    assert!(footprints_intersect(&a, &b));
    assert!(!footprints_intersect(&a, &far));
}

#[test]
fn path_lengths_and_stop_lines() {
    assert_eq!(path_length(Direction::Straight), 25);
    assert_eq!(path_length(Direction::Left), 26);
    assert_eq!(path_length(Direction::Right), 26);
    assert_eq!(waiting_point_index(Direction::Straight), 9);
    assert_eq!(waiting_point_index(Direction::Left), 8);
}

#[test]
fn northern_left_turn_waypoints() {
    let p = generate_path(SimplifiedCar::new(Origin::North, Direction::Left));
    assert_eq!(p.len(), 26);
    assert_eq!(p[0], pt(590_500, 25_000));
    assert_eq!(p[7], pt(590_500, 476_500));
    assert_eq!(p[8], pt(595_166, 577_930));
    assert_eq!(p[9], pt(604_634, 604_228));
    assert_eq!(p[16], pt(808_000, 689_500));
    assert_eq!(p[25], pt(1_277_800, 689_500));
}

#[test]
fn other_approaches_are_rotations() {
    let east = generate_path(SimplifiedCar::new(Origin::East, Direction::Straight));
    assert_eq!(east[0], pt(1_255_000, 590_500));
    assert_eq!(east[1], pt(1_202_800, 590_500));
    let west = generate_path(SimplifiedCar::new(Origin::West, Direction::Right));
    assert_eq!(west[8], pt(541_000, 689_500));
    assert_eq!(west[9], pt(550_275, 690_377));
    for d in [Direction::Left, Direction::Straight, Direction::Right] {
        let north = generate_path(SimplifiedCar::new(Origin::North, d));
        let south = generate_path(SimplifiedCar::new(Origin::South, d));
        for k in 0..north.len() {
            assert_eq!(south[k], pt(1_280_000 - north[k].x, 1_280_000 - north[k].y));
            assert_eq!(waypoint(SimplifiedCar::new(Origin::South, d), k), south[k]);
        }
    }
}
