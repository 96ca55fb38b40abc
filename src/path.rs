use vstd::prelude::*;
use crate::geometry::{within, Point, WAYPOINT_LIMIT};
use crate::movement::{Direction, Origin, SimplifiedCar};

verus! {

/// Width of the simulated map, in millipixels.
pub const WIDTH: i64 = 1_280_000;

/// Height of the simulated map, in millipixels.
pub const HEIGHT: i64 = 1_280_000;

/// Width of one lane, in millipixels (one and a half vehicle widths).
pub const LANE_WIDTH: i64 = 49_500;

/// Length of a vehicle, in millipixels.
pub const CAR_LENGTH: i64 = 50_000;

/// Waypoints of a straight movement.
pub const STRAIGHT_PATH_POINTS: usize = 25;

/// Waypoints of each of the three parts of a turn before its exit.
pub const TURN_PART_POINTS: usize = 8;

/// Waypoints of a turning movement: approach, arc, and exit.
pub const TURN_PATH_POINTS: usize = 26;

/// Spacing of the waypoints of a straight movement: the map's height and half
/// a vehicle, over the number of waypoints.
pub const STRAIGHT_GAP: i64 = 52_200;

/// Spacing of the waypoints on the approach of a turn: from half a vehicle into
/// the map to two lanes short of its centre, over eight waypoints.
pub const APPROACH_GAP: i64 = 64_500;

/// Scale of the arc sample table.
pub const UNIT: i64 = 1_000_000;

/// Cosine of the `i`-th arc sample angle `3 * pi * i / 50`, in millionths.
pub open spec fn arc_cos_spec(i: int) -> int {
    if i == 0 {
        1_000_000
    } else if i == 1 {
        982_287
    } else if i == 2 {
        929_776
    } else if i == 3 {
        844_328
    } else if i == 4 {
        728_969
    } else if i == 5 {
        587_785
    } else if i == 6 {
        425_779
    } else {
        248_690
    }
}

/// Sine of the `i`-th arc sample angle `3 * pi * i / 50`, in millionths.
pub open spec fn arc_sin_spec(i: int) -> int {
    if i == 0 {
        0
    } else if i == 1 {
        187_381
    } else if i == 2 {
        368_125
    } else if i == 3 {
        535_827
    } else if i == 4 {
        684_547
    } else if i == 5 {
        809_017
    } else if i == 6 {
        904_827
    } else {
        968_583
    }
}

fn arc_cos(i: usize) -> (r: i64)
    requires
        i < TURN_PART_POINTS,
    ensures
        r == arc_cos_spec(i as int),
        0 <= r <= UNIT,
{
    if i == 0 {
        1_000_000
    } else if i == 1 {
        982_287
    } else if i == 2 {
        929_776
    } else if i == 3 {
        844_328
    } else if i == 4 {
        728_969
    } else if i == 5 {
        587_785
    } else if i == 6 {
        425_779
    } else {
        248_690
    }
}

fn arc_sin(i: usize) -> (r: i64)
    requires
        i < TURN_PART_POINTS,
    ensures
        r == arc_sin_spec(i as int),
        0 <= r <= UNIT,
{
    if i == 0 {
        0
    } else if i == 1 {
        187_381
    } else if i == 2 {
        368_125
    } else if i == 3 {
        535_827
    } else if i == 4 {
        684_547
    } else if i == 5 {
        809_017
    } else if i == 6 {
        904_827
    } else {
        968_583
    }
}

/// Number of waypoints of a movement's path.
pub open spec fn path_len(d: Direction) -> nat {
    match d {
        Direction::Straight => STRAIGHT_PATH_POINTS as nat,
        _ => TURN_PATH_POINTS as nat,
    }
}

/// Index of the waypoint where a vehicle of the movement waits at the stop line.
pub open spec fn queueing_index(d: Direction) -> nat {
    match d {
        Direction::Straight => TURN_PART_POINTS as nat + 1,
        _ => TURN_PART_POINTS as nat,
    }
}

/// Waypoint `k` of the movement's path for a vehicle coming from the north
/// (travelling towards growing `y`), before it is turned to its approach.
///
/// A straight movement is one long straight line. A turn runs an approach
/// straight, then an arc sampled linearly in angle (the left turn's around a
/// centre beyond the far lanes with three lanes' radius, walked backwards; the
/// right turn's with one lane's radius), then the tail of the straight path of
/// the approach it leaves by.
pub open spec fn template_point(d: Direction, k: int) -> (int, int) {
    let width = WIDTH as int;
    let height = HEIGHT as int;
    let lane = LANE_WIDTH as int;
    let unit = UNIT as int;
    let lane_x = width / 2 - lane;
    let start_y = CAR_LENGTH / 2;
    match d {
        Direction::Straight => (lane_x, start_y + k * STRAIGHT_GAP),
        Direction::Left => {
            if k < 8 {
                (lane_x, start_y + k * APPROACH_GAP)
            } else if k < 16 {
                let i = 15 - k;
                let radius = 3 * lane;
                (
                    width / 2 + 2 * lane - radius * arc_sin_spec(i) / unit,
                    height / 2 - 2 * lane + radius * arc_cos_spec(i) / unit,
                )
            } else {
                (start_y + (k - 1) * STRAIGHT_GAP, height / 2 + lane)
            }
        },
        Direction::Right => {
            if k < 8 {
                (lane_x, start_y + k * APPROACH_GAP)
            } else if k < 16 {
                let i = k - 8;
                (
                    width / 2 - 2 * lane + lane * arc_cos_spec(i) / unit,
                    height / 2 - 2 * lane + lane * arc_sin_spec(i) / unit,
                )
            } else {
                (width - start_y - (k - 1) * STRAIGHT_GAP, lane_x)
            }
        },
    }
}

/// Turns a point of the northern template to the given approach: a rotation of
/// the map about its centre by a multiple of a quarter turn.
pub open spec fn orient(o: Origin, p: (int, int)) -> Point {
    match o {
        Origin::North => Point { x: p.0 as i64, y: p.1 as i64 },
        Origin::South => Point { x: (WIDTH - p.0) as i64, y: (HEIGHT - p.1) as i64 },
        Origin::East => Point { x: (WIDTH - p.1) as i64, y: p.0 as i64 },
        Origin::West => Point { x: p.1 as i64, y: (HEIGHT - p.0) as i64 },
    }
}

/// Waypoint `k` of the movement's path.
pub open spec fn waypoint_spec(m: SimplifiedCar, k: int) -> Point {
    orient(m.origin, template_point(m.direction, k))
}

/// The path of a movement: its waypoints in order.
pub open spec fn path_spec(m: SimplifiedCar) -> Seq<Point> {
    Seq::new(path_len(m.direction), |k: int| waypoint_spec(m, k))
}

/// Every waypoint of every path lies on the map, well inside the footprint's range.
pub open spec fn path_within(p: Seq<Point>) -> bool {
    forall|k: int| 0 <= k < p.len() ==> within(#[trigger] p[k], WAYPOINT_LIMIT as int)
}

fn template(d: Direction, k: usize) -> (r: (i64, i64))
    requires
        k < path_len(d),
    ensures
        r.0 == template_point(d, k as int).0,
        r.1 == template_point(d, k as int).1,
        0 <= r.0 <= WIDTH,
        0 <= r.1 <= HEIGHT,
{
    let lane_x: i64 = WIDTH / 2 - LANE_WIDTH;
    let start_y: i64 = CAR_LENGTH / 2;
    let k64 = k as i64;
    match d {
        Direction::Straight => (lane_x, start_y + k64 * STRAIGHT_GAP),
        Direction::Left => {
            if k < 8 {
                (lane_x, start_y + k64 * APPROACH_GAP)
            } else if k < 16 {
                let i = 15 - k;
                let radius: i64 = 3 * LANE_WIDTH;
                let s = arc_sin(i);
                let c = arc_cos(i);
                assert(radius * s <= radius * UNIT) by (nonlinear_arith)
                    requires
                        0 <= s <= UNIT,
                        radius == 3 * LANE_WIDTH,
                ;
                assert(radius * c <= radius * UNIT) by (nonlinear_arith)
                    requires
                        0 <= c <= UNIT,
                        radius == 3 * LANE_WIDTH,
                ;
                assert(0 <= radius * s && 0 <= radius * c) by (nonlinear_arith)
                    requires
                        0 <= s,
                        0 <= c,
                        radius == 3 * LANE_WIDTH,
                ;
                (
                    WIDTH / 2 + 2 * LANE_WIDTH - radius * s / UNIT,
                    HEIGHT / 2 - 2 * LANE_WIDTH + radius * c / UNIT,
                )
            } else {
                (start_y + (k64 - 1) * STRAIGHT_GAP, HEIGHT / 2 + LANE_WIDTH)
            }
        },
        Direction::Right => {
            if k < 8 {
                (lane_x, start_y + k64 * APPROACH_GAP)
            } else if k < 16 {
                let i = k - 8;
                let s = arc_sin(i);
                let c = arc_cos(i);
                assert(LANE_WIDTH * s <= LANE_WIDTH * UNIT) by (nonlinear_arith)
                    requires
                        0 <= s <= UNIT,
                ;
                assert(LANE_WIDTH * c <= LANE_WIDTH * UNIT) by (nonlinear_arith)
                    requires
                        0 <= c <= UNIT,
                ;
                assert(0 <= LANE_WIDTH * s && 0 <= LANE_WIDTH * c) by (nonlinear_arith)
                    requires
                        0 <= s,
                        0 <= c,
                ;
                (
                    WIDTH / 2 - 2 * LANE_WIDTH + LANE_WIDTH * c / UNIT,
                    HEIGHT / 2 - 2 * LANE_WIDTH + LANE_WIDTH * s / UNIT,
                )
            } else {
                (WIDTH - start_y - (k64 - 1) * STRAIGHT_GAP, lane_x)
            }
        },
    }
}

/// Waypoint `k` of the movement's path.
pub fn waypoint(m: SimplifiedCar, k: usize) -> (r: Point)
    requires
        k < path_len(m.direction),
    ensures
        r == waypoint_spec(m, k as int),
        0 <= r.x <= WIDTH,
        0 <= r.y <= HEIGHT,
{
    let p = template(m.direction, k);
    match m.origin {
        Origin::North => Point { x: p.0, y: p.1 },
        Origin::South => Point { x: WIDTH - p.0, y: HEIGHT - p.1 },
        Origin::East => Point { x: WIDTH - p.1, y: p.0 },
        Origin::West => Point { x: p.1, y: HEIGHT - p.0 },
    }
}

/// The number of waypoints of the movement's path.
pub fn path_length(d: Direction) -> (r: usize)
    ensures
        r == path_len(d),
{
    match d {
        Direction::Straight => STRAIGHT_PATH_POINTS,
        _ => TURN_PATH_POINTS,
    }
}

/// The waypoint index where a waiting vehicle of the movement stands.
pub fn waiting_point_index(d: Direction) -> (r: usize)
    ensures
        r == queueing_index(d),
{
    match d {
        Direction::Straight => TURN_PART_POINTS + 1,
        _ => TURN_PART_POINTS,
    }
}

/// The ordered waypoints a vehicle of the movement follows through the intersection.
pub fn generate_path(m: SimplifiedCar) -> (r: Vec<Point>)
    ensures
        r@ == path_spec(m),
        path_within(r@),
{
    let n = path_length(m.direction);
    let mut path: Vec<Point> = Vec::new();
    let mut k: usize = 0;
    while k < n
        invariant
            n == path_len(m.direction),
            k <= n,
            path@.len() == k,
            forall|j: int| 0 <= j < k ==> path@[j] == waypoint_spec(m, j),
            path_within(path@),
        decreases n - k,
    {
        let p = waypoint(m, k);
        path.push(p);
        k = k + 1;
    }
    assert(path@ =~= path_spec(m));
    path
}

} // verus!
