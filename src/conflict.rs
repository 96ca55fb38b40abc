use vstd::prelude::*;
use crate::geometry::{
    footprint, footprint_spec, footprint_within, footprints_intersect, footprints_intersect_spec,
    lemma_footprints_intersect_symmetric,
    integer_sqrt, is_isqrt, isqrt, within, Footprint, Point, WAYPOINT_LIMIT,
};
use crate::movement::{movement_of_index, SimplifiedCar, NUM_MOVEMENTS};
use crate::path::{
    generate_path, path_spec, path_within, queueing_index, waiting_point_index, TURN_PATH_POINTS,
};
use crate::traffic_light::YELLOW_TIME_MS;

verus! {

/// Acceleration of a vehicle starting from rest, in millipixels per tick squared.
pub const ACCELERATION: u64 = 150;

/// Top speed of a vehicle, in millipixels per tick.
pub const MAX_SPEED: u64 = 5000;

/// Simulation ticks per second.
pub const TICKS_PER_SECOND: u64 = 60;

/// Waypoints past the collision point that a moving vehicle covers before it
/// has cleared the conflict zone.
pub const CLEARANCE_WAYPOINTS: usize = 3;

/// Bound on the length of one path segment.
pub const SEGMENT_LIMIT: u64 = 0x80_0000;

/// Bound on a distance along a path.
pub const DISTANCE_LIMIT: u64 = 0x1000_0000;

/// Straight-line length between two waypoints, rounded down.
pub open spec fn seg_len(a: Point, b: Point) -> nat {
    isqrt(((b.x - a.x) * (b.x - a.x) + (b.y - a.y) * (b.y - a.y)) as nat)
}

/// Distance along `p` from waypoint `from` to waypoint `to`: the sum of the
/// segment lengths in between (zero when `to <= from`).
pub open spec fn path_distance(p: Seq<Point>, from: int, to: int) -> nat
    decreases to - from,
{
    if to <= from {
        0
    } else {
        path_distance(p, from, to - 1) + seg_len(p[to - 1], p[to])
    }
}

/// The moving vehicle at waypoint `i` of `moving` and the waiting vehicle at
/// waypoint `j` of `waiting` overlap, each turned along its own travel.
pub open spec fn hit(moving: Seq<Point>, waiting: Seq<Point>, i: int, j: int) -> bool {
    footprints_intersect_spec(
        footprint_spec(moving[i], moving[i - 1]),
        footprint_spec(waiting[j], waiting[j - 1]),
    )
}

/// A pair of waypoint indices that a collision search visits.
pub open spec fn in_search(moving: Seq<Point>, waiting: Seq<Point>, i: int, j: int) -> bool {
    1 <= i < moving.len() && 1 <= j < waiting.len()
}

/// `(i, j)` is the first overlapping pair, scanning the moving path in order
/// and, for each of its waypoints, the waiting path in order.
pub open spec fn is_first_collision(
    moving: Seq<Point>,
    waiting: Seq<Point>,
    i: int,
    j: int,
) -> bool {
    &&& in_search(moving, waiting, i, j)
    &&& hit(moving, waiting, i, j)
    &&& forall|i2: int, j2: int|
        in_search(moving, waiting, i2, j2) && (i2 < i || (i2 == i && j2 < j)) ==> !#[trigger] hit(
            moving,
            waiting,
            i2,
            j2,
        )
}

/// The two paths overlap somewhere.
pub open spec fn paths_collide(moving: Seq<Point>, waiting: Seq<Point>) -> bool {
    exists|i: int, j: int| in_search(moving, waiting, i, j) && #[trigger] hit(moving, waiting, i, j)
}

/// The first collision of two paths that collide.
pub open spec fn first_collision(moving: Seq<Point>, waiting: Seq<Point>) -> (int, int) {
    choose|ij: (int, int)| is_first_collision(moving, waiting, ij.0, ij.1)
}

/// Milliseconds a vehicle starting from rest needs to cover `d` millipixels:
/// `t = sqrt(2 d / a)` ticks, rounded down after conversion to milliseconds.
pub open spec fn entry_time_ms(d: nat) -> nat {
    let den = ACCELERATION as int * TICKS_PER_SECOND as int * TICKS_PER_SECOND as int;
    isqrt(((2 * d * 1_000_000) as int / den) as nat)
}

/// Milliseconds a vehicle at top speed needs to cover `d` millipixels.
pub open spec fn clearance_time_ms(d: nat) -> nat {
    let den = MAX_SPEED as int * TICKS_PER_SECOND as int;
    ((d * 1000) as int / den) as nat
}

/// The safety gap a `waiting` movement observes after a `moving` movement,
/// given their first collision at waypoints `i` (moving) and `j` (waiting):
/// the time the moving vehicle needs from its stop line to a few waypoints past
/// the collision, less the time the waiting vehicle needs from rest to the
/// collision, never below zero, plus the yellow interval.
pub open spec fn clearance_delay(
    waiting: SimplifiedCar,
    moving: SimplifiedCar,
    i: int,
    j: int,
) -> nat {
    let mp = path_spec(moving);
    let wp = path_spec(waiting);
    let entry = entry_time_ms(path_distance(wp, queueing_index(waiting.direction) as int, j));
    let end = if i + CLEARANCE_WAYPOINTS < mp.len() - 1 {
        i + CLEARANCE_WAYPOINTS
    } else {
        mp.len() - 1
    };
    let clear = clearance_time_ms(path_distance(mp, queueing_index(moving.direction) as int, end));
    let gap: int = if clear > entry {
        clear - entry
    } else {
        0
    };
    (gap + YELLOW_TIME_MS as int) as nat
}

/// The conflict entry of `waiting` for `moving`: none when they are the same
/// movement or their paths never overlap, else the clearance delay at their
/// first collision.
pub open spec fn conflict_delay_spec(waiting: SimplifiedCar, moving: SimplifiedCar) -> Option<nat> {
    let mp = path_spec(moving);
    let wp = path_spec(waiting);
    if waiting == moving || !paths_collide(mp, wp) {
        None
    } else {
        let ij = first_collision(mp, wp);
        Some(clearance_delay(waiting, moving, ij.0, ij.1))
    }
}

/// A stored conflict entry, read as a number of milliseconds.
pub open spec fn delay_view(o: Option<u64>) -> Option<nat> {
    match o {
        Some(d) => Some(d as nat),
        None => None,
    }
}

/// The conflict row of `waiting`: entry `k` is its entry for movement `k`.
pub open spec fn is_conflict_row(waiting: SimplifiedCar, row: Seq<Option<u64>>) -> bool {
    &&& row.len() == NUM_MOVEMENTS
    &&& forall|k: int|
        0 <= k < NUM_MOVEMENTS ==> delay_view(#[trigger] row[k]) == conflict_delay_spec(
            waiting,
            movement_of_index(k as nat),
        )
}

/// The conflict table: row `w` is the conflict row of movement `w`.
pub open spec fn is_conflict_table(table: Seq<Vec<Option<u64>>>) -> bool {
    &&& table.len() == NUM_MOVEMENTS
    &&& forall|w: int|
        0 <= w < NUM_MOVEMENTS ==> is_conflict_row(movement_of_index(w as nat), #[trigger] table[w]@)
}

proof fn lemma_first_collision_unique(moving: Seq<Point>, waiting: Seq<Point>, i: int, j: int)
    requires
        is_first_collision(moving, waiting, i, j),
    ensures
        first_collision(moving, waiting) == (i, j),
{
    let w = (i, j);
    assert(is_first_collision(moving, waiting, w.0, w.1));
    let ij = first_collision(moving, waiting);
    assert(is_first_collision(moving, waiting, ij.0, ij.1));
    if ij.0 < i || (ij.0 == i && ij.1 < j) {
        assert(!hit(moving, waiting, ij.0, ij.1));
    } else if i < ij.0 || (i == ij.0 && j < ij.1) {
        assert(!hit(moving, waiting, i, j));
    }
}

/// The footprints along a path: entry `k` is the footprint at waypoint `k + 1`.
fn footprints_along(p: &Vec<Point>) -> (r: Vec<Footprint>)
    requires
        p@.len() >= 1,
        path_within(p@),
    ensures
        r@.len() == p@.len() - 1,
        forall|k: int|
            0 <= k < r@.len() ==> #[trigger] r@[k] == footprint_spec(p@[k + 1], p@[k])
                && footprint_within(r@[k]),
{
    let mut r: Vec<Footprint> = Vec::new();
    let mut k: usize = 1;
    while k < p.len()
        invariant
            1 <= k <= p@.len(),
            path_within(p@),
            r@.len() == k - 1,
            forall|m: int|
                0 <= m < r@.len() ==> #[trigger] r@[m] == footprint_spec(p@[m + 1], p@[m])
                    && footprint_within(r@[m]),
        decreases p@.len() - k,
    {
        assert(within(p@[k as int], WAYPOINT_LIMIT as int));
        assert(within(p@[k - 1], WAYPOINT_LIMIT as int));
        let f = footprint(p[k], p[k - 1]);
        r.push(f);
        k = k + 1;
    }
    r
}

/// The first pair of waypoints at which a vehicle on `moving` and one on
/// `waiting` overlap, scanning the moving path in order; `None` when they never do.
pub fn find_first_collision(moving: &Vec<Point>, waiting: &Vec<Point>) -> (r: Option<(usize, usize)>)
    requires
        moving@.len() >= 1,
        waiting@.len() >= 1,
        path_within(moving@),
        path_within(waiting@),
    ensures
        r is None <==> !paths_collide(moving@, waiting@),
        r matches Some((i, j)) ==> is_first_collision(moving@, waiting@, i as int, j as int),
{
    let fm = footprints_along(moving);
    let fw = footprints_along(waiting);
    let mut i: usize = 1;
    while i < moving.len()
        invariant
            1 <= i <= moving@.len(),
            fm@.len() == moving@.len() - 1,
            fw@.len() == waiting@.len() - 1,
            forall|k: int|
                0 <= k < fm@.len() ==> #[trigger] fm@[k] == footprint_spec(
                    moving@[k + 1],
                    moving@[k],
                ) && footprint_within(fm@[k]),
            forall|k: int|
                0 <= k < fw@.len() ==> #[trigger] fw@[k] == footprint_spec(
                    waiting@[k + 1],
                    waiting@[k],
                ) && footprint_within(fw@[k]),
            forall|i2: int, j2: int|
                in_search(moving@, waiting@, i2, j2) && i2 < i ==> !#[trigger] hit(
                    moving@,
                    waiting@,
                    i2,
                    j2,
                ),
        decreases moving@.len() - i,
    {
        let mut j: usize = 1;
        while j < waiting.len()
            invariant
                1 <= i < moving@.len(),
                1 <= j <= waiting@.len(),
                fm@.len() == moving@.len() - 1,
                fw@.len() == waiting@.len() - 1,
                forall|k: int|
                    0 <= k < fm@.len() ==> #[trigger] fm@[k] == footprint_spec(
                        moving@[k + 1],
                        moving@[k],
                    ) && footprint_within(fm@[k]),
                forall|k: int|
                    0 <= k < fw@.len() ==> #[trigger] fw@[k] == footprint_spec(
                        waiting@[k + 1],
                        waiting@[k],
                    ) && footprint_within(fw@[k]),
                forall|i2: int, j2: int|
                    in_search(moving@, waiting@, i2, j2) && (i2 < i || (i2 == i && j2 < j))
                        ==> !#[trigger] hit(moving@, waiting@, i2, j2),
            decreases waiting@.len() - j,
        {
            let a = &fm[i - 1];
            let b = &fw[j - 1];
            if footprints_intersect(a, b) {
                assert(hit(moving@, waiting@, i as int, j as int));
                return Some((i, j));
            }
            j = j + 1;
        }
        i = i + 1;
    }
    proof {
        if paths_collide(moving@, waiting@) {
            let (i2, j2) = choose|i2: int, j2: int|
                in_search(moving@, waiting@, i2, j2) && #[trigger] hit(moving@, waiting@, i2, j2);
            assert(!hit(moving@, waiting@, i2, j2));
        }
    }
    None
}

proof fn lemma_sqrt_bound(n: nat, r: nat, limit: nat)
    requires
        is_isqrt(n, r),
        n < limit * limit,
    ensures
        r < limit,
{
    if r >= limit {
        assert(limit * limit <= r * r) by (nonlinear_arith)
            requires
                r >= limit,
        ;
    }
}

/// Straight-line length between two waypoints, rounded down.
pub fn segment_length(a: Point, b: Point) -> (r: u64)
    requires
        within(a, WAYPOINT_LIMIT as int),
        within(b, WAYPOINT_LIMIT as int),
    ensures
        r == seg_len(a, b),
        r < SEGMENT_LIMIT,
{
    let dx: i64 = b.x - a.x;
    let dy: i64 = b.y - a.y;
    assert(dx * dx <= 0x1000_0000_0000 && dy * dy <= 0x1000_0000_0000) by (nonlinear_arith)
        requires
            -0x40_0000 <= dx <= 0x40_0000,
            -0x40_0000 <= dy <= 0x40_0000,
    ;
    assert(dx * dx >= 0 && dy * dy >= 0) by (nonlinear_arith);
    let sq: u64 = (dx * dx + dy * dy) as u64;
    let r = integer_sqrt(sq);
    proof {
        lemma_sqrt_bound(sq as nat, r as nat, SEGMENT_LIMIT as nat);
    }
    r
}

/// Distance along `p` from waypoint `from` to waypoint `to`.
pub fn distance_along(p: &Vec<Point>, from: usize, to: usize) -> (r: u64)
    requires
        to < p@.len() <= TURN_PATH_POINTS,
        path_within(p@),
    ensures
        r == path_distance(p@, from as int, to as int),
        r <= TURN_PATH_POINTS * SEGMENT_LIMIT,
{
    let mut total: u64 = 0;
    let mut k: usize = from;
    if to <= from {
        return 0;
    }
    while k < to
        invariant
            from <= k <= to < p@.len() <= TURN_PATH_POINTS,
            path_within(p@),
            total == path_distance(p@, from as int, k as int),
            total <= (k - from) * SEGMENT_LIMIT,
        decreases to - k,
    {
        assert(within(p@[k as int], WAYPOINT_LIMIT as int));
        assert(within(p@[k + 1], WAYPOINT_LIMIT as int));
        let s = segment_length(p[k], p[k + 1]);
        total = total + s;
        k = k + 1;
    }
    total
}

/// Milliseconds a vehicle starting from rest needs to cover `d` millipixels.
pub fn entry_time(d: u64) -> (r: u64)
    requires
        d <= DISTANCE_LIMIT,
    ensures
        r == entry_time_ms(d as nat),
{
    let scaled: u64 = 2 * d * 1_000_000 / (ACCELERATION * TICKS_PER_SECOND * TICKS_PER_SECOND);
    integer_sqrt(scaled)
}

/// Milliseconds a vehicle at top speed needs to cover `d` millipixels.
pub fn clearance_time(d: u64) -> (r: u64)
    requires
        d <= DISTANCE_LIMIT,
    ensures
        r == clearance_time_ms(d as nat),
        r <= d,
{
    d * 1000 / (MAX_SPEED * TICKS_PER_SECOND)
}

/// The conflict entry of `waiting` for `moving` (see `conflict_delay_spec`).
pub fn conflict_delay(waiting: SimplifiedCar, moving: SimplifiedCar) -> (r: Option<u64>)
    ensures
        delay_view(r) == conflict_delay_spec(waiting, moving),
{
    if waiting == moving {
        return None;
    }
    let mp = generate_path(moving);
    let wp = generate_path(waiting);
    match find_first_collision(&mp, &wp) {
        None => None,
        Some((i, j)) => {
            proof {
                lemma_first_collision_unique(mp@, wp@, i as int, j as int);
            }
            let entry = entry_time(distance_along(&wp, waiting_point_index(waiting.direction), j));
            let end = if i + CLEARANCE_WAYPOINTS < mp.len() - 1 {
                i + CLEARANCE_WAYPOINTS
            } else {
                mp.len() - 1
            };
            let clear = clearance_time(
                distance_along(&mp, waiting_point_index(moving.direction), end),
            );
            let gap = if clear > entry {
                clear - entry
            } else {
                0
            };
            Some(gap + YELLOW_TIME_MS)
        },
    }
}

/// The conflict row of `waiting`: for every movement, the delay `waiting`
/// observes after it, or `None` where their paths never meet.
pub fn conflict_row(waiting: SimplifiedCar) -> (r: Vec<Option<u64>>)
    ensures
        is_conflict_row(waiting, r@),
{
    let mut row: Vec<Option<u64>> = Vec::new();
    let mut k: usize = 0;
    while k < NUM_MOVEMENTS
        invariant
            k <= NUM_MOVEMENTS,
            row@.len() == k,
            forall|m: int|
                0 <= m < k ==> delay_view(#[trigger] row@[m]) == conflict_delay_spec(
                    waiting,
                    movement_of_index(m as nat),
                ),
        decreases NUM_MOVEMENTS - k,
    {
        let moving = SimplifiedCar::from_index(k);
        row.push(conflict_delay(waiting, moving));
        k = k + 1;
    }
    row
}

/// The whole conflict table, one row per movement in index order.
pub fn build_conflict_table() -> (r: Vec<Vec<Option<u64>>>)
    ensures
        is_conflict_table(r@),
{
    let mut table: Vec<Vec<Option<u64>>> = Vec::new();
    let mut w: usize = 0;
    while w < NUM_MOVEMENTS
        invariant
            w <= NUM_MOVEMENTS,
            table@.len() == w,
            forall|m: int|
                0 <= m < w ==> is_conflict_row(movement_of_index(m as nat), #[trigger] table@[m]@),
        decreases NUM_MOVEMENTS - w,
    {
        table.push(conflict_row(SimplifiedCar::from_index(w)));
        w = w + 1;
    }
    table
}

/// Whether two movements' paths meet does not depend on which one waits: a
/// conflict entry of `a` for `b` exists exactly when one of `b` for `a` does.
pub proof fn lemma_conflict_symmetric(a: SimplifiedCar, b: SimplifiedCar)
    ensures
        conflict_delay_spec(a, b) is Some <==> conflict_delay_spec(b, a) is Some,
{
    let pa = path_spec(a);
    let pb = path_spec(b);
    if paths_collide(pb, pa) {
        let (i, j) = choose|i: int, j: int| in_search(pb, pa, i, j) && #[trigger] hit(pb, pa, i, j);
        lemma_footprints_intersect_symmetric(
            footprint_spec(pb[i], pb[i - 1]),
            footprint_spec(pa[j], pa[j - 1]),
        );
        assert(hit(pa, pb, j, i));
    }
    if paths_collide(pa, pb) {
        let (i, j) = choose|i: int, j: int| in_search(pa, pb, i, j) && #[trigger] hit(pa, pb, i, j);
        lemma_footprints_intersect_symmetric(
            footprint_spec(pa[i], pa[i - 1]),
            footprint_spec(pb[j], pb[j - 1]),
        );
        assert(hit(pb, pa, j, i));
    }
}

/// Building the conflict table is deterministic: any two tables that meet its
/// description hold the same entries.
pub proof fn lemma_conflict_table_deterministic(
    first: Seq<Vec<Option<u64>>>,
    second: Seq<Vec<Option<u64>>>,
)
    requires
        is_conflict_table(first),
        is_conflict_table(second),
    ensures
        forall|w: int| 0 <= w < NUM_MOVEMENTS ==> #[trigger] first[w]@ == second[w]@,
{
    assert forall|w: int| 0 <= w < NUM_MOVEMENTS implies #[trigger] first[w]@ == second[w]@ by {
        let m = movement_of_index(w as nat);
        assert(is_conflict_row(m, first[w]@));
        assert(is_conflict_row(m, second[w]@));
        assert forall|k: int| 0 <= k < NUM_MOVEMENTS implies first[w]@[k] == second[w]@[k] by {
            assert(delay_view(first[w]@[k]) == delay_view(second[w]@[k]));
        }
        assert(first[w]@ =~= second[w]@);
    }
}

} // verus!
