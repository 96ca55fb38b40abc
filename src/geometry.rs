use vstd::prelude::*;
use vstd::arithmetic::div_mod::{lemma_div_basics_5, lemma_div_pos_is_pos};

verus! {

/// Bound on the absolute value of a coordinate that the orientation test accepts.
pub const COORD_LIMIT: i64 = 0x100_0000_0000;

/// Bound on the absolute value of a waypoint coordinate that a footprint accepts.
pub const WAYPOINT_LIMIT: i64 = 0x20_0000;

/// Half of a vehicle's length, in millipixels.
pub const HALF_CAR_LENGTH: i64 = 25000;

/// Half of a vehicle's width, in millipixels.
pub const HALF_CAR_WIDTH: i64 = 16500;

/// A point of the plane in millipixels, `y` growing downwards.
#[derive(Clone, Copy, Debug, PartialEq, Eq, Structural)]
pub struct Point {
    pub x: i64,
    pub y: i64,
}

/// Both coordinates lie in `[-limit, limit]`.
pub open spec fn within(p: Point, limit: int) -> bool {
    -limit <= p.x <= limit && -limit <= p.y <= limit
}

/// Strict counter-clockwise orientation of the triple `(a, b, c)`.
pub open spec fn ccw_spec(a: Point, b: Point, c: Point) -> bool {
    (c.y - a.y) * (b.x - a.x) > (b.y - a.y) * (c.x - a.x)
}

/// The segments `ab` and `cd` cross: each one's endpoints lie strictly on
/// opposite sides of the other, by the strict orientation test; segments that
/// lie on one line never count.
pub open spec fn segments_intersect_spec(a: Point, b: Point, c: Point, d: Point) -> bool {
    ccw_spec(a, c, d) != ccw_spec(b, c, d) && ccw_spec(a, b, c) != ccw_spec(a, b, d)
}

proof fn lemma_product_bound(u: int, v: int, bound: int)
    requires
        -bound <= u <= bound,
        -bound <= v <= bound,
        0 <= bound,
    ensures
        -(bound * bound) <= u * v <= bound * bound,
{
    assert(-(bound * bound) <= u * v <= bound * bound) by (nonlinear_arith)
        requires
            -bound <= u <= bound,
            -bound <= v <= bound,
            0 <= bound,
    ;
}

proof fn lemma_offset_product_bound(v: int, h: int)
    requires
        -0x8000 <= v <= 0x8000,
        -0x40_0000 <= h <= 0x40_0000,
    ensures
        -0x20_0000_0000 <= v * h <= 0x20_0000_0000,
{
    assert(-0x20_0000_0000 <= v * h <= 0x20_0000_0000) by (nonlinear_arith)
        requires
            -0x8000 <= v <= 0x8000,
            -0x40_0000 <= h <= 0x40_0000,
    ;
}

proof fn lemma_ccw_cyclic(a: Point, b: Point, c: Point)
    ensures
        ccw_spec(a, b, c) == ccw_spec(b, c, a),
{
    let (ax, ay, bx, by, cx, cy) = (a.x as int, a.y as int, b.x as int, b.y as int, c.x as int, c.y as int);
    assert((cy - ay) * (bx - ax) - (by - ay) * (cx - ax) == (ay - by) * (cx - bx) - (cy - by) * (ax - bx))
        by (nonlinear_arith);
}

/// Whether two segments cross does not depend on their order.
pub proof fn lemma_segments_intersect_symmetric(a: Point, b: Point, c: Point, d: Point)
    ensures
        segments_intersect_spec(a, b, c, d) == segments_intersect_spec(c, d, a, b),
{
    lemma_ccw_cyclic(a, b, c);
    lemma_ccw_cyclic(b, c, a);
    lemma_ccw_cyclic(a, b, d);
    lemma_ccw_cyclic(b, d, a);
    lemma_ccw_cyclic(a, c, d);
    lemma_ccw_cyclic(c, d, a);
    lemma_ccw_cyclic(b, c, d);
    lemma_ccw_cyclic(c, d, b);
}

/// Whether two footprints intersect does not depend on their order.
pub proof fn lemma_footprints_intersect_symmetric(f: Footprint, g: Footprint)
    ensures
        footprints_intersect_spec(f, g) == footprints_intersect_spec(g, f),
{
    if footprints_intersect_spec(f, g) {
        let (k, l) = choose|k: int, l: int| 0 <= k < 4 && 0 <= l < 4 && #[trigger] edge_crosses(f, k, g, l);
        lemma_segments_intersect_symmetric(
            corner_at(f, k),
            corner_at(f, (k + 1) % 4),
            corner_at(g, l),
            corner_at(g, (l + 1) % 4),
        );
        assert(edge_crosses(g, l, f, k));
    }
    if footprints_intersect_spec(g, f) {
        let (k, l) = choose|k: int, l: int| 0 <= k < 4 && 0 <= l < 4 && #[trigger] edge_crosses(g, k, f, l);
        lemma_segments_intersect_symmetric(
            corner_at(g, k),
            corner_at(g, (k + 1) % 4),
            corner_at(f, l),
            corner_at(f, (l + 1) % 4),
        );
        assert(edge_crosses(f, l, g, k));
    }
}

/// Strict counter-clockwise orientation test, exact on integer coordinates.
pub fn ccw(a: Point, b: Point, c: Point) -> (r: bool)
    requires
        within(a, COORD_LIMIT as int),
        within(b, COORD_LIMIT as int),
        within(c, COORD_LIMIT as int),
    ensures
        r == ccw_spec(a, b, c),
{
    let bound: i128 = 2 * (COORD_LIMIT as i128);
    let u1: i128 = c.y as i128 - a.y as i128;
    let v1: i128 = b.x as i128 - a.x as i128;
    let u2: i128 = b.y as i128 - a.y as i128;
    let v2: i128 = c.x as i128 - a.x as i128;
    proof {
        lemma_product_bound(u1 as int, v1 as int, bound as int);
        lemma_product_bound(u2 as int, v2 as int, bound as int);
    }
    u1 * v1 > u2 * v2
}

/// Whether the segments `line` and `other_line` cross (see `segments_intersect_spec`).
pub fn line_intersect(line: (Point, Point), other_line: &(Point, Point)) -> (r: bool)
    requires
        within(line.0, COORD_LIMIT as int),
        within(line.1, COORD_LIMIT as int),
        within(other_line.0, COORD_LIMIT as int),
        within(other_line.1, COORD_LIMIT as int),
    ensures
        r == segments_intersect_spec(line.0, line.1, other_line.0, other_line.1),
{
    let a = line.0;
    let b = line.1;
    let c = other_line.0;
    let d = other_line.1;
    ccw(a, c, d) != ccw(b, c, d) && ccw(a, b, c) != ccw(a, b, d)
}

/// `r` is the integer square root of `n`.
pub open spec fn is_isqrt(n: nat, r: nat) -> bool {
    r * r <= n < (r + 1) * (r + 1)
}

/// The integer square root: the largest `r` with `r * r <= n`.
pub open spec fn isqrt(n: nat) -> nat {
    choose|r: nat| is_isqrt(n, r)
}

/// The integer square root is unique, so it is what `isqrt` picks.
pub proof fn lemma_isqrt_unique(n: nat, r: nat)
    requires
        is_isqrt(n, r),
    ensures
        isqrt(n) == r,
{
    let s = isqrt(n);
    assert(is_isqrt(n, s));
    if s < r {
        assert((s + 1) * (s + 1) <= r * r) by (nonlinear_arith)
            requires
                s < r,
        ;
    } else if r < s {
        assert((r + 1) * (r + 1) <= s * s) by (nonlinear_arith)
            requires
                r < s,
        ;
    }
}

/// Integer square root by bisection.
pub fn integer_sqrt(n: u64) -> (r: u64)
    requires
        n < 0x4000_0000_0000_0000,
    ensures
        r as nat == isqrt(n as nat),
        is_isqrt(n as nat, r as nat),
        r < 0x8000_0000,
{
    let mut lo: u64 = 0;
    let mut hi: u64 = 0x8000_0000;
    assert(0x8000_0000u64 * 0x8000_0000u64 == 0x4000_0000_0000_0000u64);
    while hi - lo > 1
        invariant
            lo < hi <= 0x8000_0000,
            lo * lo <= n,
            n < hi * hi,
        decreases hi - lo,
    {
        let mid: u64 = lo + (hi - lo) / 2;
        assert(mid * mid <= 0x4000_0000_0000_0000) by (nonlinear_arith)
            requires
                mid < 0x8000_0000,
        ;
        if mid * mid <= n {
            lo = mid;
        } else {
            hi = mid;
        }
    }
    proof {
        assert(hi == lo + 1);
        lemma_isqrt_unique(n as nat, lo as nat);
    }
    lo
}

/// `num / den` rounded toward zero, for a positive `den`.
pub open spec fn div_toward_zero(num: int, den: int) -> int {
    if num >= 0 {
        num / den
    } else {
        -((-num) / den)
    }
}

fn scaled(num: i64, den: i64) -> (r: i64)
    requires
        den >= 1,
        -0x40_0000_0000 <= num <= 0x40_0000_0000,
    ensures
        r == div_toward_zero(num as int, den as int),
        -0x40_0000_0000 <= r <= 0x40_0000_0000,
{
    if num >= 0 {
        proof {
            lemma_div_basics_5(num as int, den as int);
            lemma_div_pos_is_pos(num as int, den as int);
        }
        ((num as u64) / (den as u64)) as i64
    } else {
        proof {
            lemma_div_basics_5(-num as int, den as int);
            lemma_div_pos_is_pos(-num as int, den as int);
        }
        let q: u64 = ((-num) as u64) / (den as u64);
        -(q as i64)
    }
}

/// The four corners of a vehicle's footprint, in the order front left, front
/// right, back right, back left.
#[derive(Clone, Copy, Debug, PartialEq, Eq, Structural)]
pub struct Footprint {
    pub front_left: Point,
    pub front_right: Point,
    pub back_right: Point,
    pub back_left: Point,
}

/// The heading of travel from `prev` to `pos`; a vehicle that has not moved
/// faces along the x axis.
pub open spec fn heading(pos: Point, prev: Point) -> (int, int) {
    if pos.x == prev.x && pos.y == prev.y {
        (1, 0)
    } else {
        (pos.x - prev.x, pos.y - prev.y)
    }
}

/// Length of a heading vector, rounded down.
pub open spec fn heading_len(h: (int, int)) -> int {
    isqrt((h.0 * h.0 + h.1 * h.1) as nat) as int
}

/// The corner at offset `(vx, vy)` of a footprint centred at `pos` and turned
/// along heading `h`: the offset is rotated by the heading's angle, whose
/// cosine and sine are `h.0 / |h|` and `h.1 / |h|`.
pub open spec fn corner_spec(pos: Point, h: (int, int), vx: int, vy: int) -> Point {
    let len = heading_len(h);
    Point {
        x: (pos.x + div_toward_zero(vx * h.0 - vy * h.1, len)) as i64,
        y: (pos.y + div_toward_zero(vx * h.1 + vy * h.0, len)) as i64,
    }
}

/// The footprint of a vehicle at `pos` that came from `prev`.
pub open spec fn footprint_spec(pos: Point, prev: Point) -> Footprint {
    let h = heading(pos, prev);
    Footprint {
        front_left: corner_spec(pos, h, -HALF_CAR_LENGTH, -HALF_CAR_WIDTH),
        front_right: corner_spec(pos, h, HALF_CAR_LENGTH as int, -HALF_CAR_WIDTH),
        back_right: corner_spec(pos, h, HALF_CAR_LENGTH as int, HALF_CAR_WIDTH as int),
        back_left: corner_spec(pos, h, -HALF_CAR_LENGTH, HALF_CAR_WIDTH as int),
    }
}

/// Corner `k` of a footprint, going round it.
pub open spec fn corner_at(f: Footprint, k: int) -> Point {
    if k == 0 {
        f.front_left
    } else if k == 1 {
        f.front_right
    } else if k == 2 {
        f.back_right
    } else {
        f.back_left
    }
}

/// Edge `k` of a footprint runs from corner `k` to the next corner round.
pub open spec fn edge_crosses(f: Footprint, k: int, g: Footprint, l: int) -> bool {
    segments_intersect_spec(
        corner_at(f, k),
        corner_at(f, (k + 1) % 4),
        corner_at(g, l),
        corner_at(g, (l + 1) % 4),
    )
}

/// Two footprints intersect when an edge of one crosses an edge of the other.
pub open spec fn footprints_intersect_spec(f: Footprint, g: Footprint) -> bool {
    exists|k: int, l: int| 0 <= k < 4 && 0 <= l < 4 && #[trigger] edge_crosses(f, k, g, l)
}

/// Every corner of the footprint lies within the orientation test's range.
pub open spec fn footprint_within(f: Footprint) -> bool {
    forall|k: int| 0 <= k < 4 ==> within(#[trigger] corner_at(f, k), COORD_LIMIT as int)
}

fn corner(pos: Point, hx: i64, hy: i64, len: i64, vx: i64, vy: i64) -> (r: Point)
    requires
        within(pos, WAYPOINT_LIMIT as int),
        -2 * WAYPOINT_LIMIT <= hx <= 2 * WAYPOINT_LIMIT,
        -2 * WAYPOINT_LIMIT <= hy <= 2 * WAYPOINT_LIMIT,
        -HALF_CAR_LENGTH <= vx <= HALF_CAR_LENGTH,
        -HALF_CAR_LENGTH <= vy <= HALF_CAR_LENGTH,
        len >= 1,
        len == heading_len((hx as int, hy as int)),
    ensures
        r == corner_spec(pos, (hx as int, hy as int), vx as int, vy as int),
        within(r, COORD_LIMIT as int),
{
    proof {
        lemma_offset_product_bound(vx as int, hx as int);
        lemma_offset_product_bound(vy as int, hy as int);
        lemma_offset_product_bound(vx as int, hy as int);
        lemma_offset_product_bound(vy as int, hx as int);
    }
    let dx = scaled(vx * hx - vy * hy, len);
    let dy = scaled(vx * hy + vy * hx, len);
    Point { x: pos.x + dx, y: pos.y + dy }
}

/// The footprint of a vehicle standing at `pos`, turned along its travel from `prev`.
pub fn footprint(pos: Point, prev: Point) -> (r: Footprint)
    requires
        within(pos, WAYPOINT_LIMIT as int),
        within(prev, WAYPOINT_LIMIT as int),
    ensures
        r == footprint_spec(pos, prev),
        footprint_within(r),
{
    let mut hx: i64 = pos.x - prev.x;
    let mut hy: i64 = pos.y - prev.y;
    if hx == 0 && hy == 0 {
        hx = 1;
    }
    proof {
        lemma_product_bound(hx as int, hx as int, 2 * WAYPOINT_LIMIT as int);
        lemma_product_bound(hy as int, hy as int, 2 * WAYPOINT_LIMIT as int);
        assert(hx * hx >= 0 && hy * hy >= 0) by (nonlinear_arith);
    }
    let sq: u64 = (hx * hx + hy * hy) as u64;
    let len = integer_sqrt(sq) as i64;
    proof {
        assert(hx * hx + hy * hy >= 1) by (nonlinear_arith)
            requires
                hx != 0 || hy != 0,
        ;
    }
    let r = Footprint {
        front_left: corner(pos, hx, hy, len, -HALF_CAR_LENGTH, -HALF_CAR_WIDTH),
        front_right: corner(pos, hx, hy, len, HALF_CAR_LENGTH, -HALF_CAR_WIDTH),
        back_right: corner(pos, hx, hy, len, HALF_CAR_LENGTH, HALF_CAR_WIDTH),
        back_left: corner(pos, hx, hy, len, -HALF_CAR_LENGTH, HALF_CAR_WIDTH),
    };
    r
}

fn corner_of(f: &Footprint, k: usize) -> (r: Point)
    requires
        k < 4,
    ensures
        r == corner_at(*f, k as int),
{
    if k == 0 {
        f.front_left
    } else if k == 1 {
        f.front_right
    } else if k == 2 {
        f.back_right
    } else {
        f.back_left
    }
}

/// Whether two footprints overlap, tested edge against edge.
pub fn footprints_intersect(f: &Footprint, g: &Footprint) -> (r: bool)
    requires
        footprint_within(*f),
        footprint_within(*g),
    ensures
        r == footprints_intersect_spec(*f, *g),
{
    let mut k: usize = 0;
    while k < 4
        invariant
            k <= 4,
            footprint_within(*f),
            footprint_within(*g),
            forall|k2: int, l2: int| 0 <= k2 < k && 0 <= l2 < 4 ==> !edge_crosses(*f, k2, *g, l2),
        decreases 4 - k,
    {
        let mut l: usize = 0;
        while l < 4
            invariant
                k < 4,
                l <= 4,
                footprint_within(*f),
                footprint_within(*g),
                forall|k2: int, l2: int|
                    0 <= k2 < k && 0 <= l2 < 4 ==> !edge_crosses(*f, k2, *g, l2),
                forall|l2: int| 0 <= l2 < l ==> !edge_crosses(*f, k as int, *g, l2),
            decreases 4 - l,
        {
            let a = corner_of(f, k);
            let b = corner_of(f, (k + 1) % 4);
            let c = corner_of(g, l);
            let d = corner_of(g, (l + 1) % 4);
            if line_intersect((a, b), &(c, d)) {
                assert(edge_crosses(*f, k as int, *g, l as int));
                return true;
            }
            l = l + 1;
        }
        k = k + 1;
    }
    false
}

} // verus!
