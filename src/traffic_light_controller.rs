use vstd::prelude::*;
use crate::conflict::is_conflict_row;
use crate::signal_laws::{lemma_preempt_ready, lemma_tick_safe};
use crate::movement::{
    movement_index, movement_of_index, Direction, Origin, SimplifiedCar, NUM_MOVEMENTS,
};
use crate::traffic_light::{
    green_due, yellowed, armed, can_change_to_red_spec, elapsed, is_active, movement_of, next_light, shifted,
    can_shift, TrafficLight, TrafficLightState, YELLOW_ENTRY_MS,
};

verus! {

/// A movement that may turn green this tick: its signal's index, its queue,
/// and the delay it must observe after its active conflicting peers.
#[derive(Clone, Copy, Debug, PartialEq, Eq, Structural)]
pub struct Candidate {
    pub light: usize,
    pub queue: usize,
    pub delay: u64,
}

/// The signals of all movements, indexed densely, each with its conflict row.
pub open spec fn lights_wf(l: Seq<TrafficLight>) -> bool {
    &&& l.len() == NUM_MOVEMENTS
    &&& forall|i: int|
        0 <= i < NUM_MOVEMENTS ==> movement_of(#[trigger] l[i]) == movement_of_index(i as nat)
            && is_conflict_row(movement_of_index(i as nat), l[i].intersecting_lights@)
}

/// Every signal has a full conflict row.
pub open spec fn rows_wf(l: Seq<TrafficLight>) -> bool {
    &&& l.len() == NUM_MOVEMENTS
    &&& forall|i: int|
        0 <= i < NUM_MOVEMENTS ==> (#[trigger] l[i]).intersecting_lights@.len() == NUM_MOVEMENTS
}

/// The conflict entry of signal `i` for movement `p`.
pub open spec fn row_entry(l: Seq<TrafficLight>, i: int, p: int) -> Option<u64> {
    l[i].intersecting_lights@[p]
}

/// The delay stored in a conflict entry (zero for none).
pub open spec fn entry_delay(o: Option<u64>) -> nat {
    match o {
        Some(d) => d as nat,
        None => 0,
    }
}

/// Two different movements conflict: one appears in the other's conflict row.
pub open spec fn lights_conflict(l: Seq<TrafficLight>, a: int, b: int) -> bool {
    a != b && (row_entry(l, a, b) is Some || row_entry(l, b, a) is Some)
}

/// Peer `p` conflicts with movement `i` and shows green or yellow.
pub open spec fn peer_active(l: Seq<TrafficLight>, i: int, p: int) -> bool {
    row_entry(l, i, p) is Some && is_active(l[p])
}

/// Peer `p` of movement `i` holds it back: it shows green or yellow and
/// cannot be let go to red yet.
pub open spec fn peer_holds(l: Seq<TrafficLight>, i: int, p: int, now: u64) -> bool {
    row_entry(l, i, p) is Some && is_active(l[p]) && !can_change_to_red_spec(l[p], now)
}

/// Some conflicting peer of `i` holds it back.
pub open spec fn blocked(l: Seq<TrafficLight>, i: int, now: u64) -> bool {
    exists|p: int| 0 <= p < NUM_MOVEMENTS && #[trigger] peer_holds(l, i, p, now)
}

/// The vehicles waiting at the active conflicting peers of `i` among the first `k` movements.
pub open spec fn competing_queue(l: Seq<TrafficLight>, q: Seq<usize>, i: int, k: int) -> nat
    decreases k,
{
    if k <= 0 {
        0
    } else {
        competing_queue(l, q, i, k - 1) + if peer_active(l, i, k - 1) {
            q[k - 1] as nat
        } else {
            0
        }
    }
}

/// The largest conflict entry of `i` for an active peer among the first `k`
/// movements (zero when there is none).
pub open spec fn max_delay(l: Seq<TrafficLight>, i: int, k: int) -> nat
    decreases k,
{
    if k <= 0 {
        0
    } else {
        let m = max_delay(l, i, k - 1);
        let d = entry_delay(row_entry(l, i, k - 1));
        if peer_active(l, i, k - 1) && d > m {
            d
        } else {
            m
        }
    }
}

/// Movement `i` may be promoted this tick: it is red with no request of its
/// own pending, vehicles wait for it, no conflicting peer holds it back, and it
/// has strictly more vehicles waiting than all active conflicting peers together.
pub open spec fn eligible(l: Seq<TrafficLight>, q: Seq<usize>, i: int, now: u64) -> bool {
    &&& l[i].state == TrafficLightState::Red
    &&& !l[i].green_requested
    &&& q[i] > 0
    &&& !blocked(l, i, now)
    &&& q[i] > competing_queue(l, q, i, NUM_MOVEMENTS as int)
}

/// The candidate record of movement `i`.
pub open spec fn candidate_of(l: Seq<TrafficLight>, q: Seq<usize>, i: int) -> Candidate {
    Candidate { light: i as usize, queue: q[i], delay: max_delay(l, i, NUM_MOVEMENTS as int) as u64 }
}

/// The eligible movements among the first `k`, in index order.
pub open spec fn candidates_upto(l: Seq<TrafficLight>, q: Seq<usize>, now: u64, k: int) -> Seq<
    Candidate,
>
    decreases k,
{
    if k <= 0 {
        Seq::empty()
    } else if eligible(l, q, k - 1, now) {
        candidates_upto(l, q, now, k - 1).push(candidate_of(l, q, k - 1))
    } else {
        candidates_upto(l, q, now, k - 1)
    }
}

/// Two candidates are for different, conflicting movements.
pub open spec fn candidates_conflict(l: Seq<TrafficLight>, x: Candidate, y: Candidate) -> bool {
    x.light < NUM_MOVEMENTS && y.light < NUM_MOVEMENTS && lights_conflict(
        l,
        x.light as int,
        y.light as int,
    )
}

/// The first candidate from position `k` on that conflicts with candidate `i`.
pub open spec fn first_rival(l: Seq<TrafficLight>, c: Seq<Candidate>, i: int, k: int) -> Option<
    int,
>
    decreases c.len() - k,
{
    if k >= c.len() || k < 0 {
        None
    } else if candidates_conflict(l, c[i], c[k]) {
        Some(k)
    } else {
        first_rival(l, c, i, k + 1)
    }
}

/// Of two conflicting candidates, the position of the one to drop: the one
/// with fewer vehicles waiting; on a tie, candidate `i` if it needs the longer
/// delay, else the other.
pub open spec fn loser(c: Seq<Candidate>, i: int, o: int) -> int {
    if c[i].queue < c[o].queue {
        i
    } else if c[i].queue > c[o].queue {
        o
    } else if c[i].delay > c[o].delay {
        i
    } else {
        o
    }
}

/// Greedy resolution of conflicts among candidates: scanning from position
/// `i`, the first candidate that has a rival loses the weaker of the pair, and
/// the scan starts over; it ends when no candidate has a rival.
pub open spec fn resolve_from(l: Seq<TrafficLight>, c: Seq<Candidate>, i: int) -> Seq<Candidate>
    decreases c.len(), c.len() - i,
{
    if i >= c.len() || i < 0 {
        c
    } else {
        match first_rival(l, c, i, 0) {
            None => resolve_from(l, c, i + 1),
            Some(o) => {
                let gone = loser(c, i, o);
                if 0 <= gone < c.len() {
                    resolve_from(l, c.remove(gone), 0)
                } else {
                    c
                }
            },
        }
    }
}

/// The signals after each chosen candidate's green request is armed at `now`.
pub open spec fn grant_requests(l: Seq<TrafficLight>, s: Seq<Candidate>, now: u64) -> Seq<TrafficLight>
    decreases s.len(),
{
    if s.len() == 0 {
        l
    } else {
        let rest = grant_requests(l, s.drop_last(), now);
        let c = s.last();
        if c.light < rest.len() {
            rest.update(c.light as int, armed(rest[c.light as int], c.delay, now))
        } else {
            rest
        }
    }
}

/// Every signal whose request does not fall due advances one step to `now`
/// with its own queue; those whose request falls due wait.
pub open spec fn stepped(l: Seq<TrafficLight>, q: Seq<usize>, now: u64) -> Seq<TrafficLight> {
    Seq::new(
        l.len(),
        |i: int|
            if green_due(l[i], now) {
                l[i]
            } else {
                next_light(l[i], now, q[i] as nat)
            },
    )
}

/// Every movement that conflicts with `i` shows red.
pub open spec fn peers_red(l: Seq<TrafficLight>, i: int) -> bool {
    forall|p: int|
        0 <= p < l.len() && #[trigger] lights_conflict(l, i, p) ==> l[p].state
            == TrafficLightState::Red
}

/// The due requests among the first `k` movements fired in index order: the
/// request of movement `i` turns its signal green only if every movement that
/// conflicts with it shows red at that point, counting the requests fired
/// before it; otherwise it stays pending for a later tick.
pub open spec fn fire_upto(
    s: Seq<TrafficLight>,
    l: Seq<TrafficLight>,
    q: Seq<usize>,
    now: u64,
    k: int,
) -> Seq<TrafficLight>
    decreases k,
{
    if k <= 0 {
        s
    } else {
        let f = fire_upto(s, l, q, now, k - 1);
        let i = k - 1;
        if green_due(l[i], now) && peers_red(f, i) {
            f.update(i, next_light(l[i], now, q[i] as nat))
        } else {
            f
        }
    }
}

/// Every signal advanced one step to `now` with its own queue: the signals
/// without a due request step first, then the due requests fire in index order.
pub open spec fn advanced(l: Seq<TrafficLight>, q: Seq<usize>, now: u64) -> Seq<TrafficLight> {
    fire_upto(stepped(l, q, now), l, q, now, l.len() as int)
}

/// Movement `j` conflicts with a chosen candidate.
pub open spec fn conflicts_with_chosen(l: Seq<TrafficLight>, s: Seq<Candidate>, j: int) -> bool {
    exists|k: int|
        0 <= k < s.len() && s[k].light < NUM_MOVEMENTS && #[trigger] lights_conflict(
            l,
            s[k].light as int,
            j,
        )
}

/// Every green signal that conflicts with a chosen candidate turns yellow at `now`.
pub open spec fn preempt(l: Seq<TrafficLight>, s: Seq<Candidate>, now: u64) -> Seq<TrafficLight> {
    Seq::new(
        l.len(),
        |j: int|
            if l[j].state == TrafficLightState::Green && conflicts_with_chosen(l, s, j) {
                yellowed(l[j], now)
            } else {
                l[j]
            },
    )
}

/// The signals after one tick: every signal advances, the eligible movements
/// are gathered, their mutual conflicts resolved, the survivors armed, and the
/// green signals they conflict with turned yellow.
pub open spec fn tick(l: Seq<TrafficLight>, q: Seq<usize>, now: u64) -> Seq<TrafficLight> {
    let a = advanced(l, q, now);
    let s = resolve_from(a, candidates_upto(a, q, now, NUM_MOVEMENTS as int), 0);
    preempt(grant_requests(a, s, now), s, now)
}

/// No two conflicting movements both show green or yellow.
pub open spec fn active_conflict_free(l: Seq<TrafficLight>) -> bool {
    forall|a: int, b: int|
        0 <= a < l.len() && 0 <= b < l.len() && #[trigger] lights_conflict(l, a, b) ==> !(is_active(
            l[a],
        ) && is_active(l[b]))
}

/// A pending green request belongs to a red signal.
pub open spec fn requests_consistent(l: Seq<TrafficLight>) -> bool {
    forall|j: int| 0 <= j < l.len() && (#[trigger] l[j]).green_requested ==> l[j].state
        == TrafficLightState::Red
}

/// The safety invariant of the signals.
pub open spec fn signals_safe(l: Seq<TrafficLight>) -> bool {
    active_conflict_free(l) && requests_consistent(l)
}

/// Granting requests changes no signal's movement, conflict row or state, and
/// arms only the chosen candidates' signals.
pub proof fn lemma_grant_keeps_signals(l: Seq<TrafficLight>, s: Seq<Candidate>, now: u64)
    ensures
        grant_requests(l, s, now).len() == l.len(),
        forall|i: int|
            0 <= i < l.len() ==> {
                let g = #[trigger] grant_requests(l, s, now)[i];
                &&& movement_of(g) == movement_of(l[i])
                &&& g.intersecting_lights == l[i].intersecting_lights
                &&& g.state == l[i].state
                &&& g.green_start == l[i].green_start
                &&& (g.green_requested ==> l[i].green_requested || exists|k: int|
                    0 <= k < s.len() && s[k].light == i)
            },
    decreases s.len(),
{
    if s.len() > 0 {
        lemma_grant_keeps_signals(l, s.drop_last(), now);
        let rest = grant_requests(l, s.drop_last(), now);
        assert forall|i: int| 0 <= i < l.len() implies {
            let g = #[trigger] grant_requests(l, s, now)[i];
            g.green_requested ==> l[i].green_requested || exists|k: int|
                0 <= k < s.len() && s[k].light == i
        } by {
            if rest[i].green_requested && !l[i].green_requested {
                let k = choose|k: int| 0 <= k < s.drop_last().len() && s.drop_last()[k].light == i;
                assert(s[k].light == i);
            }
            if s.last().light == i {
                assert(s[s.len() - 1].light == i);
            }
        }
    }
}

/// Firing changes only signals whose request is due, and each of those to its
/// next state; it keeps every signal's movement and conflict row.
pub proof fn lemma_fire_upto(
    s: Seq<TrafficLight>,
    l: Seq<TrafficLight>,
    q: Seq<usize>,
    now: u64,
    k: int,
)
    requires
        s.len() == l.len(),
        q.len() == l.len(),
        0 <= k <= l.len(),
        forall|j: int|
            0 <= j < l.len() ==> movement_of(#[trigger] s[j]) == movement_of(l[j])
                && s[j].intersecting_lights == l[j].intersecting_lights,
    ensures
        fire_upto(s, l, q, now, k).len() == l.len(),
        forall|j: int|
            0 <= j < l.len() ==> {
                let f = #[trigger] fire_upto(s, l, q, now, k)[j];
                &&& movement_of(f) == movement_of(s[j])
                &&& f.intersecting_lights == s[j].intersecting_lights
                &&& (k <= j ==> f == s[j])
                &&& (f == s[j] || (green_due(l[j], now) && f == next_light(l[j], now, q[j] as nat)))
            },
    decreases k,
{
    if k > 0 {
        lemma_fire_upto(s, l, q, now, k - 1);
    }
}

/// Advancing keeps every signal's movement and conflict row; a signal whose
/// request is not due takes its plain step.
pub proof fn lemma_advance_keeps_rows(l: Seq<TrafficLight>, q: Seq<usize>, now: u64)
    requires
        l.len() == q.len(),
    ensures
        stepped(l, q, now).len() == l.len(),
        advanced(l, q, now).len() == l.len(),
        forall|i: int|
            0 <= i < l.len() ==> movement_of(#[trigger] advanced(l, q, now)[i]) == movement_of(
                l[i],
            ) && advanced(l, q, now)[i].intersecting_lights == l[i].intersecting_lights
                && stepped(l, q, now)[i].intersecting_lights == l[i].intersecting_lights
                && (!green_due(l[i], now) ==> advanced(l, q, now)[i] == next_light(
                l[i],
                now,
                q[i] as nat,
            )) && (advanced(l, q, now)[i] == l[i] || advanced(l, q, now)[i] == next_light(
                l[i],
                now,
                q[i] as nat,
            )),
{
    let s1 = stepped(l, q, now);
    assert forall|j: int| 0 <= j < l.len() implies movement_of(#[trigger] s1[j]) == movement_of(l[j])
        && s1[j].intersecting_lights == l[j].intersecting_lights by {}
    lemma_fire_upto(s1, l, q, now, l.len() as int);
}

/// Whether two candidates are for different, conflicting movements.
pub fn conflicting(lights: &Vec<TrafficLight>, x: Candidate, y: Candidate) -> (r: bool)
    requires
        rows_wf(lights@),
    ensures
        r == candidates_conflict(lights@, x, y),
{
    if x.light >= NUM_MOVEMENTS || y.light >= NUM_MOVEMENTS || x.light == y.light {
        return false;
    }
    lights[x.light].intersecting_lights[y.light].is_some()
        || lights[y.light].intersecting_lights[x.light].is_some()
}

/// The eligibility of movement `i` this tick: its candidate record if it is
/// eligible, else `None`.
pub fn admission_check(lights: &Vec<TrafficLight>, queue: &Vec<usize>, i: usize, now: u64) -> (r:
    Option<Candidate>)
    requires
        rows_wf(lights@),
        queue@.len() == NUM_MOVEMENTS,
        i < NUM_MOVEMENTS,
    ensures
        r is Some <==> eligible(lights@, queue@, i as int, now),
        r matches Some(c) ==> c == candidate_of(lights@, queue@, i as int),
{
    if lights[i].state != TrafficLightState::Red || lights[i].green_requested || queue[i] == 0 {
        return None;
    }
    let row = &lights[i].intersecting_lights;
    let mut competing: u128 = 0;
    let mut longest: u64 = 0;
    let mut p: usize = 0;
    while p < NUM_MOVEMENTS
        invariant
            rows_wf(lights@),
            queue@.len() == NUM_MOVEMENTS,
            i < NUM_MOVEMENTS,
            *row == lights@[i as int].intersecting_lights,
            p <= NUM_MOVEMENTS,
            competing == competing_queue(lights@, queue@, i as int, p as int),
            competing <= p * 0x1_0000_0000_0000_0000,
            longest == max_delay(lights@, i as int, p as int),
            forall|p2: int| 0 <= p2 < p ==> !#[trigger] peer_holds(lights@, i as int, p2, now),
        decreases NUM_MOVEMENTS - p,
    {
        assert(lights@[i as int].intersecting_lights@.len() == NUM_MOVEMENTS);
        match row[p] {
            Some(d) => {
                if lights[p].state != TrafficLightState::Red {
                    if !lights[p].can_change_to_red(now) {
                        assert(peer_holds(lights@, i as int, p as int, now));
                        return None;
                    }
                    assert(queue@[p as int] <= 0xffff_ffff_ffff_ffff);
                    competing = competing + queue[p] as u128;
                    if d > longest {
                        longest = d;
                    }
                }
            },
            None => {},
        }
        p = p + 1;
    }
    if (queue[i] as u128) > competing {
        Some(Candidate { light: i, queue: queue[i], delay: longest })
    } else {
        None
    }
}

/// The eligible movements of this tick, in index order.
pub fn eligible_candidates(lights: &Vec<TrafficLight>, queue: &Vec<usize>, now: u64) -> (r: Vec<
    Candidate,
>)
    requires
        rows_wf(lights@),
        queue@.len() == NUM_MOVEMENTS,
    ensures
        r@ == candidates_upto(lights@, queue@, now, NUM_MOVEMENTS as int),
{
    let mut r: Vec<Candidate> = Vec::new();
    let mut k: usize = 0;
    while k < NUM_MOVEMENTS
        invariant
            rows_wf(lights@),
            queue@.len() == NUM_MOVEMENTS,
            k <= NUM_MOVEMENTS,
            r@ == candidates_upto(lights@, queue@, now, k as int),
        decreases NUM_MOVEMENTS - k,
    {
        match admission_check(lights, queue, k, now) {
            Some(c) => r.push(c),
            None => {},
        }
        k = k + 1;
    }
    r
}

/// Whether every movement that conflicts with `i` shows red.
pub fn peers_all_red(lights: &Vec<TrafficLight>, i: usize) -> (r: bool)
    requires
        rows_wf(lights@),
        i < NUM_MOVEMENTS,
    ensures
        r == peers_red(lights@, i as int),
{
    let mut p: usize = 0;
    while p < NUM_MOVEMENTS
        invariant
            rows_wf(lights@),
            i < NUM_MOVEMENTS,
            p <= NUM_MOVEMENTS,
            forall|p2: int|
                0 <= p2 < p && #[trigger] lights_conflict(lights@, i as int, p2) ==> lights@[p2].state
                    == TrafficLightState::Red,
        decreases NUM_MOVEMENTS - p,
    {
        assert(lights@[i as int].intersecting_lights@.len() == NUM_MOVEMENTS);
        assert(lights@[p as int].intersecting_lights@.len() == NUM_MOVEMENTS);
        if p != i && (lights[i].intersecting_lights[p].is_some()
            || lights[p].intersecting_lights[i].is_some())
            && lights[p].state != TrafficLightState::Red {
            assert(lights_conflict(lights@, i as int, p as int));
            return false;
        }
        p = p + 1;
    }
    true
}

/// Whether movement `j` conflicts with one of the chosen candidates.
pub fn conflicts_with_any(lights: &Vec<TrafficLight>, chosen: &Vec<Candidate>, j: usize) -> (r:
    bool)
    requires
        rows_wf(lights@),
        j < NUM_MOVEMENTS,
    ensures
        r == conflicts_with_chosen(lights@, chosen@, j as int),
{
    let mut k: usize = 0;
    while k < chosen.len()
        invariant
            rows_wf(lights@),
            j < NUM_MOVEMENTS,
            k <= chosen@.len(),
            forall|k2: int|
                0 <= k2 < k && chosen@[k2].light < NUM_MOVEMENTS ==> !#[trigger] lights_conflict(
                    lights@,
                    chosen@[k2].light as int,
                    j as int,
                ),
        decreases chosen@.len() - k,
    {
        let c = chosen[k].light;
        if c < NUM_MOVEMENTS {
            assert(lights@[c as int].intersecting_lights@.len() == NUM_MOVEMENTS);
            assert(lights@[j as int].intersecting_lights@.len() == NUM_MOVEMENTS);
            if c != j && (lights[c].intersecting_lights[j].is_some()
                || lights[j].intersecting_lights[c].is_some()) {
                assert(lights_conflict(lights@, chosen@[k as int].light as int, j as int));
                return true;
            }
        }
        k = k + 1;
    }
    false
}

fn find_rival(lights: &Vec<TrafficLight>, c: &Vec<Candidate>, i: usize) -> (r: Option<usize>)
    requires
        rows_wf(lights@),
        i < c@.len(),
    ensures
        match r {
            None => first_rival(lights@, c@, i as int, 0) is None,
            Some(o) => first_rival(lights@, c@, i as int, 0) == Some(o as int) && o < c@.len(),
        },
{
    let mut k: usize = 0;
    while k < c.len()
        invariant
            rows_wf(lights@),
            i < c@.len(),
            k <= c@.len(),
            first_rival(lights@, c@, i as int, 0) == first_rival(lights@, c@, i as int, k as int),
        decreases c@.len() - k,
    {
        if conflicting(lights, c[i], c[k]) {
            return Some(k);
        }
        k = k + 1;
    }
    None
}

/// Resolves the conflicts among candidates greedily (see `resolve_from`): the
/// survivors hold no two conflicting movements.
pub fn resolve_conflicts(candidates: Vec<Candidate>, lights: &Vec<TrafficLight>) -> (r: Vec<
    Candidate,
>)
    requires
        rows_wf(lights@),
    ensures
        r@ == resolve_from(lights@, candidates@, 0),
{
    let mut c = candidates;
    let mut i: usize = 0;
    while i < c.len()
        invariant
            rows_wf(lights@),
            resolve_from(lights@, c@, i as int) == resolve_from(lights@, candidates@, 0),
        decreases c@.len(), c@.len() - i,
    {
        match find_rival(lights, &c, i) {
            None => {
                i = i + 1;
            },
            Some(o) => {
                let gone = if c[i].queue < c[o].queue {
                    i
                } else if c[i].queue > c[o].queue {
                    o
                } else if c[i].delay > c[o].delay {
                    i
                } else {
                    o
                };
                c.remove(gone);
                i = 0;
            },
        }
    }
    c
}

/// The queue counts after one arrival (`true`) or departure (`false`) at
/// movement `m`.
pub open spec fn queue_after(q: Seq<usize>, m: SimplifiedCar, arrival: bool) -> Seq<usize> {
    let i = movement_index(m) as int;
    q.update(
        i,
        (if arrival {
            q[i] + 1
        } else {
            q[i] - 1
        }) as usize,
    )
}

/// Controls the signals of all twelve movements and counts the vehicles
/// waiting for each.
pub struct TrafficLightController {
    queue: Vec<usize>,
    traffic_lights: Vec<TrafficLight>,
}

impl TrafficLightController {
    /// Vehicles waiting per movement, by dense index.
    pub closed spec fn queues(&self) -> Seq<usize> {
        self.queue@
    }

    /// The signals, by dense index.
    pub closed spec fn lights(&self) -> Seq<TrafficLight> {
        self.traffic_lights@
    }

    /// Twelve queues and twelve well-formed signals that are safe.
    pub open spec fn wf(&self) -> bool {
        self.queues().len() == NUM_MOVEMENTS && lights_wf(self.lights()) && signals_safe(
            self.lights(),
        )
    }

    /// All signals red with nothing requested, and no vehicle waiting.
    pub fn new() -> (r: TrafficLightController)
        ensures
            r.wf(),
            r.queues() == Seq::new(NUM_MOVEMENTS as nat, |i: int| 0usize),
            forall|i: int|
                0 <= i < NUM_MOVEMENTS ==> (#[trigger] r.lights()[i]).state
                    == TrafficLightState::Red && !r.lights()[i].green_requested,
    {
        TrafficLightController {
            queue: TrafficLightController::generate_queue(),
            traffic_lights: TrafficLightController::generate_traffic_lights(),
        }
    }

    /// One red signal per movement, in index order.
    pub fn generate_traffic_lights() -> (r: Vec<TrafficLight>)
        ensures
            lights_wf(r@),
            forall|i: int|
                0 <= i < NUM_MOVEMENTS ==> (#[trigger] r@[i]).state == TrafficLightState::Red
                    && !r@[i].green_requested && r@[i].green_start == 0 && r@[i].red_start == 0
                    && r@[i].green_requested_at == 0,
    {
        let mut lights: Vec<TrafficLight> = Vec::new();
        let mut k: usize = 0;
        while k < NUM_MOVEMENTS
            invariant
                k <= NUM_MOVEMENTS,
                lights@.len() == k,
                forall|i: int|
                    0 <= i < k ==> movement_of(#[trigger] lights@[i]) == movement_of_index(
                        i as nat,
                    ) && is_conflict_row(movement_of_index(i as nat), lights@[i].intersecting_lights@)
                        && lights@[i].state == TrafficLightState::Red
                        && !lights@[i].green_requested && lights@[i].green_start == 0
                        && lights@[i].red_start == 0 && lights@[i].green_requested_at == 0,
            decreases NUM_MOVEMENTS - k,
        {
            let m = SimplifiedCar::from_index(k);
            lights.push(TrafficLight::new(m.origin, m.direction));
            k = k + 1;
        }
        lights
    }

    /// A zero count for every movement.
    pub fn generate_queue() -> (r: Vec<usize>)
        ensures
            r@ == Seq::new(NUM_MOVEMENTS as nat, |i: int| 0usize),
    {
        let mut queue: Vec<usize> = Vec::new();
        let mut k: usize = 0;
        while k < NUM_MOVEMENTS
            invariant
                k <= NUM_MOVEMENTS,
                queue@.len() == k,
                forall|i: int| 0 <= i < k ==> queue@[i] == 0,
            decreases NUM_MOVEMENTS - k,
        {
            queue.push(0);
            k = k + 1;
        }
        assert(queue@ =~= Seq::new(NUM_MOVEMENTS as nat, |i: int| 0usize));
        queue
    }

    /// The number of vehicles waiting for a movement.
    pub fn queue(&self, origin: Origin, direction: Direction) -> (r: usize)
        requires
            self.wf(),
        ensures
            r == self.queues()[movement_index(SimplifiedCar { origin, direction }) as int],
    {
        let i = SimplifiedCar::new(origin, direction).index();
        self.queue[i]
    }

    /// The signal of a movement.
    pub fn get_traffic_light(&self, origin: Origin, direction: Direction) -> (r: &TrafficLight)
        requires
            self.wf(),
        ensures
            *r == self.lights()[movement_index(SimplifiedCar { origin, direction }) as int],
            movement_of(*r) == (SimplifiedCar { origin, direction }),
    {
        let i = SimplifiedCar::new(origin, direction).index();
        &self.traffic_lights[i]
    }

    /// Whether the movement's signal shows green or yellow.
    pub fn is_green(&self, origin: Origin, direction: Direction) -> (r: bool)
        requires
            self.wf(),
        ensures
            r == is_active(self.lights()[movement_index(SimplifiedCar { origin, direction }) as int]),
    {
        self.get_traffic_light(origin, direction).is_green()
    }

    /// Whether the movement's signal is in the leading part of its yellow
    /// interval at `now`.
    pub fn is_yellow(&self, origin: Origin, direction: Direction, now: u64) -> (r: bool)
        requires
            self.wf(),
        ensures
            ({
                let l = self.lights()[movement_index(SimplifiedCar { origin, direction }) as int];
                r == (l.state == TrafficLightState::Yellow && elapsed(now, l.red_start)
                    < YELLOW_ENTRY_MS)
            }),
    {
        self.get_traffic_light(origin, direction).is_yellow(now)
    }

    /// One scheduling tick at time `now` (see `tick`): every signal advances
    /// with its own queue, due requests firing in index order, each only once
    /// every movement it conflicts with shows red; the eligible red movements are gathered, their
    /// mutual conflicts resolved greedily, each survivor's green request armed
    /// with its delay, and the green movements it conflicts with turned yellow.
    /// No two conflicting movements are ever active together.
    pub fn update(&mut self, now: u64)
        requires
            old(self).wf(),
        ensures
            final(self).wf(),
            final(self).queues() == old(self).queues(),
            final(self).lights() == tick(old(self).lights(), old(self).queues(), now),
            active_conflict_free(final(self).lights()),
    {
        let ghost start = self.traffic_lights@;
        let ghost q = self.queue@;
        proof {
            lemma_advance_keeps_rows(start, q, now);
        }
        let mut k: usize = 0;
        while k < NUM_MOVEMENTS
            invariant
                k <= NUM_MOVEMENTS,
                self.queue@ == q,
                q.len() == NUM_MOVEMENTS,
                start.len() == NUM_MOVEMENTS,
                self.traffic_lights@.len() == NUM_MOVEMENTS,
                forall|i: int|
                    0 <= i < k ==> #[trigger] self.traffic_lights@[i] == stepped(start, q, now)[i],
                forall|i: int| k <= i < NUM_MOVEMENTS ==> #[trigger] self.traffic_lights@[i] == start[i],
            decreases NUM_MOVEMENTS - k,
        {
            if !self.traffic_lights[k].green_due(now) {
                let n = self.queue[k];
                self.traffic_lights[k].update(now, n);
            }
            k = k + 1;
        }
        assert(self.traffic_lights@ =~= stepped(start, q, now));
        let ghost s1 = self.traffic_lights@;
        let mut i: usize = 0;
        while i < NUM_MOVEMENTS
            invariant
                i <= NUM_MOVEMENTS,
                self.queue@ == q,
                q.len() == NUM_MOVEMENTS,
                s1 == stepped(start, q, now),
                start.len() == NUM_MOVEMENTS,
                signals_safe(start),
                lights_wf(start),
                self.traffic_lights@ == fire_upto(s1, start, q, now, i as int),
            decreases NUM_MOVEMENTS - i,
        {
            proof {
                lemma_fire_upto(s1, start, q, now, i as int);
                assert(start[i as int].green_requested ==> start[i as int].state
                    == TrafficLightState::Red);
                assert(rows_wf(self.traffic_lights@));
            }
            let due = self.traffic_lights[i].green_due(now);
            assert(due == green_due(start[i as int], now));
            if due && peers_all_red(&self.traffic_lights, i) {
                let n = self.queue[i];
                self.traffic_lights[i].update(now, n);
            }
            i = i + 1;
        }
        assert(self.traffic_lights@ =~= advanced(start, q, now));
        let ghost stepped_lights = self.traffic_lights@;
        assert(lights_wf(stepped_lights));
        let candidates = eligible_candidates(&self.traffic_lights, &self.queue, now);
        let chosen = resolve_conflicts(candidates, &self.traffic_lights);
        let mut j: usize = 0;
        while j < chosen.len()
            invariant
                j <= chosen@.len(),
                self.queue@ == q,
                self.traffic_lights@ == grant_requests(stepped_lights, chosen@.take(j as int), now),
            decreases chosen@.len() - j,
        {
            proof {
                assert(chosen@.take(j + 1).drop_last() =~= chosen@.take(j as int));
                lemma_grant_keeps_signals(stepped_lights, chosen@.take(j as int), now);
            }
            let c = chosen[j];
            if c.light < self.traffic_lights.len() {
                self.traffic_lights[c.light].change_to_green(c.delay, now);
            }
            j = j + 1;
            assert(self.traffic_lights@ =~= grant_requests(
                stepped_lights,
                chosen@.take(j as int),
                now,
            ));
        }
        proof {
            assert(chosen@.take(chosen@.len() as int) =~= chosen@);
            lemma_grant_keeps_signals(stepped_lights, chosen@, now);
        }
        let ghost granted = self.traffic_lights@;
        assert(rows_wf(granted));
        let mut mask: Vec<bool> = Vec::new();
        let mut m: usize = 0;
        while m < NUM_MOVEMENTS
            invariant
                m <= NUM_MOVEMENTS,
                self.traffic_lights@ == granted,
                rows_wf(granted),
                mask@.len() == m,
                forall|j2: int|
                    0 <= j2 < m ==> #[trigger] mask@[j2] == (granted[j2].state
                        == TrafficLightState::Green && conflicts_with_chosen(granted, chosen@, j2)),
            decreases NUM_MOVEMENTS - m,
        {
            let g = self.traffic_lights[m].state == TrafficLightState::Green && conflicts_with_any(
                &self.traffic_lights,
                &chosen,
                m,
            );
            mask.push(g);
            m = m + 1;
        }
        let mut m: usize = 0;
        while m < NUM_MOVEMENTS
            invariant
                m <= NUM_MOVEMENTS,
                self.queue@ == q,
                granted.len() == NUM_MOVEMENTS,
                self.traffic_lights@.len() == NUM_MOVEMENTS,
                mask@.len() == NUM_MOVEMENTS,
                forall|j2: int|
                    0 <= j2 < NUM_MOVEMENTS ==> #[trigger] mask@[j2] == (granted[j2].state
                        == TrafficLightState::Green && conflicts_with_chosen(granted, chosen@, j2)),
                forall|j2: int|
                    0 <= j2 < m ==> #[trigger] self.traffic_lights@[j2] == preempt(
                        granted,
                        chosen@,
                        now,
                    )[j2],
                forall|j2: int| m <= j2 < NUM_MOVEMENTS ==> #[trigger] self.traffic_lights@[j2] == granted[j2],
                lights_wf(start),
                start.len() == NUM_MOVEMENTS,
                q.len() == NUM_MOVEMENTS,
                stepped_lights == advanced(start, q, now),
                chosen@ == resolve_from(
                    stepped_lights,
                    candidates_upto(stepped_lights, q, now, NUM_MOVEMENTS as int),
                    0,
                ),
                granted == grant_requests(stepped_lights, chosen@, now),
            decreases NUM_MOVEMENTS - m,
        {
            if mask[m] {
                proof {
                    lemma_preempt_ready(start, q, now, m as int);
                }
                self.traffic_lights[m].change_to_yellow(now);
            }
            m = m + 1;
        }
        assert(self.traffic_lights@ =~= preempt(granted, chosen@, now));
        proof {
            lemma_tick_safe(start, q, now);
        }
    }

    /// A vehicle joins the back of the movement's queue.
    pub fn add_car(&mut self, car: SimplifiedCar)
        requires
            old(self).wf(),
            old(self).queues()[movement_index(car) as int] < usize::MAX,
        ensures
            final(self).wf(),
            final(self).lights() == old(self).lights(),
            final(self).queues() == queue_after(old(self).queues(), car, true),
    {
        let i = car.index();
        let n = self.queue[i];
        self.queue.set(i, n + 1);
    }

    /// The vehicle at the head of the movement's queue has cleared the intersection.
    pub fn remove_car(&mut self, car: SimplifiedCar)
        requires
            old(self).wf(),
            old(self).queues()[movement_index(car) as int] > 0,
        ensures
            final(self).wf(),
            final(self).lights() == old(self).lights(),
            final(self).queues() == queue_after(old(self).queues(), car, false),
    {
        let i = car.index();
        let n = self.queue[i];
        self.queue.set(i, n - 1);
    }

    /// Moves every signal's stored times on by the length of a pause.
    pub fn unpause(&mut self, time_elapsed: u64)
        requires
            old(self).wf(),
            forall|i: int|
                0 <= i < NUM_MOVEMENTS ==> can_shift(#[trigger] old(self).lights()[i], time_elapsed),
        ensures
            final(self).wf(),
            final(self).queues() == old(self).queues(),
            final(self).lights() == Seq::new(
                NUM_MOVEMENTS as nat,
                |i: int| shifted(old(self).lights()[i], time_elapsed),
            ),
    {
        let mut k: usize = 0;
        while k < NUM_MOVEMENTS
            invariant
                k <= NUM_MOVEMENTS,
                self.queue@ == old(self).queue@,
                self.traffic_lights@.len() == NUM_MOVEMENTS,
                forall|i: int|
                    0 <= i < NUM_MOVEMENTS ==> can_shift(
                        #[trigger] old(self).traffic_lights@[i],
                        time_elapsed,
                    ),
                forall|i: int|
                    0 <= i < k ==> #[trigger] self.traffic_lights@[i] == shifted(
                        old(self).traffic_lights@[i],
                        time_elapsed,
                    ),
                forall|i: int|
                    k <= i < NUM_MOVEMENTS ==> #[trigger] self.traffic_lights@[i]
                        == old(self).traffic_lights@[i],
            decreases NUM_MOVEMENTS - k,
        {
            self.traffic_lights[k].unpause(time_elapsed);
            k = k + 1;
        }
        assert(self.traffic_lights@ =~= Seq::new(
            NUM_MOVEMENTS as nat,
            |i: int| shifted(old(self).traffic_lights@[i], time_elapsed),
        ));
        proof {
            let l0 = old(self).traffic_lights@;
            let l1 = self.traffic_lights@;
            assert forall|x: int, y: int|
                0 <= x < l1.len() && 0 <= y < l1.len() implies #[trigger] lights_conflict(l1, x, y)
                == lights_conflict(l0, x, y) by {
                assert(row_entry(l1, x, y) == row_entry(l0, x, y));
                assert(row_entry(l1, y, x) == row_entry(l0, y, x));
            }
            assert(signals_safe(l0));
            assert forall|x: int, y: int|
                0 <= x < l1.len() && 0 <= y < l1.len() && #[trigger] lights_conflict(l1, x, y)
                    implies !(is_active(l1[x]) && is_active(l1[y])) by {
                assert(lights_conflict(l0, x, y));
            }
            assert(lights_wf(l1));
        }
    }
}

} // verus!
