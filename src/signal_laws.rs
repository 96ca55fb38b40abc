use vstd::prelude::*;
use crate::conflict::{conflict_delay_spec, delay_view, is_conflict_row, lemma_conflict_symmetric};
use crate::movement::{movement_index, movement_of_index, SimplifiedCar, NUM_MOVEMENTS};
use crate::resolution_laws::{dominant, lemma_resolution_conflict_free, lemma_resolution_keeps_dominant};
use crate::traffic_light::{
    can_change_to_red_spec, elapsed, green_due, is_active, movement_of, next_light, TrafficLight,
    TrafficLightState, MINIMUM_GREEN_TIME_MS,
};
use crate::traffic_light_controller::{
    advanced, blocked, candidate_of, entry_delay, candidates_conflict, candidates_upto, competing_queue,
    conflicts_with_chosen, eligible, grant_requests, lemma_advance_keeps_rows,
    lemma_grant_keeps_signals, lights_conflict, lights_wf, max_delay, peer_active, peer_holds,
    peers_red, preempt, queue_after, fire_upto, lemma_fire_upto, active_conflict_free, resolve_from, row_entry, signals_safe, stepped, tick, Candidate,
};

verus! {

/// Under well-formed signals, conflict rows are symmetric: movement `a` has an
/// entry for `b` exactly when `b` has one for `a`.
pub proof fn lemma_rows_symmetric(l: Seq<TrafficLight>)
    requires
        lights_wf(l),
    ensures
        forall|a: int, b: int|
            0 <= a < NUM_MOVEMENTS && 0 <= b < NUM_MOVEMENTS ==> (#[trigger] row_entry(l, a, b) is Some
                <==> row_entry(l, b, a) is Some),
{
    assert forall|a: int, b: int|
        0 <= a < NUM_MOVEMENTS && 0 <= b < NUM_MOVEMENTS implies (#[trigger] row_entry(l, a, b) is Some
        <==> row_entry(l, b, a) is Some) by {
        let ma = movement_of_index(a as nat);
        let mb = movement_of_index(b as nat);
        assert(is_conflict_row(ma, l[a].intersecting_lights@));
        assert(is_conflict_row(mb, l[b].intersecting_lights@));
        assert(delay_view(l[a].intersecting_lights@[b]) == conflict_delay_spec(ma, mb));
        assert(delay_view(l[b].intersecting_lights@[a]) == conflict_delay_spec(mb, ma));
        lemma_conflict_symmetric(ma, mb);
    }
}

/// Every candidate of a tick is for an eligible movement, recorded as such.
pub proof fn lemma_candidates_eligible(l: Seq<TrafficLight>, q: Seq<usize>, now: u64, n: int)
    requires
        0 <= n <= NUM_MOVEMENTS,
    ensures
        forall|k: int|
            0 <= k < candidates_upto(l, q, now, n).len() ==> {
                let c = #[trigger] candidates_upto(l, q, now, n)[k];
                &&& c.light < n
                &&& eligible(l, q, c.light as int, now)
                &&& c == candidate_of(l, q, c.light as int)
            },
    decreases n,
{
    if n > 0 {
        lemma_candidates_eligible(l, q, now, n - 1);
        let prev = candidates_upto(l, q, now, n - 1);
        let cur = candidates_upto(l, q, now, n);
        assert forall|k: int| 0 <= k < cur.len() implies {
            let c = #[trigger] cur[k];
            &&& c.light < n
            &&& eligible(l, q, c.light as int, now)
            &&& c == candidate_of(l, q, c.light as int)
        } by {
            if k < prev.len() {
                assert(cur[k] == prev[k]);
            } else {
                assert(cur[k] == candidate_of(l, q, n - 1));
                assert(candidate_of(l, q, n - 1).light as int == n - 1);
            }
        }
    }
}

proof fn lemma_chosen_eligible(
    a: Seq<TrafficLight>,
    q: Seq<usize>,
    now: u64,
    s: Seq<Candidate>,
    k: int,
)
    requires
        s == resolve_from(a, candidates_upto(a, q, now, NUM_MOVEMENTS as int), 0),
        0 <= k < s.len(),
    ensures
        s[k].light < NUM_MOVEMENTS,
        eligible(a, q, s[k].light as int, now),
        s[k] == candidate_of(a, q, s[k].light as int),
{
    let c = candidates_upto(a, q, now, NUM_MOVEMENTS as int);
    lemma_resolution_conflict_free(a, c);
    lemma_candidates_eligible(a, q, now, NUM_MOVEMENTS as int);
    assert(c.contains(s[k]));
    let m = choose|m: int| 0 <= m < c.len() && c[m] == s[k];
    assert(c[m] == s[k]);
}

proof fn lemma_fire_safe(s1: Seq<TrafficLight>, l: Seq<TrafficLight>, q: Seq<usize>, now: u64, k: int)
    requires
        s1.len() == l.len(),
        q.len() == l.len(),
        0 <= k <= l.len(),
        forall|j: int|
            0 <= j < l.len() ==> movement_of(#[trigger] s1[j]) == movement_of(l[j])
                && s1[j].intersecting_lights == l[j].intersecting_lights,
        active_conflict_free(s1),
        forall|j: int| 0 <= j < l.len() && green_due(l[j], now) ==> #[trigger] s1[j] == l[j],
    ensures
        active_conflict_free(fire_upto(s1, l, q, now, k)),
    decreases k,
{
    if k > 0 {
        lemma_fire_safe(s1, l, q, now, k - 1);
        lemma_fire_upto(s1, l, q, now, k - 1);
        lemma_fire_upto(s1, l, q, now, k);
        let f = fire_upto(s1, l, q, now, k - 1);
        let g = fire_upto(s1, l, q, now, k);
        let i = k - 1;
        assert forall|x: int, y: int| 0 <= x < g.len() && 0 <= y < g.len() implies #[trigger] lights_conflict(
            g,
            x,
            y,
        ) == lights_conflict(f, x, y) by {
            assert(row_entry(g, x, y) == row_entry(f, x, y));
            assert(row_entry(g, y, x) == row_entry(f, y, x));
        }
        if green_due(l[i], now) && peers_red(f, i) {
            assert forall|x: int, y: int|
                0 <= x < g.len() && 0 <= y < g.len() && #[trigger] lights_conflict(g, x, y) implies !(
            is_active(g[x]) && is_active(g[y])) by {
                assert(lights_conflict(f, x, y));
                assert(lights_conflict(f, y, x));
                if x == i {
                    assert(f[y].state == TrafficLightState::Red);
                } else if y == i {
                    assert(f[x].state == TrafficLightState::Red);
                }
            }
        }
    }
}

/// Safety of a step: from well-formed, safe signals, advancing every signal
/// keeps them safe. Signals without a due request cannot turn active, and a due
/// request fires only when every movement it conflicts with shows red, counting
/// the requests fired before it.
proof fn lemma_advance_safe(l: Seq<TrafficLight>, q: Seq<usize>, now: u64)
    requires
        lights_wf(l),
        q.len() == NUM_MOVEMENTS,
        signals_safe(l),
    ensures
        lights_wf(advanced(l, q, now)),
        signals_safe(advanced(l, q, now)),
{
    let s1 = stepped(l, q, now);
    let a = advanced(l, q, now);
    lemma_advance_keeps_rows(l, q, now);
    assert forall|x: int, y: int| 0 <= x < s1.len() && 0 <= y < s1.len() implies #[trigger] lights_conflict(
        s1,
        x,
        y,
    ) == lights_conflict(l, x, y) by {
        assert(row_entry(s1, x, y) == row_entry(l, x, y));
        assert(row_entry(s1, y, x) == row_entry(l, y, x));
    }
    assert forall|j: int| 0 <= j < s1.len() implies {
        &&& (is_active(#[trigger] s1[j]) ==> is_active(l[j]))
        &&& (green_due(l[j], now) ==> s1[j] == l[j])
        &&& (s1[j].green_requested ==> s1[j].state == TrafficLightState::Red)
    } by {
        if l[j].green_requested {
            assert(l[j].state == TrafficLightState::Red);
        }
    }
    assert forall|x: int, y: int|
        0 <= x < s1.len() && 0 <= y < s1.len() && #[trigger] lights_conflict(s1, x, y) implies !(
    is_active(s1[x]) && is_active(s1[y])) by {
        assert(lights_conflict(l, x, y));
    }
    assert forall|j: int| 0 <= j < l.len() && green_due(l[j], now) implies #[trigger] s1[j] == l[j] by {}
    assert forall|j: int| 0 <= j < l.len() implies movement_of(#[trigger] s1[j]) == movement_of(l[j])
        && s1[j].intersecting_lights == l[j].intersecting_lights by {}
    lemma_fire_safe(s1, l, q, now, l.len() as int);
    lemma_fire_upto(s1, l, q, now, l.len() as int);
    assert forall|j: int| 0 <= j < a.len() && (#[trigger] a[j]).green_requested implies a[j].state
        == TrafficLightState::Red by {
        if l[j].green_requested {
            assert(l[j].state == TrafficLightState::Red);
        }
    }
}

/// Safety of a tick: from well-formed signals on which no two conflicting
/// movements are active and every pending request belongs to a red signal, one
/// tick keeps both. In particular no two conflicting movements ever show green
/// or yellow together.
pub proof fn lemma_tick_safe(l: Seq<TrafficLight>, q: Seq<usize>, now: u64)
    requires
        lights_wf(l),
        q.len() == NUM_MOVEMENTS,
        signals_safe(l),
    ensures
        lights_wf(tick(l, q, now)),
        signals_safe(tick(l, q, now)),
{
    lemma_advance_safe(l, q, now);
    let a = advanced(l, q, now);
    let c = candidates_upto(a, q, now, NUM_MOVEMENTS as int);
    let s = resolve_from(a, c, 0);
    let g = grant_requests(a, s, now);
    let f = preempt(g, s, now);
    lemma_grant_keeps_signals(a, s, now);
    assert forall|x: int, y: int| 0 <= x < f.len() && 0 <= y < f.len() implies #[trigger] lights_conflict(
        f,
        x,
        y,
    ) == lights_conflict(a, x, y) by {
        assert(row_entry(f, x, y) == row_entry(a, x, y));
        assert(row_entry(f, y, x) == row_entry(a, y, x));
    }
    assert forall|j: int| 0 <= j < f.len() implies {
        &&& movement_of(#[trigger] f[j]) == movement_of(a[j])
        &&& f[j].intersecting_lights == a[j].intersecting_lights
        &&& is_active(f[j]) == is_active(a[j])
        &&& (f[j].green_requested ==> f[j].state == TrafficLightState::Red)
    } by {
        if g[j].green_requested && !a[j].green_requested {
            let k = choose|k: int| 0 <= k < s.len() && s[k].light == j;
            lemma_chosen_eligible(a, q, now, s, k);
        }
    }
    assert(lights_wf(f));
    assert forall|x: int, y: int|
        0 <= x < f.len() && 0 <= y < f.len() && #[trigger] lights_conflict(f, x, y) implies !(
    is_active(f[x]) && is_active(f[y])) by {
        assert(lights_conflict(a, x, y));
    }
}

/// A green signal that conflicts with a candidate armed this tick is past its
/// minimum green: otherwise it would have held that candidate back.
pub proof fn lemma_preempt_ready(l: Seq<TrafficLight>, q: Seq<usize>, now: u64, j: int)
    requires
        lights_wf(l),
        q.len() == NUM_MOVEMENTS,
        0 <= j < NUM_MOVEMENTS,
        ({
            let a = advanced(l, q, now);
            let s = resolve_from(a, candidates_upto(a, q, now, NUM_MOVEMENTS as int), 0);
            let g = grant_requests(a, s, now);
            g[j].state == TrafficLightState::Green && conflicts_with_chosen(g, s, j)
        }),
    ensures
        ({
            let a = advanced(l, q, now);
            let s = resolve_from(a, candidates_upto(a, q, now, NUM_MOVEMENTS as int), 0);
            let g = grant_requests(a, s, now);
            &&& elapsed(now, g[j].green_start) >= MINIMUM_GREEN_TIME_MS
            &&& g[j].green_start == a[j].green_start
        }),
{
    let a = advanced(l, q, now);
    let c = candidates_upto(a, q, now, NUM_MOVEMENTS as int);
    let s = resolve_from(a, c, 0);
    let g = grant_requests(a, s, now);
    lemma_advance_keeps_rows(l, q, now);
    lemma_grant_keeps_signals(a, s, now);
    assert(lights_wf(a));
    lemma_rows_symmetric(a);
    let k = choose|k: int|
        0 <= k < s.len() && s[k].light < NUM_MOVEMENTS && #[trigger] lights_conflict(
            g,
            s[k].light as int,
            j,
        );
    lemma_chosen_eligible(a, q, now, s, k);
    let x = s[k].light as int;
    assert(row_entry(g, x, j) == row_entry(a, x, j));
    assert(row_entry(g, j, x) == row_entry(a, j, x));
    assert(row_entry(a, x, j) is Some);
    assert(!peer_holds(a, x, j, now));
}

/// Over a tick, a signal turns from green to yellow only after its minimum
/// green: by its own step, or because a conflicting movement was admitted over
/// it, which needs it to be past its minimum green. A red signal never turns
/// yellow.
pub proof fn lemma_tick_minimum_green(l: Seq<TrafficLight>, q: Seq<usize>, now: u64, i: int)
    requires
        lights_wf(l),
        q.len() == NUM_MOVEMENTS,
        0 <= i < NUM_MOVEMENTS,
    ensures
        l[i].state == TrafficLightState::Green && tick(l, q, now)[i].state
            == TrafficLightState::Yellow ==> elapsed(now, l[i].green_start) >= MINIMUM_GREEN_TIME_MS,
        l[i].state == TrafficLightState::Red ==> tick(l, q, now)[i].state
            != TrafficLightState::Yellow,
{
    let a = advanced(l, q, now);
    let c = candidates_upto(a, q, now, NUM_MOVEMENTS as int);
    let s = resolve_from(a, c, 0);
    let g = grant_requests(a, s, now);
    let t = tick(l, q, now);
    lemma_advance_keeps_rows(l, q, now);
    lemma_grant_keeps_signals(a, s, now);
    assert(t == preempt(g, s, now));
    assert(g[i].state == a[i].state);
    if t[i].state == TrafficLightState::Yellow && a[i].state == TrafficLightState::Green {
        assert(conflicts_with_chosen(g, s, i));
        lemma_preempt_ready(l, q, now, i);
    }
    if l[i].state == TrafficLightState::Green {
        assert(!green_due(l[i], now));
    }
}

/// A movement eligible this tick that no other eligible movement conflicts
/// with survives the resolution and is armed at `now` with its delay.
pub proof fn lemma_unopposed_armed(l: Seq<TrafficLight>, q: Seq<usize>, now: u64, i: int)
    requires
        lights_wf(l),
        q.len() == NUM_MOVEMENTS,
        0 <= i < NUM_MOVEMENTS,
        eligible(advanced(l, q, now), q, i, now),
        forall|j: int|
            0 <= j < NUM_MOVEMENTS && j != i && eligible(advanced(l, q, now), q, j, now)
                ==> !#[trigger] lights_conflict(advanced(l, q, now), i, j),
    ensures
        ({
            let t = tick(l, q, now)[i];
            &&& t.green_requested
            &&& t.green_requested_at == now
            &&& t.green_delay == candidate_of(advanced(l, q, now), q, i).delay
        }),
{
    let a = advanced(l, q, now);
    let c = candidates_upto(a, q, now, NUM_MOVEMENTS as int);
    let s = resolve_from(a, c, 0);
    let g = grant_requests(a, s, now);
    let x = candidate_of(a, q, i);
    lemma_advance_keeps_rows(l, q, now);
    lemma_eligible_listed(a, q, now, i, NUM_MOVEMENTS as int);
    lemma_candidates_eligible(a, q, now, NUM_MOVEMENTS as int);
    assert forall|k: int| 0 <= k < c.len() && #[trigger] candidates_conflict(a, x, c[k]) implies x.queue
        > c[k].queue || (x.queue == c[k].queue && x.delay < c[k].delay) by {
        assert(eligible(a, q, c[k].light as int, now));
    }
    lemma_resolution_keeps_dominant(a, c, x);
    let kx = choose|k: int| 0 <= k < s.len() && s[k] == x;
    assert forall|k: int| 0 <= k < s.len() && s[k].light == i implies #[trigger] s[k].delay
        == x.delay by {
        lemma_chosen_eligible(a, q, now, s, k);
    }
    lemma_grant_at(a, s, now, i, x.delay);
    assert(s[kx].light == i);
    lemma_grant_keeps_signals(a, s, now);
    assert(tick(l, q, now) == preempt(g, s, now));
}

proof fn lemma_single_peer_sums(l: Seq<TrafficLight>, q: Seq<usize>, i: int, p: int, k: int)
    requires
        0 <= p < NUM_MOVEMENTS,
        0 <= k <= NUM_MOVEMENTS,
        forall|r: int| 0 <= r < NUM_MOVEMENTS ==> (#[trigger] peer_active(l, i, r) <==> r == p),
    ensures
        competing_queue(l, q, i, k) == if p < k {
            q[p] as nat
        } else {
            0
        },
        max_delay(l, i, k) == if p < k {
            entry_delay(row_entry(l, i, p))
        } else {
            0
        },
    decreases k,
{
    if k > 0 {
        lemma_single_peer_sums(l, q, i, p, k - 1);
        assert(peer_active(l, i, k - 1) <==> k - 1 == p);
    }
}

/// Admission over one active peer: a red movement with no request pending
/// whose only active conflicting peer is green past its minimum green, with no
/// request pending and fewer vehicles waiting, while every other conflicting
/// peer is red with no request falling due, is eligible this tick with the
/// delay of its conflict entry for that peer; unless another eligible movement
/// conflicts with it, the tick arms it at `now` with that delay.
pub proof fn lemma_admitted_over_active_peer(
    l: Seq<TrafficLight>,
    q: Seq<usize>,
    now: u64,
    i: int,
    p: int,
)
    requires
        lights_wf(l),
        q.len() == NUM_MOVEMENTS,
        0 <= i < NUM_MOVEMENTS,
        0 <= p < NUM_MOVEMENTS,
        l[i].state == TrafficLightState::Red,
        !l[i].green_requested,
        row_entry(l, i, p) is Some,
        l[p].state == TrafficLightState::Green,
        !l[p].green_requested,
        elapsed(now, l[p].green_start) >= MINIMUM_GREEN_TIME_MS,
        q[p] > 0,
        q[i] > q[p],
        forall|r: int|
            0 <= r < NUM_MOVEMENTS && r != p && (#[trigger] row_entry(l, i, r)) is Some ==> l[r].state
                == TrafficLightState::Red && !green_due(l[r], now),
    ensures
        eligible(advanced(l, q, now), q, i, now),
        candidate_of(advanced(l, q, now), q, i).delay == entry_delay(row_entry(l, i, p)),
        (forall|j: int|
            0 <= j < NUM_MOVEMENTS && j != i && eligible(advanced(l, q, now), q, j, now)
                ==> !#[trigger] lights_conflict(advanced(l, q, now), i, j)) ==> {
            let t = tick(l, q, now)[i];
            &&& t.green_requested
            &&& t.green_requested_at == now
            &&& t.green_delay as nat == entry_delay(row_entry(l, i, p))
        },
{
    let a = advanced(l, q, now);
    lemma_advance_keeps_rows(l, q, now);
    assert forall|r: int| 0 <= r < NUM_MOVEMENTS implies #[trigger] row_entry(a, i, r) == row_entry(
        l,
        i,
        r,
    ) by {}
    assert forall|r: int|
        0 <= r < NUM_MOVEMENTS && (r == i || r == p || row_entry(l, i, r) is Some) implies #[trigger] a[r]
        == l[r] by {
        assert(!green_due(l[r], now));
    }
    assert forall|r: int| 0 <= r < NUM_MOVEMENTS implies (#[trigger] peer_active(a, i, r) <==> r == p) by {
        if row_entry(a, i, r) is Some {
            assert(a[r] == l[r]);
        }
    }
    assert(a[p] == l[p]);
    assert(a[i] == l[i]);
    lemma_single_peer_sums(a, q, i, p, NUM_MOVEMENTS as int);
    assert forall|r: int| 0 <= r < NUM_MOVEMENTS implies !(#[trigger] peer_holds(a, i, r, now)) by {
        if row_entry(a, i, r) is Some {
            assert(a[r] == l[r]);
        }
    }
    if forall|j: int|
        0 <= j < NUM_MOVEMENTS && j != i && eligible(a, q, j, now) ==> !#[trigger] lights_conflict(
            a,
            i,
            j,
        ) {
        lemma_unopposed_armed(l, q, now, i);
    }
}

/// A red movement with no request pending and vehicles waiting, all of whose
/// conflicting peers are red with no request falling due, is eligible this
/// tick with delay zero; unless another eligible movement conflicts with it,
/// the tick arms it at `now` with delay zero.
pub proof fn lemma_all_peers_red_admitted(l: Seq<TrafficLight>, q: Seq<usize>, now: u64, i: int)
    requires
        lights_wf(l),
        q.len() == NUM_MOVEMENTS,
        0 <= i < NUM_MOVEMENTS,
        l[i].state == TrafficLightState::Red,
        !l[i].green_requested,
        q[i] > 0,
        forall|r: int|
            0 <= r < NUM_MOVEMENTS && (#[trigger] row_entry(l, i, r)) is Some ==> l[r].state
                == TrafficLightState::Red && !green_due(l[r], now),
    ensures
        eligible(advanced(l, q, now), q, i, now),
        candidate_of(advanced(l, q, now), q, i).delay == 0,
        (forall|j: int|
            0 <= j < NUM_MOVEMENTS && j != i && eligible(advanced(l, q, now), q, j, now)
                ==> !#[trigger] lights_conflict(advanced(l, q, now), i, j)) ==> {
            let t = tick(l, q, now)[i];
            &&& t.green_requested
            &&& t.green_requested_at == now
            &&& t.green_delay == 0
        },
{
    let a = advanced(l, q, now);
    lemma_advance_keeps_rows(l, q, now);
    assert forall|r: int| 0 <= r < NUM_MOVEMENTS implies #[trigger] row_entry(a, i, r) == row_entry(
        l,
        i,
        r,
    ) by {}
    assert forall|r: int|
        0 <= r < NUM_MOVEMENTS && (r == i || row_entry(l, i, r) is Some) implies #[trigger] a[r] == l[r] by {
        assert(!green_due(l[r], now));
    }
    assert forall|r: int| 0 <= r < NUM_MOVEMENTS implies !(#[trigger] peer_active(a, i, r)) by {
        if row_entry(a, i, r) is Some {
            assert(a[r] == l[r]);
        }
    }
    lemma_no_active_peer_sums(a, q, i, NUM_MOVEMENTS as int);
    assert forall|r: int| 0 <= r < NUM_MOVEMENTS implies !(#[trigger] peer_holds(a, i, r, now)) by {
        assert(!peer_active(a, i, r));
    }
    assert(!blocked(a, i, now));
    if forall|j: int|
        0 <= j < NUM_MOVEMENTS && j != i && eligible(a, q, j, now) ==> !#[trigger] lights_conflict(
            a,
            i,
            j,
        ) {
        lemma_unopposed_armed(l, q, now, i);
    }
}

proof fn lemma_grant_at(l: Seq<TrafficLight>, s: Seq<Candidate>, now: u64, i: int, d: u64)
    requires
        0 <= i < l.len(),
        !l[i].green_requested,
        forall|k: int| 0 <= k < s.len() && s[k].light == i ==> #[trigger] s[k].delay == d,
    ensures
        (exists|k: int| 0 <= k < s.len() && s[k].light == i) ==> {
            let g = grant_requests(l, s, now)[i];
            &&& g.green_requested
            &&& g.green_requested_at == now
            &&& g.green_delay == d
        },
        !(exists|k: int| 0 <= k < s.len() && s[k].light == i) ==> grant_requests(l, s, now)[i]
            == l[i],
    decreases s.len(),
{
    if s.len() > 0 {
        let init = s.drop_last();
        assert forall|k: int| 0 <= k < init.len() && init[k].light == i implies #[trigger] init[k].delay
            == d by {
            assert(init[k] == s[k]);
        }
        lemma_grant_at(l, init, now, i, d);
        lemma_grant_keeps_signals(l, init, now);
        if exists|k: int| 0 <= k < init.len() && init[k].light == i {
            let k = choose|k: int| 0 <= k < init.len() && init[k].light == i;
            assert(s[k].light == i);
        }
        if s.last().light == i {
            assert(s[s.len() - 1].light == i);
        }
        if exists|k: int| 0 <= k < s.len() && s[k].light == i {
            let k = choose|k: int| 0 <= k < s.len() && s[k].light == i;
            if k < s.len() - 1 {
                assert(init[k].light == i);
            }
        }
    }
}

/// Empty queues at every movement.
pub open spec fn empty_queues() -> Seq<usize> {
    Seq::new(NUM_MOVEMENTS as nat, |i: int| 0usize)
}

/// The queue counts after a sequence of arrivals (`true`) and departures
/// (`false`), each as `add_car` and `remove_car` change them.
pub open spec fn queues_after(q: Seq<usize>, ops: Seq<(SimplifiedCar, bool)>) -> Seq<usize>
    decreases ops.len(),
{
    if ops.len() == 0 {
        q
    } else {
        let o = ops.last();
        queue_after(queues_after(q, ops.drop_last()), o.0, o.1)
    }
}

/// How many of the operations are arrivals (or departures) at movement `j`.
pub open spec fn op_count(ops: Seq<(SimplifiedCar, bool)>, j: int, arrival: bool) -> nat
    decreases ops.len(),
{
    if ops.len() == 0 {
        0
    } else {
        op_count(ops.drop_last(), j, arrival) + if movement_index(ops.last().0) == j
            && ops.last().1 == arrival {
            1nat
        } else {
            0nat
        }
    }
}

/// Every departure is of a vehicle that arrived before it and has not left:
/// before it, its movement has seen more arrivals than departures.
pub open spec fn departures_follow_arrivals(ops: Seq<(SimplifiedCar, bool)>) -> bool {
    forall|k: int|
        0 <= k < ops.len() && !(#[trigger] ops[k]).1 ==> op_count(
            ops.take(k),
            movement_index(ops[k].0) as int,
            false,
        ) < op_count(ops.take(k), movement_index(ops[k].0) as int, true)
}

proof fn lemma_op_count_bound(ops: Seq<(SimplifiedCar, bool)>, j: int, arrival: bool)
    ensures
        op_count(ops, j, arrival) <= ops.len(),
    decreases ops.len(),
{
    if ops.len() > 0 {
        lemma_op_count_bound(ops.drop_last(), j, arrival);
    }
}

/// Starting from empty queues, a sequence of arrivals and departures in which
/// every departure follows its vehicle's arrival leaves at each movement
/// exactly its arrivals less its departures, never negative; and every
/// departure finds a vehicle waiting, as `remove_car` requires.
pub proof fn lemma_queue_counts(ops: Seq<(SimplifiedCar, bool)>)
    requires
        departures_follow_arrivals(ops),
        ops.len() < usize::MAX,
    ensures
        queues_after(empty_queues(), ops).len() == NUM_MOVEMENTS,
        forall|j: int|
            0 <= j < NUM_MOVEMENTS ==> #[trigger] queues_after(
                empty_queues(),
                ops,
            )[j] == op_count(ops, j, true) - op_count(ops, j, false),
        forall|k: int|
            0 <= k < ops.len() && !(#[trigger] ops[k]).1 ==> queues_after(
                empty_queues(),
                ops.take(k),
            )[movement_index(ops[k].0) as int] > 0,
    decreases ops.len(),
{
    let zeros = empty_queues();
    if ops.len() > 0 {
        let init = ops.drop_last();
        assert forall|k: int| 0 <= k < init.len() && !(#[trigger] init[k]).1 implies op_count(
            init.take(k),
            movement_index(init[k].0) as int,
            false,
        ) < op_count(init.take(k), movement_index(init[k].0) as int, true) by {
            assert(init.take(k) =~= ops.take(k));
            assert(init[k] == ops[k]);
            assert(!ops[k].1);
        }
        lemma_queue_counts(init);
        let o = ops.last();
        let m = movement_index(o.0) as int;
        lemma_op_count_bound(init, m, true);
        if !o.1 {
            assert(ops.take(ops.len() - 1) =~= init);
            assert(!ops[ops.len() - 1].1);
        }
        assert forall|k: int| 0 <= k < ops.len() && !(#[trigger] ops[k]).1 implies queues_after(
            zeros,
            ops.take(k),
        )[movement_index(ops[k].0) as int] > 0 by {
            if k == ops.len() - 1 {
                assert(ops.take(k) =~= init);
            } else {
                assert(init[k] == ops[k]);
                assert(init.take(k) =~= ops.take(k));
            }
        }
    }
}

proof fn lemma_no_active_peer_sums(l: Seq<TrafficLight>, q: Seq<usize>, i: int, k: int)
    requires
        forall|p: int| 0 <= p < k ==> !(#[trigger] peer_active(l, i, p)),
    ensures
        competing_queue(l, q, i, k) == 0,
        max_delay(l, i, k) == 0,
    decreases k,
{
    if k > 0 {
        lemma_no_active_peer_sums(l, q, i, k - 1);
    }
}

proof fn lemma_eligible_listed(l: Seq<TrafficLight>, q: Seq<usize>, now: u64, i: int, k: int)
    requires
        0 <= i < k,
        eligible(l, q, i, now),
    ensures
        candidates_upto(l, q, now, k).contains(candidate_of(l, q, i)),
    decreases k,
{
    if k - 1 == i {
        let c = candidates_upto(l, q, now, k);
        assert(c[c.len() - 1] == candidate_of(l, q, i));
    } else {
        lemma_eligible_listed(l, q, now, i, k - 1);
        let prev = candidates_upto(l, q, now, k - 1);
        let x = choose|m: int| 0 <= m < prev.len() && prev[m] == candidate_of(l, q, i);
        if eligible(l, q, k - 1, now) {
            assert(candidates_upto(l, q, now, k)[x] == candidate_of(l, q, i));
        }
    }
}

/// A red movement with vehicles waiting, no request pending and an empty
/// conflict row (so, rows being symmetric, it conflicts with no movement) is
/// armed by the tick at `now` with delay zero.
pub proof fn lemma_isolated_movement_admitted(
    l: Seq<TrafficLight>,
    q: Seq<usize>,
    now: u64,
    i: int,
)
    requires
        0 <= i < NUM_MOVEMENTS,
        lights_wf(l),
        q.len() == NUM_MOVEMENTS,
        l[i].state == TrafficLightState::Red,
        !l[i].green_requested,
        q[i] > 0,
        forall|p: int| 0 <= p < NUM_MOVEMENTS ==> (#[trigger] row_entry(l, i, p)) is None,
    ensures
        ({
            let t = tick(l, q, now)[i];
            &&& t.green_requested
            &&& t.green_requested_at == now
            &&& t.green_delay == 0
        }),
{
    let a = advanced(l, q, now);
    lemma_advance_keeps_rows(l, q, now);
    assert(lights_wf(a));
    lemma_rows_symmetric(a);
    assert forall|j: int|
        0 <= j < NUM_MOVEMENTS && j != i && eligible(a, q, j, now) implies !#[trigger] lights_conflict(
        a,
        i,
        j,
    ) by {
        assert(row_entry(a, i, j) == row_entry(l, i, j));
    }
    lemma_all_peers_red_admitted(l, q, now, i);
}

} // verus!
