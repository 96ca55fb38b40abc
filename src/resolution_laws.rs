use vstd::prelude::*;
use crate::traffic_light::TrafficLight;
use crate::traffic_light_controller::{
    candidates_conflict, first_rival, lights_conflict, loser, resolve_from, Candidate,
};

verus! {

/// No two of the candidates conflict.
pub open spec fn conflict_free(l: Seq<TrafficLight>, s: Seq<Candidate>) -> bool {
    forall|a: int, b: int|
        0 <= a < s.len() && 0 <= b < s.len() ==> !#[trigger] candidates_conflict(l, s[a], s[b])
}

/// `x` wins against every candidate of `c` it conflicts with: it has more
/// vehicles waiting, or as many and a shorter delay.
pub open spec fn dominant(l: Seq<TrafficLight>, c: Seq<Candidate>, x: Candidate) -> bool {
    forall|k: int|
        0 <= k < c.len() && #[trigger] candidates_conflict(l, x, c[k]) ==> x.queue > c[k].queue
            || (x.queue == c[k].queue && x.delay < c[k].delay)
}

/// Among the candidates, conflict passes on: a candidate that conflicts with
/// one that conflicts with a third, for another movement, conflicts with it.
pub open spec fn conflict_transitive(l: Seq<TrafficLight>, c: Seq<Candidate>) -> bool {
    forall|a: int, b: int, d: int|
        0 <= a < c.len() && 0 <= b < c.len() && 0 <= d < c.len() && #[trigger] candidates_conflict(
            l,
            c[a],
            c[b],
        ) && #[trigger] candidates_conflict(l, c[b], c[d]) && c[a].light != c[d].light
            ==> candidates_conflict(l, c[a], c[d])
}

/// Each movement has at most one candidate.
pub open spec fn distinct_lights(c: Seq<Candidate>) -> bool {
    forall|a: int, b: int| 0 <= a < c.len() && 0 <= b < c.len() && a != b ==> c[a].light != c[b].light
}

/// Every element of `s` is an element of `c`.
pub open spec fn drawn_from(s: Seq<Candidate>, c: Seq<Candidate>) -> bool {
    forall|k: int| 0 <= k < s.len() ==> c.contains(#[trigger] s[k])
}

/// Every candidate of `c0` is in `s` or conflicts with a member of `s`.
pub open spec fn covered(l: Seq<TrafficLight>, c0: Seq<Candidate>, s: Seq<Candidate>) -> bool {
    forall|a: int|
        0 <= a < c0.len() ==> s.contains(#[trigger] c0[a]) || exists|k: int|
            0 <= k < s.len() && #[trigger] candidates_conflict(l, c0[a], s[k])
}

proof fn lemma_first_rival(l: Seq<TrafficLight>, c: Seq<Candidate>, i: int, k: int)
    requires
        0 <= k,
        0 <= i < c.len(),
    ensures
        match first_rival(l, c, i, k) {
            None => forall|m: int| k <= m < c.len() ==> !#[trigger] candidates_conflict(l, c[i], c[m]),
            Some(o) => k <= o < c.len() && candidates_conflict(l, c[i], c[o]) && forall|m: int|
                k <= m < o ==> !#[trigger] candidates_conflict(l, c[i], c[m]),
        },
    decreases c.len() - k,
{
    if k < c.len() && !candidates_conflict(l, c[i], c[k]) {
        lemma_first_rival(l, c, i, k + 1);
    }
}

proof fn lemma_remove_index(c: Seq<Candidate>, g: int, k: int)
    requires
        0 <= g < c.len(),
        0 <= k < c.len(),
        k != g,
    ensures
        c.remove(g).contains(c[k]),
{
    if k < g {
        assert(c.remove(g)[k] == c[k]);
    } else {
        assert(c.remove(g)[k - 1] == c[k]);
    }
}

proof fn lemma_remove_drawn(c: Seq<Candidate>, g: int, c0: Seq<Candidate>)
    requires
        0 <= g < c.len(),
        drawn_from(c, c0),
    ensures
        drawn_from(c.remove(g), c0),
{
    assert forall|k: int| 0 <= k < c.remove(g).len() implies c0.contains(#[trigger] c.remove(g)[k]) by {
        if k < g {
            assert(c.remove(g)[k] == c[k]);
        } else {
            assert(c.remove(g)[k] == c[k + 1]);
        }
    }
}

proof fn lemma_resolve_free(l: Seq<TrafficLight>, c: Seq<Candidate>, i: int)
    requires
        0 <= i,
        forall|x: int| 0 <= x < i && x < c.len() ==> (#[trigger] first_rival(l, c, x, 0)) is None,
    ensures
        conflict_free(l, resolve_from(l, c, i)),
    decreases c.len(), c.len() - i,
{
    if i >= c.len() {
        assert forall|a: int, b: int| 0 <= a < c.len() && 0 <= b < c.len() implies !#[trigger] candidates_conflict(l, c[a], c[b]) by {
            assert(first_rival(l, c, a, 0) is None);
            lemma_first_rival(l, c, a, 0);
        }
    } else {
        lemma_first_rival(l, c, i, 0);
        match first_rival(l, c, i, 0) {
            None => {
                lemma_resolve_free(l, c, i + 1);
            },
            Some(o) => {
                let gone = loser(c, i, o);
                lemma_resolve_free(l, c.remove(gone), 0);
            },
        }
    }
}

proof fn lemma_resolve_drawn(l: Seq<TrafficLight>, c: Seq<Candidate>, i: int, c0: Seq<Candidate>)
    requires
        0 <= i,
        drawn_from(c, c0),
    ensures
        drawn_from(resolve_from(l, c, i), c0),
    decreases c.len(), c.len() - i,
{
    if i < c.len() {
        lemma_first_rival(l, c, i, 0);
        match first_rival(l, c, i, 0) {
            None => {
                lemma_resolve_drawn(l, c, i + 1, c0);
            },
            Some(o) => {
                let gone = loser(c, i, o);
                lemma_remove_drawn(c, gone, c0);
                lemma_resolve_drawn(l, c.remove(gone), 0, c0);
            },
        }
    }
}

/// The greedy resolution keeps only candidates it was given, and no two that conflict.
pub proof fn lemma_resolution_conflict_free(l: Seq<TrafficLight>, c: Seq<Candidate>)
    ensures
        conflict_free(l, resolve_from(l, c, 0)),
        drawn_from(resolve_from(l, c, 0), c),
{
    lemma_resolve_free(l, c, 0);
    assert(drawn_from(c, c)) by {
        assert forall|k: int| 0 <= k < c.len() implies c.contains(#[trigger] c[k]) by {}
    }
    lemma_resolve_drawn(l, c, 0, c);
}

proof fn lemma_resolve_keeps_dominant(
    l: Seq<TrafficLight>,
    c0: Seq<Candidate>,
    c: Seq<Candidate>,
    i: int,
    x: Candidate,
)
    requires
        0 <= i,
        drawn_from(c, c0),
        c.contains(x),
        dominant(l, c0, x),
    ensures
        resolve_from(l, c, i).contains(x),
    decreases c.len(), c.len() - i,
{
    if i < c.len() {
        lemma_first_rival(l, c, i, 0);
        match first_rival(l, c, i, 0) {
            None => {
                lemma_resolve_keeps_dominant(l, c0, c, i + 1, x);
            },
            Some(o) => {
                let gone = loser(c, i, o);
                let xi = choose|k: int| 0 <= k < c.len() && c[k] == x;
                if c[i] == x {
                    let k0 = choose|k: int| 0 <= k < c0.len() && c0[k] == c[o];
                    assert(candidates_conflict(l, x, c0[k0]));
                    assert(gone == o);
                } else if c[o] == x {
                    let k0 = choose|k: int| 0 <= k < c0.len() && c0[k] == c[i];
                    assert(candidates_conflict(l, x, c0[k0]));
                    assert(gone == i);
                }
                assert(c[gone] != x);
                lemma_remove_index(c, gone, xi);
                lemma_remove_drawn(c, gone, c0);
                lemma_resolve_keeps_dominant(l, c0, c.remove(gone), 0, x);
            },
        }
    }
}

/// A candidate that wins against every candidate it conflicts with survives
/// the greedy resolution; in particular one that conflicts with none does.
pub proof fn lemma_resolution_keeps_dominant(l: Seq<TrafficLight>, c: Seq<Candidate>, x: Candidate)
    requires
        c.contains(x),
        dominant(l, c, x),
    ensures
        resolve_from(l, c, 0).contains(x),
{
    assert(drawn_from(c, c)) by {
        assert forall|k: int| 0 <= k < c.len() implies c.contains(#[trigger] c[k]) by {}
    }
    lemma_resolve_keeps_dominant(l, c, c, 0, x);
}

proof fn lemma_remove_covered(
    l: Seq<TrafficLight>,
    c0: Seq<Candidate>,
    c: Seq<Candidate>,
    gone: int,
    win: int,
)
    requires
        drawn_from(c, c0),
        conflict_transitive(l, c0),
        distinct_lights(c0),
        covered(l, c0, c),
        0 <= gone < c.len(),
        0 <= win < c.len(),
        gone != win,
        candidates_conflict(l, c[gone], c[win]),
    ensures
        covered(l, c0, c.remove(gone)),
{
    let r = c.remove(gone);
    lemma_remove_index(c, gone, win);
    let wr = choose|k: int| 0 <= k < r.len() && r[k] == c[win];
    let w0 = choose|k: int| 0 <= k < c0.len() && c0[k] == c[win];
    let g0 = choose|k: int| 0 <= k < c0.len() && c0[k] == c[gone];
    assert forall|a: int| 0 <= a < c0.len() implies r.contains(#[trigger] c0[a]) || exists|k: int|
        0 <= k < r.len() && #[trigger] candidates_conflict(l, c0[a], r[k]) by {
        let x = c0[a];
        if c.contains(x) {
            let xi = choose|k: int| 0 <= k < c.len() && c[k] == x;
            if xi != gone {
                lemma_remove_index(c, gone, xi);
            } else {
                assert(candidates_conflict(l, x, r[wr]));
            }
        } else {
            let y = choose|k: int| 0 <= k < c.len() && #[trigger] candidates_conflict(l, x, c[k]);
            if y != gone {
                lemma_remove_index(c, gone, y);
                let yr = choose|k: int| 0 <= k < r.len() && r[k] == c[y];
                assert(candidates_conflict(l, x, r[yr]));
            } else {
                if x.light == c[win].light {
                    assert(a == w0);
                    assert(r.contains(x));
                } else {
                    assert(candidates_conflict(l, c0[a], c0[g0]));
                    assert(candidates_conflict(l, c0[g0], c0[w0]));
                    assert(candidates_conflict(l, x, r[wr]));
                }
            }
        }
    }
}

proof fn lemma_resolve_covers(l: Seq<TrafficLight>, c0: Seq<Candidate>, c: Seq<Candidate>, i: int)
    requires
        0 <= i,
        drawn_from(c, c0),
        conflict_transitive(l, c0),
        distinct_lights(c0),
        covered(l, c0, c),
    ensures
        covered(l, c0, resolve_from(l, c, i)),
    decreases c.len(), c.len() - i,
{
    if i < c.len() {
        lemma_first_rival(l, c, i, 0);
        match first_rival(l, c, i, 0) {
            None => {
                lemma_resolve_covers(l, c0, c, i + 1);
            },
            Some(o) => {
                let gone = loser(c, i, o);
                let win = if gone == i {
                    o
                } else {
                    i
                };
                assert(candidates_conflict(l, c[gone], c[win]));
                lemma_remove_covered(l, c0, c, gone, win);
                lemma_remove_drawn(c, gone, c0);
                lemma_resolve_covers(l, c0, c.remove(gone), 0);
            },
        }
    }
}

/// Where conflict among the candidates passes on (each group of mutually
/// reachable candidates conflicts pairwise), the greedy resolution is maximal:
/// every candidate it drops conflicts with one it keeps, so none could be
/// added back.
pub proof fn lemma_resolution_maximal_when_transitive(l: Seq<TrafficLight>, c: Seq<Candidate>)
    requires
        conflict_transitive(l, c),
        distinct_lights(c),
    ensures
        covered(l, c, resolve_from(l, c, 0)),
{
    assert(drawn_from(c, c)) by {
        assert forall|k: int| 0 <= k < c.len() implies c.contains(#[trigger] c[k]) by {}
    }
    assert(covered(l, c, c)) by {
        assert forall|a: int| 0 <= a < c.len() implies c.contains(#[trigger] c[a]) || exists|k: int|
            0 <= k < c.len() && #[trigger] candidates_conflict(l, c[a], c[k]) by {}
    }
    lemma_resolve_covers(l, c, c, 0);
}

} // verus!
