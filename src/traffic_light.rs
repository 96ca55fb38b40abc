use vstd::prelude::*;
use crate::conflict::{conflict_row, is_conflict_row};
use crate::movement::{Direction, Origin, SimplifiedCar};

verus! {

/// Length of the yellow interval, in milliseconds.
pub const YELLOW_TIME_MS: u64 = 1500;

/// Shortest green interval, in milliseconds.
pub const MINIMUM_GREEN_TIME_MS: u64 = 200;

/// Leading part of the yellow interval during which a vehicle may still enter,
/// in milliseconds (three tenths of the yellow interval).
pub const YELLOW_ENTRY_MS: u64 = 450;

/// The signal shown to one movement.
#[derive(Clone, Copy, Debug, PartialEq, Eq, Structural)]
pub enum TrafficLightState {
    Red,
    Yellow,
    Green,
}

/// The signal of one movement: its state, when its current green and its
/// current yellow began, the green request the scheduler armed for it if any,
/// and its conflict row (for each movement, the delay this one observes after
/// it, or `None` where their paths never meet).
///
/// Times are milliseconds on the controller's clock.
pub struct TrafficLight {
    pub origin: Origin,
    pub direction: Direction,
    pub state: TrafficLightState,
    pub intersecting_lights: Vec<Option<u64>>,
    pub green_start: u64,
    pub red_start: u64,
    pub green_requested: bool,
    pub green_requested_at: u64,
    pub green_delay: u64,
}

/// Time from `start` to `now`, zero if `now` is earlier.
pub open spec fn elapsed(now: u64, start: u64) -> nat {
    if now >= start {
        (now - start) as nat
    } else {
        0
    }
}

/// The movement a signal controls.
pub open spec fn movement_of(l: TrafficLight) -> SimplifiedCar {
    SimplifiedCar { origin: l.origin, direction: l.direction }
}

/// The signal shows green or yellow.
pub open spec fn is_active(l: TrafficLight) -> bool {
    l.state != TrafficLightState::Red
}

/// The signal may be let go to red: its minimum green has passed and no green
/// request is outstanding for it.
pub open spec fn can_change_to_red_spec(l: TrafficLight, now: u64) -> bool {
    elapsed(now, l.green_start) >= MINIMUM_GREEN_TIME_MS && !l.green_requested
}

/// An armed green request falls due.
pub open spec fn green_due(l: TrafficLight, now: u64) -> bool {
    l.state == TrafficLightState::Red && l.green_requested && elapsed(now, l.green_requested_at)
        >= l.green_delay
}

/// The signal's state after one step at time `now`, with `queue` vehicles waiting:
/// red turns green when its armed request falls due; green turns yellow once the
/// minimum green has passed and nobody waits; yellow turns red once the yellow
/// interval has passed. Nothing else changes.
pub open spec fn next_light(l: TrafficLight, now: u64, queue: nat) -> TrafficLight {
    if green_due(l, now) {
        TrafficLight { state: TrafficLightState::Green, green_start: now, green_requested: false, ..l }
    } else if l.state == TrafficLightState::Green && elapsed(now, l.green_start)
        >= MINIMUM_GREEN_TIME_MS && queue == 0 {
        TrafficLight { state: TrafficLightState::Yellow, red_start: now, ..l }
    } else if l.state == TrafficLightState::Yellow && elapsed(now, l.red_start) >= YELLOW_TIME_MS {
        TrafficLight { state: TrafficLightState::Red, ..l }
    } else {
        l
    }
}

/// The signal turned yellow at `now` because a conflicting movement was
/// admitted over it.
pub open spec fn yellowed(l: TrafficLight, now: u64) -> TrafficLight {
    TrafficLight { state: TrafficLightState::Yellow, red_start: now, ..l }
}

/// The signal after a green request with the given delay is armed at `now`;
/// a signal with a request outstanding keeps it.
pub open spec fn armed(l: TrafficLight, delay: u64, now: u64) -> TrafficLight {
    if l.green_requested {
        l
    } else {
        TrafficLight {
            green_requested: true,
            green_requested_at: now,
            green_delay: delay,
            ..l
        }
    }
}

/// Every stored time can be moved on by `shift` without overflow.
pub open spec fn can_shift(l: TrafficLight, shift: u64) -> bool {
    l.green_start + shift <= u64::MAX && l.red_start + shift <= u64::MAX && l.green_requested_at
        + shift <= u64::MAX
}

/// The signal with every stored time moved on by `shift`.
pub open spec fn shifted(l: TrafficLight, shift: u64) -> TrafficLight {
    TrafficLight {
        green_start: (l.green_start + shift) as u64,
        red_start: (l.red_start + shift) as u64,
        green_requested_at: (l.green_requested_at + shift) as u64,
        ..l
    }
}

/// A signal turns from green to yellow only after its minimum green.
pub proof fn lemma_minimum_green_respected(l: TrafficLight, now: u64, queue: nat)
    ensures
        l.state == TrafficLightState::Green && next_light(l, now, queue).state
            == TrafficLightState::Yellow ==> elapsed(now, l.green_start) >= MINIMUM_GREEN_TIME_MS,
{
}

/// A step never jumps from green to red nor from yellow to green, and red turns
/// green only through an armed request.
pub proof fn lemma_transitions_allowed(l: TrafficLight, now: u64, queue: nat)
    ensures
        l.state == TrafficLightState::Green ==> next_light(l, now, queue).state
            != TrafficLightState::Red,
        l.state == TrafficLightState::Yellow ==> next_light(l, now, queue).state
            != TrafficLightState::Green,
        l.state == TrafficLightState::Red && next_light(l, now, queue).state
            == TrafficLightState::Green ==> green_due(l, now),
        l.state == TrafficLightState::Red ==> next_light(l, now, queue).state
            != TrafficLightState::Yellow,
{
}

fn elapsed_since(now: u64, start: u64) -> (r: u64)
    ensures
        r == elapsed(now, start),
{
    if now >= start {
        now - start
    } else {
        0
    }
}

impl TrafficLight {
    /// A red signal for the movement, with its conflict row, on a clock that
    /// starts at zero.
    pub fn new(origin: Origin, direction: Direction) -> (r: TrafficLight)
        ensures
            r.origin == origin,
            r.direction == direction,
            r.state == TrafficLightState::Red,
            is_conflict_row(movement_of(r), r.intersecting_lights@),
            r.green_start == 0,
            r.red_start == 0,
            !r.green_requested,
            r.green_requested_at == 0,
            r.green_delay == 0,
    {
        TrafficLight {
            origin,
            direction,
            state: TrafficLightState::Red,
            intersecting_lights: conflict_row(SimplifiedCar::new(origin, direction)),
            green_start: 0,
            red_start: 0,
            green_requested: false,
            green_requested_at: 0,
            green_delay: 0,
        }
    }

    /// The movement this signal controls.
    pub fn movement(&self) -> (r: SimplifiedCar)
        ensures
            r == movement_of(*self),
    {
        SimplifiedCar::new(self.origin, self.direction)
    }

    /// Advances the signal to time `now` with `queue_length` vehicles waiting
    /// (see `next_light`).
    pub fn update(&mut self, now: u64, queue_length: usize)
        ensures
            *final(self) == next_light(*old(self), now, queue_length as nat),
            old(self).state == TrafficLightState::Green && final(self).state
                == TrafficLightState::Yellow ==> elapsed(now, old(self).green_start)
                >= MINIMUM_GREEN_TIME_MS,
    {
        if self.state == TrafficLightState::Red && self.green_requested && elapsed_since(
            now,
            self.green_requested_at,
        ) >= self.green_delay {
            self.state = TrafficLightState::Green;
            self.green_start = now;
            self.green_requested = false;
        } else if self.state == TrafficLightState::Green && elapsed_since(now, self.green_start)
            >= MINIMUM_GREEN_TIME_MS && queue_length == 0 {
            self.state = TrafficLightState::Yellow;
            self.red_start = now;
        } else if self.state == TrafficLightState::Yellow && elapsed_since(now, self.red_start)
            >= YELLOW_TIME_MS {
            self.state = TrafficLightState::Red;
        }
    }

    /// Whether the signal's armed green request falls due at `now`.
    pub fn green_due(&self, now: u64) -> (r: bool)
        ensures
            r == green_due(*self, now),
    {
        self.state == TrafficLightState::Red && self.green_requested && elapsed_since(
            now,
            self.green_requested_at,
        ) >= self.green_delay
    }

    /// Turns a green signal yellow at `now`: a conflicting movement has been
    /// admitted, and the signal must clear before that movement's request falls due.
    pub fn change_to_yellow(&mut self, now: u64)
        requires
            old(self).state == TrafficLightState::Green,
            elapsed(now, old(self).green_start) >= MINIMUM_GREEN_TIME_MS,
        ensures
            *final(self) == yellowed(*old(self), now),
    {
        self.state = TrafficLightState::Yellow;
        self.red_start = now;
    }

    /// Whether the signal may be let go to red at `now` (see `can_change_to_red_spec`).
    pub fn can_change_to_red(&self, now: u64) -> (r: bool)
        ensures
            r == can_change_to_red_spec(*self, now),
    {
        elapsed_since(now, self.green_start) >= MINIMUM_GREEN_TIME_MS && !self.green_requested
    }

    /// Arms a green request with the given delay at `now`, unless one is
    /// outstanding already.
    pub fn change_to_green(&mut self, delay: u64, now: u64)
        ensures
            *final(self) == armed(*old(self), delay, now),
    {
        if !self.green_requested {
            self.green_requested = true;
            self.green_requested_at = now;
            self.green_delay = delay;
        }
    }

    /// Whether the signal shows green or yellow.
    pub fn is_green(&self) -> (r: bool)
        ensures
            r == is_active(*self),
    {
        self.state != TrafficLightState::Red
    }

    /// Whether the signal is in the leading part of its yellow interval, during
    /// which a vehicle that has not passed the stop line may still enter.
    pub fn is_yellow(&self, now: u64) -> (r: bool)
        ensures
            r == (self.state == TrafficLightState::Yellow && elapsed(now, self.red_start)
                < YELLOW_ENTRY_MS),
    {
        self.state == TrafficLightState::Yellow && elapsed_since(now, self.red_start)
            < YELLOW_ENTRY_MS
    }

    /// How long the signal has been green (or since its last green began) at `now`.
    pub fn green_time(&self, now: u64) -> (r: u64)
        ensures
            r == elapsed(now, self.green_start),
    {
        elapsed_since(now, self.green_start)
    }

    /// Moves every stored time on by the length of a pause.
    pub fn unpause(&mut self, time_elapsed: u64)
        requires
            can_shift(*old(self), time_elapsed),
        ensures
            *final(self) == shifted(*old(self), time_elapsed),
    {
        self.green_start = self.green_start + time_elapsed;
        self.red_start = self.red_start + time_elapsed;
        self.green_requested_at = self.green_requested_at + time_elapsed;
    }
}

} // verus!
