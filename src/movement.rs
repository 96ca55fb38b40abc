use vstd::prelude::*;

verus! {

/// Number of approaches to the intersection.
pub const NUM_ORIGINS: usize = 4;

/// Number of movements an approach offers.
pub const NUM_DIRECTIONS: usize = 3;

/// Number of movement groups (approach, direction) at the intersection.
pub const NUM_MOVEMENTS: usize = 12;

/// The approach a vehicle comes from.
#[derive(Clone, Copy, Debug, PartialEq, Eq, Hash, Structural)]
pub enum Origin {
    North,
    South,
    East,
    West,
}

/// The movement a vehicle makes through the intersection.
#[derive(Clone, Copy, Debug, PartialEq, Eq, Hash, Structural)]
pub enum Direction {
    Left,
    Right,
    Straight,
}

/// Dense index of an approach: North 0, South 1, East 2, West 3.
pub open spec fn origin_index(o: Origin) -> nat {
    match o {
        Origin::North => 0,
        Origin::South => 1,
        Origin::East => 2,
        Origin::West => 3,
    }
}

/// The approach with the given dense index.
pub open spec fn origin_of_index(i: nat) -> Origin {
    if i == 0 {
        Origin::North
    } else if i == 1 {
        Origin::South
    } else if i == 2 {
        Origin::East
    } else {
        Origin::West
    }
}

/// Quarter turn clockwise on the map: North, East, South, West.
pub open spec fn right_of(o: Origin) -> Origin {
    match o {
        Origin::North => Origin::East,
        Origin::South => Origin::West,
        Origin::East => Origin::South,
        Origin::West => Origin::North,
    }
}

/// Quarter turn counter-clockwise on the map.
pub open spec fn left_of(o: Origin) -> Origin {
    match o {
        Origin::North => Origin::West,
        Origin::South => Origin::East,
        Origin::East => Origin::North,
        Origin::West => Origin::South,
    }
}

/// Half turn.
pub open spec fn opposite_of(o: Origin) -> Origin {
    match o {
        Origin::North => Origin::South,
        Origin::South => Origin::North,
        Origin::East => Origin::West,
        Origin::West => Origin::East,
    }
}

/// Index of a direction as `Direction::from` reads it: Left 0, Right 1, Straight 2.
pub open spec fn direction_of_index(i: nat) -> Direction {
    if i == 0 {
        Direction::Left
    } else if i == 1 {
        Direction::Right
    } else {
        Direction::Straight
    }
}

/// Position of a direction inside its approach's block of movements:
/// Left 0, Straight 1, Right 2.
pub open spec fn direction_slot(d: Direction) -> nat {
    match d {
        Direction::Left => 0,
        Direction::Straight => 1,
        Direction::Right => 2,
    }
}

impl Origin {
    /// The approach with index `i` (North 0, South 1, East 2, West 3).
    pub fn from(i: usize) -> (r: Origin)
        requires
            i < NUM_ORIGINS,
        ensures
            r == origin_of_index(i as nat),
            origin_index(r) == i,
    {
        if i == 0 {
            Origin::North
        } else if i == 1 {
            Origin::South
        } else if i == 2 {
            Origin::East
        } else {
            Origin::West
        }
    }

    /// The dense index of this approach.
    pub fn to(&self) -> (r: usize)
        ensures
            r as nat == origin_index(*self),
            r < NUM_ORIGINS,
            origin_of_index(r as nat) == *self,
    {
        match self {
            Origin::North => 0,
            Origin::South => 1,
            Origin::East => 2,
            Origin::West => 3,
        }
    }

    /// The approach a quarter turn clockwise from this one.
    pub fn right(&self) -> (r: Origin)
        ensures
            r == right_of(*self),
    {
        match self {
            Origin::North => Origin::East,
            Origin::South => Origin::West,
            Origin::East => Origin::South,
            Origin::West => Origin::North,
        }
    }

    /// The approach a quarter turn counter-clockwise from this one.
    pub fn left(&self) -> (r: Origin)
        ensures
            r == left_of(*self),
    {
        match self {
            Origin::North => Origin::West,
            Origin::South => Origin::East,
            Origin::East => Origin::North,
            Origin::West => Origin::South,
        }
    }

    /// The approach facing this one.
    pub fn opposite(&self) -> (r: Origin)
        ensures
            r == opposite_of(*self),
    {
        match self {
            Origin::North => Origin::South,
            Origin::South => Origin::North,
            Origin::East => Origin::West,
            Origin::West => Origin::East,
        }
    }
}

impl Direction {
    /// The direction with index `i` (Left 0, Right 1, Straight 2).
    pub fn from(i: usize) -> (r: Direction)
        requires
            i < NUM_DIRECTIONS,
        ensures
            r == direction_of_index(i as nat),
    {
        if i == 0 {
            Direction::Left
        } else if i == 1 {
            Direction::Right
        } else {
            Direction::Straight
        }
    }
}

/// One movement group: the approach a vehicle comes from and the way it goes.
#[derive(Clone, Copy, Debug, PartialEq, Eq, Hash, Structural)]
pub struct SimplifiedCar {
    pub origin: Origin,
    pub direction: Direction,
}

/// Dense index of a movement in `0..12`: approaches in the order North, South,
/// East, West, and inside each approach Left, Straight, Right.
pub open spec fn movement_index(m: SimplifiedCar) -> nat {
    origin_index(m.origin) * 3 + direction_slot(m.direction)
}

/// The movement with the given dense index.
pub open spec fn movement_of_index(i: nat) -> SimplifiedCar {
    SimplifiedCar {
        origin: origin_of_index(i / 3),
        direction: if i % 3 == 0 {
            Direction::Left
        } else if i % 3 == 1 {
            Direction::Straight
        } else {
            Direction::Right
        },
    }
}

/// The dense index is a bijection between movements and `0..12`.
pub proof fn lemma_movement_index_bijective(m: SimplifiedCar, i: nat)
    requires
        i < NUM_MOVEMENTS,
    ensures
        movement_index(m) < NUM_MOVEMENTS,
        movement_of_index(movement_index(m)) == m,
        movement_index(movement_of_index(i)) == i,
{
}

/// Rotations compose: two quarter turns make a half turn, and left undoes right.
pub proof fn lemma_rotations_compose(o: Origin)
    ensures
        right_of(right_of(o)) == opposite_of(o),
        left_of(left_of(o)) == opposite_of(o),
        left_of(right_of(o)) == o,
        opposite_of(opposite_of(o)) == o,
{
}

impl SimplifiedCar {
    pub fn new(origin: Origin, direction: Direction) -> (r: SimplifiedCar)
        ensures
            r.origin == origin,
            r.direction == direction,
    {
        SimplifiedCar { origin, direction }
    }

    /// The dense index of this movement.
    pub fn index(&self) -> (r: usize)
        ensures
            r as nat == movement_index(*self),
            r < NUM_MOVEMENTS,
    {
        let slot: usize = match self.direction {
            Direction::Left => 0,
            Direction::Straight => 1,
            Direction::Right => 2,
        };
        self.origin.to() * 3 + slot
    }

    /// The movement with dense index `i`.
    pub fn from_index(i: usize) -> (r: SimplifiedCar)
        requires
            i < NUM_MOVEMENTS,
        ensures
            r == movement_of_index(i as nat),
            movement_index(r) == i,
    {
        let origin = Origin::from(i / 3);
        let direction = if i % 3 == 0 {
            Direction::Left
        } else if i % 3 == 1 {
            Direction::Straight
        } else {
            Direction::Right
        };
        SimplifiedCar { origin, direction }
    }
}

} // verus!
