use vstd::prelude::*;
use crate::coordinate::Coordinate;

verus! {

/// The four single-step directions.
#[derive(Clone, Copy, Debug, PartialEq, Eq, Structural, PartialOrd, Ord, Hash)]
pub enum Direction {
    Up,
    Down,
    Left,
    Right,
}

/// One agent's step: the direction and the agent's index.
#[derive(Clone, Copy, Debug, PartialEq, Eq, Structural, PartialOrd, Ord, Hash)]
pub struct Move {
    /// Direction to move.
    pub direction: Direction,
    /// Index of the agent that moves.
    pub id: u8,
}

impl Direction {
    /// The unit step of the direction.
    pub open spec fn step(self) -> Coordinate {
        match self {
            Direction::Up => Coordinate { x: 0, y: 1 },
            Direction::Down => Coordinate { x: 0, y: -1i32 },
            Direction::Left => Coordinate { x: -1i32, y: 0 },
            Direction::Right => Coordinate { x: 1, y: 0 },
        }
    }

    /// The lowercase word of the direction.
    pub open spec fn word(self) -> Seq<char> {
        match self {
            Direction::Up => "up"@,
            Direction::Down => "down"@,
            Direction::Left => "left"@,
            Direction::Right => "right"@,
        }
    }

    /// The lowercase word by which the direction is sent.
    pub fn to_string(&self) -> (s: &'static str)
        ensures
            s@ == self.word(),
    {
        match self {
            Direction::Up => "up",
            Direction::Down => "down",
            Direction::Left => "left",
            Direction::Right => "right",
        }
    }
}

impl Default for Direction {
    fn default() -> (d: Direction)
        ensures
            d == Direction::Up,
    {
        Direction::Up
    }
}

impl From<Direction> for Coordinate {
    fn from(dir: Direction) -> (c: Coordinate) {
        match dir {
            Direction::Up => Coordinate { x: 0, y: 1 },
            Direction::Down => Coordinate { x: 0, y: -1 },
            Direction::Left => Coordinate { x: -1, y: 0 },
            Direction::Right => Coordinate { x: 1, y: 0 },
        }
    }
}

impl vstd::std_specs::convert::FromSpecImpl<Direction> for Coordinate {
    open spec fn obeys_from_spec() -> bool {
        true
    }

    open spec fn from_spec(dir: Direction) -> Coordinate {
        dir.step()
    }
}

impl Move {
    /// The step of agent `id` in `direction`.
    pub fn new(direction: Direction, id: u8) -> (m: Move)
        ensures
            m == (Move { direction, id }),
    {
        Move { direction, id }
    }
}

impl Default for Move {
    fn default() -> (m: Move)
        ensures
            m == (Move { direction: Direction::Up, id: 0 }),
    {
        Move { direction: Direction::Up, id: 0 }
    }
}

} // verus!
