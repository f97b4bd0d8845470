use vstd::prelude::*;

verus! {

/// The four headings of the guard, in clockwise order.
#[derive(Clone, Copy, Debug, PartialEq, Eq, Structural)]
pub enum Direction {
    Up,
    Right,
    Down,
    Left,
}

impl Direction {
    /// The heading after one clockwise quarter turn.
    pub open spec fn turned(self) -> Direction {
        match self {
            Direction::Up => Direction::Right,
            Direction::Right => Direction::Down,
            Direction::Down => Direction::Left,
            Direction::Left => Direction::Up,
        }
    }

    /// Row change of one step forward.
    pub open spec fn dr(self) -> int {
        match self {
            Direction::Up => -1,
            Direction::Down => 1,
            _ => 0,
        }
    }

    /// Column change of one step forward.
    pub open spec fn dc(self) -> int {
        match self {
            Direction::Left => -1,
            Direction::Right => 1,
            _ => 0,
        }
    }

    /// Position of the heading in the clockwise order, starting from `Up`.
    pub open spec fn ord(self) -> int {
        match self {
            Direction::Up => 0,
            Direction::Right => 1,
            Direction::Down => 2,
            Direction::Left => 3,
        }
    }

    /// The heading that a grid character marks, if it is one of `^ > v <`.
    pub open spec fn of_marker(c: char) -> Option<Direction> {
        if c == '^' {
            Some(Direction::Up)
        } else if c == '>' {
            Some(Direction::Right)
        } else if c == 'v' {
            Some(Direction::Down)
        } else if c == '<' {
            Some(Direction::Left)
        } else {
            None
        }
    }

    /// Exec counterpart of `ord`.
    pub fn index(self) -> (r: usize)
        ensures
            r as int == self.ord(),
            r < 4,
    {
        match self {
            Direction::Up => 0,
            Direction::Right => 1,
            Direction::Down => 2,
            Direction::Left => 3,
        }
    }

    /// Reads a heading marker out of a grid character.
    pub fn from_marker(c: char) -> (r: Option<Direction>)
        ensures
            r == Direction::of_marker(c),
    {
        if c == '^' {
            Some(Direction::Up)
        } else if c == '>' {
            Some(Direction::Right)
        } else if c == 'v' {
            Some(Direction::Down)
        } else if c == '<' {
            Some(Direction::Left)
        } else {
            None
        }
    }
}

/// Turns a heading clockwise by a quarter turn.
pub fn get_next_direction(direction: Direction) -> (r: Direction)
    ensures
        r == direction.turned(),
{
    match direction {
        Direction::Up => Direction::Right,
        Direction::Right => Direction::Down,
        Direction::Down => Direction::Left,
        Direction::Left => Direction::Up,
    }
}

} // verus!
