use vstd::prelude::*;

verus! {

/// One of the four cardinal headings.
#[derive(Copy, Clone, Debug, PartialEq, Eq, Structural)]
pub enum Direction {
    North,
    East,
    South,
    West,
}

/// The heading a quarter turn counter-clockwise from `d`.
pub open spec fn left_of(d: Direction) -> Direction {
    match d {
        Direction::North => Direction::West,
        Direction::West => Direction::South,
        Direction::South => Direction::East,
        Direction::East => Direction::North,
    }
}

/// The heading a quarter turn clockwise from `d`.
pub open spec fn right_of(d: Direction) -> Direction {
    match d {
        Direction::North => Direction::East,
        Direction::East => Direction::South,
        Direction::South => Direction::West,
        Direction::West => Direction::North,
    }
}

impl Direction {
    /// Rotates a quarter turn counter-clockwise.
    pub fn turned_left(self) -> (r: Direction)
        ensures
            r == left_of(self),
    {
        match self {
            Direction::North => Direction::West,
            Direction::South => Direction::East,
            Direction::East => Direction::North,
            Direction::West => Direction::South,
        }
    }

    /// Rotates a quarter turn clockwise.
    pub fn turned_right(self) -> (r: Direction)
        ensures
            r == right_of(self),
    {
        match self {
            Direction::North => Direction::East,
            Direction::South => Direction::West,
            Direction::East => Direction::South,
            Direction::West => Direction::North,
        }
    }
}

/// Turning left and turning right undo each other, and four left turns
/// bring any heading back to itself: turning is a bijection on headings.
pub proof fn lemma_turns_invert(d: Direction)
    ensures
        right_of(left_of(d)) == d,
        left_of(right_of(d)) == d,
        left_of(left_of(left_of(left_of(d)))) == d,
        right_of(right_of(right_of(right_of(d)))) == d,
{
}

} // verus!
