//! The four compass headings and their rotation and letter encodings.

use vstd::prelude::*;

verus! {

/// One of the four compass headings a rover can face.
#[derive(Clone, Copy, Debug)]
pub enum Direction {
    North,
    East,
    South,
    West,
}

/// The heading after a 90-degree counter-clockwise turn.
pub open spec fn turned_left(d: Direction) -> Direction {
    match d {
        Direction::North => Direction::West,
        Direction::West => Direction::South,
        Direction::South => Direction::East,
        Direction::East => Direction::North,
    }
}

/// The heading after a 90-degree clockwise turn.
pub open spec fn turned_right(d: Direction) -> Direction {
    match d {
        Direction::North => Direction::East,
        Direction::East => Direction::South,
        Direction::South => Direction::West,
        Direction::West => Direction::North,
    }
}

/// The single letter that names a heading in the textual formats.
pub open spec fn direction_letter(d: Direction) -> char {
    match d {
        Direction::North => 'N',
        Direction::East => 'E',
        Direction::South => 'S',
        Direction::West => 'W',
    }
}

/// The heading named by a letter, if it is one of the four recognized ones.
pub open spec fn direction_of_letter(c: char) -> Option<Direction> {
    if c == 'N' {
        Some(Direction::North)
    } else if c == 'E' {
        Some(Direction::East)
    } else if c == 'S' {
        Some(Direction::South)
    } else if c == 'W' {
        Some(Direction::West)
    } else {
        None
    }
}

/// A heading token is exactly one recognized letter.
pub open spec fn direction_of_token(t: Seq<char>) -> Option<Direction> {
    if t.len() == 1 {
        direction_of_letter(t[0])
    } else {
        None
    }
}

impl Direction {
    /// The one-letter name of the heading used by the textual formats.
    pub fn letter(self) -> (s: &'static str)
        ensures
            s@ == seq![direction_letter(self)],
    {
        proof {
            reveal_strlit("N");
            reveal_strlit("E");
            reveal_strlit("S");
            reveal_strlit("W");
            assert("N"@ =~= seq!['N']);
            assert("E"@ =~= seq!['E']);
            assert("S"@ =~= seq!['S']);
            assert("W"@ =~= seq!['W']);
        }
        match self {
            Direction::North => "N",
            Direction::East => "E",
            Direction::South => "S",
            Direction::West => "W",
        }
    }

    /// The heading named by `c`, or `None` for an unrecognized letter.
    pub fn from_letter(c: char) -> (d: Option<Direction>)
        ensures
            d == direction_of_letter(c),
    {
        if c == 'N' {
            Some(Direction::North)
        } else if c == 'E' {
            Some(Direction::East)
        } else if c == 'S' {
            Some(Direction::South)
        } else if c == 'W' {
            Some(Direction::West)
        } else {
            None
        }
    }

    /// The heading named by a whole token, or `None` unless the token is a
    /// single recognized letter.
    pub fn from_token(t: &Vec<char>) -> (d: Option<Direction>)
        ensures
            d == direction_of_token(t@),
    {
        if t.len() == 1 {
            Direction::from_letter(t[0])
        } else {
            None
        }
    }
}

} // verus!
