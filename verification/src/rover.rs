//! The rover: a position and heading inside fixed grid boundaries, driven
//! by textual specs and command characters.

use vstd::prelude::*;
use vstd::string::StringExecFns;

use crate::direction::{
    direction_letter, direction_of_token, turned_left, turned_right, Direction,
};
use crate::text::{
    chars_of, int_text, parse_i32_text, parse_i32_token, push_int_text, split_tokens, token_views,
    whitespace_tokens,
};

verus! {

/// The mathematical state of a rover: the inclusive grid bounds, the
/// coordinates, and the heading.
pub ghost struct RoverState {
    pub max_x: int,
    pub max_y: int,
    pub x: int,
    pub y: int,
    pub heading: Direction,
}

/// Whether the coordinates lie inside the grid.
pub open spec fn in_bounds(s: RoverState) -> bool {
    0 <= s.x <= s.max_x && 0 <= s.y <= s.max_y
}

/// Whether one step forward stays inside the bound checked for the heading.
pub open spec fn move_allowed(s: RoverState) -> bool {
    match s.heading {
        Direction::North => s.y + 1 <= s.max_y,
        Direction::East => s.x + 1 <= s.max_x,
        Direction::South => s.y - 1 >= 0,
        Direction::West => s.x - 1 >= 0,
    }
}

/// One step forward when allowed; otherwise the move is a no-op.
pub open spec fn moved(s: RoverState) -> RoverState {
    if move_allowed(s) {
        match s.heading {
            Direction::North => RoverState { y: s.y + 1, ..s },
            Direction::East => RoverState { x: s.x + 1, ..s },
            Direction::South => RoverState { y: s.y - 1, ..s },
            Direction::West => RoverState { x: s.x - 1, ..s },
        }
    } else {
        s
    }
}

/// The effect of a rotation character; any other character changes nothing.
pub open spec fn turn_applied(s: RoverState, c: char) -> RoverState {
    if c == 'L' {
        RoverState { heading: turned_left(s.heading), ..s }
    } else if c == 'R' {
        RoverState { heading: turned_right(s.heading), ..s }
    } else {
        s
    }
}

/// The effect of one command character: 'L' and 'R' rotate, 'M' moves with
/// the boundary check, and any other character is ignored.
pub open spec fn stepped(s: RoverState, c: char) -> RoverState {
    if c == 'M' {
        moved(s)
    } else {
        turn_applied(s, c)
    }
}

/// The state after a whole command sequence, processed left to right.
pub open spec fn run(s: RoverState, cmds: Seq<char>) -> RoverState
    decreases cmds.len(),
{
    if cmds.len() == 0 {
        s
    } else {
        run(stepped(s, cmds[0]), cmds.drop_first())
    }
}

/// The boundary spec format: two whitespace-separated integers that fit in
/// an `i32`; further tokens are ignored.
pub open spec fn parse_boundaries_text(s: Seq<char>) -> Option<(int, int)> {
    let toks = whitespace_tokens(s);
    if toks.len() >= 2 && parse_i32_text(toks[0]) is Some && parse_i32_text(toks[1]) is Some {
        Some((parse_i32_text(toks[0])->0, parse_i32_text(toks[1])->0))
    } else {
        None
    }
}

/// The position spec format: two integers that fit in an `i32` and a
/// heading letter, whitespace-separated; further tokens are ignored.
pub open spec fn parse_position_text(s: Seq<char>) -> Option<(int, int, Direction)> {
    let toks = whitespace_tokens(s);
    if toks.len() >= 3 && parse_i32_text(toks[0]) is Some && parse_i32_text(toks[1]) is Some
        && direction_of_token(toks[2]) is Some {
        Some(
            (
                parse_i32_text(toks[0])->0,
                parse_i32_text(toks[1])->0,
                direction_of_token(toks[2])->0,
            ),
        )
    } else {
        None
    }
}

/// The "x y H" rendering of coordinates and heading.
pub open spec fn position_text(s: RoverState) -> Seq<char> {
    int_text(s.x) + seq![' '] + int_text(s.y) + seq![' '] + seq![direction_letter(s.heading)]
}

/// The "max_x max_y" rendering of the grid bounds.
pub open spec fn boundaries_text(s: RoverState) -> Seq<char> {
    int_text(s.max_x) + seq![' '] + int_text(s.max_y)
}

/// A rover on a bounded grid.
#[derive(Debug)]
pub struct Rover {
    boundaries: (i32, i32),
    coordinates: (i32, i32),
    direction: Direction,
}

impl View for Rover {
    type V = RoverState;

    closed spec fn view(&self) -> RoverState {
        RoverState {
            max_x: self.boundaries.0 as int,
            max_y: self.boundaries.1 as int,
            x: self.coordinates.0 as int,
            y: self.coordinates.1 as int,
            heading: self.direction,
        }
    }
}

impl Rover {
    /// Builds a rover at (0, 0) facing north on the grid the boundary spec
    /// describes. The spec must name two non-negative integers.
    pub fn new(boundaries: &str) -> (rover: Self)
        requires
            parse_boundaries_text(boundaries@) matches Some(b) && b.0 >= 0 && b.1 >= 0,
        ensures
            ({
                let b = parse_boundaries_text(boundaries@)->0;
                rover@ == (RoverState {
                    max_x: b.0,
                    max_y: b.1,
                    x: 0,
                    y: 0,
                    heading: Direction::North,
                })
            }),
    {
        let bds = Rover::parse_boundaries(boundaries);
        Self { coordinates: (0, 0), direction: Direction::North, boundaries: (bds.0, bds.1) }
    }

    /// Reads the two bound tokens of a boundary spec.
    fn parse_boundaries(input: &str) -> (b: (i32, i32))
        requires
            parse_boundaries_text(input@) is Some,
        ensures
            parse_boundaries_text(input@) == Some((b.0 as int, b.1 as int)),
    {
        let cs = chars_of(input);
        let toks = split_tokens(&cs);
        proof {
            assert(token_views(toks@).len() == whitespace_tokens(input@).len());
            assert(token_views(toks@)[0] == toks@[0]@);
            assert(token_views(toks@)[1] == toks@[1]@);
        }
        let x = parse_i32_token(&toks[0]);
        let y = parse_i32_token(&toks[1]);
        (x.unwrap(), y.unwrap())
    }

    /// Overwrites coordinates and heading with the ones a position spec
    /// names, unconditionally: no bounds check is applied here, unlike
    /// movement. The grid boundaries are untouched.
    pub fn set_position(&mut self, input: &str)
        requires
            parse_position_text(input@) is Some,
        ensures
            ({
                let p = parse_position_text(input@)->0;
                final(self)@ == (RoverState { x: p.0, y: p.1, heading: p.2, ..old(self)@ })
            }),
    {
        let cs = chars_of(input);
        let toks = split_tokens(&cs);
        proof {
            assert(token_views(toks@).len() == whitespace_tokens(input@).len());
            assert(token_views(toks@)[0] == toks@[0]@);
            assert(token_views(toks@)[1] == toks@[1]@);
            assert(token_views(toks@)[2] == toks@[2]@);
        }
        let x = parse_i32_token(&toks[0]);
        let y = parse_i32_token(&toks[1]);
        let d = Direction::from_token(&toks[2]);
        self.coordinates = (x.unwrap(), y.unwrap());
        self.direction = d.unwrap();
    }

    /// Processes the command characters strictly left to right: 'L' and 'R'
    /// rotate the heading, 'M' advances one unit unless the move would
    /// leave the grid (then it is a no-op), and any other character is
    /// silently ignored.
    pub fn process_input(&mut self, input: &str)
        ensures
            final(self)@ == run(old(self)@, input@),
    {
        let cs = chars_of(input);
        let n = cs.len();
        let mut i: usize = 0;
        proof {
            assert(cs@.subrange(0, n as int) =~= cs@);
        }
        while i < n
            invariant
                i <= n,
                n == cs@.len(),
                cs@ == input@,
                run(old(self)@, input@) == run(self@, cs@.subrange(i as int, n as int)),
            decreases n - i,
        {
            let ghost pre = self@;
            let c = cs[i];
            if c == 'L' || c == 'R' {
                self.change(&c);
            } else if c == 'M' {
                match self.direction {
                    Direction::North => if self.can_move_up() {
                        self.coordinates = (self.coordinates.0, self.coordinates.1 + 1);
                    },
                    Direction::East => if self.can_move_right() {
                        self.coordinates = (self.coordinates.0 + 1, self.coordinates.1);
                    },
                    Direction::South => if self.can_move_down() {
                        self.coordinates = (self.coordinates.0, self.coordinates.1 - 1);
                    },
                    Direction::West => if self.can_move_left() {
                        self.coordinates = (self.coordinates.0 - 1, self.coordinates.1);
                    },
                }
            }
            proof {
                assert(self@ == stepped(pre, c));
                let rem = cs@.subrange(i as int, n as int);
                assert(rem[0] == c);
                assert(rem.drop_first() =~= cs@.subrange(i as int + 1, n as int));
                assert(run(pre, rem) == run(stepped(pre, c), rem.drop_first()));
            }
            i = i + 1;
        }
        proof {
            assert(cs@.subrange(n as int, n as int) =~= Seq::<char>::empty());
        }
    }

    /// The current coordinates and heading, as "x y H".
    pub fn get_position(&self) -> (text: String)
        ensures
            text@ == position_text(self@),
    {
        let mut out = String::new();
        push_int_text(&mut out, self.coordinates.0);
        out.append(" ");
        push_int_text(&mut out, self.coordinates.1);
        out.append(" ");
        out.append(self.direction.letter());
        proof {
            reveal_strlit(" ");
            assert(" "@ =~= seq![' ']);
            assert(out@ =~= position_text(self@));
        }
        out
    }

    /// The grid bounds, as "max_x max_y".
    pub fn get_boundaries(&self) -> (text: String)
        ensures
            text@ == boundaries_text(self@),
    {
        let mut out = String::new();
        push_int_text(&mut out, self.boundaries.0);
        out.append(" ");
        push_int_text(&mut out, self.boundaries.1);
        proof {
            reveal_strlit(" ");
            assert(" "@ =~= seq![' ']);
            assert(out@ =~= boundaries_text(self@));
        }
        out
    }

    /// Rotates the heading for 'L' or 'R' and leaves it alone otherwise.
    fn change(&mut self, turn: &char)
        ensures
            final(self)@ == turn_applied(old(self)@, *turn),
    {
        match self.direction {
            Direction::North => match *turn {
                'L' => self.direction = Direction::West,
                'R' => self.direction = Direction::East,
                _ => {},
            },
            Direction::East => match *turn {
                'L' => self.direction = Direction::North,
                'R' => self.direction = Direction::South,
                _ => {},
            },
            Direction::South => match *turn {
                'L' => self.direction = Direction::East,
                'R' => self.direction = Direction::West,
                _ => {},
            },
            Direction::West => match *turn {
                'L' => self.direction = Direction::South,
                'R' => self.direction = Direction::North,
                _ => {},
            },
        }
    }

    /// Whether a step north stays at or below the upper y bound.
    fn can_move_up(&self) -> (b: bool)
        ensures
            b == (self@.y + 1 <= self@.max_y),
    {
        self.coordinates.1 < self.boundaries.1
    }

    /// Whether a step south stays at or above zero.
    fn can_move_down(&self) -> (b: bool)
        ensures
            b == (self@.y - 1 >= 0),
    {
        self.coordinates.1 > 0
    }

    /// Whether a step west stays at or above zero.
    fn can_move_left(&self) -> (b: bool)
        ensures
            b == (self@.x - 1 >= 0),
    {
        self.coordinates.0 > 0
    }

    /// Whether a step east stays at or below the upper x bound.
    fn can_move_right(&self) -> (b: bool)
        ensures
            b == (self@.x + 1 <= self@.max_x),
    {
        self.coordinates.0 < self.boundaries.0
    }
}

} // verus!
