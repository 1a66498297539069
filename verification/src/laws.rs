//! Proved laws of the rover: the round trips between its textual formats
//! and its state, the order of the rotation group, and boundary safety.

use vstd::prelude::*;

use crate::direction::{
    direction_letter, direction_of_letter, direction_of_token, Direction,
};
use crate::rover::{
    boundaries_text, in_bounds, move_allowed, parse_boundaries_text, parse_position_text,
    position_text, run, stepped, RoverState,
};
use crate::text::{
    int_text, is_space_char, lemma_int_text_parses, lemma_tokens_pair, lemma_tokens_triple,
    parse_i32_text, whitespace_tokens,
};

verus! {

/// A heading letter names that heading back and is not whitespace.
pub proof fn lemma_letter_round_trip(d: Direction)
    ensures
        direction_of_letter(direction_letter(d)) == Some(d),
        !is_space_char(direction_letter(d)),
{
    match d {
        Direction::North => {},
        Direction::East => {},
        Direction::South => {},
        Direction::West => {},
    }
}

/// Rendered grid bounds read back as the same bounds: a rover constructed
/// from the very text that `get_boundaries` returns reports that text
/// again, so every canonical boundary string "X Y" round-trips exactly.
pub proof fn lemma_boundaries_round_trip(s: RoverState)
    requires
        0 <= s.max_x <= i32::MAX,
        0 <= s.max_y <= i32::MAX,
    ensures
        parse_boundaries_text(boundaries_text(s)) == Some((s.max_x, s.max_y)),
{
    lemma_int_text_parses(s.max_x);
    lemma_int_text_parses(s.max_y);
    lemma_tokens_pair(int_text(s.max_x), int_text(s.max_y));
    let toks = whitespace_tokens(boundaries_text(s));
    assert(toks == seq![int_text(s.max_x), int_text(s.max_y)]);
    assert(toks[0] == int_text(s.max_x));
    assert(toks[1] == int_text(s.max_y));
    assert(parse_i32_text(toks[0]) == Some(s.max_x));
    assert(parse_i32_text(toks[1]) == Some(s.max_y));
}

/// A rover at the origin facing north renders its position as "0 0 N",
/// which is what a freshly constructed rover reports.
pub proof fn lemma_initial_position_text(s: RoverState)
    requires
        s.x == 0,
        s.y == 0,
        s.heading == Direction::North,
    ensures
        position_text(s) == "0 0 N"@,
{
    reveal_strlit("0 0 N");
    assert(int_text(0) == seq!['0']);
    assert(position_text(s) =~= "0 0 N"@);
}

/// A rendered position reads back as the same coordinates and heading:
/// repositioning with any canonical "x y H" text and rendering the
/// position again returns exactly that text.
pub proof fn lemma_position_round_trip(s: RoverState)
    requires
        i32::MIN <= s.x <= i32::MAX,
        i32::MIN <= s.y <= i32::MAX,
    ensures
        parse_position_text(position_text(s)) == Some((s.x, s.y, s.heading)),
{
    lemma_int_text_parses(s.x);
    lemma_int_text_parses(s.y);
    lemma_letter_round_trip(s.heading);
    let hl = seq![direction_letter(s.heading)];
    lemma_tokens_triple(int_text(s.x), int_text(s.y), hl);
    let toks = whitespace_tokens(position_text(s));
    assert(toks == seq![int_text(s.x), int_text(s.y), hl]);
    assert(toks[0] == int_text(s.x));
    assert(toks[1] == int_text(s.y));
    assert(toks[2] == hl);
    assert(parse_i32_text(toks[0]) == Some(s.x));
    assert(parse_i32_text(toks[1]) == Some(s.y));
    assert(direction_of_token(hl) == Some(s.heading));
}

/// Rotation is cyclic of order four: four left turns, or four right turns,
/// restore the heading and leave the position untouched.
pub proof fn lemma_rotation_order_four(s: RoverState)
    ensures
        run(s, seq!['L', 'L', 'L', 'L']) == s,
        run(s, seq!['R', 'R', 'R', 'R']) == s,
{
    let l4 = seq!['L', 'L', 'L', 'L'];
    assert(l4.drop_first() =~= seq!['L', 'L', 'L']);
    assert(seq!['L', 'L', 'L'].drop_first() =~= seq!['L', 'L']);
    assert(seq!['L', 'L'].drop_first() =~= seq!['L']);
    assert(seq!['L'].drop_first() =~= Seq::<char>::empty());
    let r4 = seq!['R', 'R', 'R', 'R'];
    assert(r4.drop_first() =~= seq!['R', 'R', 'R']);
    assert(seq!['R', 'R', 'R'].drop_first() =~= seq!['R', 'R']);
    assert(seq!['R', 'R'].drop_first() =~= seq!['R']);
    assert(seq!['R'].drop_first() =~= Seq::<char>::empty());
    assert(run(s, l4) == s) by {
        reveal_with_fuel(run, 5);
    }
    assert(run(s, r4) == s) by {
        reveal_with_fuel(run, 5);
    }
}

/// Movement never leaves the grid: starting in bounds, every command
/// sequence ends in bounds, whatever it contains.
pub proof fn lemma_run_stays_in_bounds(s: RoverState, cmds: Seq<char>)
    requires
        in_bounds(s),
    ensures
        in_bounds(run(s, cmds)),
    decreases cmds.len(),
{
    if cmds.len() > 0 {
        assert(in_bounds(stepped(s, cmds[0])));
        lemma_run_stays_in_bounds(stepped(s, cmds[0]), cmds.drop_first());
    }
}

/// A blocked move is a no-op: when the bound check for the current heading
/// fails, an 'M' command changes nothing at all.
pub proof fn lemma_blocked_move(s: RoverState)
    requires
        !move_allowed(s),
    ensures
        stepped(s, 'M') == s,
{
}

} // verus!
