use rover::Rover;

#[test]
fn starts_at_origin_facing_north() {
    let rover1 = Rover::new("5 5");
    assert_eq!(rover1.get_position(), "0 0 N");
}

#[test]
fn reports_boundaries_exactly() {
    assert_eq!(Rover::new("0 0").get_boundaries(), "0 0");
    assert_eq!(Rover::new("12 34").get_boundaries(), "12 34");
    assert_eq!(Rover::new("2147483647 2147483647").get_boundaries(), "2147483647 2147483647");
}

#[test]
fn tolerates_extra_whitespace_in_boundaries() {
    let rover1 = Rover::new("  7\t 9  ");
    assert_eq!(rover1.get_boundaries(), "7 9");
}

#[test]
fn parses_signed_numbers() {
    let rover1 = Rover::new("+5 +6");
    assert_eq!(rover1.get_boundaries(), "5 6");
}

#[test]
fn position_round_trips_for_each_heading() {
    let mut rover1 = Rover::new("5 5");
    for spec in ["1 2 N", "3 4 E", "0 5 S", "5 0 W"] {
        rover1.set_position(spec);
        assert_eq!(rover1.get_position(), spec);
    }
}

#[test]
fn position_round_trips_with_negative_coordinates() {
    let mut rover1 = Rover::new("5 5");
    rover1.set_position("-3 -7 W");
    assert_eq!(rover1.get_position(), "-3 -7 W");
    rover1.set_position("2147483647 -2147483648 S");
    assert_eq!(rover1.get_position(), "2147483647 -2147483648 S");
}

#[test]
fn ignores_tokens_after_the_expected_ones() {
    let mut rover1 = Rover::new("5 5 99");
    assert_eq!(rover1.get_boundaries(), "5 5");
    rover1.set_position("1 2 N 99");
    assert_eq!(rover1.get_position(), "1 2 N");
}

#[test]
fn four_left_turns_restore_the_state() {
    let mut rover1 = Rover::new("5 5");
    rover1.set_position("2 2 E");
    rover1.process_input("LLLL");
    assert_eq!(rover1.get_position(), "2 2 E");
}

#[test]
fn four_right_turns_restore_the_state() {
    let mut rover1 = Rover::new("5 5");
    rover1.set_position("2 2 E");
    rover1.process_input("RRRR");
    assert_eq!(rover1.get_position(), "2 2 E");
}

#[test]
fn rejected_move_is_a_no_op() {
    let mut rover1 = Rover::new("5 5");
    rover1.set_position("0 0 S");
    rover1.process_input("M");
    assert_eq!(rover1.get_position(), "0 0 S");
}

#[test]
fn stays_inside_every_edge() {
    let mut rover1 = Rover::new("2 2");
    rover1.set_position("2 2 N");
    rover1.process_input("MMM");
    assert_eq!(rover1.get_position(), "2 2 N");
    rover1.set_position("2 2 E");
    rover1.process_input("MMM");
    assert_eq!(rover1.get_position(), "2 2 E");
    rover1.set_position("0 0 S");
    rover1.process_input("MMM");
    assert_eq!(rover1.get_position(), "0 0 S");
    rover1.set_position("0 0 W");
    rover1.process_input("MMM");
    assert_eq!(rover1.get_position(), "0 0 W");
}

#[test]
fn unknown_command_characters_are_skipped() {
    let mut rover1 = Rover::new("5 5");
    rover1.set_position("1 2 N");
    rover1.process_input("L x! M\n");
    assert_eq!(rover1.get_position(), "0 2 W");
}

#[test]
fn empty_command_string_changes_nothing() {
    let mut rover1 = Rover::new("5 5");
    rover1.set_position("4 1 S");
    rover1.process_input("");
    assert_eq!(rover1.get_position(), "4 1 S");
}

#[test]
fn zero_sized_grid_allows_no_move() {
    let mut rover1 = Rover::new("0 0");
    rover1.process_input("MRMRMRM");
    assert_eq!(rover1.get_position(), "0 0 W");
}
