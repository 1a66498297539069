use rover::Rover;

#[test]
fn sets_boundaries() {
    let rover1 = Rover::new("5 5");
    assert_eq!(rover1.get_boundaries(), "5 5");
}

#[test]
fn sets_position() {
    let mut rover1 = Rover::new("5 5");
    rover1.set_position("1 2 N");
    assert_eq!(rover1.get_position(), "1 2 N");
}

#[test]
fn moves_left() {
    let mut rover1 = Rover::new("5 5");
    rover1.set_position("1 2 N");
    rover1.process_input("LM");

    assert_eq!(rover1.get_position(), "0 2 W");
}

#[test]
fn moves_right() {
    let mut rover1 = Rover::new("5 5");
    rover1.set_position("1 2 N");
    rover1.process_input("RM");

    assert_eq!(rover1.get_position(), "2 2 E");
}

#[test]
fn moves_forward() {
    let mut rover1 = Rover::new("5 5");
    rover1.set_position("1 2 E");
    rover1.process_input("MMM");

    assert_eq!(rover1.get_position(), "4 2 E");
}

#[test]
fn rover_one() {
    let mut rover1 = Rover::new("5 5");
    rover1.set_position("1 2 N");
    rover1.process_input("LMLMLMLMM");
    assert_eq!(rover1.get_position(), "1 3 N");
}

#[test]
fn rover_two() {
    let mut rover1 = Rover::new("5 5");
    rover1.set_position("3 3 E");
    rover1.process_input("MMRMMRMRRM");
    assert_eq!(rover1.get_position(), "5 1 E");
}
