use sloth::Location;

#[test]
fn new_keeps_line_and_column() {
    let location = Location::new(3, 7);
    assert_eq!(location.line_number(), 3);
    assert_eq!(location.column_number(), 7);
}

#[test]
fn increment_line_number_moves_to_first_column_of_next_line() {
    let location = Location::new(3, 7).increment_line_number();
    assert_eq!(location.line_number(), 4);
    assert_eq!(location.column_number(), 1);
}

#[test]
fn increment_column_number_keeps_line() {
    let location = Location::new(3, 7).increment_column_number();
    assert_eq!(location.line_number(), 3);
    assert_eq!(location.column_number(), 8);
}

#[test]
fn column_steps_keep_the_line() {
    let mut location = Location::new(5, 2);
    for _ in 0..7 {
        location = location.increment_column_number();
    }
    assert_eq!(location.line_number(), 5);
    assert_eq!(location.column_number(), 9);
}
