use brainfuck::{CircularTape, OutOfBounds, SimpleTape, Tape};

#[test]
fn a_new_bounded_tape_is_blank() {
    let tape = SimpleTape::new(1024);
    assert_eq!(tape.position(), 0);
    assert_eq!(tape.cells().len(), 1024);
    assert!(tape.cells().iter().all(|&cell| cell == 0));
    assert_eq!(tape.read(), 0);
}

#[test]
fn a_new_circular_tape_is_blank() {
    let tape = CircularTape::new(16);
    assert_eq!(tape.position(), 0);
    assert_eq!(tape.cells().len(), 16);
    assert!(tape.cells().iter().all(|&cell| cell == 0));
    assert_eq!(tape.read(), 0);
}

#[test]
fn a_tape_can_have_no_cells() {
    let tape = SimpleTape::new(0);
    assert!(tape.cells().is_empty());
    assert_eq!(tape.position(), 0);
    let ring = CircularTape::new(0);
    assert!(ring.cells().is_empty());
    assert_eq!(ring.position(), 0);
}

#[test]
fn increment_wraps_from_255_to_0() {
    let mut tape = SimpleTape::new(4);
    tape.write(255);
    tape.inc();
    assert_eq!(tape.read(), 0);

    let mut ring = CircularTape::new(4);
    ring.write(255);
    ring.inc();
    assert_eq!(ring.read(), 0);
}

#[test]
fn decrement_wraps_from_0_to_255() {
    let mut tape = SimpleTape::new(4);
    tape.dec();
    assert_eq!(tape.read(), 255);

    let mut ring = CircularTape::new(4);
    ring.dec();
    assert_eq!(ring.read(), 255);
}

#[test]
fn increment_and_decrement_touch_the_current_cell_only() {
    let mut tape = SimpleTape::new(3);
    tape.inc();
    tape.inc();
    assert_eq!(tape.go_right(), Ok(()));
    tape.dec();
    assert_eq!(tape.cells(), &vec![2, 255, 0]);
    assert_eq!(tape.position(), 1);
    tape.inc();
    tape.inc();
    assert_eq!(tape.cells(), &vec![2, 1, 0]);
}

#[test]
fn write_overwrites_and_read_does_not_change() {
    let mut tape = CircularTape::new(2);
    tape.write(42);
    assert_eq!(tape.read(), 42);
    assert_eq!(tape.read(), 42);
    tape.write(7);
    assert_eq!(tape.read(), 7);
    assert_eq!(tape.cells(), &vec![7, 0]);
}

#[test]
fn circular_tape_goes_left_from_the_first_cell_to_the_last() {
    let mut tape = CircularTape::new(5);
    assert_eq!(tape.go_left(), Ok(()));
    assert_eq!(tape.position(), 4);
}

#[test]
fn circular_tape_goes_right_from_the_last_cell_to_the_first() {
    let mut tape = CircularTape::new(5);
    for expected in 1..5 {
        assert_eq!(tape.go_right(), Ok(()));
        assert_eq!(tape.position(), expected);
    }
    assert_eq!(tape.go_right(), Ok(()));
    assert_eq!(tape.position(), 0);
}

#[test]
fn circular_tape_wraps_whatever_its_capacity() {
    let mut three = CircularTape::new(3);
    assert_eq!(three.go_left(), Ok(()));
    assert_eq!(three.position(), 2);

    let mut one = CircularTape::new(1);
    assert_eq!(one.go_left(), Ok(()));
    assert_eq!(one.position(), 0);
    assert_eq!(one.go_right(), Ok(()));
    assert_eq!(one.position(), 0);
}

#[test]
fn circular_tape_keeps_its_cells_when_it_wraps() {
    let mut tape = CircularTape::new(3);
    tape.write(1);
    assert_eq!(tape.go_left(), Ok(()));
    tape.write(3);
    assert_eq!(tape.go_right(), Ok(()));
    assert_eq!(tape.read(), 1);
    assert_eq!(tape.cells(), &vec![1, 0, 3]);
}

#[test]
fn bounded_tape_refuses_to_go_left_of_the_first_cell() {
    let mut tape = SimpleTape::new(8);
    tape.write(5);
    assert_eq!(tape.go_left(), Err(OutOfBounds));
    assert_eq!(tape.position(), 0);
    assert_eq!(tape.read(), 5);
}

#[test]
fn bounded_tape_refuses_to_go_right_of_the_last_cell() {
    let mut tape = SimpleTape::new(3);
    assert_eq!(tape.go_right(), Ok(()));
    assert_eq!(tape.go_right(), Ok(()));
    assert_eq!(tape.position(), 2);
    tape.write(9);
    assert_eq!(tape.go_right(), Err(OutOfBounds));
    assert_eq!(tape.position(), 2);
    assert_eq!(tape.read(), 9);
}

#[test]
fn bounded_tape_moves_inside_its_bounds() {
    let mut tape = SimpleTape::new(3);
    assert_eq!(tape.go_right(), Ok(()));
    assert_eq!(tape.position(), 1);
    assert_eq!(tape.go_left(), Ok(()));
    assert_eq!(tape.position(), 0);
}
