use minesweeper::{Cursor, TryAdd};

#[test]
fn new_cursor_starts_at_origin() {
    let c = Cursor::new(3, 3);
    assert_eq!(c.position(), (0, 0));
    assert!(c.is_at(0, 0));
}

#[test]
fn offset_left_at_origin_stays() {
    let mut c = Cursor::new(3, 3);
    c.apply_offset(-1, 0);
    assert_eq!(c.position(), (0, 0));
}

#[test]
fn left_then_up_at_origin_stays() {
    let mut c = Cursor::new(3, 3);
    c.left();
    c.up();
    assert_eq!(c.position(), (0, 0));
}

#[test]
fn moves_inside_bounds_apply() {
    let mut c = Cursor::new(3, 2);
    c.right();
    c.down();
    assert_eq!(c.position(), (1, 1));
    c.apply_offset(1, -1);
    assert_eq!(c.position(), (2, 0));
}

#[test]
fn moves_past_edge_are_absorbed() {
    let mut c = Cursor::new(3, 2);
    c.set_position(2, 1);
    c.right();
    c.down();
    assert_eq!(c.position(), (2, 1));
}

#[test]
fn offset_valid_in_one_axis_only_does_not_apply() {
    let mut c = Cursor::new(3, 3);
    c.set_position(1, 2);
    c.apply_offset(1, 1);
    assert_eq!(c.position(), (1, 2));
    c.apply_offset(-2, 0);
    assert_eq!(c.position(), (1, 2));
}

#[test]
fn set_position_out_of_bounds_is_ignored() {
    let mut c = Cursor::new(4, 2);
    c.set_position(3, 1);
    assert_eq!(c.position(), (3, 1));
    c.set_position(4, 0);
    assert_eq!(c.position(), (3, 1));
    c.set_position(0, 2);
    assert_eq!(c.position(), (3, 1));
}

#[test]
fn set_x_and_set_y() {
    let mut c = Cursor::new(4, 4);
    c.set_x(2);
    c.set_y(3);
    assert_eq!((c.x(), c.y()), (2, 3));
    c.set_x(9);
    c.set_y(9);
    assert_eq!((c.x(), c.y()), (2, 3));
}

#[test]
fn position_validity() {
    let c = Cursor::new(2, 5);
    assert!(c.position_is_valid(1, 4));
    assert!(!c.position_is_valid(2, 0));
    assert!(!c.position_is_valid(0, 5));
}

#[test]
fn random_walk_stays_in_bounds() {
    let mut c = Cursor::new(4, 3);
    let moves: [(isize, isize); 10] =
        [(1, 0), (5, 0), (-1, -1), (0, 2), (3, 0), (1, 1), (-7, 0), (0, -1), (2, 2), (-1, 0)];
    for (dx, dy) in moves {
        c.apply_offset(dx, dy);
        assert!(c.x() < 4 && c.y() < 3);
    }
}

#[test]
fn try_add_signed() {
    assert_eq!(5usize.try_add(-2isize), Some(3));
    assert_eq!(0usize.try_add(-1isize), None);
    assert_eq!(usize::MAX.try_add(1isize), None);
    assert_eq!(0usize.try_add(isize::MIN), None);
    assert_eq!(usize::MAX.try_add(isize::MIN), Some(usize::MAX - (isize::MAX as usize) - 1));
}

#[test]
fn try_add_unsigned() {
    assert_eq!(5usize.try_add(2usize), Some(7));
    assert_eq!(usize::MAX.try_add(1usize), None);
}
