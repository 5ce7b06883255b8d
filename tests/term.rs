use crossterm::style::{Color, ContentStyle};
use minesweeper::term::Cell;
use minesweeper::Buffer;

fn red() -> ContentStyle {
    let mut s = ContentStyle::new();
    s.foreground_color = Some(Color::Red);
    s
}

fn write(b: &mut Buffer, text: &str, style: ContentStyle) {
    for ch in text.chars() {
        b.put(Cell::new(ch, style));
    }
}

#[test]
fn new_buffer_is_blank_and_dirty() {
    let mut b = Buffer::new(3, 2);
    assert_eq!((b.width(), b.height()), (3, 2));
    let c = b.get(2, 1).unwrap();
    assert_eq!(c.content, ' ');
    assert!(c.style == ContentStyle::new());
    assert!(c.dirty);
    let drawn = b.take_dirty();
    assert_eq!(drawn.len(), 6);
    let coords: Vec<(usize, usize)> = drawn.iter().map(|(x, y, _)| (*x, *y)).collect();
    assert_eq!(coords, vec![(0, 0), (1, 0), (2, 0), (0, 1), (1, 1), (2, 1)]);
    assert!(b.take_dirty().is_empty());
}

#[test]
fn same_content_and_style_stays_clean() {
    let mut b = Buffer::new(3, 1);
    b.take_dirty();
    b.put(Cell::new(' ', ContentStyle::new()));
    assert!(!b.get(0, 0).unwrap().dirty);
    assert_eq!(b.head_position(), (1, 0));
}

#[test]
fn different_content_marks_dirty() {
    let mut b = Buffer::new(3, 1);
    b.take_dirty();
    b.put(Cell::new('a', ContentStyle::new()));
    let c = b.get(0, 0).unwrap();
    assert_eq!(c.content, 'a');
    assert!(c.dirty);
    let drawn = b.take_dirty();
    assert_eq!(drawn.len(), 1);
    assert_eq!((drawn[0].0, drawn[0].1, drawn[0].2.content), (0, 0, 'a'));
    assert!(!b.get(0, 0).unwrap().dirty);
}

#[test]
fn different_style_marks_dirty() {
    let mut b = Buffer::new(2, 1);
    b.take_dirty();
    b.put(Cell::new(' ', red()));
    assert!(b.get(0, 0).unwrap().dirty);
    assert!(b.get(0, 0).unwrap().style == red());
}

#[test]
fn write_head_stops_past_last_column() {
    let mut b = Buffer::new(2, 2);
    write(&mut b, "abcd", ContentStyle::new());
    assert_eq!(b.get(0, 0).unwrap().content, 'a');
    assert_eq!(b.get(1, 0).unwrap().content, 'b');
    assert_eq!(b.get(0, 1).unwrap().content, ' ');
    assert_eq!(b.head_position(), (2, 0));
}

#[test]
fn newline_moves_to_next_row() {
    let mut b = Buffer::new(2, 2);
    write(&mut b, "a\nb", ContentStyle::new());
    assert_eq!(b.get(0, 1).unwrap().content, 'b');
    b.new_line();
    b.new_line();
    assert_eq!(b.head_position(), (0, 2));
}

#[test]
fn clear_only_dirties_changed_cells() {
    let mut b = Buffer::new(3, 1);
    write(&mut b, "x", ContentStyle::new());
    b.take_dirty();
    b.clear();
    assert_eq!(b.head_position(), (0, 0));
    let c = b.get(0, 0).unwrap();
    assert_eq!(c.content, ' ');
    assert!(c.dirty);
    assert!(!b.get(1, 0).unwrap().dirty);
    assert_eq!(b.take_dirty().len(), 1);
}

#[test]
fn resize_redraws_everything() {
    let mut b = Buffer::new(2, 2);
    write(&mut b, "ab", ContentStyle::new());
    b.take_dirty();
    b.resize(3, 1);
    assert_eq!((b.width(), b.height()), (3, 1));
    assert_eq!(b.head_position(), (0, 0));
    assert_eq!(b.take_dirty().len(), 3);
}

#[test]
fn last_non_blank_row_finds_bottom_text() {
    let mut b = Buffer::new(3, 4);
    assert_eq!(b.last_non_blank_row(), None);
    write(&mut b, "ab\n\nc", ContentStyle::new());
    assert_eq!(b.last_non_blank_row(), Some(2));
    let mut r = Buffer::new(2, 2);
    r.put(Cell::new(' ', red()));
    assert_eq!(r.last_non_blank_row(), Some(0));
}

#[test]
fn get_mut_and_current() {
    let mut b = Buffer::new(2, 1);
    b.get_mut(1, 0).unwrap().content = 'z';
    assert_eq!(b.get(1, 0).unwrap().content, 'z');
    assert!(b.get_mut(2, 0).is_none());
    b.get_current_mut().unwrap().content = 'y';
    assert_eq!(b.get(0, 0).unwrap().content, 'y');
}

#[test]
fn cell_put_and_is_clear() {
    let mut c = Cell::new(' ', ContentStyle::new());
    c.dirty = false;
    assert!(c.is_clear(&ContentStyle::new()));
    c.put(Cell::new(' ', ContentStyle::new()));
    assert!(!c.dirty);
    c.put(Cell::new('q', ContentStyle::new()));
    assert!(c.dirty);
    assert!(!c.is_clear(&ContentStyle::new()));
}

#[test]
fn clean_cell_with_new_content_still_marks_dirty() {
    let mut b = Buffer::new(2, 1);
    b.take_dirty();
    b.put(Cell { content: 'k', style: ContentStyle::new(), dirty: false });
    let c = b.get(0, 0).unwrap();
    assert_eq!(c.content, 'k');
    assert!(c.dirty);
    let drawn = b.take_dirty();
    assert_eq!(drawn.len(), 1);
    assert_eq!(drawn[0].2.content, 'k');
}

#[test]
fn cell_put_of_clean_cell_marks_dirty() {
    let mut c = Cell::new(' ', ContentStyle::new());
    c.dirty = false;
    c.put(Cell { content: 'm', style: ContentStyle::new(), dirty: false });
    assert_eq!(c.content, 'm');
    assert!(c.dirty);
    c.dirty = false;
    c.put(Cell { content: 'm', style: ContentStyle::new(), dirty: true });
    assert!(!c.dirty);
}
