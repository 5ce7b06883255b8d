use minesweeper::game::{
    cell_glyph, key_action, mouse_action, outcome, perform, Action, Button, Key, MouseKind,
    Outcome, Tint,
};
use minesweeper::{Cell, Cursor, Field};

#[test]
fn outcome_pending_won_lost() {
    let mut f = Field::empty(2, 1).unwrap();
    f.place_mines(&vec![1]);
    assert_eq!(outcome(&f), Outcome::Pending);
    f.reveal_cell(0, 0);
    assert_eq!(outcome(&f), Outcome::Won);
    f.reveal_cell(1, 0);
    assert_eq!(outcome(&f), Outcome::Lost);
}

#[test]
fn glyphs_for_cells() {
    let hidden = Cell::default();
    assert_eq!(cell_glyph(&hidden, 0), ('#', Tint::Plain));
    let flagged = Cell { is_flagged: true, ..hidden };
    assert_eq!(cell_glyph(&flagged, 3), ('!', Tint::OnRed));
    let mine = Cell { is_mine: true, is_revealed: true, is_flagged: false };
    assert_eq!(cell_glyph(&mine, 2), ('*', Tint::Red));
    let open = Cell { is_revealed: true, ..hidden };
    assert_eq!(cell_glyph(&open, 0), (' ', Tint::Plain));
    assert_eq!(cell_glyph(&open, 1), ('1', Tint::Green));
    assert_eq!(cell_glyph(&open, 4), ('4', Tint::Blue));
    assert_eq!(cell_glyph(&open, 6), ('6', Tint::Magenta));
    assert_eq!(cell_glyph(&open, 9), ('X', Tint::Magenta));
}

#[test]
fn keys_map_to_actions() {
    assert_eq!(key_action(Key::Up, false), Action::Up);
    assert_eq!(key_action(Key::Enter, false), Action::RevealAtCursor);
    assert_eq!(key_action(Key::Char(' '), false), Action::ToggleFlagAtCursor);
    assert_eq!(key_action(Key::Char('q'), false), Action::Quit);
    assert_eq!(key_action(Key::Esc, false), Action::Quit);
    assert_eq!(key_action(Key::Char('c'), true), Action::Quit);
    assert_eq!(key_action(Key::Char('q'), true), Action::Redraw);
    assert_eq!(key_action(Key::Other, false), Action::Redraw);
}

#[test]
fn mouse_press_then_release() {
    let mut held = None;
    assert_eq!(mouse_action(&mut held, MouseKind::Down(Button::Left), 1, 2), Action::Redraw);
    assert_eq!(held, Some(Button::Left));
    assert_eq!(mouse_action(&mut held, MouseKind::Drag(Button::Left), 3, 2), Action::MoveTo(3, 2));
    assert_eq!(mouse_action(&mut held, MouseKind::Up(Button::Left), 3, 2), Action::RevealAt(3, 2));
    assert_eq!(held, None);
    mouse_action(&mut held, MouseKind::Down(Button::Right), 0, 0);
    assert_eq!(mouse_action(&mut held, MouseKind::Up(Button::Right), 0, 1), Action::ToggleFlagAt(0, 1));
    assert_eq!(mouse_action(&mut held, MouseKind::Up(Button::Left), 0, 1), Action::Redraw);
}

#[test]
fn perform_moves_and_reveals() {
    let mut f = Field::empty(3, 3).unwrap();
    f.place_mines(&vec![8]);
    let mut c = Cursor::new(3, 3);
    assert!(perform(&mut f, &mut c, Action::Right));
    assert!(perform(&mut f, &mut c, Action::ToggleFlagAtCursor));
    assert!(f.get(1, 0).unwrap().is_flagged);
    assert!(perform(&mut f, &mut c, Action::RevealAt(0, 2)));
    assert_eq!(c.position(), (0, 2));
    assert!(f.get(0, 2).unwrap().is_revealed);
    assert!(!f.get(1, 0).unwrap().is_revealed);
    assert!(!perform(&mut f, &mut c, Action::Quit));
}
