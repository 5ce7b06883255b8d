use vstd::prelude::*;

use crate::cell::Cell;
use crate::cursor::Cursor;
use crate::field::Field;

verus! {

/// Where a game stands.
#[derive(Debug, Clone, Copy, PartialEq, Eq, Structural)]
pub enum Outcome {
    Pending,
    Won,
    Lost,
}

/// The colour a square is drawn in.
#[derive(Debug, Clone, Copy, PartialEq, Eq, Structural)]
pub enum Tint {
    Plain,
    Green,
    Red,
    Yellow,
    Blue,
    Magenta,
    OnRed,
}

/// A mouse button.
#[derive(Debug, Clone, Copy, PartialEq, Eq, Structural)]
pub enum Button {
    Left,
    Right,
    Middle,
}

/// What the mouse did.
#[derive(Debug, Clone, Copy, PartialEq, Eq, Structural)]
pub enum MouseKind {
    Down(Button),
    Up(Button),
    Drag(Button),
    Moved,
    Scroll,
}

/// A key of interest to the game.
#[derive(Debug, Clone, Copy, PartialEq, Eq, Structural)]
pub enum Key {
    Up,
    Down,
    Left,
    Right,
    Enter,
    Esc,
    Char(char),
    Other,
}

/// What one input asks the game to do.
#[derive(Debug, Clone, Copy, PartialEq, Eq, Structural)]
pub enum Action {
    Quit,
    RevealAt(usize, usize),
    RevealAtCursor,
    ToggleFlagAt(usize, usize),
    ToggleFlagAtCursor,
    MoveTo(usize, usize),
    Up,
    Down,
    Left,
    Right,
    Redraw,
}

pub open spec fn lost(cs: Seq<Cell>) -> bool {
    exists|i: int| 0 <= i < cs.len() && (#[trigger] cs[i]).is_revealed && cs[i].is_mine
}

pub open spec fn cleared(cs: Seq<Cell>) -> bool {
    forall|i: int| 0 <= i < cs.len() ==> (#[trigger] cs[i]).is_revealed || cs[i].is_mine
}

/// Lost once a mine is revealed; won once every other cell is revealed.
pub open spec fn outcome_of(cs: Seq<Cell>) -> Outcome {
    if lost(cs) {
        Outcome::Lost
    } else if cleared(cs) {
        Outcome::Won
    } else {
        Outcome::Pending
    }
}

pub fn outcome(field: &Field) -> (r: Outcome)
    ensures
        r == outcome_of(field.spec_cells()),
{
    let cells = field.cells();
    let mut all_cells_revealed = true;
    let mut i: usize = 0;
    while i < cells.len()
        invariant
            cells@ == field.spec_cells(),
            i <= cells@.len(),
            forall|j: int| 0 <= j < i ==> !((#[trigger] cells@[j]).is_revealed && cells@[j].is_mine),
            all_cells_revealed == (forall|j: int|
                0 <= j < i ==> (#[trigger] cells@[j]).is_revealed || cells@[j].is_mine),
        decreases cells@.len() - i,
    {
        let cell = cells[i];
        if !cell.is_revealed && !cell.is_mine {
            all_cells_revealed = false;
        }
        if cell.is_revealed && cell.is_mine {
            return Outcome::Lost;
        }
        i += 1;
    }
    if all_cells_revealed {
        Outcome::Won
    } else {
        Outcome::Pending
    }
}

pub open spec fn digit(n: nat) -> char {
    if n == 0 {
        ' '
    } else if n == 1 {
        '1'
    } else if n == 2 {
        '2'
    } else if n == 3 {
        '3'
    } else if n == 4 {
        '4'
    } else if n == 5 {
        '5'
    } else if n == 6 {
        '6'
    } else if n == 7 {
        '7'
    } else if n == 8 {
        '8'
    } else {
        'X'
    }
}

pub open spec fn count_tint(n: nat) -> Tint {
    if n == 0 {
        Tint::Plain
    } else if n == 1 {
        Tint::Green
    } else if n == 2 {
        Tint::Red
    } else if n == 3 {
        Tint::Yellow
    } else if n == 4 {
        Tint::Blue
    } else {
        Tint::Magenta
    }
}

/// How a cell is drawn: `#` while hidden (`!` on red when flagged), `*` in red
/// for a revealed mine, else its number of neighbouring mines, blank for none.
pub open spec fn glyph_of(cell: Cell, neighbour_mines: nat) -> (char, Tint) {
    if !cell.is_revealed {
        if cell.is_flagged {
            ('!', Tint::OnRed)
        } else {
            ('#', Tint::Plain)
        }
    } else if cell.is_mine {
        ('*', Tint::Red)
    } else {
        (digit(neighbour_mines), count_tint(neighbour_mines))
    }
}

pub fn cell_glyph(cell: &Cell, neighbour_mines: usize) -> (r: (char, Tint))
    ensures
        r == glyph_of(*cell, neighbour_mines as nat),
{
    if !cell.is_revealed {
        if cell.is_flagged {
            return ('!', Tint::OnRed);
        }
        return ('#', Tint::Plain);
    }
    if cell.is_mine {
        return ('*', Tint::Red);
    }
    let tint = match neighbour_mines {
        0 => Tint::Plain,
        1 => Tint::Green,
        2 => Tint::Red,
        3 => Tint::Yellow,
        4 => Tint::Blue,
        _ => Tint::Magenta,
    };
    let label = match neighbour_mines {
        0 => ' ',
        1 => '1',
        2 => '2',
        3 => '3',
        4 => '4',
        5 => '5',
        6 => '6',
        7 => '7',
        8 => '8',
        _ => 'X',
    };
    (label, tint)
}

pub open spec fn key_action_of(key: Key, control: bool) -> Action {
    if control {
        if key == Key::Char('c') {
            Action::Quit
        } else {
            Action::Redraw
        }
    } else {
        match key {
            Key::Up => Action::Up,
            Key::Down => Action::Down,
            Key::Left => Action::Left,
            Key::Right => Action::Right,
            Key::Enter => Action::RevealAtCursor,
            Key::Char(c) => if c == ' ' {
                Action::ToggleFlagAtCursor
            } else if c == 'q' {
                Action::Quit
            } else {
                Action::Redraw
            },
            Key::Esc => Action::Quit,
            Key::Other => Action::Redraw,
        }
    }
}

/// The action for a key press: arrows move, Enter reveals, space flags,
/// `q`, Esc and Ctrl+C quit, anything else redraws.
pub fn key_action(key: Key, control: bool) -> (r: Action)
    ensures
        r == key_action_of(key, control),
{
    if control {
        return match key {
            Key::Char('c') => Action::Quit,
            _ => Action::Redraw,
        };
    }
    match key {
        Key::Up => Action::Up,
        Key::Down => Action::Down,
        Key::Left => Action::Left,
        Key::Right => Action::Right,
        Key::Enter => Action::RevealAtCursor,
        Key::Char(' ') => Action::ToggleFlagAtCursor,
        Key::Char('q') | Key::Esc => Action::Quit,
        _ => Action::Redraw,
    }
}

/// The action for a mouse event at `(x, y)`, given the button held down so far.
/// A press remembers its button; a release acts on the remembered one (left
/// reveals, right flags) and forgets it; moving and dragging move the cursor.
pub fn mouse_action(held: &mut Option<Button>, kind: MouseKind, x: usize, y: usize) -> (r: Action)
    ensures
        match kind {
            MouseKind::Down(b) => *final(held) == Some(b) && r == Action::Redraw,
            MouseKind::Moved | MouseKind::Drag(_) => *final(held) == *old(held) && r
                == Action::MoveTo(x, y),
            MouseKind::Up(_) => *final(held) == None::<Button> && r == match *old(held) {
                Some(Button::Left) => Action::RevealAt(x, y),
                Some(Button::Right) => Action::ToggleFlagAt(x, y),
                _ => Action::Redraw,
            },
            MouseKind::Scroll => *final(held) == *old(held) && r == Action::Redraw,
        },
{
    match kind {
        MouseKind::Down(button) => {
            *held = Some(button);
            Action::Redraw
        },
        MouseKind::Moved => Action::MoveTo(x, y),
        MouseKind::Drag(_) => Action::MoveTo(x, y),
        MouseKind::Up(_) => {
            let was = *held;
            *held = None;
            match was {
                Some(Button::Left) => Action::RevealAt(x, y),
                Some(Button::Right) => Action::ToggleFlagAt(x, y),
                _ => Action::Redraw,
            }
        },
        MouseKind::Scroll => Action::Redraw,
    }
}

/// Carries out an action on the field and the cursor. Returns `false` for `Quit`.
pub fn perform(field: &mut Field, cursor: &mut Cursor, action: Action) -> (r: bool)
    requires
        old(field).wf(),
    ensures
        final(field).wf(),
        r == (action != Action::Quit),
        match action {
            Action::RevealAt(x, y) => {
                &&& if old(cursor).valid_position(x as int, y as int) {
                    old(cursor).moved_to(final(cursor), x, y)
                } else {
                    *final(cursor) == *old(cursor)
                }
                &&& old(field).reveal_result(final(field), (x, y))
            },
            Action::RevealAtCursor => {
                &&& *final(cursor) == *old(cursor)
                &&& old(field).reveal_result(
                    final(field),
                    (old(cursor).spec_x(), old(cursor).spec_y()),
                )
            },
            Action::ToggleFlagAt(x, y) => {
                &&& if old(cursor).valid_position(x as int, y as int) {
                    old(cursor).moved_to(final(cursor), x, y)
                } else {
                    *final(cursor) == *old(cursor)
                }
                &&& old(field).toggle_result(final(field), (x, y))
            },
            Action::ToggleFlagAtCursor => {
                &&& *final(cursor) == *old(cursor)
                &&& old(field).toggle_result(
                    final(field),
                    (old(cursor).spec_x(), old(cursor).spec_y()),
                )
            },
            Action::MoveTo(x, y) => {
                &&& if old(cursor).valid_position(x as int, y as int) {
                    old(cursor).moved_to(final(cursor), x, y)
                } else {
                    *final(cursor) == *old(cursor)
                }
                &&& old(field).same_state(final(field))
            },
            Action::Up => old(cursor).after_offset(final(cursor), 0, -1) && old(field).same_state(
                final(field),
            ),
            Action::Down => old(cursor).after_offset(final(cursor), 0, 1) && old(
                field,
            ).same_state(final(field)),
            Action::Left => old(cursor).after_offset(final(cursor), -1, 0) && old(
                field,
            ).same_state(final(field)),
            Action::Right => old(cursor).after_offset(final(cursor), 1, 0) && old(
                field,
            ).same_state(final(field)),
            Action::Quit | Action::Redraw => *final(cursor) == *old(cursor) && old(
                field,
            ).same_state(final(field)),
        },
{
    match action {
        Action::Quit => false,
        Action::RevealAt(x, y) => {
            cursor.set_position(x, y);
            field.reveal_cell(x, y);
            true
        },
        Action::RevealAtCursor => {
            let (x, y) = cursor.position();
            field.reveal_cell(x, y);
            true
        },
        Action::ToggleFlagAt(x, y) => {
            cursor.set_position(x, y);
            field.toggle_flag(x, y);
            true
        },
        Action::ToggleFlagAtCursor => {
            let (x, y) = cursor.position();
            field.toggle_flag(x, y);
            true
        },
        Action::MoveTo(x, y) => {
            cursor.set_position(x, y);
            true
        },
        Action::Up => {
            cursor.up();
            true
        },
        Action::Down => {
            cursor.down();
            true
        },
        Action::Left => {
            cursor.left();
            true
        },
        Action::Right => {
            cursor.right();
            true
        },
        Action::Redraw => true,
    }
}

} // verus!
