use vstd::prelude::*;

use crate::try_add::{offset_sum, TryAdd};

verus! {

/// A position that is kept inside `[0, max_x) x [0, max_y)`.
#[derive(Debug)]
pub struct Cursor {
    x: usize,
    y: usize,
    max_x: usize,
    max_y: usize,
}

impl Cursor {
    pub closed spec fn spec_x(&self) -> usize {
        self.x
    }

    pub closed spec fn spec_y(&self) -> usize {
        self.y
    }

    pub closed spec fn spec_max_x(&self) -> usize {
        self.max_x
    }

    pub closed spec fn spec_max_y(&self) -> usize {
        self.max_y
    }

    /// The position lies inside the bounds.
    pub open spec fn wf(&self) -> bool {
        self.spec_x() < self.spec_max_x() && self.spec_y() < self.spec_max_y()
    }

    pub open spec fn valid_position(&self, x: int, y: int) -> bool {
        0 <= x < self.spec_max_x() && 0 <= y < self.spec_max_y()
    }

    /// The position that an offset leads to, where it stays inside the bounds.
    pub open spec fn offset_target(&self, x_off: int, y_off: int) -> Option<(usize, usize)> {
        match (offset_sum(self.spec_x() as int, x_off), offset_sum(self.spec_y() as int, y_off)) {
            (Some(x), Some(y)) => if self.valid_position(x as int, y as int) {
                Some((x, y))
            } else {
                None
            },
            _ => None,
        }
    }

    /// The same bounds, at the given position.
    pub open spec fn moved_to(&self, other: &Cursor, x: usize, y: usize) -> bool {
        &&& other.spec_x() == x
        &&& other.spec_y() == y
        &&& other.spec_max_x() == self.spec_max_x()
        &&& other.spec_max_y() == self.spec_max_y()
    }

    /// The cursor after moving by an offset: the target when it is valid, else unchanged.
    pub open spec fn after_offset(&self, other: &Cursor, x_off: int, y_off: int) -> bool {
        match self.offset_target(x_off, y_off) {
            Some((x, y)) => self.moved_to(other, x, y),
            None => *other == *self,
        }
    }

    pub fn new(max_x: usize, max_y: usize) -> (r: Self)
        requires
            max_x > 0,
            max_y > 0,
        ensures
            r.wf(),
            r.spec_x() == 0,
            r.spec_y() == 0,
            r.spec_max_x() == max_x,
            r.spec_max_y() == max_y,
    {
        Self { x: 0, y: 0, max_x, max_y }
    }

    pub fn is_at(&self, x: usize, y: usize) -> (r: bool)
        ensures
            r == (self.spec_x() == x && self.spec_y() == y),
    {
        self.x == x && self.y == y
    }

    pub fn x(&self) -> (r: usize)
        ensures
            r == self.spec_x(),
    {
        self.x
    }

    pub fn y(&self) -> (r: usize)
        ensures
            r == self.spec_y(),
    {
        self.y
    }

    pub fn position(&self) -> (r: (usize, usize))
        ensures
            r == (self.spec_x(), self.spec_y()),
    {
        (self.x, self.y)
    }

    pub fn max_x(&self) -> (r: usize)
        ensures
            r == self.spec_max_x(),
    {
        self.max_x
    }

    pub fn max_y(&self) -> (r: usize)
        ensures
            r == self.spec_max_y(),
    {
        self.max_y
    }

    pub fn set_x(&mut self, x: usize)
        ensures
            if old(self).valid_position(x as int, old(self).spec_y() as int) {
                old(self).moved_to(final(self), x, old(self).spec_y())
            } else {
                *final(self) == *old(self)
            },
    {
        let y = self.y();
        self.set_position(x, y)
    }

    pub fn set_y(&mut self, y: usize)
        ensures
            if old(self).valid_position(old(self).spec_x() as int, y as int) {
                old(self).moved_to(final(self), old(self).spec_x(), y)
            } else {
                *final(self) == *old(self)
            },
    {
        let x = self.x();
        self.set_position(x, y)
    }

    /// Moves to `(x, y)` when it lies inside the bounds; otherwise nothing changes.
    pub fn set_position(&mut self, x: usize, y: usize)
        ensures
            if old(self).valid_position(x as int, y as int) {
                old(self).moved_to(final(self), x, y)
            } else {
                *final(self) == *old(self)
            },
    {
        if !self.position_is_valid(x, y) {
            return;
        }
        self.x = x;
        self.y = y;
    }

    pub fn position_is_valid(&self, x: usize, y: usize) -> (r: bool)
        ensures
            r == self.valid_position(x as int, y as int),
    {
        x < self.max_x && y < self.max_y
    }

    pub fn up(&mut self)
        ensures
            old(self).after_offset(final(self), 0, -1),
    {
        self.apply_offset(0, -1);
    }

    pub fn down(&mut self)
        ensures
            old(self).after_offset(final(self), 0, 1),
    {
        self.apply_offset(0, 1);
    }

    pub fn left(&mut self)
        ensures
            old(self).after_offset(final(self), -1, 0),
    {
        self.apply_offset(-1, 0);
    }

    pub fn right(&mut self)
        ensures
            old(self).after_offset(final(self), 1, 0),
    {
        self.apply_offset(1, 0);
    }

    /// Moves by `(x_off, y_off)` when both coordinates of the target are valid;
    /// otherwise the cursor stays where it is.
    pub fn apply_offset(&mut self, x_off: isize, y_off: isize)
        ensures
            old(self).after_offset(final(self), x_off as int, y_off as int),
    {
        if let Some((x, y)) = self.offset_position(x_off, y_off) {
            self.x = x;
            self.y = y;
        }
    }

    fn offset_position(&self, x_off: isize, y_off: isize) -> (r: Option<(usize, usize)>)
        ensures
            r == self.offset_target(x_off as int, y_off as int),
    {
        let x = match self.x.try_add(x_off) {
            Some(x) => x,
            None => return None,
        };
        let y = match self.y.try_add(y_off) {
            Some(y) => y,
            None => return None,
        };
        if !self.position_is_valid(x, y) {
            return None;
        }
        Some((x, y))
    }
}

/// Any move keeps a well-formed cursor well-formed.
pub proof fn lemma_offset_keeps_bounds(c: Cursor, d: Cursor, x_off: int, y_off: int)
    requires
        c.wf(),
        c.after_offset(&d, x_off, y_off),
    ensures
        d.wf(),
        d.spec_max_x() == c.spec_max_x(),
        d.spec_max_y() == c.spec_max_y(),
{
}

/// Over any sequence of moves, each state that follows a well-formed cursor by
/// one offset stays inside the first cursor's bounds.
pub proof fn lemma_moves_keep_bounds(states: Seq<Cursor>, moves: Seq<(int, int)>)
    requires
        states.len() == moves.len() + 1,
        states[0].wf(),
        forall|i: int|
            0 <= i < moves.len() ==> (#[trigger] states[i]).after_offset(
                &states[i + 1],
                moves[i].0,
                moves[i].1,
            ),
    ensures
        forall|i: int|
            0 <= i < states.len() ==> (#[trigger] states[i]).wf() && states[i].spec_max_x()
                == states[0].spec_max_x() && states[i].spec_max_y() == states[0].spec_max_y(),
    decreases moves.len(),
{
    if moves.len() > 0 {
        let fewer = states.drop_last();
        assert forall|i: int| 0 <= i < moves.drop_last().len() implies (#[trigger] fewer[i]).after_offset(
            &fewer[i + 1],
            moves.drop_last()[i].0,
            moves.drop_last()[i].1,
        ) by {
            assert(states[i].after_offset(&states[i + 1], moves[i].0, moves[i].1));
        }
        lemma_moves_keep_bounds(fewer, moves.drop_last());
        let n = moves.len() - 1;
        assert(fewer[n] == states[n]);
        assert(states[n].after_offset(&states[n + 1], moves[n].0, moves[n].1));
        lemma_offset_keeps_bounds(states[n], states[n + 1], moves[n].0, moves[n].1);
        assert forall|i: int| 0 <= i < states.len() implies (#[trigger] states[i]).wf()
            && states[i].spec_max_x() == states[0].spec_max_x() && states[i].spec_max_y()
            == states[0].spec_max_y() by {
            if i < states.len() - 1 {
                assert(fewer[i] == states[i]);
            }
        }
    }
}

} // verus!
