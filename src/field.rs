use vstd::prelude::*;

use rand::seq::IteratorRandom;

use crate::cell::Cell;
use crate::try_add::{offset_sum, TryAdd};

verus! {

/// Why a field could not be built.
#[derive(Debug, Clone, Copy, PartialEq, Eq, Structural)]
pub enum FieldError {
    /// The width or the height is zero.
    InvalidDimensions,
}

/// A rectangular grid of cells, stored row by row.
pub struct Field {
    cells: Vec<Cell>,
    width: usize,
}

/// A cell that is neither a mine, revealed nor flagged.
pub open spec fn blank_cell() -> Cell {
    Cell { is_mine: false, is_revealed: false, is_flagged: false }
}

/// The position one offset away from `p`, where both coordinates stay within `usize`.
pub open spec fn step(p: (usize, usize), dx: int, dy: int) -> Seq<(usize, usize)> {
    match (offset_sum(p.0 as int, dx), offset_sum(p.1 as int, dy)) {
        (Some(x), Some(y)) => seq![(x, y)],
        _ => seq![],
    }
}

/// The positions around `p`, column by column, left to right and top to bottom,
/// leaving out those that would fall below zero or past `usize::MAX`.
pub open spec fn neighbour_list(p: (usize, usize)) -> Seq<(usize, usize)> {
    step(p, -1, -1) + step(p, -1, 0) + step(p, -1, 1)
        + step(p, 0, -1) + step(p, 0, 1)
        + step(p, 1, -1) + step(p, 1, 0) + step(p, 1, 1)
}

/// Number of unrevealed cells.
pub open spec fn hidden_count(cs: Seq<Cell>) -> nat
    decreases cs.len(),
{
    if cs.len() == 0 {
        0
    } else {
        hidden_count(cs.drop_last()) + if cs.last().is_revealed {
            0nat
        } else {
            1nat
        }
    }
}

/// Number of mines.
pub open spec fn mine_count(cs: Seq<Cell>) -> nat
    decreases cs.len(),
{
    if cs.len() == 0 {
        0
    } else {
        mine_count(cs.drop_last()) + if cs.last().is_mine {
            1nat
        } else {
            0nat
        }
    }
}

/// Number of cells that are neither mines nor revealed.
pub open spec fn free_count(cs: Seq<Cell>) -> nat
    decreases cs.len(),
{
    if cs.len() == 0 {
        0
    } else {
        free_count(cs.drop_last()) + if !cs.last().is_mine && !cs.last().is_revealed {
            1nat
        } else {
            0nat
        }
    }
}

pub open spec fn min(a: int, b: int) -> int {
    if a < b {
        a
    } else {
        b
    }
}

impl Field {
    pub closed spec fn spec_cells(&self) -> Seq<Cell> {
        self.cells@
    }

    pub closed spec fn spec_width(&self) -> usize {
        self.width
    }

    /// At least one row and one column, and whole rows only.
    pub open spec fn wf(&self) -> bool {
        &&& self.spec_width() > 0
        &&& self.spec_cells().len() > 0
        &&& (self.spec_cells().len() as int) % (self.spec_width() as int) == 0
    }

    pub open spec fn spec_height(&self) -> int {
        (self.spec_cells().len() as int) / (self.spec_width() as int)
    }

    pub open spec fn index_of(&self, p: (usize, usize)) -> int {
        p.1 as int * self.spec_width() as int + p.0 as int
    }

    pub open spec fn in_field(&self, p: (usize, usize)) -> bool {
        p.0 < self.spec_width() && self.index_of(p) < self.spec_cells().len()
    }

    pub open spec fn cell_at(&self, p: (usize, usize)) -> Cell {
        self.spec_cells()[self.index_of(p)]
    }

    pub open spec fn mine_at(&self, p: (usize, usize)) -> bool {
        self.in_field(p) && self.cell_at(p).is_mine
    }

    pub open spec fn revealed_at(&self, p: (usize, usize)) -> bool {
        self.in_field(p) && self.cell_at(p).is_revealed
    }

    /// Number of the positions in `ps` that hold a mine.
    pub open spec fn mines_among(&self, ps: Seq<(usize, usize)>) -> nat
        decreases ps.len(),
    {
        if ps.len() == 0 {
            0
        } else {
            self.mines_among(ps.drop_last()) + if self.mine_at(ps.last()) {
                1nat
            } else {
                0nat
            }
        }
    }

    /// The cells at the positions in `ps` that lie inside the field, in order.
    pub open spec fn cells_among(&self, ps: Seq<(usize, usize)>) -> Seq<Cell>
        decreases ps.len(),
    {
        if ps.len() == 0 {
            seq![]
        } else if self.in_field(ps.last()) {
            self.cells_among(ps.drop_last()).push(self.cell_at(ps.last()))
        } else {
            self.cells_among(ps.drop_last())
        }
    }

    pub open spec fn neighbour_mines(&self, p: (usize, usize)) -> nat {
        self.mines_among(neighbour_list(p))
    }

    /// `other` holds the same grid with the same mines and flags.
    pub open spec fn same_layout(&self, other: &Field) -> bool {
        &&& other.spec_width() == self.spec_width()
        &&& other.spec_cells().len() == self.spec_cells().len()
        &&& forall|i: int|
            0 <= i < self.spec_cells().len() ==> (#[trigger] other.spec_cells()[i]).is_mine
                == self.spec_cells()[i].is_mine && other.spec_cells()[i].is_flagged
                == self.spec_cells()[i].is_flagged
    }


    /// A cell that a reveal at `p` would uncover: inside, hidden and unflagged.
    pub open spec fn eligible(&self, p: (usize, usize)) -> bool {
        self.in_field(p) && !self.cell_at(p).is_revealed && !self.cell_at(p).is_flagged
    }

    /// An eligible cell without a mine in or around it: revealing it spreads.
    pub open spec fn expands(&self, p: (usize, usize)) -> bool {
        self.eligible(p) && !self.cell_at(p).is_mine && self.neighbour_mines(p) == 0
    }

    /// A chain of eligible cells, each but the last spreading to the next.
    pub open spec fn cascade_path(&self, path: Seq<(usize, usize)>) -> bool {
        &&& path.len() > 0
        &&& forall|i: int| 0 <= i < path.len() ==> self.eligible(#[trigger] path[i])
        &&& forall|i: int|
            0 <= i < path.len() - 1 ==> self.expands(#[trigger] path[i]) && neighbour_list(
                path[i],
            ).contains(path[i + 1])
    }

    /// `p` is uncovered by a reveal at `s`: the cells connected to `s` through
    /// cells without neighbouring mines, and the ring of cells bordering them.
    pub open spec fn cascade(&self, s: (usize, usize), p: (usize, usize)) -> bool {
        exists|path: Seq<(usize, usize)>|
            #[trigger] self.cascade_path(path) && path[0] == s && path.last() == p
    }

    /// Whether a reveal at `s` hits a mine.
    pub open spec fn reveal_hits(&self, s: (usize, usize)) -> bool {
        self.eligible(s) && self.cell_at(s).is_mine
    }

    /// `after` is this field once the cells of the cascade from `s` are revealed.
    pub open spec fn reveal_result(&self, after: &Field, s: (usize, usize)) -> bool {
        &&& self.same_layout(after)
        &&& !self.eligible(s) ==> self.same_state(after)
        &&& forall|p: (usize, usize)|
            self.in_field(p) ==> (#[trigger] after.cell_at(p)).is_revealed == (
            self.cell_at(p).is_revealed || self.cascade(s, p))
    }

    /// The same width and the same cells.
    pub open spec fn same_state(&self, other: &Field) -> bool {
        other.spec_width() == self.spec_width() && other.spec_cells() == self.spec_cells()
    }

    /// `after` is this field with the flag at `p` flipped, where `p` lies inside.
    pub open spec fn toggle_result(&self, after: &Field, p: (usize, usize)) -> bool {
        if self.in_field(p) {
            &&& after.spec_width() == self.spec_width()
            &&& after.spec_cells() == self.spec_cells().update(
                self.index_of(p),
                Cell { is_flagged: !self.cell_at(p).is_flagged, ..self.cell_at(p) },
            )
        } else {
            self.same_state(after)
        }
    }

    pub fn empty(width: usize, height: usize) -> (r: Result<Self, FieldError>)
        requires
            width * height <= usize::MAX,
        ensures
            match r {
                Ok(f) => {
                    &&& width > 0 && height > 0
                    &&& f.wf()
                    &&& f.spec_width() == width
                    &&& f.spec_cells().len() == width * height
                    &&& forall|i: int|
                        0 <= i < f.spec_cells().len() ==> #[trigger] f.spec_cells()[i]
                            == blank_cell()
                },
                Err(e) => e == FieldError::InvalidDimensions && (width == 0 || height == 0),
            },
    {
        if width == 0 || height == 0 {
            return Err(FieldError::InvalidDimensions);
        }
        let size = width * height;
        let mut cells: Vec<Cell> = Vec::new();
        let mut i: usize = 0;
        while i < size
            invariant
                i <= size,
                cells@.len() == i,
                forall|j: int| 0 <= j < i ==> #[trigger] cells@[j] == blank_cell(),
            decreases size - i,
        {
            cells.push(Cell::default());
            i += 1;
        }
        proof {
            vstd::arithmetic::div_mod::lemma_mod_multiples_basic(height as int, width as int);
            assert(size as int == height as int * width as int) by (nonlinear_arith)
                requires
                    size as int == width as int * height as int,
            ;
            assert(size > 0) by (nonlinear_arith)
                requires
                    size as int == width as int * height as int,
                    width > 0,
                    height > 0,
            ;
        }
        Ok(Field { cells, width })
    }

    /// The cells, row by row.
    pub fn cells(&self) -> (r: &Vec<Cell>)
        ensures
            r@ == self.spec_cells(),
    {
        &self.cells
    }

    /// The cells split into rows, top to bottom.
    pub fn rows(&self) -> (r: Vec<Vec<Cell>>)
        requires
            self.wf(),
        ensures
            r@.len() == self.spec_height(),
            forall|y: int| 0 <= y < r@.len() ==> (#[trigger] r@[y])@.len() == self.spec_width(),
            forall|y: int, x: int|
                0 <= y < r@.len() && 0 <= x < self.spec_width() ==> (#[trigger] r@[y]@[x])
                    == self.spec_cells()[y * self.spec_width() + x],
    {
        let width = self.width;
        let height = self.height();
        let len = self.cells.len();
        proof {
            vstd::arithmetic::div_mod::lemma_fundamental_div_mod(
                self.spec_cells().len() as int,
                width as int,
            );
        }
        let mut r: Vec<Vec<Cell>> = Vec::new();
        let mut y: usize = 0;
        while y < height
            invariant
                self.wf(),
                width == self.spec_width(),
                height == self.spec_height(),
                self.spec_cells().len() == width * height,
                len == self.spec_cells().len(),
                y <= height,
                r@.len() == y,
                forall|v: int| 0 <= v < y ==> (#[trigger] r@[v])@.len() == width,
                forall|v: int, x: int|
                    0 <= v < y && 0 <= x < width ==> (#[trigger] r@[v]@[x])
                        == self.spec_cells()[v * width + x],
            decreases height - y,
        {
            let mut row: Vec<Cell> = Vec::new();
            let mut x: usize = 0;
            while x < width
                invariant
                    self.wf(),
                    width == self.spec_width(),
                    self.spec_cells().len() == width * height,
                    len == self.spec_cells().len(),
                    y < height,
                    x <= width,
                    row@.len() == x,
                    forall|u: int| 0 <= u < x ==> #[trigger] row@[u] == self.spec_cells()[y * width + u],
                decreases width - x,
            {
                proof {
                    assert(y * width + x < width * height) by (nonlinear_arith)
                        requires
                            x < width,
                            y < height,
                    ;
                    assert(0 <= y * width) by (nonlinear_arith)
                        requires
                            x < width,
                            y < height,
                    ;
                }
                row.push(self.cells[y * width + x]);
                x += 1;
            }
            r.push(row);
            y += 1;
        }
        r
    }

    /// The rows, top to bottom, each with its row number, and each cell with
    /// its column number.
    pub fn rows_enumerated(&self) -> (r: Vec<(usize, Vec<(usize, Cell)>)>)
        requires
            self.wf(),
        ensures
            r@.len() == self.spec_height(),
            forall|y: int|
                0 <= y < r@.len() ==> (#[trigger] r@[y]).0 == y && r@[y].1@.len()
                    == self.spec_width(),
            forall|y: int, x: int|
                0 <= y < r@.len() && 0 <= x < self.spec_width() ==> (#[trigger] r@[y].1@[x]) == (
                x as usize,
                self.spec_cells()[y * self.spec_width() + x],
            ),
    {
        let width = self.width;
        let height = self.height();
        let len = self.cells.len();
        proof {
            vstd::arithmetic::div_mod::lemma_fundamental_div_mod(
                self.spec_cells().len() as int,
                width as int,
            );
        }
        let mut r: Vec<(usize, Vec<(usize, Cell)>)> = Vec::new();
        let mut y: usize = 0;
        while y < height
            invariant
                self.wf(),
                width == self.spec_width(),
                height == self.spec_height(),
                self.spec_cells().len() == width * height,
                len == self.spec_cells().len(),
                y <= height,
                r@.len() == y,
                forall|v: int| 0 <= v < y ==> (#[trigger] r@[v]).0 == v && r@[v].1@.len() == width,
                forall|v: int, x: int|
                    0 <= v < y && 0 <= x < width ==> (#[trigger] r@[v].1@[x]) == (
                        x as usize,
                        self.spec_cells()[v * width + x],
                    ),
            decreases height - y,
        {
            let mut row: Vec<(usize, Cell)> = Vec::new();
            let mut x: usize = 0;
            while x < width
                invariant
                    self.wf(),
                    width == self.spec_width(),
                    self.spec_cells().len() == width * height,
                    len == self.spec_cells().len(),
                    y < height,
                    x <= width,
                    row@.len() == x,
                    forall|u: int|
                        0 <= u < x ==> #[trigger] row@[u] == (u as usize, self.spec_cells()[y * width + u]),
                decreases width - x,
            {
                proof {
                    assert(y * width + x < width * height) by (nonlinear_arith)
                        requires
                            x < width,
                            y < height,
                    ;
                    assert(0 <= y * width) by (nonlinear_arith)
                        requires
                            x < width,
                            y < height,
                    ;
                }
                row.push((x, self.cells[y * width + x]));
                x += 1;
            }
            r.push((y, row));
            y += 1;
        }
        r
    }

    pub fn width(&self) -> (r: usize)
        ensures
            r == self.spec_width(),
    {
        self.width
    }

    pub fn height(&self) -> (r: usize)
        requires
            self.wf(),
        ensures
            r == self.spec_height(),
    {
        self.cells.len() / self.width
    }

    pub fn size(&self) -> (r: usize)
        ensures
            r == self.spec_cells().len(),
    {
        self.cells.len()
    }

    pub fn dimensions(&self) -> (r: (usize, usize))
        requires
            self.wf(),
        ensures
            r == (self.spec_width(), self.spec_height() as usize),
    {
        (self.width(), self.height())
    }

    /// Index of `(x, y)` in the row-by-row storage, where it lies inside the field.
    fn cell_index(&self, x: usize, y: usize) -> (r: Option<usize>)
        ensures
            match r {
                Some(i) => self.in_field((x, y)) && i == self.index_of((x, y)),
                None => !self.in_field((x, y)),
            },
    {
        let len = self.cells.len();
        if x >= self.width {
            return None;
        }
        let row_start = match y.checked_mul(self.width) {
            Some(v) => v,
            None => {
                assert(y as int * self.width as int > usize::MAX);
                return None;
            },
        };
        let index = match row_start.checked_add(x) {
            Some(v) => v,
            None => {
                return None;
            },
        };
        if index >= len {
            return None;
        }
        Some(index)
    }

    pub fn get(&self, x: usize, y: usize) -> (r: Option<&Cell>)
        ensures
            match r {
                Some(c) => self.in_field((x, y)) && *c == self.cell_at((x, y)),
                None => !self.in_field((x, y)),
            },
    {
        match self.cell_index(x, y) {
            Some(index) => Some(&self.cells[index]),
            None => None,
        }
    }

    /// The cell at `(x, y)` for changing in place; `None` outside the field.
    pub fn get_mut(&mut self, x: usize, y: usize) -> (r: Option<&mut Cell>)
        ensures
            match r {
                Some(c) => {
                    &&& old(self).in_field((x, y))
                    &&& *c == old(self).cell_at((x, y))
                    &&& final(self).spec_width() == old(self).spec_width()
                    &&& final(self).spec_cells() == old(self).spec_cells().update(
                        old(self).index_of((x, y)),
                        *final(c),
                    )
                },
                None => !old(self).in_field((x, y)) && old(self).same_state(final(self)),
            },
    {
        match self.cell_index(x, y) {
            Some(index) => Some(&mut self.cells[index]),
            None => None,
        }
    }

    /// The up to eight positions around `(x, y)`; they need not lie inside the field.
    pub fn neighbour_positions(&self, x: usize, y: usize) -> (r: Vec<(usize, usize)>)
        ensures
            r@ == neighbour_list((x, y)),
    {
        let mut r: Vec<(usize, usize)> = Vec::new();
        push_step(&mut r, x, y, -1, -1);
        push_step(&mut r, x, y, -1, 0);
        push_step(&mut r, x, y, -1, 1);
        push_step(&mut r, x, y, 0, -1);
        push_step(&mut r, x, y, 0, 1);
        push_step(&mut r, x, y, 1, -1);
        push_step(&mut r, x, y, 1, 0);
        push_step(&mut r, x, y, 1, 1);
        r
    }

    /// The cells around `(x, y)` that lie inside the field.
    pub fn neighbours(&self, x: usize, y: usize) -> (r: Vec<Cell>)
        ensures
            r@ == self.cells_among(neighbour_list((x, y))),
    {
        let positions = self.neighbour_positions(x, y);
        let mut r: Vec<Cell> = Vec::new();
        let mut i: usize = 0;
        while i < positions.len()
            invariant
                i <= positions@.len(),
                positions@ == neighbour_list((x, y)),
                r@ == self.cells_among(positions@.take(i as int)),
            decreases positions@.len() - i,
        {
            let (px, py) = positions[i];
            assert(positions@.take(i + 1).drop_last() =~= positions@.take(i as int));
            if let Some(c) = self.get(px, py) {
                r.push(*c);
            }
            i += 1;
        }
        assert(positions@.take(i as int) =~= positions@);
        r
    }

    pub fn num_neighbour_mines(&self, x: usize, y: usize) -> (r: usize)
        ensures
            r == self.neighbour_mines((x, y)),
    {
        let positions = self.neighbour_positions(x, y);
        let mut count: usize = 0;
        let mut i: usize = 0;
        while i < positions.len()
            invariant
                i <= positions@.len(),
                positions@ == neighbour_list((x, y)),
                count == self.mines_among(positions@.take(i as int)),
                count <= i,
            decreases positions@.len() - i,
        {
            let (px, py) = positions[i];
            assert(positions@.take(i + 1).drop_last() =~= positions@.take(i as int));
            if let Some(c) = self.get(px, py) {
                if c.is_mine {
                    count += 1;
                }
            }
            i += 1;
        }
        assert(positions@.take(i as int) =~= positions@);
        count
    }

    /// `after` keeps the grid, the reveals and the flags, and keeps every mine.
    pub open spec fn mines_added(&self, after: &Field) -> bool {
        &&& after.spec_width() == self.spec_width()
        &&& after.spec_cells().len() == self.spec_cells().len()
        &&& forall|i: int|
            0 <= i < self.spec_cells().len() ==> {
                &&& (#[trigger] after.spec_cells()[i]).is_revealed
                    == self.spec_cells()[i].is_revealed
                &&& after.spec_cells()[i].is_flagged == self.spec_cells()[i].is_flagged
                &&& self.spec_cells()[i].is_mine ==> after.spec_cells()[i].is_mine
            }
    }

    /// An empty field of the given size with mines placed on it.
    pub fn with_mines(width: usize, height: usize, num_mines: usize) -> (r: Result<Self, FieldError>)
        requires
            width * height <= usize::MAX,
        ensures
            match r {
                Ok(f) => {
                    &&& width > 0 && height > 0
                    &&& f.wf()
                    &&& f.spec_width() == width
                    &&& f.spec_cells().len() == width * height
                    &&& mine_count(f.spec_cells()) == min(num_mines as int, width * height)
                    &&& forall|i: int|
                        0 <= i < f.spec_cells().len() ==> !(#[trigger] f.spec_cells()[i]).is_revealed
                            && !f.spec_cells()[i].is_flagged
                },
                Err(e) => e == FieldError::InvalidDimensions && (width == 0 || height == 0),
            },
    {
        let mut field = match Self::empty(width, height) {
            Ok(f) => f,
            Err(e) => return Err(e),
        };
        proof {
            lemma_blank_counts(field.spec_cells());
        }
        field.fill_with_mines(num_mines);
        Ok(field)
    }

    /// Turns `min(num_mines, n)` of the `n` cells that are neither mines nor
    /// revealed into mines, chosen at random.
    pub fn fill_with_mines(&mut self, num_mines: usize)
        ensures
            old(self).mines_added(final(self)),
            forall|i: int|
                0 <= i < old(self).spec_cells().len() && (#[trigger] final(self).spec_cells()[i]).is_mine
                    && !old(self).spec_cells()[i].is_mine ==> !old(self).spec_cells()[i].is_revealed,
            mine_count(final(self).spec_cells()) == mine_count(old(self).spec_cells()) + min(
                num_mines as int,
                free_count(old(self).spec_cells()) as int,
            ),
    {
        let len = self.cells.len();
        let mut candidates: Vec<usize> = Vec::new();
        let mut i: usize = 0;
        while i < len
            invariant
                len == self.spec_cells().len(),
                i <= len,
                candidates@.len() == free_count(self.spec_cells().take(i as int)),
                forall|a: int|
                    0 <= a < candidates@.len() ==> #[trigger] candidates@[a] < i && !self.spec_cells()[candidates@[a] as int].is_mine
                        && !self.spec_cells()[candidates@[a] as int].is_revealed,
                forall|a: int, b: int|
                    0 <= a < b < candidates@.len() ==> #[trigger] candidates@[a] < #[trigger] candidates@[b],
            decreases len - i,
        {
            assert(self.spec_cells().take(i + 1).drop_last() =~= self.spec_cells().take(i as int));
            let c = self.cells[i];
            if !c.is_mine && !c.is_revealed {
                candidates.push(i);
            }
            i += 1;
        }
        assert(self.spec_cells().take(len as int) =~= self.spec_cells());
        let amount = if num_mines < candidates.len() {
            num_mines
        } else {
            candidates.len()
        };
        assert(candidates@.no_duplicates()) by {
            assert forall|a: int, b: int|
                0 <= a < candidates@.len() && 0 <= b < candidates@.len() && a != b implies candidates@[a]
                    != candidates@[b] by {
                if a < b {
                    assert(candidates@[a] < candidates@[b]);
                } else {
                    assert(candidates@[b] < candidates@[a]);
                }
            }
        }
        let picks = choose_multiple(&candidates, amount);
        assert forall|j: int| 0 <= j < picks@.len() implies (#[trigger] picks@[j]) < len
            && !self.spec_cells()[picks@[j] as int].is_mine && !self.spec_cells()[picks@[j] as int].is_revealed by {
            assert(candidates@.contains(picks@[j]));
        }
        self.place_mines(&picks);
    }

    /// Puts a mine on each cell whose index is listed; indices outside the field are skipped.
    pub fn place_mines(&mut self, picks: &Vec<usize>)
        ensures
            final(self).spec_width() == old(self).spec_width(),
            final(self).spec_cells().len() == old(self).spec_cells().len(),
            forall|i: int|
                0 <= i < old(self).spec_cells().len() ==> #[trigger] final(self).spec_cells()[i] == (Cell {
                    is_mine: old(self).spec_cells()[i].is_mine || picks@.contains(i as usize),
                    ..old(self).spec_cells()[i]
                }),
            picks@.no_duplicates() && (forall|j: int|
                0 <= j < picks@.len() ==> (#[trigger] picks@[j]) < old(self).spec_cells().len()
                    && !old(self).spec_cells()[picks@[j] as int].is_mine) ==> mine_count(
                final(self).spec_cells(),
            ) == mine_count(old(self).spec_cells()) + picks@.len(),
    {
        let ghost orig = self.spec_cells();
        let ghost fits = picks@.no_duplicates() && (forall|j: int|
            0 <= j < picks@.len() ==> (#[trigger] picks@[j]) < orig.len() && !orig[picks@[j] as int].is_mine);
        let len = self.cells.len();
        let mut j: usize = 0;
        while j < picks.len()
            invariant
                len == orig.len(),
                j <= picks@.len(),
                self.spec_width() == old(self).spec_width(),
                self.spec_cells().len() == orig.len(),
                orig == old(self).spec_cells(),
                fits == (picks@.no_duplicates() && (forall|j: int|
                    0 <= j < picks@.len() ==> (#[trigger] picks@[j]) < orig.len() && !orig[picks@[j] as int].is_mine)),
                forall|i: int|
                    0 <= i < orig.len() ==> #[trigger] self.spec_cells()[i] == (Cell {
                        is_mine: orig[i].is_mine || placed(picks@, j as int, i),
                        ..orig[i]
                    }),
                fits ==> mine_count(self.spec_cells()) == mine_count(orig) + j,
            decreases picks@.len() - j,
        {
            let k = picks[j];
            if k < len {
                let mut c = self.cells[k];
                proof {
                    if fits {
                        if placed(picks@, j as int, k as int) {
                            let a = choose|a: int| 0 <= a < j && #[trigger] picks@[a] == k as usize;
                            assert(picks@[a] == picks@[j as int]);
                        }
                        lemma_mine_count_add(self.spec_cells(), k as int);
                    }
                }
                c.is_mine = true;
                self.cells.set(k, c);
            }
            proof {
                assert forall|i: int| 0 <= i < orig.len() implies placed(picks@, j + 1, i) == (placed(picks@, j as int, i) || i == k) by {
                    if placed(picks@, j + 1, i) {
                        let a = choose|a: int| 0 <= a < j + 1 && #[trigger] picks@[a] == i as usize;
                        if a < j {
                            assert(placed(picks@, j as int, i));
                        }
                    }
                    if i == k {
                        assert(picks@[j as int] == i as usize);
                    }
                }
            }
            j += 1;
        }
        assert forall|i: int| 0 <= i < orig.len() implies placed(picks@, j as int, i) == picks@.contains(i as usize) by {
            if picks@.contains(i as usize) {
                let a = choose|a: int| 0 <= a < picks@.len() && picks@[a] == i as usize;
                assert(placed(picks@, j as int, i));
            }
        }
    }

    /// Flips the flag of the cell at `(x, y)`; does nothing outside the field.
    pub fn toggle_flag(&mut self, x: usize, y: usize)
        ensures
            old(self).toggle_result(final(self), (x, y)),
    {
        if let Some(cell) = self.get_mut(x, y) {
            cell.is_flagged = !cell.is_flagged;
        }
    }

    fn mark_revealed(&mut self, index: usize, Ghost(p): Ghost<(usize, usize)>)
        requires
            old(self).wf(),
            old(self).in_field(p),
            index == old(self).index_of(p),
        ensures
            final(self).wf(),
            old(self).same_layout(final(self)),
            final(self).spec_cells() == old(self).spec_cells().update(
                index as int,
                Cell { is_revealed: true, ..old(self).spec_cells()[index as int] },
            ),
            forall|q: (usize, usize)|
                old(self).in_field(q) ==> #[trigger] final(self).revealed_at(q) == (
                old(self).revealed_at(q) || q == p),
            !old(self).cell_at(p).is_revealed ==> hidden_count(final(self).spec_cells())
                < hidden_count(old(self).spec_cells()),
    {
        let ghost before = *self;
        let mut c = self.cells[index];
        c.is_revealed = true;
        self.cells.set(index, c);
        proof {
            assert forall|q: (usize, usize)|
                before.in_field(q) implies #[trigger] self.revealed_at(q) == (before.revealed_at(q)
                    || q == p) by {
                if q != p && before.index_of(q) == before.index_of(p) {
                    lemma_index_injective(before, p, q);
                }
            }
            if !before.cell_at(p).is_revealed {
                lemma_hidden_count_reveal(before.spec_cells(), index as int);
            }
        }
    }

    /// Reveals the cell at `(x, y)` and, where it has no neighbouring mine, the
    /// cells around it in turn. Returns whether a mine was hit.
    pub fn reveal_cell(&mut self, x: usize, y: usize) -> (r: bool)
        requires
            old(self).wf(),
        ensures
            final(self).wf(),
            r == old(self).reveal_hits((x, y)),
            old(self).reveal_result(final(self), (x, y)),
    {
        let ghost orig = *self;
        let ghost s = (x, y);
        proof {
            assert forall|p: (usize, usize)| #[trigger] orig.cascade(s, p) implies orig.eligible(s) by {
                lemma_cascade_needs_start(orig, s, p);
            }
        }
        let index = match self.cell_index(x, y) {
            Some(i) => i,
            None => return false,
        };
        let c = self.cells[index];
        if c.is_revealed || c.is_flagged {
            return false;
        }
        self.mark_revealed(index, Ghost(s));
        if c.is_mine {
            proof {
                assert forall|p: (usize, usize)| #[trigger] orig.cascade(s, p) implies p == s by {
                    lemma_no_spread(orig, s, p);
                }
                lemma_cascade_start(orig, s);
                assert forall|p: (usize, usize)| orig.in_field(p) implies (
                #[trigger] self.cell_at(p)).is_revealed == (orig.cell_at(p).is_revealed
                    || orig.cascade(s, p)) by {
                    assert(self.revealed_at(p) == (orig.revealed_at(p) || p == s));
                }
            }
            return true;
        }
        let count = self.num_neighbour_mines(x, y);
        proof {
            lemma_mines_among_same(orig, *self, neighbour_list(s));
        }
        let mut stack: Vec<(usize, usize)> = if count == 0 {
            self.neighbour_positions(x, y)
        } else {
            Vec::new()
        };
        proof {
            lemma_cascade_start(orig, s);
            if count != 0 {
                assert forall|p: (usize, usize)| #[trigger] orig.cascade(s, p) implies p == s by {
                    lemma_no_spread(orig, s, p);
                }
            } else {
                assert(orig.expands(s));
                assert forall|j: int|
                    0 <= j < stack@.len() && orig.eligible(#[trigger] stack@[j]) implies orig.cascade(
                    s,
                    stack@[j],
                ) by {
                    assert(neighbour_list(s)[j] == stack@[j]);
                    assert(neighbour_list(s).contains(stack@[j]));
                    lemma_cascade_step(orig, s, s, stack@[j]);
                }
            }
        }
        while stack.len() > 0
            invariant
                self.wf(),
                orig.wf(),
                orig.same_layout(self),
                self.revealed_at(s),
                orig.eligible(s),
                forall|q: (usize, usize)| orig.revealed_at(q) ==> #[trigger] self.revealed_at(q),
                forall|q: (usize, usize)|
                    #[trigger] self.revealed_at(q) && !orig.revealed_at(q) ==> orig.cascade(s, q),
                forall|d: (usize, usize)|
                    #[trigger] self.revealed_at(d) && !orig.revealed_at(d) && orig.expands(d)
                        ==> settled(orig, *self, stack@, d),
                forall|j: int|
                    0 <= j < stack@.len() && orig.eligible(#[trigger] stack@[j]) ==> orig.cascade(
                        s,
                        stack@[j],
                    ),
            decreases hidden_count(self.spec_cells()), stack@.len(),
        {
            let ghost cur = *self;
            let ghost prev_stack = stack@;
            let (px, py) = stack.pop().unwrap();
            let ghost p = (px, py);
            proof {
                assert(prev_stack =~= stack@.push(p));
                assert forall|q: (usize, usize)|
                    prev_stack.contains(q) && q != p implies stack@.contains(q) by {
                    let j = choose|j: int| 0 <= j < prev_stack.len() && prev_stack[j] == q;
                    assert(stack@[j] == q);
                }
            }
            match self.cell_index(px, py) {
                None => {},
                Some(pi) => {
                    let pc = self.cells[pi];
                    if !pc.is_revealed && !pc.is_flagged {
                        proof {
                            assert(!self.revealed_at(p));
                            assert(self.spec_cells()[orig.index_of(p)].is_flagged == orig.spec_cells()[orig.index_of(p)].is_flagged);
                            assert(self.spec_cells()[orig.index_of(p)].is_mine == orig.spec_cells()[orig.index_of(p)].is_mine);
                            assert(orig.eligible(p));
                            assert(prev_stack[prev_stack.len() - 1] == p);
                            assert(orig.cascade(s, p));
                        }
                        self.mark_revealed(pi, Ghost(p));
                        if !pc.is_mine {
                            let n = self.num_neighbour_mines(px, py);
                            proof {
                                lemma_mines_among_same(orig, *self, neighbour_list(p));
                            }
                            if n == 0 {
                                let ghost mid_stack = stack@;
                                let mut more = self.neighbour_positions(px, py);
                                stack.append(&mut more);
                                proof {
                                    assert forall|q: (usize, usize)|
                                        mid_stack.contains(q) implies stack@.contains(q) by {
                                        let j = choose|j: int|
                                            0 <= j < mid_stack.len() && mid_stack[j] == q;
                                        assert(stack@[j] == q);
                                    }
                                    assert forall|q: (usize, usize)|
                                        neighbour_list(p).contains(q) implies stack@.contains(
                                        q,
                                    ) by {
                                        let j = choose|j: int|
                                            0 <= j < neighbour_list(p).len() && neighbour_list(
                                                p,
                                            )[j] == q;
                                        assert(stack@[mid_stack.len() + j] == q);
                                    }
                                    assert(orig.expands(p));
                                    assert forall|j: int|
                                        0 <= j < stack@.len() && orig.eligible(
                                            #[trigger] stack@[j],
                                        ) implies orig.cascade(s, stack@[j]) by {
                                        if j >= mid_stack.len() {
                                            let q = stack@[j];
                                            assert(neighbour_list(p)[j - mid_stack.len()] == q);
                                            assert(neighbour_list(p).contains(q));
                                            lemma_cascade_step(orig, s, p, q);
                                        } else {
                                            assert(stack@[j] == mid_stack[j]);
                                        }
                                    }
                                }
                            }
                        }
                    }
                }
            }
        }
        proof {
            assert forall|p: (usize, usize)| #[trigger] orig.cascade(s, p) implies self.revealed_at(
                p,
            ) by {
                let path = choose|path: Seq<(usize, usize)>|
                    #[trigger] orig.cascade_path(path) && path[0] == s && path.last() == p;
                lemma_closed_path(orig, *self, path);
            }
            assert forall|p: (usize, usize)| orig.in_field(p) implies (
            #[trigger] self.cell_at(p)).is_revealed == (orig.cell_at(p).is_revealed || orig.cascade(
                s,
                p,
            )) by {
                assert(self.revealed_at(p) ==> orig.revealed_at(p) || orig.cascade(s, p));
            }
        }
        false
    }
}

/// Every position that the neighbours of `d` name is uncovered, discarded,
/// or still waiting on the stack.
spec fn settled(orig: Field, cur: Field, stack: Seq<(usize, usize)>, d: (usize, usize)) -> bool {
    forall|q: (usize, usize)|
        #[trigger] neighbour_list(d).contains(q) ==> !orig.eligible(q) || cur.revealed_at(q)
            || stack.contains(q)
}

proof fn lemma_index_injective(f: Field, p: (usize, usize), q: (usize, usize))
    requires
        f.wf(),
        f.in_field(p),
        f.in_field(q),
        f.index_of(p) == f.index_of(q),
    ensures
        p == q,
{
    let w = f.spec_width() as int;
    vstd::arithmetic::div_mod::lemma_fundamental_div_mod_converse(
        f.index_of(p),
        w,
        p.1 as int,
        p.0 as int,
    );
    vstd::arithmetic::div_mod::lemma_fundamental_div_mod_converse(
        f.index_of(q),
        w,
        q.1 as int,
        q.0 as int,
    );
}

/// Some of the first `j` entries of `picks` is `i`.
spec fn placed(picks: Seq<usize>, j: int, i: int) -> bool {
    exists|a: int| 0 <= a < j && #[trigger] picks[a] == i as usize
}

/// A reveal uncovers the whole region of cells without neighbouring mines that
/// is connected to its target, and the ring of cells bordering that region, and
/// nothing else: every other cell it uncovers borders a cell of that region. No
/// mine but the target itself is uncovered.
pub proof fn lemma_reveal_cascade(before: Field, after: Field, s: (usize, usize))
    requires
        before.wf(),
        before.reveal_result(&after, s),
    ensures
        before.eligible(s) ==> after.revealed_at(s),
        forall|d: (usize, usize), q: (usize, usize)|
            before.cascade(s, d) && before.expands(d) && #[trigger] neighbour_list(d).contains(q)
                && before.eligible(q) ==> #[trigger] after.revealed_at(q),
        forall|p: (usize, usize)|
            before.in_field(p) && p != s && (#[trigger] after.cell_at(p)).is_revealed
                && !before.cell_at(p).is_revealed ==> !before.cell_at(p).is_mine,
        forall|p: (usize, usize)|
            before.in_field(p) && p != s && (#[trigger] after.cell_at(p)).is_revealed
                && !before.cell_at(p).is_revealed ==> exists|d: (usize, usize)|
                before.cascade(s, d) && before.expands(d) && #[trigger] neighbour_list(d).contains(
                    p,
                ),
{
    if before.eligible(s) {
        lemma_cascade_start(before, s);
    }
    assert forall|d: (usize, usize), q: (usize, usize)|
        before.cascade(s, d) && before.expands(d) && #[trigger] neighbour_list(d).contains(q)
            && before.eligible(q) implies #[trigger] after.revealed_at(q) by {
        lemma_cascade_step(before, s, d, q);
        assert(after.cell_at(q).is_revealed);
    }
    assert forall|p: (usize, usize)|
        before.in_field(p) && p != s && (#[trigger] after.cell_at(p)).is_revealed
            && !before.cell_at(p).is_revealed implies !before.cell_at(p).is_mine by {
        assert(before.cascade(s, p));
        let path = choose|path: Seq<(usize, usize)>|
            #[trigger] before.cascade_path(path) && path[0] == s && path.last() == p;
        let d = path[path.len() - 2];
        assert(before.expands(d));
        assert(neighbour_list(d).contains(p));
        if before.cell_at(p).is_mine {
            lemma_mine_among(before, neighbour_list(d), p);
        }
    }
    assert forall|p: (usize, usize)|
        before.in_field(p) && p != s && (#[trigger] after.cell_at(p)).is_revealed
            && !before.cell_at(p).is_revealed implies exists|d: (usize, usize)|
        before.cascade(s, d) && before.expands(d) && #[trigger] neighbour_list(d).contains(p) by {
        assert(before.cascade(s, p));
        let path = choose|path: Seq<(usize, usize)>|
            #[trigger] before.cascade_path(path) && path[0] == s && path.last() == p;
        let prefix = path.drop_last();
        assert forall|i: int| 0 <= i < prefix.len() - 1 implies before.expands(
            #[trigger] prefix[i],
        ) && neighbour_list(prefix[i]).contains(prefix[i + 1]) by {
            assert(prefix[i] == path[i] && prefix[i + 1] == path[i + 1]);
        }
        assert(before.cascade_path(prefix));
        let d = path[path.len() - 2];
        assert(prefix.last() == d);
        assert(before.cascade(s, d));
        assert(before.expands(d));
        assert(neighbour_list(d).contains(p));
    }
}

/// Revealing a mine reports a hit and changes no other cell; revealing the same
/// cell again reports no hit and changes nothing.
pub proof fn lemma_reveal_mine_twice(f: Field, g: Field, h: Field, s: (usize, usize))
    requires
        f.wf(),
        f.eligible(s),
        f.cell_at(s).is_mine,
        f.reveal_result(&g, s),
        g.reveal_result(&h, s),
    ensures
        f.reveal_hits(s),
        !g.reveal_hits(s),
        g.same_state(&h),
        forall|p: (usize, usize)| f.in_field(p) && p != s ==> #[trigger] g.cell_at(p) == f.cell_at(p),
{
    lemma_cascade_start(f, s);
    assert(g.cell_at(s).is_revealed);
    assert(!g.eligible(s));
    assert forall|p: (usize, usize)| f.in_field(p) && p != s implies #[trigger] g.cell_at(p) == f.cell_at(p) by {
        if f.cascade(s, p) {
            lemma_no_spread(f, s, p);
        }
        assert(g.spec_cells()[f.index_of(p)].is_mine == f.spec_cells()[f.index_of(p)].is_mine);
    }
}

/// Flipping a flag twice restores the field.
pub proof fn lemma_toggle_twice(f: Field, g: Field, h: Field, p: (usize, usize))
    requires
        f.toggle_result(&g, p),
        g.toggle_result(&h, p),
    ensures
        f.same_state(&h),
{
    if f.in_field(p) {
        assert(h.spec_cells() =~= f.spec_cells());
    }
}

/// A flagged cell cannot be revealed: the reveal reports no hit and changes nothing.
pub proof fn lemma_flag_blocks_reveal(f: Field, g: Field, s: (usize, usize))
    requires
        f.in_field(s),
        f.cell_at(s).is_flagged,
        f.reveal_result(&g, s),
    ensures
        !f.reveal_hits(s),
        f.same_state(&g),
{
}

proof fn lemma_mine_among(f: Field, ps: Seq<(usize, usize)>, p: (usize, usize))
    requires
        ps.contains(p),
        f.mine_at(p),
    ensures
        f.mines_among(ps) > 0,
    decreases ps.len(),
{
    if ps.last() != p {
        assert(ps.drop_last().contains(p)) by {
            let i = choose|i: int| 0 <= i < ps.len() && ps[i] == p;
            assert(ps.drop_last()[i] == p);
        }
        lemma_mine_among(f, ps.drop_last(), p);
    }
}

/// Relies on rand's `IteratorRandom::choose_multiple` over a thread-local
/// generator: it returns `amount` items taken from distinct places of the
/// sequence when that many are there.
#[verifier::external_body]
fn choose_multiple(candidates: &Vec<usize>, amount: usize) -> (r: Vec<usize>)
    requires
        amount <= candidates@.len(),
    ensures
        r@.len() == amount,
        forall|i: int| 0 <= i < r@.len() ==> candidates@.contains(#[trigger] r@[i]),
        candidates@.no_duplicates() ==> r@.no_duplicates(),
{
    candidates.iter().copied().choose_multiple(&mut rand::thread_rng(), amount)
}

proof fn lemma_blank_counts(cs: Seq<Cell>)
    requires
        forall|i: int| 0 <= i < cs.len() ==> #[trigger] cs[i] == blank_cell(),
    ensures
        free_count(cs) == cs.len(),
        mine_count(cs) == 0,
    decreases cs.len(),
{
    if cs.len() > 0 {
        lemma_blank_counts(cs.drop_last());
    }
}

proof fn lemma_mine_count_add(cs: Seq<Cell>, i: int)
    requires
        0 <= i < cs.len(),
        !cs[i].is_mine,
    ensures
        mine_count(cs.update(i, Cell { is_mine: true, ..cs[i] })) == mine_count(cs) + 1,
    decreases cs.len(),
{
    let t = cs.update(i, Cell { is_mine: true, ..cs[i] });
    if i == cs.len() - 1 {
        assert(t.drop_last() =~= cs.drop_last());
    } else {
        assert(t.drop_last() =~= cs.drop_last().update(i, Cell { is_mine: true, ..cs[i] }));
        lemma_mine_count_add(cs.drop_last(), i);
    }
}

proof fn lemma_hidden_count_reveal(cs: Seq<Cell>, i: int)
    requires
        0 <= i < cs.len(),
        !cs[i].is_revealed,
    ensures
        hidden_count(cs.update(i, Cell { is_revealed: true, ..cs[i] })) + 1 == hidden_count(cs),
    decreases cs.len(),
{
    let t = cs.update(i, Cell { is_revealed: true, ..cs[i] });
    if i == cs.len() - 1 {
        assert(t.drop_last() =~= cs.drop_last());
    } else {
        assert(t.drop_last() =~= cs.drop_last().update(i, Cell { is_revealed: true, ..cs[i] }));
        lemma_hidden_count_reveal(cs.drop_last(), i);
    }
}

proof fn lemma_mines_among_same(f: Field, g: Field, ps: Seq<(usize, usize)>)
    requires
        f.same_layout(&g),
    ensures
        f.mines_among(ps) == g.mines_among(ps),
    decreases ps.len(),
{
    if ps.len() > 0 {
        lemma_mines_among_same(f, g, ps.drop_last());
        if f.in_field(ps.last()) {
            assert(g.spec_cells()[f.index_of(ps.last())].is_mine == f.spec_cells()[f.index_of(
                ps.last(),
            )].is_mine);
        }
    }
}

proof fn lemma_cascade_start(f: Field, s: (usize, usize))
    requires
        f.eligible(s),
    ensures
        f.cascade(s, s),
{
    let path = seq![s];
    assert(f.cascade_path(path));
}

proof fn lemma_cascade_step(f: Field, s: (usize, usize), d: (usize, usize), q: (usize, usize))
    requires
        f.cascade(s, d),
        f.expands(d),
        neighbour_list(d).contains(q),
        f.eligible(q),
    ensures
        f.cascade(s, q),
{
    let path = choose|path: Seq<(usize, usize)>|
        #[trigger] f.cascade_path(path) && path[0] == s && path.last() == d;
    let longer = path.push(q);
    assert forall|i: int| 0 <= i < longer.len() - 1 implies f.expands(#[trigger] longer[i])
        && neighbour_list(longer[i]).contains(longer[i + 1]) by {
        if i < path.len() - 1 {
            assert(longer[i] == path[i] && longer[i + 1] == path[i + 1]);
        }
    }
    assert(f.cascade_path(longer));
}

proof fn lemma_cascade_needs_start(f: Field, s: (usize, usize), p: (usize, usize))
    requires
        f.cascade(s, p),
    ensures
        f.eligible(s),
{
    let path = choose|path: Seq<(usize, usize)>|
        #[trigger] f.cascade_path(path) && path[0] == s && path.last() == p;
    assert(f.eligible(path[0]));
}

proof fn lemma_no_spread(f: Field, s: (usize, usize), p: (usize, usize))
    requires
        !f.expands(s),
        f.cascade(s, p),
    ensures
        p == s,
{
    let path = choose|path: Seq<(usize, usize)>|
        #[trigger] f.cascade_path(path) && path[0] == s && path.last() == p;
    if path.len() > 1 {
        assert(f.expands(path[0]));
    }
}

proof fn lemma_closed_path(orig: Field, cur: Field, path: Seq<(usize, usize)>)
    requires
        orig.same_layout(&cur),
        cur.revealed_at(path[0]),
        forall|q: (usize, usize)| orig.revealed_at(q) ==> #[trigger] cur.revealed_at(q),
        forall|d: (usize, usize)|
            #[trigger] cur.revealed_at(d) && !orig.revealed_at(d) && orig.expands(d) ==> settled(
                orig,
                cur,
                seq![],
                d,
            ),
        orig.cascade_path(path),
    ensures
        cur.revealed_at(path.last()),
    decreases path.len(),
{
    if path.len() > 1 {
        let prefix = path.drop_last();
        assert forall|i: int| 0 <= i < prefix.len() - 1 implies orig.expands(#[trigger] prefix[i])
            && neighbour_list(prefix[i]).contains(prefix[i + 1]) by {
            assert(prefix[i] == path[i] && prefix[i + 1] == path[i + 1]);
        }
        assert(orig.cascade_path(prefix));
        lemma_closed_path(orig, cur, prefix);
        let d = path[path.len() - 2];
        assert(orig.expands(d));
        assert(settled(orig, cur, seq![], d));
        assert(neighbour_list(d).contains(path.last()));
        assert(orig.eligible(path[path.len() - 1]));
    }
}

fn push_step(v: &mut Vec<(usize, usize)>, x: usize, y: usize, dx: isize, dy: isize)
    ensures
        final(v)@ == old(v)@ + step((x, y), dx as int, dy as int),
{
    if let Some(nx) = x.try_add(dx) {
        if let Some(ny) = y.try_add(dy) {
            v.push((nx, ny));
            return;
        }
    }
    assert(step((x, y), dx as int, dy as int) =~= seq![]);
    assert(old(v)@ + seq![] =~= old(v)@);
}

} // verus!
