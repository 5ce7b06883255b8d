use vstd::prelude::*;

use crossterm::style::ContentStyle;

use crate::cursor::Cursor;

verus! {

#[verifier::external_type_specification]
#[verifier::external_body]
pub struct ExContentStyle(ContentStyle);

/// Relies on the `PartialEq` that crossterm derives for `ContentStyle`: it
/// compares the three optional colours and the attribute bits, so two styles
/// are `==` exactly when they are the same value.
#[verifier::external_body]
fn same_style(a: &ContentStyle, b: &ContentStyle) -> (r: bool)
    ensures
        r == (*a == *b),
{
    a == b
}

/// Relies on `ContentStyle::new`: the style without colours or attributes.
#[verifier::external_body]
fn plain_style() -> (r: ContentStyle) {
    ContentStyle::new()
}

/// One character square of the screen, with its style and whether it still
/// has to be drawn.
#[derive(Clone, Copy)]
pub struct Cell {
    pub content: char,
    pub style: ContentStyle,
    pub dirty: bool,
}

impl Cell {
    /// A cell that has not been drawn yet.
    pub fn new(content: char, style: ContentStyle) -> (r: Cell)
        ensures
            r == (Cell { content, style, dirty: true }),
    {
        Cell { content, style, dirty: true }
    }

    /// Takes over the character and style of `other` and marks itself as still
    /// to be drawn, unless it already shows that character in that style.
    pub fn put(&mut self, other: Cell)
        ensures
            *final(self) == put_result(*old(self), other),
    {
        if self.content == other.content && same_style(&self.style, &other.style) {
            return;
        }
        *self = other;
        self.dirty = true;
    }

    /// A space in the given style.
    pub fn is_clear(&self, blank: &ContentStyle) -> (r: bool)
        ensures
            r == (self.content == ' ' && self.style == *blank),
    {
        self.content == ' ' && same_style(&self.style, blank)
    }
}

/// The cell that `put` leaves at a square that held `old` when `new` is written:
/// unchanged where it already matches, else `new` marked as still to be drawn.
pub open spec fn put_result(old: Cell, new: Cell) -> Cell {
    if old.content == new.content && old.style == new.style {
        old
    } else {
        Cell { dirty: true, ..new }
    }
}

/// Writing what a square already shows leaves its dirty flag as it was;
/// writing anything else replaces the square and marks it dirty, whatever
/// flag the written cell carries.
pub proof fn lemma_put_dirty(shown: Cell, written: Cell)
    ensures
        shown.content == written.content && shown.style == written.style ==> put_result(
            shown,
            written,
        ) == shown,
        !(shown.content == written.content && shown.style == written.style) ==> {
            &&& put_result(shown, written).content == written.content
            &&& put_result(shown, written).style == written.style
            &&& put_result(shown, written).dirty
        },
{
}

/// The dirty cells of `cs`, in storage order, each with its column and row.
pub open spec fn dirty_list(cs: Seq<Cell>, width: int) -> Seq<(usize, usize, Cell)>
    decreases cs.len(),
{
    if cs.len() == 0 {
        seq![]
    } else {
        let i = cs.len() - 1;
        let rest = dirty_list(cs.drop_last(), width);
        if cs.last().dirty {
            rest.push(((i % width) as usize, (i / width) as usize, cs.last()))
        } else {
            rest
        }
    }
}

/// A screen held in memory: a grid of cells, the position where the next
/// character goes, and the style of an empty square.
pub struct Buffer {
    cells: Vec<Cell>,
    width: usize,
    height: usize,
    cursor: Cursor,
    blank: ContentStyle,
}

impl Buffer {
    pub closed spec fn spec_cells(&self) -> Seq<Cell> {
        self.cells@
    }

    pub closed spec fn spec_width(&self) -> usize {
        self.width
    }

    pub closed spec fn spec_height(&self) -> usize {
        self.height
    }

    pub closed spec fn spec_cursor(&self) -> Cursor {
        self.cursor
    }

    pub closed spec fn spec_blank(&self) -> ContentStyle {
        self.blank
    }

    /// `width * height` cells, and a write head that may stand one column
    /// right of the last column and one row below the last row.
    pub open spec fn wf(&self) -> bool {
        &&& self.spec_cells().len() == self.spec_width() * self.spec_height()
        &&& self.spec_cursor().wf()
        &&& self.spec_cursor().spec_max_x() == self.spec_width() + 1
        &&& self.spec_cursor().spec_max_y() == self.spec_height() + 1
    }

    pub open spec fn head(&self) -> (usize, usize) {
        (self.spec_cursor().spec_x(), self.spec_cursor().spec_y())
    }

    pub open spec fn in_grid(&self, p: (usize, usize)) -> bool {
        p.0 < self.spec_width() && p.1 < self.spec_height()
    }

    pub open spec fn index_of(&self, p: (usize, usize)) -> int {
        p.1 * self.spec_width() + p.0
    }

    /// A space in the blank style.
    pub open spec fn is_blank(&self, c: Cell) -> bool {
        c.content == ' ' && c.style == self.spec_blank()
    }

    pub open spec fn row_blank(&self, y: int) -> bool {
        forall|x: int|
            0 <= x < self.spec_width() ==> self.is_blank(
                #[trigger] self.spec_cells()[y * self.spec_width() + x],
            )
    }

    /// The same grid, blank style and write head, with other cells.
    pub open spec fn same_frame(&self, other: &Buffer) -> bool {
        &&& other.spec_width() == self.spec_width()
        &&& other.spec_height() == self.spec_height()
        &&& other.spec_blank() == self.spec_blank()
        &&& other.spec_cells().len() == self.spec_cells().len()
    }

    /// A buffer whose squares are all blank and not yet drawn.
    pub fn new(width: usize, height: usize) -> (r: Buffer)
        requires
            width < usize::MAX,
            height < usize::MAX,
            width * height <= usize::MAX,
        ensures
            r.wf(),
            r.spec_width() == width,
            r.spec_height() == height,
            r.head() == (0usize, 0usize),
            forall|i: int|
                0 <= i < r.spec_cells().len() ==> #[trigger] r.spec_cells()[i] == (Cell {
                    content: ' ',
                    style: r.spec_blank(),
                    dirty: true,
                }),
    {
        Self::with_blank(width, height, plain_style())
    }

    /// A buffer whose squares are spaces in `blank`, none of them drawn yet.
    pub fn with_blank(width: usize, height: usize, blank: ContentStyle) -> (r: Buffer)
        requires
            width < usize::MAX,
            height < usize::MAX,
            width * height <= usize::MAX,
        ensures
            r.wf(),
            r.spec_width() == width,
            r.spec_height() == height,
            r.spec_blank() == blank,
            r.head() == (0usize, 0usize),
            forall|i: int|
                0 <= i < r.spec_cells().len() ==> #[trigger] r.spec_cells()[i] == (Cell {
                    content: ' ',
                    style: blank,
                    dirty: true,
                }),
    {
        let size = width * height;
        let cursor = Cursor::new(width + 1, height + 1);
        let mut cells: Vec<Cell> = Vec::new();
        let mut i: usize = 0;
        while i < size
            invariant
                i <= size,
                cells@.len() == i,
                forall|j: int|
                    0 <= j < i ==> #[trigger] cells@[j] == (Cell { content: ' ', style: blank, dirty: true }),
            decreases size - i,
        {
            cells.push(Cell::new(' ', blank));
            i += 1;
        }
        Buffer { cells, width, height, cursor, blank }
    }

    /// Starts over at the new size; every square will be drawn again.
    pub fn resize(&mut self, width: usize, height: usize)
        requires
            width < usize::MAX,
            height < usize::MAX,
            width * height <= usize::MAX,
        ensures
            final(self).wf(),
            final(self).spec_width() == width,
            final(self).spec_height() == height,
            final(self).spec_blank() == old(self).spec_blank(),
            final(self).head() == (0usize, 0usize),
            forall|i: int|
                0 <= i < final(self).spec_cells().len() ==> #[trigger] final(self).spec_cells()[i] == (Cell {
                    content: ' ',
                    style: old(self).spec_blank(),
                    dirty: true,
                }),
    {
        *self = Self::with_blank(width, height, self.blank);
    }

    pub fn width(&self) -> (r: usize)
        ensures
            r == self.spec_width(),
    {
        self.width
    }

    pub fn height(&self) -> (r: usize)
        ensures
            r == self.spec_height(),
    {
        self.height
    }

    /// The write head: column and row.
    pub fn head_position(&self) -> (r: (usize, usize))
        ensures
            r == self.head(),
    {
        self.cursor.position()
    }

    fn cell_index(&self, x: usize, y: usize) -> (r: Option<usize>)
        requires
            self.wf(),
        ensures
            match r {
                Some(i) => self.in_grid((x, y)) && i == self.index_of((x, y)) && i
                    < self.spec_cells().len(),
                None => !self.in_grid((x, y)),
            },
    {
        let len = self.cells.len();
        if x >= self.width || y >= self.height {
            return None;
        }
        proof {
            lemma_grid_index(x as int, y as int, self.width as int, self.height as int);
        }
        Some(y * self.width + x)
    }

    pub fn get(&self, x: usize, y: usize) -> (r: Option<&Cell>)
        requires
            self.wf(),
        ensures
            match r {
                Some(c) => self.in_grid((x, y)) && *c == self.spec_cells()[self.index_of((x, y))],
                None => !self.in_grid((x, y)),
            },
    {
        match self.cell_index(x, y) {
            Some(i) => Some(&self.cells[i]),
            None => None,
        }
    }

    /// The square at `(x, y)` for changing in place; `None` off the grid.
    pub fn get_mut(&mut self, x: usize, y: usize) -> (r: Option<&mut Cell>)
        requires
            old(self).wf(),
        ensures
            match r {
                Some(c) => {
                    &&& old(self).in_grid((x, y))
                    &&& *c == old(self).spec_cells()[old(self).index_of((x, y))]
                    &&& old(self).same_frame(final(self))
                    &&& final(self).spec_cursor() == old(self).spec_cursor()
                    &&& final(self).spec_cells() == old(self).spec_cells().update(
                        old(self).index_of((x, y)),
                        *final(c),
                    )
                },
                None => !old(self).in_grid((x, y)) && final(self).spec_cells() == old(
                    self,
                ).spec_cells() && old(self).same_frame(final(self)) && final(self).spec_cursor()
                    == old(self).spec_cursor(),
            },
    {
        match self.cell_index(x, y) {
            Some(i) => Some(&mut self.cells[i]),
            None => None,
        }
    }

    /// The square under the write head, as `get_mut` gives it.
    pub fn get_current_mut(&mut self) -> (r: Option<&mut Cell>)
        requires
            old(self).wf(),
        ensures
            match r {
                Some(c) => {
                    &&& old(self).in_grid(old(self).head())
                    &&& *c == old(self).spec_cells()[old(self).index_of(old(self).head())]
                    &&& old(self).same_frame(final(self))
                    &&& final(self).spec_cursor() == old(self).spec_cursor()
                    &&& final(self).spec_cells() == old(self).spec_cells().update(
                        old(self).index_of(old(self).head()),
                        *final(c),
                    )
                },
                None => !old(self).in_grid(old(self).head()) && final(self).spec_cells() == old(
                    self,
                ).spec_cells() && old(self).same_frame(final(self)) && final(self).spec_cursor()
                    == old(self).spec_cursor(),
            },
    {
        let (x, y) = self.cursor.position();
        self.get_mut(x, y)
    }

    /// Moves the write head to the start of the next row, where there is one.
    pub fn new_line(&mut self)
        requires
            old(self).wf(),
        ensures
            final(self).wf(),
            old(self).same_frame(final(self)),
            final(self).spec_cells() == old(self).spec_cells(),
            final(self).head() == (0usize, if old(self).head().1 < old(self).spec_height() {
                (old(self).head().1 + 1) as usize
            } else {
                old(self).head().1
            }),
    {
        self.cursor.set_x(0);
        self.cursor.down();
    }

    /// Writes one character at the write head. A newline moves the head to the
    /// next row. Otherwise, where the head is on the grid, the square takes the
    /// new character and style and is marked dirty, unless it already shows the
    /// same character in the same style, in which case it is left as it is; the
    /// head then moves one column right, where there is one.
    pub fn put(&mut self, new_cell: Cell)
        requires
            old(self).wf(),
        ensures
            final(self).wf(),
            old(self).same_frame(final(self)),
            new_cell.content == '\n' ==> final(self).spec_cells() == old(self).spec_cells()
                && final(self).head() == (0usize, if old(self).head().1 < old(self).spec_height() {
                (old(self).head().1 + 1) as usize
            } else {
                old(self).head().1
            }),
            new_cell.content != '\n' && old(self).in_grid(old(self).head()) ==> {
                &&& final(self).spec_cells() == old(self).spec_cells().update(
                    old(self).index_of(old(self).head()),
                    put_result(old(self).spec_cells()[old(self).index_of(old(self).head())], new_cell),
                )
                &&& final(self).head() == ((old(self).head().0 + 1) as usize, old(self).head().1)
                &&& {
                    let k = old(self).index_of(old(self).head());
                    let shown = old(self).spec_cells()[k];
                    if shown.content == new_cell.content && shown.style == new_cell.style {
                        final(self).spec_cells()[k] == shown
                    } else {
                        &&& final(self).spec_cells()[k].content == new_cell.content
                        &&& final(self).spec_cells()[k].style == new_cell.style
                        &&& final(self).spec_cells()[k].dirty
                    }
                }
            },
            new_cell.content != '\n' && !old(self).in_grid(old(self).head()) ==> final(self).spec_cells()
                == old(self).spec_cells() && final(self).head() == old(self).head(),
    {
        if new_cell.content == '\n' {
            self.new_line();
            return;
        }
        let (x, y) = self.cursor.position();
        if let Some(i) = self.cell_index(x, y) {
            let mut c = self.cells[i];
            c.put(new_cell);
            self.cells.set(i, c);
            self.cursor.right();
        }
    }

    /// Blanks every square and puts the write head at the top left. Squares
    /// that already were blank keep their state, so only real changes get drawn.
    pub fn clear(&mut self)
        requires
            old(self).wf(),
        ensures
            final(self).wf(),
            old(self).same_frame(final(self)),
            final(self).head() == (0usize, 0usize),
            forall|i: int|
                0 <= i < old(self).spec_cells().len() ==> #[trigger] final(self).spec_cells()[i]
                    == put_result(
                    old(self).spec_cells()[i],
                    Cell { content: ' ', style: old(self).spec_blank(), dirty: true },
                ),
    {
        let clear_cell = Cell::new(' ', self.blank);
        self.cursor.set_position(0, 0);
        let len = self.cells.len();
        let ghost orig = self.spec_cells();
        let mut i: usize = 0;
        while i < len
            invariant
                self.wf(),
                old(self).same_frame(self),
                self.head() == (0usize, 0usize),
                len == orig.len(),
                orig == old(self).spec_cells(),
                clear_cell == (Cell { content: ' ', style: old(self).spec_blank(), dirty: true }),
                i <= len,
                forall|j: int| 0 <= j < i ==> #[trigger] self.spec_cells()[j] == put_result(orig[j], clear_cell),
                forall|j: int| i <= j < len ==> #[trigger] self.spec_cells()[j] == orig[j],
            decreases len - i,
        {
            let mut c = self.cells[i];
            c.put(clear_cell);
            self.cells.set(i, c);
            i += 1;
        }
    }

    /// Hands out the squares that still have to be drawn, row by row and left to
    /// right within a row, each with its column and row, and marks every square drawn.
    pub fn take_dirty(&mut self) -> (r: Vec<(usize, usize, Cell)>)
        requires
            old(self).wf(),
        ensures
            final(self).wf(),
            old(self).same_frame(final(self)),
            final(self).head() == old(self).head(),
            r@ == dirty_list(old(self).spec_cells(), old(self).spec_width() as int),
            forall|i: int|
                0 <= i < old(self).spec_cells().len() ==> #[trigger] final(self).spec_cells()[i] == (Cell {
                    dirty: false,
                    ..old(self).spec_cells()[i]
                }),
    {
        let len = self.cells.len();
        let width = self.width;
        let ghost orig = self.spec_cells();
        let mut r: Vec<(usize, usize, Cell)> = Vec::new();
        let mut i: usize = 0;
        while i < len
            invariant
                self.wf(),
                old(self).same_frame(self),
                self.head() == old(self).head(),
                len == orig.len(),
                orig == old(self).spec_cells(),
                width == self.spec_width(),
                i <= len,
                r@ == dirty_list(orig.take(i as int), width as int),
                forall|j: int| 0 <= j < i ==> #[trigger] self.spec_cells()[j] == (Cell { dirty: false, ..orig[j] }),
                forall|j: int| i <= j < len ==> #[trigger] self.spec_cells()[j] == orig[j],
            decreases len - i,
        {
            assert(orig.take(i + 1).drop_last() =~= orig.take(i as int));
            let mut c = self.cells[i];
            if c.dirty {
                proof {
                    if width == 0 {
                        assert(len == 0) by (nonlinear_arith)
                            requires len == width * self.spec_height(), width == 0;
                    }
                }
                r.push((i % width, i / width, c));
                c.dirty = false;
                self.cells.set(i, c);
            }
            i += 1;
        }
        assert(orig.take(len as int) =~= orig);
        r
    }

    /// The last row that holds a square other than a blank space, if any.
    pub fn last_non_blank_row(&self) -> (r: Option<usize>)
        requires
            self.wf(),
        ensures
            match r {
                Some(y) => y < self.spec_height() && !self.row_blank(y as int) && forall|z: int|
                    y < z < self.spec_height() ==> self.row_blank(z),
                None => forall|z: int| 0 <= z < self.spec_height() ==> self.row_blank(z),
            },
    {
        let mut y: usize = self.height;
        while y > 0
            invariant
                self.wf(),
                y <= self.spec_height(),
                forall|z: int| y <= z < self.spec_height() ==> self.row_blank(z),
            decreases y,
        {
            let row = y - 1;
            let mut x: usize = 0;
            while x < self.width
                invariant
                    self.wf(),
                    row < self.spec_height(),
                    y == row + 1,
                    forall|z: int| y <= z < self.spec_height() ==> self.row_blank(z),
                    x <= self.spec_width(),
                    forall|v: int| 0 <= v < x ==> self.is_blank(
                        #[trigger] self.spec_cells()[row * self.spec_width() + v],
                    ),
                decreases self.spec_width() - x,
            {
                proof {
                    lemma_grid_index(x as int, row as int, self.width as int, self.height as int);
                }
                match self.get(x, row) {
                    Some(c) => {
                        if !c.is_clear(&self.blank) {
                            assert(!self.is_blank(self.spec_cells()[row * self.spec_width() + x]));
                            return Some(row);
                        }
                    },
                    None => {},
                }
                x += 1;
            }
            y = row;
        }
        None
    }
}

proof fn lemma_grid_index(x: int, y: int, w: int, h: int)
    requires
        0 <= x < w,
        0 <= y < h,
    ensures
        0 <= y * w + x < w * h,
        y * w <= y * w + x,
{
    assert(y * w + x < w * h) by (nonlinear_arith)
        requires
            0 <= x < w,
            0 <= y < h,
    ;
    assert(0 <= y * w) by (nonlinear_arith)
        requires
            0 <= x < w,
            0 <= y < h,
    ;
}

} // verus!
