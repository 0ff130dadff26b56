use vstd::prelude::*;
use vstd::string::StringExecFns;

use crate::cell::Cell;
use crate::cell::next_cell;

verus! {

/// The glyph standing for one cell in the text rendering.
pub open spec fn glyph(c: Cell) -> char {
    if c is Alive {
        '◼'
    } else {
        '◻'
    }
}

/// The Game of Life universe: a `width x height` grid of cells with
/// toroidal (wraparound) edges.
///
/// The buffer is row-major: the cell at `(row, column)` lives at linear
/// index `row * width + column`. The buffer length always equals
/// `width * height`.
pub struct Universe {
    width: u32,
    height: u32,
    cells: Vec<Cell>,
}

/// The row or column one step before `i` on a wrapped axis of length `n`:
/// stepping up from 0 lands on `n - 1`.
pub open spec fn wrap_dec(i: int, n: int) -> int {
    if i == 0 {
        n - 1
    } else {
        i - 1
    }
}

/// The row or column one step past `i` on a wrapped axis of length `n`:
/// stepping down from `n - 1` lands on 0.
pub open spec fn wrap_inc(i: int, n: int) -> int {
    if i == n - 1 {
        0
    } else {
        i + 1
    }
}

/// An all-dead buffer of the given length.
pub open spec fn dead_grid(len: nat) -> Seq<Cell> {
    Seq::new(len, |i: int| Cell::Dead)
}

/// Whether the coordinate list names the cell `(r, c)`.
pub open spec fn names_cell(coords: Seq<(u32, u32)>, r: int, c: int) -> bool {
    exists|k: int| 0 <= k < coords.len() && coords[k].0 == r && coords[k].1 == c
}

/// Row-major indices of distinct in-range coordinates are distinct.
proof fn lemma_index_injective(w: int, r1: int, c1: int, r2: int, c2: int)
    by (nonlinear_arith)
    requires
        0 <= c1 < w,
        0 <= c2 < w,
        0 <= r1,
        0 <= r2,
        !(r1 == r2 && c1 == c2),
    ensures
        r1 * w + c1 != r2 * w + c2,
{
}

/// The row-major index of an in-range coordinate lies inside the buffer.
proof fn lemma_index_bounds(w: int, h: int, r: int, c: int)
    by (nonlinear_arith)
    requires
        0 <= r < h,
        0 <= c < w,
    ensures
        0 <= r * w + c,
        r * w + c < h * w,
        h * w == w * h,
{
}

/// The next generation laid out row-major: `g.next_rows(rows)` holds
/// `rows * width` cells, and the cell for `(r, c)` stands at index
/// `r * width + c`.
proof fn lemma_next_rows_index(g: Universe, rows: int)
    requires
        0 <= rows,
    ensures
        g.next_rows(rows).len() == rows * g.spec_width(),
        forall|r: int, c: int|
            0 <= r < rows && 0 <= c < g.spec_width() ==> g.next_rows(rows)[r * g.spec_width() + c]
                == g.next_at(r, c),
    decreases rows,
{
    let w = g.spec_width();
    if rows > 0 {
        lemma_next_rows_index(g, rows - 1);
        assert((rows - 1) * w + w == rows * w) by (nonlinear_arith);
        assert forall|r: int, c: int| 0 <= r < rows && 0 <= c < w implies g.next_rows(rows)[r * w
            + c] == g.next_at(r, c) by {
            if r < rows - 1 {
                lemma_index_bounds(w, rows - 1, r, c);
                assert(g.next_rows(rows)[r * w + c] == g.next_rows(rows - 1)[r * w + c]);
            } else {
                assert(r * w + c == (rows - 1) * w + c);
                assert(g.next_rows(rows)[r * w + c] == g.next_row(rows - 1)[c]);
            }
        }
    }
}

impl Universe {
    /// The grid width, as a mathematical integer.
    pub closed spec fn spec_width(self) -> int {
        self.width as int
    }

    /// The grid height, as a mathematical integer.
    pub closed spec fn spec_height(self) -> int {
        self.height as int
    }

    /// The cell buffer, as a sequence in row-major order.
    pub closed spec fn grid(self) -> Seq<Cell> {
        self.cells@
    }

    /// The dimension invariant: the buffer holds exactly `width * height`
    /// cells, and that area fits the index type.
    pub open spec fn wf(self) -> bool {
        &&& self.grid().len() == self.spec_width() * self.spec_height()
        &&& self.spec_width() * self.spec_height() <= usize::MAX
    }

    /// The cell at `(row, column)`, read from the row-major buffer.
    pub open spec fn cell_at(self, row: int, column: int) -> Cell {
        self.grid()[row * self.spec_width() + column]
    }

    /// The next state of the cell at `(row, column)`: the Life rule
    /// applied to its current state and its live-neighbor count.
    pub open spec fn next_at(self, row: int, column: int) -> Cell {
        next_cell(self.cell_at(row, column), self.neighbor_count(row, column))
    }

    /// The next generation of row `row`, left to right.
    pub open spec fn next_row(self, row: int) -> Seq<Cell> {
        Seq::new(self.spec_width() as nat, |c: int| self.next_at(row, c))
    }

    /// The next generation of the first `rows` rows, concatenated in
    /// row-major order.
    pub open spec fn next_rows(self, rows: int) -> Seq<Cell>
        decreases rows,
    {
        if rows <= 0 {
            Seq::empty()
        } else {
            self.next_rows(rows - 1) + self.next_row(rows - 1)
        }
    }

    /// The number of alive cells among the eight toroidal neighbors of
    /// `(row, column)`. On a degenerate axis of length 1 a cell can be
    /// its own neighbor through the opposite edge; the count then still
    /// sums all eight wrapped positions.
    pub open spec fn neighbor_count(self, row: int, column: int) -> int {
        let north = wrap_dec(row, self.spec_height());
        let south = wrap_inc(row, self.spec_height());
        let west = wrap_dec(column, self.spec_width());
        let east = wrap_inc(column, self.spec_width());
        self.cell_at(north, column).weight() + self.cell_at(north, east).weight()
            + self.cell_at(row, east).weight() + self.cell_at(south, east).weight()
            + self.cell_at(south, column).weight() + self.cell_at(south, west).weight()
            + self.cell_at(row, west).weight() + self.cell_at(north, west).weight()
    }

    /// Linear index of the in-range coordinate `(row, column)`.
    fn get_index(&self, row: u32, column: u32) -> (index: usize)
        requires
            self.wf(),
            row < self.spec_height(),
            column < self.spec_width(),
        ensures
            index == row * self.spec_width() + column,
            index < self.grid().len(),
    {
        proof {
            lemma_index_bounds(self.spec_width(), self.spec_height(), row as int, column as int);
        }
        (row as usize) * (self.width as usize) + (column as usize)
    }

    /// The grid width.
    pub fn width(&self) -> (w: u32)
        ensures
            w == self.spec_width(),
    {
        self.width
    }

    /// The grid height.
    pub fn height(&self) -> (h: u32)
        ensures
            h == self.spec_height(),
    {
        self.height
    }

    /// Read-only view of the cell buffer, row-major; valid until the next
    /// mutating call.
    pub fn cells(&self) -> (cells: &[Cell])
        ensures
            cells@ == self.grid(),
    {
        self.cells.as_slice()
    }

    /// Read-only view of the cell buffer, row-major; valid until the next
    /// mutating call.
    pub fn get_cells(&self) -> (cells: &[Cell])
        ensures
            cells@ == self.grid(),
    {
        self.cells.as_slice()
    }

    /// The weight of the cell at the in-range coordinate `(row, column)`:
    /// 1 if alive, 0 if dead.
    fn weight_at(&self, row: u32, column: u32) -> (weight: u8)
        requires
            self.wf(),
            row < self.spec_height(),
            column < self.spec_width(),
        ensures
            weight == self.cell_at(row as int, column as int).weight(),
    {
        let index = self.get_index(row, column);
        match self.cells[index] {
            Cell::Alive => 1,
            Cell::Dead => 0,
        }
    }

    /// Counts the alive cells among the eight toroidal neighbors of
    /// `(row, column)`.
    pub fn live_neighbor_count(&self, row: u32, column: u32) -> (count: u8)
        requires
            self.wf(),
            row < self.spec_height(),
            column < self.spec_width(),
        ensures
            count == self.neighbor_count(row as int, column as int),
            count <= 8,
    {
        let north: u32 = if row == 0 {
            self.height - 1
        } else {
            row - 1
        };
        let south: u32 = if row == self.height - 1 {
            0
        } else {
            row + 1
        };
        let west: u32 = if column == 0 {
            self.width - 1
        } else {
            column - 1
        };
        let east: u32 = if column == self.width - 1 {
            0
        } else {
            column + 1
        };

        let count: u8 = self.weight_at(north, column) + self.weight_at(north, east)
            + self.weight_at(row, east) + self.weight_at(south, east)
            + self.weight_at(south, column) + self.weight_at(south, west)
            + self.weight_at(row, west) + self.weight_at(north, west);

        count
    }

    /// Advances the whole grid one generation.
    ///
    /// Every cell's next state is computed from the pre-tick grid into a
    /// fresh buffer, which replaces the old one in a single step, so a
    /// caller never sees a partially updated generation.
    pub fn tick(&mut self)
        requires
            old(self).wf(),
        ensures
            final(self).wf(),
            final(self).spec_width() == old(self).spec_width(),
            final(self).spec_height() == old(self).spec_height(),
            final(self).grid() == old(self).next_rows(old(self).spec_height()),
            forall|r: int, c: int|
                0 <= r < old(self).spec_height() && 0 <= c < old(self).spec_width()
                    ==> final(self).cell_at(r, c) == next_cell(
                    old(self).cell_at(r, c),
                    old(self).neighbor_count(r, c),
                ),
    {
        let ghost w = self.spec_width();
        let mut next: Vec<Cell> = Vec::new();
        let mut row: u32 = 0;
        while row < self.height
            invariant
                self == old(self),
                self.wf(),
                row <= self.spec_height(),
                w == self.spec_width(),
                next@ == self.next_rows(row as int),
            decreases self.spec_height() - row,
        {
            proof {
                assert(self.next_rows(row as int) + Seq::new(
                    0,
                    |c: int| self.next_at(row as int, c),
                ) =~= self.next_rows(row as int));
            }
            let mut column: u32 = 0;
            while column < self.width
                invariant
                    self == old(self),
                    self.wf(),
                    row < self.spec_height(),
                    column <= w,
                    w == self.spec_width(),
                    next@ == self.next_rows(row as int) + Seq::new(
                        column as nat,
                        |c: int| self.next_at(row as int, c),
                    ),
                decreases w - column,
            {
                let index = self.get_index(row, column);
                let cell = self.cells[index];
                let live_neighbors = self.live_neighbor_count(row, column);

                let next_cell_value = match cell {
                    Cell::Alive => if 2 <= live_neighbors && live_neighbors <= 3 {
                        Cell::Alive
                    } else {
                        Cell::Dead
                    },
                    Cell::Dead => if live_neighbors == 3 {
                        Cell::Alive
                    } else {
                        Cell::Dead
                    },
                };

                next.push(next_cell_value);

                proof {
                    assert(next_cell_value == self.next_at(row as int, column as int));
                    assert(self.next_rows(row as int) + Seq::new(
                        (column + 1) as nat,
                        |c: int| self.next_at(row as int, c),
                    ) =~= (self.next_rows(row as int) + Seq::new(
                        column as nat,
                        |c: int| self.next_at(row as int, c),
                    )).push(self.next_at(row as int, column as int)));
                }
                column += 1;
            }
            proof {
                assert(next@ =~= self.next_rows(row as int + 1));
            }
            row += 1;
        }
        proof {
            lemma_next_rows_index(*self, self.spec_height());
            assert(self.spec_height() * w == w * self.spec_height()) by (nonlinear_arith);
        }
        self.cells = next;
        proof {
            assert forall|r: int, c: int|
                0 <= r < old(self).spec_height() && 0 <= c
                    < old(self).spec_width() implies self.cell_at(r, c) == next_cell(
                old(self).cell_at(r, c),
                old(self).neighbor_count(r, c),
            ) by {
                assert(old(self).next_rows(old(self).spec_height())[r * w + c] == old(
                    self,
                ).next_at(r, c));
            }
        }
    }

    /// Flips the cell at the in-range coordinate `(row, column)` between
    /// `Alive` and `Dead`; every other cell is untouched.
    pub fn toggle_cell(&mut self, row: u32, column: u32)
        requires
            old(self).wf(),
            row < old(self).spec_height(),
            column < old(self).spec_width(),
        ensures
            final(self).wf(),
            final(self).spec_width() == old(self).spec_width(),
            final(self).spec_height() == old(self).spec_height(),
            final(self).grid() == old(self).grid().update(
                row * old(self).spec_width() + column,
                old(self).cell_at(row as int, column as int).flipped(),
            ),
    {
        let index = self.get_index(row, column);
        let mut cell = self.cells[index];
        cell.toggle();
        self.cells[index] = cell;
    }

    /// Sets every cell named by an in-range `(row, column)` pair to
    /// `Alive`; cells not named keep their state. Naming a coordinate
    /// twice is the same as naming it once.
    pub fn set_cells(&mut self, cells: &[(u32, u32)])
        requires
            old(self).wf(),
            forall|k: int|
                0 <= k < cells@.len() ==> (#[trigger] cells@[k]).0 < old(self).spec_height()
                    && cells@[k].1 < old(self).spec_width(),
        ensures
            final(self).wf(),
            final(self).spec_width() == old(self).spec_width(),
            final(self).spec_height() == old(self).spec_height(),
            forall|r: int, c: int|
                0 <= r < old(self).spec_height() && 0 <= c < old(self).spec_width()
                    ==> #[trigger] final(self).cell_at(r, c) == (if names_cell(cells@, r, c) {
                    Cell::Alive
                } else {
                    old(self).cell_at(r, c)
                }),
    {
        let ghost w = self.spec_width();
        let ghost h = self.spec_height();
        let mut k: usize = 0;
        while k < cells.len()
            invariant
                self.wf(),
                w == self.spec_width(),
                h == self.spec_height(),
                old(self).wf(),
                w == old(self).spec_width(),
                h == old(self).spec_height(),
                k <= cells@.len(),
                forall|j: int|
                    0 <= j < cells@.len() ==> (#[trigger] cells@[j]).0 < h && cells@[j].1 < w,
                forall|r: int, c: int|
                    0 <= r < h && 0 <= c < w ==> #[trigger] self.cell_at(r, c) == (if names_cell(
                        cells@.take(k as int),
                        r,
                        c,
                    ) {
                        Cell::Alive
                    } else {
                        old(self).cell_at(r, c)
                    }),
            decreases cells@.len() - k,
        {
            let (row, column) = cells[k];
            let index = self.get_index(row, column);
            let ghost prev = *self;
            self.cells[index] = Cell::Alive;
            proof {
                let pre = cells@.take(k as int);
                let post = cells@.take(k + 1);
                lemma_index_bounds(w, h, row as int, column as int);
                assert(self.grid() == prev.grid().update(index as int, Cell::Alive));
                assert forall|r: int, c: int| 0 <= r < h && 0 <= c < w implies #[trigger] self
                    .cell_at(r, c) == (if names_cell(post, r, c) {
                    Cell::Alive
                } else {
                    old(self).cell_at(r, c)
                }) by {
                    lemma_index_bounds(w, h, r, c);
                    if r == row as int && c == column as int {
                        assert(post[k as int] == cells@[k as int]);
                        assert(names_cell(post, r, c));
                        assert(self.cell_at(r, c) == Cell::Alive);
                    } else {
                        lemma_index_injective(w, r, c, row as int, column as int);
                        assert(self.cell_at(r, c) == prev.cell_at(r, c));
                        if names_cell(post, r, c) {
                            let j = choose|j: int|
                                0 <= j < post.len() && post[j].0 == r && post[j].1 == c;
                            assert(post[j] == cells@[j]);
                            assert(j < k);
                            assert(pre[j] == cells@[j]);
                            assert(names_cell(pre, r, c));
                        }
                        if names_cell(pre, r, c) {
                            let j = choose|j: int|
                                0 <= j < pre.len() && pre[j].0 == r && pre[j].1 == c;
                            assert(post[j] == pre[j]);
                            assert(names_cell(post, r, c));
                        }
                    }
                }
            }
            k += 1;
        }
        proof {
            assert(cells@.take(cells@.len() as int) =~= cells@);
        }
    }

    /// Sets every cell to `Dead`; dimensions are unchanged.
    pub fn reset(&mut self)
        requires
            old(self).wf(),
        ensures
            final(self).wf(),
            final(self).spec_width() == old(self).spec_width(),
            final(self).spec_height() == old(self).spec_height(),
            final(self).grid() == dead_grid(old(self).grid().len()),
    {
        let len = self.cells.len();
        let mut i: usize = 0;
        while i < len
            invariant
                self.wf(),
                self.spec_width() == old(self).spec_width(),
                self.spec_height() == old(self).spec_height(),
                len == self.grid().len(),
                i <= len,
                forall|j: int| 0 <= j < i ==> self.grid()[j] == Cell::Dead,
            decreases len - i,
        {
            self.cells[i] = Cell::Dead;
            i += 1;
        }
        proof {
            assert(self.grid() =~= dead_grid(old(self).grid().len()));
        }
    }

    /// Replaces the buffer with a fresh all-dead one of length
    /// `width * height`.
    fn rebuild_dead(&mut self)
        requires
            old(self).spec_width() * old(self).spec_height() <= usize::MAX,
        ensures
            final(self).wf(),
            final(self).spec_width() == old(self).spec_width(),
            final(self).spec_height() == old(self).spec_height(),
            final(self).grid() == dead_grid(
                (old(self).spec_width() * old(self).spec_height()) as nat,
            ),
    {
        proof {
            assert(0 <= self.spec_width() * self.spec_height()) by (nonlinear_arith);
        }
        let len: usize = (self.width as usize) * (self.height as usize);
        let mut cells: Vec<Cell> = Vec::new();
        while cells.len() < len
            invariant
                cells@.len() <= len,
                forall|j: int| 0 <= j < cells@.len() ==> cells@[j] == Cell::Dead,
            decreases len - cells@.len(),
        {
            cells.push(Cell::Dead);
        }
        self.cells = cells;
        proof {
            assert(self.grid() =~= dead_grid((self.spec_width() * self.spec_height()) as nat));
        }
    }

    /// Sets the grid width and reinitializes the buffer to all-dead cells
    /// of the new shape: a destructive reshape, prior content is
    /// discarded.
    pub fn set_width(&mut self, width: u32)
        requires
            width * old(self).spec_height() <= usize::MAX,
        ensures
            final(self).wf(),
            final(self).spec_width() == width,
            final(self).spec_height() == old(self).spec_height(),
            final(self).grid() == dead_grid((width * old(self).spec_height()) as nat),
    {
        self.width = width;
        self.rebuild_dead();
    }

    /// Sets the grid height and reinitializes the buffer to all-dead
    /// cells of the new shape: a destructive reshape, prior content is
    /// discarded.
    pub fn set_height(&mut self, height: u32)
        requires
            old(self).spec_width() * height <= usize::MAX,
        ensures
            final(self).wf(),
            final(self).spec_width() == old(self).spec_width(),
            final(self).spec_height() == height,
            final(self).grid() == dead_grid((old(self).spec_width() * height) as nat),
    {
        self.height = height;
        self.rebuild_dead();
    }

    /// Re-draws every cell independently as `Alive` or `Dead` from the
    /// random source, replacing the whole buffer; dimensions are
    /// unchanged. Nothing is promised of the drawn states.
    pub fn start(&mut self)
        requires
            old(self).spec_width() * old(self).spec_height() <= usize::MAX,
        ensures
            final(self).wf(),
            final(self).spec_width() == old(self).spec_width(),
            final(self).spec_height() == old(self).spec_height(),
    {
        proof {
            assert(0 <= self.spec_width() * self.spec_height()) by (nonlinear_arith);
        }
        let len: usize = (self.width as usize) * (self.height as usize);
        let mut cells: Vec<Cell> = Vec::new();
        while cells.len() < len
            invariant
                cells@.len() <= len,
            decreases len - cells@.len(),
        {
            let alive: bool = rand::random();
            cells.push(
                if alive {
                    Cell::Alive
                } else {
                    Cell::Dead
                },
            );
        }
        self.cells = cells;
    }

    /// A 64 x 64 universe with every cell drawn at random.
    pub fn new() -> (universe: Universe)
        ensures
            universe.wf(),
            universe.spec_width() == 64,
            universe.spec_height() == 64,
    {
        let width: u32 = 64;
        let height: u32 = 64;

        let cells: Vec<Cell> = Vec::new();
        let mut universe = Universe { width, height, cells };

        universe.start();

        universe
    }

    /// The rendering of row `row`: one glyph per cell, then a line break.
    pub open spec fn row_chars(self, row: int) -> Seq<char> {
        Seq::new(self.spec_width() as nat, |c: int| glyph(self.cell_at(row, c))).push('\n')
    }

    /// The renderings of the first `rows` rows, concatenated.
    pub open spec fn rows_chars(self, rows: int) -> Seq<char>
        decreases rows,
    {
        if rows <= 0 {
            Seq::empty()
        } else {
            self.rows_chars(rows - 1) + self.row_chars(rows - 1)
        }
    }

    /// The full text rendering: all rows, top to bottom.
    pub open spec fn render_spec(self) -> Seq<char> {
        self.rows_chars(self.spec_height())
    }

    /// Serializes the grid as text: rows top to bottom, one glyph per
    /// cell, each row ended by a line break. Read-only.
    pub fn render(&self) -> (text: String)
        requires
            self.wf(),
        ensures
            text@ == self.render_spec(),
    {
        let mut text = String::new();
        let mut row: u32 = 0;
        while row < self.height
            invariant
                self.wf(),
                row <= self.spec_height(),
                text@ == self.rows_chars(row as int),
            decreases self.spec_height() - row,
        {
            proof {
                assert(self.rows_chars(row as int) + Seq::new(
                    0,
                    |c: int| glyph(self.cell_at(row as int, c)),
                ) =~= self.rows_chars(row as int));
            }
            let mut column: u32 = 0;
            while column < self.width
                invariant
                    self.wf(),
                    row < self.spec_height(),
                    column <= self.spec_width(),
                    text@ == self.rows_chars(row as int) + Seq::new(
                        column as nat,
                        |c: int| glyph(self.cell_at(row as int, c)),
                    ),
                decreases self.spec_width() - column,
            {
                let index = self.get_index(row, column);
                let alive = matches!(self.cells[index], Cell::Alive);
                if alive {
                    text.append("◼");
                } else {
                    text.append("◻");
                }
                proof {
                    reveal_strlit("◼");
                    reveal_strlit("◻");
                    assert(text@ =~= self.rows_chars(row as int) + Seq::new(
                        (column + 1) as nat,
                        |c: int| glyph(self.cell_at(row as int, c)),
                    ));
                }
                column += 1;
            }
            text.append("\n");
            proof {
                reveal_strlit("\n");
                assert(text@ =~= self.rows_chars(row as int + 1));
            }
            row += 1;
        }
        text
    }
}

/// Toroidal wrap at the corners. The neighbor count of cell `(0, 0)`
/// sums exactly the eight wrapped positions, among them the far corner
/// `(height-1, width-1)` across the diagonal and the far edge cells
/// across the top and left edges; symmetrically, the count of
/// `(height-1, width-1)` includes `(0, 0)` and the near edges.
pub proof fn lemma_corner_wrap(g: Universe)
    requires
        g.wf(),
        g.spec_width() >= 2,
        g.spec_height() >= 2,
    ensures
        g.neighbor_count(0, 0) == g.cell_at(g.spec_height() - 1, 0).weight() + g.cell_at(
            g.spec_height() - 1,
            1,
        ).weight() + g.cell_at(0, 1).weight() + g.cell_at(1, 1).weight() + g.cell_at(1, 0).weight()
            + g.cell_at(1, g.spec_width() - 1).weight() + g.cell_at(0, g.spec_width() - 1).weight()
            + g.cell_at(g.spec_height() - 1, g.spec_width() - 1).weight(),
        g.neighbor_count(g.spec_height() - 1, g.spec_width() - 1) == g.cell_at(
            g.spec_height() - 2,
            g.spec_width() - 1,
        ).weight() + g.cell_at(g.spec_height() - 2, 0).weight() + g.cell_at(
            g.spec_height() - 1,
            0,
        ).weight() + g.cell_at(0, 0).weight() + g.cell_at(0, g.spec_width() - 1).weight()
            + g.cell_at(0, g.spec_width() - 2).weight() + g.cell_at(
            g.spec_height() - 1,
            g.spec_width() - 2,
        ).weight() + g.cell_at(g.spec_height() - 2, g.spec_width() - 2).weight(),
{
}

/// Every character of the rendering of an all-dead grid's first `rows`
/// rows is the dead glyph or a line break.
proof fn lemma_rows_chars_dead(g: Universe, rows: int)
    requires
        g.wf(),
        g.grid() == dead_grid(g.grid().len()),
        0 <= rows <= g.spec_height(),
    ensures
        forall|i: int|
            0 <= i < g.rows_chars(rows).len() ==> g.rows_chars(rows)[i] == glyph(Cell::Dead)
                || g.rows_chars(rows)[i] == '\n',
    decreases rows,
{
    let w = g.spec_width();
    if rows > 0 {
        lemma_rows_chars_dead(g, rows - 1);
        assert forall|i: int| 0 <= i < g.rows_chars(rows).len() implies g.rows_chars(rows)[i]
            == glyph(Cell::Dead) || g.rows_chars(rows)[i] == '\n' by {
            let prefix = g.rows_chars(rows - 1);
            if i >= prefix.len() {
                let j = i - prefix.len();
                if j < w {
                    lemma_index_bounds(w, g.spec_height(), rows - 1, j);
                    assert(g.cell_at(rows - 1, j) == Cell::Dead);
                }
            }
        }
    }
}

/// After `reset` the rendering holds only the dead glyph and line
/// breaks; and resetting the already-reset grid rebuilds the very same
/// all-dead buffer, so a second reset renders identically.
pub proof fn lemma_reset_render(g: Universe)
    requires
        g.wf(),
        g.grid() == dead_grid(g.grid().len()),
    ensures
        forall|i: int|
            0 <= i < g.render_spec().len() ==> g.render_spec()[i] == glyph(Cell::Dead)
                || g.render_spec()[i] == '\n',
        dead_grid(g.grid().len()) == g.grid(),
{
    lemma_rows_chars_dead(g, g.spec_height());
}

/// Toggling the same in-range coordinate twice restores the original
/// buffer: each toggle replaces the cell by its flip, and flipping is an
/// involution.
pub proof fn lemma_toggle_twice(g: Universe, row: int, column: int)
    requires
        g.wf(),
        0 <= row < g.spec_height(),
        0 <= column < g.spec_width(),
    ensures
        ({
            let i = row * g.spec_width() + column;
            let once = g.grid().update(i, g.grid()[i].flipped());
            once.update(i, once[i].flipped()) == g.grid()
        }),
{
    lemma_index_bounds(g.spec_width(), g.spec_height(), row, column);
    let i = row * g.spec_width() + column;
    let once = g.grid().update(i, g.grid()[i].flipped());
    assert(once.update(i, once[i].flipped()) =~= g.grid());
}

} // verus!
