use vstd::prelude::*;
use vstd::arithmetic::div_mod::lemma_fundamental_div_mod_converse;
use vstd::arithmetic::mul::lemma_mul_is_commutative;
use crate::cell::{Cell, cell_value, glyph};

verus! {

/// Columns of a freshly constructed universe.
pub const DEFAULT_WIDTH: u32 = 64;

/// Rows of a freshly constructed universe.
pub const DEFAULT_HEIGHT: u32 = 64;

/// Why an operation on a universe was refused.
#[derive(Clone, Copy, Debug, PartialEq, Eq, Structural)]
pub enum UniverseError {
    /// A width or height of zero was asked for.
    ZeroDimension,
    /// The asked-for grid has more cells than a `u32` can count.
    TooLarge,
    /// A row or column lies outside the grid.
    OutOfRange,
}

/// A toroidal grid of cells, stored row by row.
pub struct Universe {
    width: u32,
    height: u32,
    cells: Vec<Cell>,
}

/// The mathematical content of a universe: its dimensions and its cells in
/// row-major order.
pub struct UniverseView {
    pub width: nat,
    pub height: nat,
    pub cells: Seq<Cell>,
}

impl View for Universe {
    type V = UniverseView;

    closed spec fn view(&self) -> UniverseView {
        UniverseView { width: self.width as nat, height: self.height as nat, cells: self.cells@ }
    }
}

/// Whether a grid of the given dimensions can exist: both sides at least one
/// and the number of cells countable in a `u32`.
pub open spec fn valid_dimensions(width: nat, height: nat) -> bool {
    width >= 1 && height >= 1 && width * height <= u32::MAX
}

/// The outcome of asking for a grid of the given dimensions.
pub open spec fn dimension_check(width: nat, height: nat) -> Result<(), UniverseError> {
    if width == 0 || height == 0 {
        Err(UniverseError::ZeroDimension)
    } else if width * height > u32::MAX {
        Err(UniverseError::TooLarge)
    } else {
        Ok(())
    }
}

/// The three offsets taken along a side of length `n`: one step back (as
/// `n - 1`, so that it wraps), none, and one step forward (reduced modulo
/// `n`, so that on a side of length one every offset is zero).
pub open spec fn wrap_delta(n: nat, k: int) -> nat {
    if k == 0 {
        (n - 1) as nat
    } else if k == 1 {
        0
    } else {
        1nat % n
    }
}

/// The next state of a cell with `n` live neighbours.
pub open spec fn next_cell(cell: Cell, n: nat) -> Cell {
    match cell {
        Cell::Alive => if n == 2 || n == 3 { Cell::Alive } else { Cell::Dead },
        Cell::Dead => if n == 3 { Cell::Alive } else { Cell::Dead },
    }
}

/// The seed pattern: the cell at linear index `i` is alive when `i` is a
/// multiple of 2 or of 7.
pub open spec fn seed_cell(i: int) -> Cell {
    if i % 2 == 0 || i % 7 == 0 {
        Cell::Alive
    } else {
        Cell::Dead
    }
}

impl UniverseView {
    /// Dimensions are valid and the cells fill the grid exactly.
    pub open spec fn wf(self) -> bool {
        &&& valid_dimensions(self.width, self.height)
        &&& self.cells.len() == self.width * self.height
    }

    /// Whether `(row, column)` lies inside the grid.
    pub open spec fn in_bounds(self, row: int, column: int) -> bool {
        0 <= row < self.height && 0 <= column < self.width
    }

    /// Row-major position of a coordinate.
    pub open spec fn index(self, row: int, column: int) -> int {
        row * self.width + column
    }

    /// What the `j`-th column offset and the `i`-th row offset add to the
    /// neighbour count of `(row, column)`; the offset that stays on the
    /// cell itself adds nothing.
    pub open spec fn neighbour_value(self, row: int, column: int, i: int, j: int) -> nat {
        let dr = wrap_delta(self.height, i);
        let dc = wrap_delta(self.width, j);
        if dr == 0 && dc == 0 {
            0
        } else {
            cell_value(
                self.cells[self.index((row + dr) % (self.height as int), (column + dc) % (self.width as int))],
            )
        }
    }

    /// Sum over the first `j` column offsets for row offset `i`.
    pub open spec fn row_partial(self, row: int, column: int, i: int, j: int) -> nat
        decreases j,
    {
        if j <= 0 {
            0
        } else {
            self.row_partial(row, column, i, j - 1) + self.neighbour_value(row, column, i, j - 1)
        }
    }

    /// Sum over the first `i` row offsets, all three column offsets each.
    pub open spec fn partial_count(self, row: int, column: int, i: int) -> nat
        decreases i,
    {
        if i <= 0 {
            0
        } else {
            self.partial_count(row, column, i - 1) + self.row_partial(row, column, i - 1, 3)
        }
    }

    /// Number of live cells among the eight toroidal neighbours of
    /// `(row, column)`.
    pub open spec fn live_neighbours(self, row: int, column: int) -> nat {
        self.partial_count(row, column, 3)
    }

    /// The grid one generation later: every cell follows the rules applied
    /// to the current generation.
    pub open spec fn next_generation(self) -> UniverseView {
        UniverseView {
            width: self.width,
            height: self.height,
            cells: Seq::new(
                self.cells.len(),
                |i: int|
                    next_cell(
                        self.cells[i],
                        self.live_neighbours(i / (self.width as int), i % (self.width as int)),
                    ),
            ),
        }
    }

    /// An all-dead grid of the given dimensions.
    pub open spec fn cleared(width: nat, height: nat) -> UniverseView {
        UniverseView { width, height, cells: Seq::new(width * height, |i: int| Cell::Dead) }
    }

    /// The grid after asking for `width` columns: cleared when the new
    /// dimensions are valid, unchanged otherwise.
    pub open spec fn with_width(self, width: nat) -> UniverseView {
        if dimension_check(width, self.height) is Ok {
            UniverseView::cleared(width, self.height)
        } else {
            self
        }
    }

    /// The grid after asking for `height` rows: cleared when the new
    /// dimensions are valid, unchanged otherwise.
    pub open spec fn with_height(self, height: nat) -> UniverseView {
        if dimension_check(self.width, height) is Ok {
            UniverseView::cleared(self.width, height)
        } else {
            self
        }
    }

    /// Whether some coordinate among the first `n` of `coords` names linear
    /// position `i`.
    pub open spec fn named_by(self, coords: Seq<(u32, u32)>, n: int, i: int) -> bool {
        exists|k: int| 0 <= k < n && #[trigger] self.index(coords[k].0 as int, coords[k].1 as int) == i
    }

    /// Whether every coordinate of `coords` lies inside the grid.
    pub open spec fn all_in_bounds(self, coords: Seq<(u32, u32)>) -> bool {
        forall|k: int| 0 <= k < coords.len() ==> self.in_bounds(#[trigger] coords[k].0 as int, coords[k].1 as int)
    }

    /// The grid with every cell named in `coords` made alive and the others
    /// kept.
    pub open spec fn with_alive(self, coords: Seq<(u32, u32)>) -> UniverseView {
        UniverseView {
            width: self.width,
            height: self.height,
            cells: Seq::new(
                self.cells.len(),
                |i: int|
                    if self.named_by(coords, coords.len() as int, i) {
                        Cell::Alive
                    } else {
                        self.cells[i]
                    },
            ),
        }
    }

    /// The text rendering: one line per row, one glyph per cell, each line
    /// ended by a newline. Line `r` is at positions `r * (width + 1)` up to
    /// and including the newline at `r * (width + 1) + width`.
    pub open spec fn text(self) -> Seq<char> {
        let line = self.width + 1int;
        Seq::new(
            (self.height * line) as nat,
            |i: int|
                if i % line == self.width {
                    '\n'
                } else {
                    glyph(self.cells[self.index(i / line, i % line)])
                },
        )
    }

    /// The universe as first constructed: the default size, seeded.
    pub open spec fn initial() -> UniverseView {
        UniverseView {
            width: DEFAULT_WIDTH as nat,
            height: DEFAULT_HEIGHT as nat,
            cells: Seq::new((DEFAULT_WIDTH * DEFAULT_HEIGHT) as nat, |i: int| seed_cell(i)),
        }
    }
}

/// A neighbour count is at most eight.
pub proof fn lemma_live_neighbours_at_most_eight(v: UniverseView, row: int, column: int)
    ensures
        v.live_neighbours(row, column) <= 8,
{
    reveal_with_fuel(UniverseView::partial_count, 4);
    reveal_with_fuel(UniverseView::row_partial, 4);
    assert(v.neighbour_value(row, column, 1, 1) == 0);
}

/// `row * n + column` splits back into `row` and `column`.
pub(crate) proof fn lemma_index_split(row: int, column: int, n: int)
    requires
        0 <= column < n,
    ensures
        (row * n + column) / n == row,
        (row * n + column) % n == column,
{
    lemma_fundamental_div_mod_converse(row * n + column, n, row, column);
}

/// An in-bounds coordinate has an in-bounds linear position.
pub(crate) proof fn lemma_index_in_grid(row: int, column: int, width: int, height: int)
    requires
        0 <= row < height,
        0 <= column < width,
    ensures
        0 <= row * width + column < width * height,
{
    assert(row * width + column < width * height) by (nonlinear_arith)
        requires
            0 <= row < height,
            0 <= column < width,
    ;
    assert(0 <= row * width) by (nonlinear_arith)
        requires
            0 <= row,
            0 <= column < width,
    ;
}

/// A partly filled grid holds no more than the whole grid.
pub(crate) proof fn lemma_prefix_in_grid(row: int, column: int, width: int, height: int)
    requires
        0 <= row < height,
        0 <= column <= width,
    ensures
        row * width + column <= width * height,
{
    assert(row * width + column <= width * height) by (nonlinear_arith)
        requires
            0 <= row < height,
            0 <= column <= width,
    ;
}

/// The product of two `u32` values fits in a `u64`.
proof fn lemma_product_fits(a: u32, b: u32)
    ensures
        (a as int) * (b as int) <= u64::MAX,
{
    assert((a as int) * (b as int) <= 0xffff_ffff * 0xffff_ffff) by (nonlinear_arith)
        requires
            a <= 0xffff_ffff,
            b <= 0xffff_ffff,
    ;
}

/// Relies on `String::push`: appends one character at the end.
#[verifier::external_body]
fn push_char(s: &mut String, c: char)
    ensures
        final(s)@ == old(s)@.push(c),
{
    s.push(c);
}

/// The `k`-th offset along a side of length `n`.
fn wrap_delta_exec(n: u32, k: usize) -> (r: u32)
    requires
        n >= 1,
        k < 3,
    ensures
        r == wrap_delta(n as nat, k as int),
        r < n,
{
    if k == 0 {
        n - 1
    } else if k == 1 {
        0
    } else {
        1 % n
    }
}

impl Universe {
    /// Columns of the grid.
    pub fn width(&self) -> (r: u32)
        ensures
            r == self@.width,
    {
        self.width
    }

    /// Rows of the grid.
    pub fn height(&self) -> (r: u32)
        ensures
            r == self@.height,
    {
        self.height
    }

    /// Creates a universe of the default size holding the seed pattern.
    pub fn new() -> (r: Universe)
        ensures
            r@ == UniverseView::initial(),
            r@.wf(),
    {
        let width = DEFAULT_WIDTH;
        let height = DEFAULT_HEIGHT;
        let total: u32 = width * height;
        let mut cells: Vec<Cell> = Vec::new();
        let mut i: u32 = 0;
        while i < total
            invariant
                i <= total,
                total == DEFAULT_WIDTH * DEFAULT_HEIGHT,
                cells@.len() == i,
                forall|k: int| 0 <= k < i ==> #[trigger] cells@[k] == seed_cell(k),
            decreases total - i,
        {
            if i % 2 == 0 || i % 7 == 0 {
                cells.push(Cell::Alive);
            } else {
                cells.push(Cell::Dead);
            }
            i = i + 1;
        }
        let r = Universe { width, height, cells };
        assert(r@.cells =~= UniverseView::initial().cells);
        r
    }

    /// A vector of `n` dead cells.
    fn dead_cells(n: u32) -> (r: Vec<Cell>)
        ensures
            r@ == Seq::new(n as nat, |i: int| Cell::Dead),
    {
        let r = vec![Cell::Dead; n as usize];
        assert(r@ =~= Seq::new(n as nat, |i: int| Cell::Dead));
        r
    }

    /// Sets the number of columns and makes every cell dead. Refused, with
    /// nothing changed, when the new grid would be empty or too large.
    pub fn set_width(&mut self, width: u32) -> (r: Result<(), UniverseError>)
        requires
            old(self)@.wf(),
        ensures
            r == dimension_check(width as nat, old(self)@.height),
            final(self)@ == old(self)@.with_width(width as nat),
            final(self)@.wf(),
    {
        if width == 0 {
            return Err(UniverseError::ZeroDimension);
        }
        proof {
            lemma_product_fits(width, self.height);
        }
        if width as u64 * self.height as u64 > u32::MAX as u64 {
            return Err(UniverseError::TooLarge);
        }
        self.width = width;
        self.cells = Universe::dead_cells(width * self.height);
        Ok(())
    }

    /// Sets the number of rows and makes every cell dead. Refused, with
    /// nothing changed, when the new grid would be empty or too large.
    pub fn set_height(&mut self, height: u32) -> (r: Result<(), UniverseError>)
        requires
            old(self)@.wf(),
        ensures
            r == dimension_check(old(self)@.width, height as nat),
            final(self)@ == old(self)@.with_height(height as nat),
            final(self)@.wf(),
    {
        if height == 0 {
            return Err(UniverseError::ZeroDimension);
        }
        proof {
            lemma_product_fits(self.width, height);
        }
        if self.width as u64 * height as u64 > u32::MAX as u64 {
            return Err(UniverseError::TooLarge);
        }
        self.height = height;
        self.cells = Universe::dead_cells(self.width * height);
        Ok(())
    }

    /// Advances the universe by one generation. Every new cell is computed
    /// from the old generation, which is replaced only at the end.
    pub fn tick(&mut self)
        requires
            old(self)@.wf(),
        ensures
            final(self)@ == old(self)@.next_generation(),
            final(self)@.wf(),
    {
        let ghost before = self@;
        let mut next: Vec<Cell> = Vec::new();
        let mut row: u32 = 0;
        while row < self.height
            invariant
                self@ == before,
                before.wf(),
                row <= before.height,
                next@.len() == row * before.width,
                next@.len() <= before.cells.len(),
                forall|k: int|
                    0 <= k < next@.len() ==> #[trigger] next@[k] == before.next_generation().cells[k],
            decreases before.height - row,
        {
            let mut column: u32 = 0;
            while column < self.width
                invariant
                    self@ == before,
                    before.wf(),
                    row < before.height,
                    column <= before.width,
                    next@.len() == row * before.width + column,
                    next@.len() <= before.cells.len(),
                    forall|k: int|
                        0 <= k < next@.len() ==> #[trigger] next@[k] == before.next_generation().cells[k],
                decreases before.width - column,
            {
                let idx = self.index_of(row, column);
                let cell = self.cells[idx];
                let live = self.live_neighbour_count(row, column);
                let next_state = match cell {
                    Cell::Alive => if live == 2 || live == 3 { Cell::Alive } else { Cell::Dead },
                    Cell::Dead => if live == 3 { Cell::Alive } else { Cell::Dead },
                };
                proof {
                    lemma_index_split(row as int, column as int, before.width as int);
                    lemma_prefix_in_grid(row as int, column as int + 1, before.width as int, before.height as int);
                }
                next.push(next_state);
                column = column + 1;
            }
            proof {
                if row + 1 < before.height {
                    lemma_prefix_in_grid(row as int + 1, 0, before.width as int, before.height as int);
                }
                assert(next@.len() == (row + 1) * before.width) by (nonlinear_arith)
                    requires
                        next@.len() == row * before.width + before.width,
                ;
            }
            row = row + 1;
        }
        self.cells = next;
        proof {
            lemma_mul_is_commutative(before.width as int, before.height as int);
            assert(self@.cells =~= before.next_generation().cells);
        }
    }

    /// Row-major position of `(row, column)`, refused when the coordinate
    /// lies outside the grid.
    pub fn get_index(&self, row: u32, column: u32) -> (r: Result<usize, UniverseError>)
        requires
            self@.wf(),
        ensures
            self@.in_bounds(row as int, column as int) ==> r == Ok::<usize, UniverseError>(
                self@.index(row as int, column as int) as usize,
            ),
            !self@.in_bounds(row as int, column as int) ==> r == Err::<usize, UniverseError>(
                UniverseError::OutOfRange,
            ),
    {
        if row < self.height && column < self.width {
            Ok(self.index_of(row, column))
        } else {
            Err(UniverseError::OutOfRange)
        }
    }

    /// All cells, row by row.
    pub fn get_cells(&self) -> (r: &[Cell])
        ensures
            r@ == self@.cells,
    {
        self.cells.as_slice()
    }

    /// All cells, row by row, for a consumer that reads the buffer directly.
    pub fn cells(&self) -> (r: &[Cell])
        ensures
            r@ == self@.cells,
    {
        self.cells.as_slice()
    }

    /// Makes every cell named in `coords` alive and leaves the others as
    /// they were. Refused, with nothing changed, when any coordinate lies
    /// outside the grid.
    pub fn set_cells(&mut self, coords: &[(u32, u32)]) -> (r: Result<(), UniverseError>)
        requires
            old(self)@.wf(),
        ensures
            old(self)@.all_in_bounds(coords@) ==> r == Ok::<(), UniverseError>(()) && final(self)@
                == old(self)@.with_alive(coords@),
            !old(self)@.all_in_bounds(coords@) ==> r == Err::<(), UniverseError>(
                UniverseError::OutOfRange,
            ) && final(self)@ == old(self)@,
            final(self)@.wf(),
    {
        let mut k: usize = 0;
        while k < coords.len()
            invariant
                self@.wf(),
                k <= coords@.len(),
                forall|m: int| 0 <= m < k ==> self@.in_bounds(#[trigger] coords@[m].0 as int, coords@[m].1 as int),
            decreases coords@.len() - k,
        {
            let (row, column) = coords[k];
            if !(row < self.height && column < self.width) {
                return Err(UniverseError::OutOfRange);
            }
            k = k + 1;
        }
        let ghost before = self@;
        let mut k: usize = 0;
        while k < coords.len()
            invariant
                before.wf(),
                before.all_in_bounds(coords@),
                k <= coords@.len(),
                self@.width == before.width,
                self@.height == before.height,
                self@.cells.len() == before.cells.len(),
                forall|i: int|
                    0 <= i < before.cells.len() ==> #[trigger] self@.cells[i] == if before.named_by(
                        coords@,
                        k as int,
                        i,
                    ) {
                        Cell::Alive
                    } else {
                        before.cells[i]
                    },
            decreases coords@.len() - k,
        {
            let (row, column) = coords[k];
            assert(before.in_bounds(coords@[k as int].0 as int, coords@[k as int].1 as int));
            let idx = self.index_of(row, column);
            self.cells.set(idx, Cell::Alive);
            assert forall|i: int| 0 <= i < before.cells.len() implies #[trigger] self@.cells[i] == if before.named_by(
                coords@,
                k + 1,
                i,
            ) {
                Cell::Alive
            } else {
                before.cells[i]
            } by {
                if i == idx {
                    assert(before.index(coords@[k as int].0 as int, coords@[k as int].1 as int) == i);
                } else if before.named_by(coords@, k + 1, i) {
                    let m = choose|m: int| 0 <= m < k + 1 && #[trigger] before.index(coords@[m].0 as int, coords@[m].1 as int) == i;
                    assert(m != k);
                }
            }
            k = k + 1;
        }
        proof {
            assert(self@.cells =~= before.with_alive(coords@).cells);
        }
        Ok(())
    }

    /// The grid as text: one line per row, top to bottom, one glyph per
    /// cell, each line ended by a newline.
    pub fn render(&self) -> (r: String)
        requires
            self@.wf(),
        ensures
            r@ == self@.text(),
    {
        let ghost v = self@;
        let mut s = String::new();
        let mut row: u32 = 0;
        while row < self.height
            invariant
                self@ == v,
                v.wf(),
                row <= v.height,
                s@.len() == row * (v.width + 1int),
                forall|k: int| 0 <= k < s@.len() ==> #[trigger] s@[k] == v.text()[k],
                s@.len() <= v.text().len(),
            decreases v.height - row,
        {
            proof {
                lemma_prefix_in_grid(row as int, 1, v.width + 1int, v.height as int);
                lemma_mul_is_commutative(v.width + 1int, v.height as int);
            }
            let mut column: u32 = 0;
            while column < self.width
                invariant
                    self@ == v,
                    v.wf(),
                    row < v.height,
                    column <= v.width,
                    s@.len() == row * (v.width + 1int) + column,
                    forall|k: int| 0 <= k < s@.len() ==> #[trigger] s@[k] == v.text()[k],
                    s@.len() < v.text().len(),
                decreases v.width - column,
            {
                let idx = self.index_of(row, column);
                let c = self.cells[idx].symbol();
                proof {
                    lemma_index_split(row as int, column as int, v.width + 1int);
                    lemma_prefix_in_grid(row as int, column as int + 2, v.width + 1int, v.height as int);
                }
                push_char(&mut s, c);
                column = column + 1;
            }
            proof {
                lemma_index_split(row as int, v.width as int, v.width + 1int);
                if row + 1 < v.height {
                    lemma_prefix_in_grid(row as int + 1, 0, v.width + 1int, v.height as int);
                }
                lemma_mul_is_commutative(v.width + 1int, v.height as int);
                assert((row + 1) * (v.width + 1int) == row * (v.width + 1int) + v.width + 1int) by (nonlinear_arith);
            }
            push_char(&mut s, '\n');
            row = row + 1;
        }
        proof {
            lemma_mul_is_commutative(v.width + 1int, v.height as int);
            assert(s@ =~= v.text());
        }
        s
    }

    /// Row-major position of an in-bounds coordinate.
    fn index_of(&self, row: u32, column: u32) -> (r: usize)
        requires
            self@.wf(),
            self@.in_bounds(row as int, column as int),
        ensures
            r == self@.index(row as int, column as int),
            r < self@.cells.len(),
    {
        proof {
            lemma_index_in_grid(row as int, column as int, self.width as int, self.height as int);
        }
        row as usize * self.width as usize + column as usize
    }

    /// Counts the live cells among the eight neighbours of `(row, column)`,
    /// wrapping around the edges of the grid.
    pub fn live_neighbour_count(&self, row: u32, column: u32) -> (r: u8)
        requires
            self@.wf(),
            self@.in_bounds(row as int, column as int),
        ensures
            r == self@.live_neighbours(row as int, column as int),
            r <= 8,
    {
        let mut count: u8 = 0;
        let mut i: usize = 0;
        while i < 3
            invariant
                self@.wf(),
                self@.in_bounds(row as int, column as int),
                0 <= i <= 3,
                count == self@.partial_count(row as int, column as int, i as int),
                count <= 3 * i,
            decreases 3 - i,
        {
            let delta_row = wrap_delta_exec(self.height, i);
            let mut j: usize = 0;
            while j < 3
                invariant
                    self@.wf(),
                    self@.in_bounds(row as int, column as int),
                    0 <= i < 3,
                    0 <= j <= 3,
                    delta_row == wrap_delta(self@.height, i as int),
                    count == self@.partial_count(row as int, column as int, i as int)
                        + self@.row_partial(row as int, column as int, i as int, j as int),
                    count <= 3 * i + j,
                decreases 3 - j,
            {
                let delta_col = wrap_delta_exec(self.width, j);
                if !(delta_row == 0 && delta_col == 0) {
                    let neighbour_row = ((row as u64 + delta_row as u64) % self.height as u64) as u32;
                    let neighbour_column = ((column as u64 + delta_col as u64) % self.width as u64) as u32;
                    let idx = self.index_of(neighbour_row, neighbour_column);
                    if self.cells[idx].is_alive() {
                        count = count + 1;
                    }
                }
                j = j + 1;
            }
            i = i + 1;
        }
        proof {
            lemma_live_neighbours_at_most_eight(self@, row as int, column as int);
        }
        count
    }
}

} // verus!
