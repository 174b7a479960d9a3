use vstd::prelude::*;
use vstd::arithmetic::div_mod::{lemma_div_pos_is_pos, lemma_fundamental_div_mod, lemma_small_mod};
use vstd::arithmetic::mul::lemma_mul_is_commutative;
use crate::cell::{Cell, cell_value, glyph};
use crate::universe::{
    UniverseView, dimension_check, lemma_index_in_grid, lemma_index_split,
    lemma_live_neighbours_at_most_eight,
};

verus! {

/// One operation that changes a universe.
pub enum Step {
    Tick,
    SetWidth(u32),
    SetHeight(u32),
    SetCells(Seq<(u32, u32)>),
}

/// The universe after one operation, as the operation's contract gives it.
pub open spec fn apply_step(v: UniverseView, step: Step) -> UniverseView {
    match step {
        Step::Tick => v.next_generation(),
        Step::SetWidth(w) => v.with_width(w as nat),
        Step::SetHeight(h) => v.with_height(h as nat),
        Step::SetCells(coords) => if v.all_in_bounds(coords) {
            v.with_alive(coords)
        } else {
            v
        },
    }
}

/// The universe after a sequence of operations, applied in order.
pub open spec fn run(v: UniverseView, steps: Seq<Step>) -> UniverseView
    decreases steps.len(),
{
    if steps.len() == 0 {
        v
    } else {
        apply_step(run(v, steps.drop_last()), steps.last())
    }
}

/// Every operation keeps the cells filling the grid exactly: the number of
/// cells stays `width * height`.
pub proof fn lemma_steps_keep_dimensions(v: UniverseView, step: Step)
    requires
        v.wf(),
    ensures
        apply_step(v, step).wf(),
        apply_step(v, step).cells.len() == apply_step(v, step).width * apply_step(v, step).height,
{
}

/// The universe as constructed fills its grid exactly.
pub proof fn lemma_initial_well_formed()
    ensures
        UniverseView::initial().wf(),
{
}

/// Two universes that start equal and undergo the same operations stay equal
/// after every step, and stay well formed.
pub proof fn lemma_determinism(a: UniverseView, b: UniverseView, steps: Seq<Step>)
    requires
        a == b,
        a.wf(),
    ensures
        forall|n: int| 0 <= n <= steps.len() ==> #[trigger] run(a, steps.take(n)) == run(b, steps.take(n)),
        forall|n: int| 0 <= n <= steps.len() ==> (#[trigger] run(a, steps.take(n))).wf(),
    decreases steps.len(),
{
    if steps.len() > 0 {
        let prefix = steps.drop_last();
        lemma_determinism(a, b, prefix);
        assert forall|n: int| 0 <= n <= steps.len() implies (#[trigger] run(a, steps.take(n))).wf() by {
            if n < steps.len() {
                assert(steps.take(n) =~= prefix.take(n));
            } else {
                assert(steps.take(n) =~= steps);
                assert(prefix.take(prefix.len() as int) =~= prefix);
                lemma_steps_keep_dimensions(run(a, prefix), steps.last());
            }
        }
    } else {
        assert(steps.take(0) =~= steps);
    }
}

/// A successful resize, of either side, leaves every cell dead whatever the
/// cells were before.
pub proof fn lemma_resize_clears(v: UniverseView, width: nat, height: nat)
    requires
        v.wf(),
    ensures
        dimension_check(width, v.height) is Ok ==> forall|i: int|
            0 <= i < v.with_width(width).cells.len() ==> #[trigger] v.with_width(width).cells[i] == Cell::Dead,
        dimension_check(v.width, height) is Ok ==> forall|i: int|
            0 <= i < v.with_height(height).cells.len() ==> #[trigger] v.with_height(height).cells[i]
                == Cell::Dead,
{
}

/// Every neighbour count lies between zero and eight.
pub proof fn lemma_neighbour_count_range(v: UniverseView, row: int, column: int)
    requires
        v.wf(),
        v.in_bounds(row, column),
    ensures
        0 <= v.live_neighbours(row, column) <= 8,
{
    lemma_live_neighbours_at_most_eight(v, row, column);
}

/// On a one-by-one grid every offset lands on the cell itself, so the count
/// is always zero.
pub proof fn lemma_single_cell_has_no_neighbours(v: UniverseView)
    requires
        v.wf(),
        v.width == 1,
        v.height == 1,
    ensures
        v.live_neighbours(0, 0) == 0,
{
    reveal_with_fuel(UniverseView::partial_count, 4);
    reveal_with_fuel(UniverseView::row_partial, 4);
}

/// On a grid of one row, the neighbours of a cell are the cells to its left
/// and right in that row, each reached once from every one of the three row
/// offsets, which all wrap back to the same row.
pub proof fn lemma_single_row_neighbours(v: UniverseView, column: int)
    requires
        v.wf(),
        v.height == 1,
        v.width >= 2,
        0 <= column < v.width,
    ensures
        v.live_neighbours(0, column) == 3 * (cell_value(v.cells[(column + v.width - 1) % (v.width as int)])
            + cell_value(v.cells[(column + 1) % (v.width as int)])),
{
    reveal_with_fuel(UniverseView::partial_count, 4);
    reveal_with_fuel(UniverseView::row_partial, 4);
    assert(1nat % v.width == 1) by {
        lemma_small_mod(1, v.width);
    }
}

/// On a grid of one column, the neighbours of a cell are the cells above and
/// below it in that column, each reached once from every one of the three
/// column offsets, which all wrap back to the same column.
pub proof fn lemma_single_column_neighbours(v: UniverseView, row: int)
    requires
        v.wf(),
        v.width == 1,
        v.height >= 2,
        0 <= row < v.height,
    ensures
        v.live_neighbours(row, 0) == 3 * (cell_value(v.cells[(row + v.height - 1) % (v.height as int)])
            + cell_value(v.cells[(row + 1) % (v.height as int)])),
{
    reveal_with_fuel(UniverseView::partial_count, 4);
    reveal_with_fuel(UniverseView::row_partial, 4);
    assert(1nat % v.height == 1) by {
        lemma_small_mod(1, v.height);
    }
}

/// The text has `height` lines of `width` glyphs, each ended by a newline,
/// and the glyph in line `row` at place `column` is that of the cell at
/// `(row, column)`.
pub proof fn lemma_render_layout(v: UniverseView)
    requires
        v.wf(),
    ensures
        v.text().len() == v.height * (v.width + 1int),
        forall|row: int, column: int|
            #![trigger v.text()[row * (v.width + 1int) + column]]
            0 <= row < v.height && 0 <= column < v.width ==> v.text()[row * (v.width + 1int) + column]
                == glyph(v.cells[row * v.width + column]),
        forall|row: int|
            0 <= row < v.height ==> #[trigger] v.text()[row * (v.width + 1int) + v.width] == '\n',
        forall|i: int| 0 <= i < v.text().len() ==> (#[trigger] v.text()[i] == '\n' <==> i % (v.width + 1int) == v.width),
{
    let line = v.width + 1int;
    assert forall|row: int, column: int|
        0 <= row < v.height && 0 <= column < v.width implies #[trigger] v.text()[row * (v.width + 1int) + column]
        == glyph(v.cells[row * v.width + column]) by {
        lemma_index_split(row, column, line);
        lemma_index_in_grid(row, column + 1, line, v.height as int);
        lemma_index_in_grid(row, column, v.width as int, v.height as int);
        lemma_mul_is_commutative(line, v.height as int);
    }
    assert forall|row: int| 0 <= row < v.height implies #[trigger] v.text()[row * (v.width + 1int) + v.width]
        == '\n' by {
        lemma_index_split(row, v.width as int, line);
        lemma_index_in_grid(row, v.width as int, line, v.height as int);
        lemma_mul_is_commutative(line, v.height as int);
    }
    assert forall|i: int| 0 <= i < v.text().len() implies (#[trigger] v.text()[i] == '\n' <==> i % (v.width + 1int)
        == v.width) by {
        if i % line != v.width {
            let r = i / line;
            let c = i % line;
            lemma_index_split(r, c, line);
            lemma_fundamental_div_mod(i, line);
            assert(0 <= r < v.height) by {
                lemma_div_pos_is_pos(i, line);
                lemma_mul_is_commutative(line, v.height as int);
                let h = v.height as int;
                assert(r < h) by (nonlinear_arith)
                    requires
                        i == line * r + c,
                        0 <= c,
                        i < h * line,
                        line > 0,
                ;
            }
            lemma_index_in_grid(r, c, v.width as int, v.height as int);
        }
    }
}

/// After setting a batch of in-bounds coordinates, a cell is alive if it is
/// named in the batch, and otherwise keeps its prior state.
pub proof fn lemma_batch_sets_exactly_named(v: UniverseView, coords: Seq<(u32, u32)>, row: int, column: int)
    requires
        v.wf(),
        v.all_in_bounds(coords),
        v.in_bounds(row, column),
    ensures
        v.with_alive(coords).cells[v.index(row, column)] == if exists|k: int|
            0 <= k < coords.len() && (#[trigger] coords[k]).0 == row && coords[k].1 == column {
            Cell::Alive
        } else {
            v.cells[v.index(row, column)]
        },
{
    lemma_index_in_grid(row, column, v.width as int, v.height as int);
    let i = v.index(row, column);
    if v.named_by(coords, coords.len() as int, i) {
        let k = choose|k: int|
            0 <= k < coords.len() && #[trigger] v.index(coords[k].0 as int, coords[k].1 as int) == i;
        assert(v.in_bounds(coords[k].0 as int, coords[k].1 as int));
        lemma_index_split(coords[k].0 as int, coords[k].1 as int, v.width as int);
        lemma_index_split(row, column, v.width as int);
        assert(coords[k].0 == row && coords[k].1 == column);
    } else {
        assert forall|k: int| 0 <= k < coords.len() implies !((#[trigger] coords[k]).0 == row && coords[k].1 == column) by {
            if coords[k].0 == row && coords[k].1 == column {
                assert(v.index(coords[k].0 as int, coords[k].1 as int) == i);
            }
        }
    }
}

} // verus!
