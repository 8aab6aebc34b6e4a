//! The cell grid. A move to the side goes by one cell, which is
//! [`CELL_WIDTH`] columns, while the collision engine looks one column
//! ahead. For pieces that stand on the cell grid the two agree: a move that
//! the engine lets pass leaves the piece inside the walls and clear of the
//! pieces at rest.

use crate::collision::{
    at_boundary, blocked, lemma_blocked_by_cells, occupied, Direction,
};
use crate::color::Color;
use crate::rotation::{
    block_at, clip, closest_x, lemma_box_bounds, overshoot_from, rotated_rows, rotation, stacked,
    width_in_cells,
};
use crate::shape::{all_rows_occupied, layout, ShapeView};
use crate::slice::SliceView;
use crate::text::{first_block, has_block, last_block, lemma_block_bounds, trimmed, BLOCK};
use crate::{CELL_WIDTH, RECT_LOWER_X, RECT_LOWER_Y, SPAWN_X};
use vstd::prelude::*;

verus! {

/// Whether the run stands on the cell grid: it starts a whole number of
/// cells from the spawn column and is a whole number of cells wide.
pub open spec fn run_on_grid(s: SliceView) -> bool {
    (s.x - SPAWN_X) % (CELL_WIDTH as int) == 0 && s.filling.len() % (CELL_WIDTH as nat) == 0
}

/// Whether every run of the piece stands on the cell grid.
pub open spec fn on_grid(v: ShapeView) -> bool {
    forall|i: int| 0 <= i < v.slices.len() ==> run_on_grid(#[trigger] v.slices[i])
}

/// Whether every piece stands on the cell grid.
pub open spec fn all_on_grid(shapes: Seq<ShapeView>) -> bool {
    forall|k: int| 0 <= k < shapes.len() ==> on_grid(#[trigger] shapes[k])
}

/// Whether every run of the piece stands between the walls and above the
/// floor.
pub open spec fn inside(v: ShapeView) -> bool {
    forall|i: int|
        0 <= i < v.slices.len() ==> {
            &&& 0 < (#[trigger] v.slices[i]).x
            &&& v.slices[i].right() <= RECT_LOWER_X
            &&& v.slices[i].y < RECT_LOWER_Y
        }
}

/// Whether the piece stands on no cell that a piece at rest occupies.
pub open spec fn clear_of(settled: Seq<ShapeView>, v: ShapeView) -> bool {
    forall|x: int, y: int| #[trigger] v.covers(x, y) ==> !occupied(settled, x, y)
}

/// A piece on the grid stays on it when it moves by whole cells, whatever
/// the number of rows.
pub proof fn lemma_moved_on_grid(v: ShapeView, cells: int, dy: int)
    requires
        on_grid(v),
    ensures
        on_grid(v.moved(cells * CELL_WIDTH, dy)),
{
    let w = v.moved(cells * CELL_WIDTH, dy);
    assert forall|i: int| 0 <= i < w.slices.len() implies run_on_grid(#[trigger] w.slices[i]) by {
        assert(run_on_grid(v.slices[i]));
        assert(w.slices[i].x - SPAWN_X == (v.slices[i].x - SPAWN_X) + cells * 2);
    }
}

/// On the grid, a cell at rest that the piece would meet after a move of
/// one cell to the side is met already after a move of one column.
proof fn lemma_one_column_ahead(a: SliceView, b: SliceView, z: int, side: int)
    requires
        run_on_grid(a),
        run_on_grid(b),
        side == 1 || side == -1,
        a.y == b.y,
        a.moved(side * CELL_WIDTH, 0).covers(z, a.y),
        b.covers(z, a.y),
    ensures
        exists|x: int| #[trigger] a.covers(x, a.y) && b.covers(x + side, a.y),
{
    let la = a.filling.len() as int;
    let lb = b.filling.len() as int;
    assert(la % 2 == 0 && lb % 2 == 0);
    assert(la >= 2);
    assert((a.x - b.x) % 2 == 0) by {
        assert((a.x - SPAWN_X) % 2 == 0);
        assert((b.x - SPAWN_X) % 2 == 0);
    }
    if side == 1 {
        // The moved run stands on the columns from a.x + 2 on.
        if z <= a.x + la {
            assert(a.covers(z - 1, a.y) && b.covers((z - 1) + side, a.y));
        } else {
            // z is the last column of the moved run; on the grid the cell
            // at rest that holds it holds the column before it too.
            assert(z == a.x + la + 1);
            assert((z - b.x) % 2 == 1);
            assert(b.x <= z - 1);
            assert(a.covers(z - 2, a.y) && b.covers((z - 2) + side, a.y));
        }
    } else {
        if z >= a.x - 1 {
            assert(a.covers(z + 1, a.y) && b.covers((z + 1) + side, a.y));
        } else {
            assert(z == a.x - 2);
            assert((z - b.x) % 2 == 0);
            assert(z + 1 < b.x + lb);
            assert(a.covers(z + 2, a.y) && b.covers((z + 2) + side, a.y));
        }
    }
}

/// A piece on the grid that can move to the side stands, after the move of
/// one cell, on no cell that a piece on the grid occupies at rest.
proof fn lemma_side_step_meets_nothing(
    settled: Seq<ShapeView>,
    active: ShapeView,
    d: Direction,
    side: int,
)
    requires
        on_grid(active),
        all_on_grid(settled),
        (d == Direction::Left && side == -1) || (d == Direction::Right && side == 1),
        !blocked(settled, active, d),
    ensures
        clear_of(settled, active.moved(side * CELL_WIDTH, 0)),
{
    let after = active.moved(side * CELL_WIDTH, 0);
    lemma_blocked_by_cells(settled, active, d);
    assert forall|x: int, y: int| #[trigger] after.covers(x, y) implies !occupied(settled, x, y) by {
        if occupied(settled, x, y) {
            let i = choose|i: int| 0 <= i < after.slices.len() && (#[trigger] after.slices[i]).covers(x, y);
            let k = choose|k: int| 0 <= k < settled.len() && (#[trigger] settled[k]).covers(x, y);
            let j = choose|j: int|
                0 <= j < settled[k].slices.len() && (#[trigger] settled[k].slices[j]).covers(x, y);
            let a = active.slices[i];
            let b = settled[k].slices[j];
            assert(on_grid(settled[k]));
            assert(run_on_grid(a) && run_on_grid(b));
            assert(after.slices[i] == a.moved(side * CELL_WIDTH, 0));
            lemma_one_column_ahead(a, b, x, side);
            let c = choose|c: int| #[trigger] a.covers(c, a.y) && b.covers(c + side, a.y);
            assert(active.covers(c, a.y));
            assert(settled[k].covers(c + d.dx(), a.y + d.dy()));
            assert(occupied(settled, c + d.dx(), a.y + d.dy()));
            assert(false);
        }
    }
}

/// A piece on the grid that can move left stands, after the move, to the
/// right of the left wall and on no cell that a piece on the grid occupies
/// at rest.
pub proof fn lemma_left_stays_clear(settled: Seq<ShapeView>, active: ShapeView)
    requires
        on_grid(active),
        all_on_grid(settled),
        !blocked(settled, active, Direction::Left),
    ensures
        on_grid(active.moved(-CELL_WIDTH, 0)),
        forall|i: int|
            0 <= i < active.slices.len() ==> (#[trigger] active.moved(-CELL_WIDTH, 0).slices[i]).x > 0,
        inside(active) ==> inside(active.moved(-CELL_WIDTH, 0)),
        clear_of(settled, active.moved(-CELL_WIDTH, 0)),
{
    lemma_moved_on_grid(active, -1, 0);
    lemma_side_step_meets_nothing(settled, active, Direction::Left, -1);
    let after = active.moved(-CELL_WIDTH, 0);
    assert forall|i: int| 0 <= i < active.slices.len() implies (#[trigger] after.slices[i]).x > 0 by {
        assert(!at_boundary(active.slices[i], Direction::Left));
        assert(run_on_grid(active.slices[i]));
    }
    if inside(active) {
        assert forall|i: int| 0 <= i < after.slices.len() implies {
            &&& 0 < (#[trigger] after.slices[i]).x
            &&& after.slices[i].right() <= RECT_LOWER_X
            &&& after.slices[i].y < RECT_LOWER_Y
        } by {
            assert(after.slices[i] == active.slices[i].moved(-CELL_WIDTH, 0));
            assert(active.slices[i].right() <= RECT_LOWER_X);
        }
    }
}

/// A piece on the grid that can move right stands, after the move, with no
/// run past the right wall and on no cell that a piece on the grid occupies
/// at rest.
pub proof fn lemma_right_stays_clear(settled: Seq<ShapeView>, active: ShapeView)
    requires
        on_grid(active),
        all_on_grid(settled),
        !blocked(settled, active, Direction::Right),
    ensures
        on_grid(active.moved(CELL_WIDTH as int, 0)),
        forall|i: int|
            0 <= i < active.slices.len() ==> (#[trigger] active.moved(
                CELL_WIDTH as int,
                0,
            ).slices[i]).right() <= RECT_LOWER_X,
        inside(active) ==> inside(active.moved(CELL_WIDTH as int, 0)),
        clear_of(settled, active.moved(CELL_WIDTH as int, 0)),
{
    lemma_moved_on_grid(active, 1, 0);
    lemma_side_step_meets_nothing(settled, active, Direction::Right, 1);
    let after = active.moved(CELL_WIDTH as int, 0);
    assert forall|i: int| 0 <= i < active.slices.len() implies (#[trigger] after.slices[i]).right()
        <= RECT_LOWER_X by {
        assert(!at_boundary(active.slices[i], Direction::Right));
        assert(run_on_grid(active.slices[i]));
    }
    if inside(active) {
        assert forall|i: int| 0 <= i < after.slices.len() implies {
            &&& 0 < (#[trigger] after.slices[i]).x
            &&& after.slices[i].right() <= RECT_LOWER_X
            &&& after.slices[i].y < RECT_LOWER_Y
        } by {
            assert(after.slices[i] == active.slices[i].moved(CELL_WIDTH as int, 0));
            assert(0 < active.slices[i].x);
        }
    }
}

/// A piece that can move down stands, after the move, above the floor and
/// on no cell that a piece occupies at rest; it needs no grid for that.
pub proof fn lemma_down_stays_clear(settled: Seq<ShapeView>, active: ShapeView)
    requires
        !blocked(settled, active, Direction::Down),
    ensures
        forall|i: int|
            0 <= i < active.slices.len() ==> (#[trigger] active.moved(0, 1).slices[i]).y < RECT_LOWER_Y,
        on_grid(active) ==> on_grid(active.moved(0, 1)),
        inside(active) ==> inside(active.moved(0, 1)),
        clear_of(settled, active.moved(0, 1)),
{
    lemma_blocked_by_cells(settled, active, Direction::Down);
    let after = active.moved(0, 1);
    assert forall|i: int| 0 <= i < active.slices.len() implies (#[trigger] after.slices[i]).y
        < RECT_LOWER_Y by {
        assert(!at_boundary(active.slices[i], Direction::Down));
    }
    assert forall|x: int, y: int| #[trigger] after.covers(x, y) implies !occupied(settled, x, y) by {
        let i = choose|i: int| 0 <= i < after.slices.len() && (#[trigger] after.slices[i]).covers(x, y);
        assert(active.slices[i].covers(x, y - 1));
        assert(active.covers(x, y - 1));
        if occupied(settled, x, y) {
            assert(occupied(settled, x + Direction::Down.dx(), (y - 1) + Direction::Down.dy()));
            assert(false);
        }
    }
    if on_grid(active) {
        lemma_moved_on_grid(active, 0, 1);
    }
    if inside(active) {
        assert forall|i: int| 0 <= i < after.slices.len() implies {
            &&& 0 < (#[trigger] after.slices[i]).x
            &&& after.slices[i].right() <= RECT_LOWER_X
            &&& after.slices[i].y < RECT_LOWER_Y
        } by {
            assert(after.slices[i] == active.slices[i].moved(0, 1));
            assert(0 < active.slices[i].x);
        }
    }
}

/// A turned piece that passes the test for a rotation stands inside the
/// walls, above the floor, and on no cell that a piece occupies at rest.
pub proof fn lemma_turn_stays_clear(settled: Seq<ShapeView>, turned: ShapeView)
    requires
        !blocked(settled, turned, Direction::Rotate),
    ensures
        inside(turned),
        clear_of(settled, turned),
{
    lemma_blocked_by_cells(settled, turned, Direction::Rotate);
    assert forall|i: int| 0 <= i < turned.slices.len() implies {
        &&& 0 < (#[trigger] turned.slices[i]).x
        &&& turned.slices[i].right() <= RECT_LOWER_X
        &&& turned.slices[i].y < RECT_LOWER_Y
    } by {
        assert(!at_boundary(turned.slices[i], Direction::Rotate));
    }
    assert forall|x: int, y: int| #[trigger] turned.covers(x, y) implies !occupied(settled, x, y) by {
        if occupied(settled, x, y) {
            assert(occupied(settled, x + Direction::Rotate.dx(), y + Direction::Rotate.dy()));
            assert(false);
        }
    }
}

/// Whether the two columns of cell `k` of the row are both occupied or both
/// empty.
pub open spec fn cell_alike(row: Seq<char>, k: int) -> bool {
    row[2 * k] == BLOCK <==> row[2 * k + 1] == BLOCK
}

/// Whether the row is made of whole cells: it has an even number of
/// columns, and the two columns of each cell are both occupied or both empty.
pub open spec fn cell_row(row: Seq<char>) -> bool {
    &&& row.len() % 2 == 0
    &&& forall|k: int| 0 <= k < row.len() / 2 ==> #[trigger] cell_alike(row, k)
}

/// Whether every row is made of whole cells.
pub open spec fn cell_rows(rows: Seq<Seq<char>>) -> bool {
    forall|i: int| 0 <= i < rows.len() ==> cell_row(#[trigger] rows[i])
}

/// Whether the piece stands on the cell grid and is cut from rows made of
/// whole cells.
pub open spec fn gridded(v: ShapeView) -> bool {
    on_grid(v) && cell_rows(v.raw_slices)
}

/// In a row made of whole cells the occupied run starts on the first
/// column of a cell and ends on the second column of a cell.
pub proof fn lemma_cell_row_run(row: Seq<char>)
    requires
        cell_row(row),
        has_block(row),
    ensures
        first_block(row) % 2 == 0,
        last_block(row) % 2 == 1,
        trimmed(row).len() % 2 == 0,
{
    lemma_block_bounds(row);
    let f = first_block(row);
    let l = last_block(row);
    assert(row[f] == BLOCK);
    assert(row[l] == BLOCK);
    if f % 2 != 0 {
        assert(cell_alike(row, f / 2));
        assert(row[f - 1] == BLOCK);
        assert(false);
    }
    if l % 2 != 1 {
        assert(cell_alike(row, l / 2));
        assert(row[l + 1] == BLOCK);
        assert(false);
    }
}

/// Two rows made of whole cells, side by side, are a row made of whole cells.
pub proof fn lemma_cell_rows_joined(a: Seq<char>, b: Seq<char>)
    requires
        cell_row(a),
        cell_row(b),
    ensures
        cell_row(a + b),
{
    let c = a + b;
    let half = a.len() as int / 2;
    assert forall|k: int| 0 <= k < c.len() / 2 implies #[trigger] cell_alike(c, k) by {
        if k < half {
            assert(cell_alike(a, k));
            assert(c[2 * k] == a[2 * k]);
            assert(c[2 * k + 1] == a[2 * k + 1]);
        } else {
            let j = k - half;
            assert(cell_alike(b, j));
            assert(c[2 * k] == b[2 * j]);
            assert(c[2 * k + 1] == b[2 * j + 1]);
        }
    }
}

/// A cell of a row made of whole cells is made of whole cells.
pub proof fn lemma_block_is_cell_row(row: Seq<char>, k: int)
    requires
        cell_row(row),
        0 <= k,
    ensures
        cell_row(block_at(row, k)),
{
    let b = block_at(row, k);
    if 2 * k + 2 <= row.len() {
        assert(b.len() == 2);
        assert forall|j: int| 0 <= j < b.len() / 2 implies #[trigger] cell_alike(b, j) by {
            assert(cell_alike(row, k));
            assert(b[0] == row[2 * k]);
            assert(b[1] == row[2 * k + 1]);
        }
    } else {
        assert(b.len() == 0);
    }
}

/// Every row of the turned pattern of rows made of whole cells is made of
/// whole cells.
pub proof fn lemma_stacked_is_cell_row(rows: Seq<Seq<char>>, k: int, j: int)
    requires
        cell_rows(rows),
        0 <= k,
        0 <= j <= rows.len(),
    ensures
        cell_row(stacked(rows, k, j)),
    decreases j,
{
    if j > 0 {
        lemma_stacked_is_cell_row(rows, k, j - 1);
        lemma_block_is_cell_row(rows[rows.len() - j], k);
        lemma_cell_rows_joined(stacked(rows, k, j - 1), block_at(rows[rows.len() - j], k));
    }
}

/// A piece cut from rows made of whole cells, with column 0 of the rows on
/// the grid, stands on the grid.
pub proof fn lemma_layout_gridded(rows: Seq<Seq<char>>, x: int, y: int, color: Color)
    requires
        cell_rows(rows),
        all_rows_occupied(rows),
        (x - SPAWN_X) % (CELL_WIDTH as int) == 0,
    ensures
        gridded(layout(rows, x, y, color)),
{
    let v = layout(rows, x, y, color);
    assert forall|i: int| 0 <= i < v.slices.len() implies run_on_grid(#[trigger] v.slices[i]) by {
        assert(cell_row(rows[i]));
        assert(has_block(rows[i]));
        lemma_cell_row_run(rows[i]);
    }
}

/// A quarter turn keeps a piece on the cell grid, cut from rows made of
/// whole cells.
pub proof fn lemma_rotation_gridded(v: ShapeView)
    requires
        gridded(v),
    ensures
        rotation(v) matches Ok(t) ==> gridded(t),
{
    if let Ok(t) = rotation(v) {
        let n = width_in_cells(v.slices);
        let rows = rotated_rows(v.raw_slices, n);
        let left = closest_x(v.slices);
        lemma_box_bounds(v.slices, v.slices.len() as int);
        let m = choose|i: int| 0 <= i < v.slices.len() && left == (#[trigger] v.slices[i]).x;
        assert(run_on_grid(v.slices[m]));
        assert forall|k: int| 0 <= k < rows.len() implies cell_row(#[trigger] rows[k]) by {
            lemma_stacked_is_cell_row(v.raw_slices, k, v.raw_slices.len() as int);
        }
        lemma_layout_gridded(rows, left, v.slices[0].y, v.color);
        let turned = layout(rows, left, v.slices[0].y, v.color);
        lemma_moved_on_grid(turned, -overshoot_from(turned.slices, 0), 0);
        assert(-overshoot_from(turned.slices, 0) * CELL_WIDTH == -(CELL_WIDTH * overshoot_from(
            turned.slices,
            0,
        )));
    }
}

} // verus!
