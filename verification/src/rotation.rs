//! The rotation of a piece by a quarter turn, computed from its rows alone.

use crate::shape::{
    all_rows_occupied, built, layout, layout_fits, lemma_layout_wf, lemma_moved_wf, outcome,
    slice_of_row, Shape, ShapeError, ShapeView,
};
use crate::slice::SliceView;
use crate::text::texts;
use crate::{CELL_WIDTH, RECT_LOWER_X};
use vstd::prelude::*;
use vstd::string::*;

verus! {

/// The smallest first column among the first `n` runs.
pub open spec fn closest_x_of(slices: Seq<SliceView>, n: int) -> int
    decreases n,
{
    if n <= 1 {
        slices[0].x
    } else {
        let rest = closest_x_of(slices, n - 1);
        if slices[n - 1].x < rest {
            slices[n - 1].x
        } else {
            rest
        }
    }
}

/// The largest column just past a run among the first `n` runs.
pub open spec fn furthest_x_of(slices: Seq<SliceView>, n: int) -> int
    decreases n,
{
    if n <= 1 {
        slices[0].right()
    } else {
        let rest = furthest_x_of(slices, n - 1);
        if slices[n - 1].right() > rest {
            slices[n - 1].right()
        } else {
            rest
        }
    }
}

/// Left edge of the tightest box around the runs.
pub open spec fn closest_x(slices: Seq<SliceView>) -> int {
    closest_x_of(slices, slices.len() as int)
}

/// Right edge of the tightest box around the runs, one past its last column.
pub open spec fn furthest_x(slices: Seq<SliceView>) -> int {
    furthest_x_of(slices, slices.len() as int)
}

/// Width of the tightest box around the runs, in whole cells.
pub open spec fn width_in_cells(slices: Seq<SliceView>) -> int {
    (furthest_x(slices) - closest_x(slices)) / (CELL_WIDTH as int)
}

/// `i`, but no more than `len`.
pub open spec fn clip(i: int, len: int) -> int {
    if i < len {
        i
    } else {
        len
    }
}

/// The columns of cell `k` of a row, as far as the row reaches.
pub open spec fn block_at(row: Seq<char>, k: int) -> Seq<char> {
    row.subrange(
        clip(k * CELL_WIDTH, row.len() as int),
        clip(k * CELL_WIDTH + CELL_WIDTH, row.len() as int),
    )
}

/// Cell `k` of the last `j` rows, from the last row upwards, side by side.
pub open spec fn stacked(rows: Seq<Seq<char>>, k: int, j: int) -> Seq<char>
    decreases j,
{
    if j <= 0 {
        Seq::empty()
    } else {
        stacked(rows, k, j - 1) + block_at(rows[rows.len() - j], k)
    }
}

/// Row `k` of the turned pattern: cell `k` of every row, read from the last
/// row up to the first.
pub open spec fn rotated_row(rows: Seq<Seq<char>>, k: int) -> Seq<char> {
    stacked(rows, k, rows.len() as int)
}

/// The first `n` rows of the turned pattern.
pub open spec fn rotated_rows(rows: Seq<Seq<char>>, n: int) -> Seq<Seq<char>> {
    Seq::new(n as nat, |k: int| rotated_row(rows, k))
}

/// Whole cells by which the first run at or after `i` that reaches the
/// right wall lies past it; 0 if no run reaches the wall.
pub open spec fn overshoot_from(slices: Seq<SliceView>, i: int) -> int
    decreases slices.len() - i,
{
    if i >= slices.len() {
        0
    } else if slices[i].right() - 1 >= RECT_LOWER_X {
        (slices[i].right() - RECT_LOWER_X) / (CELL_WIDTH as int)
    } else {
        overshoot_from(slices, i + 1)
    }
}

/// The piece pushed back from the right wall: moved left by as many whole
/// cells as its first run that reaches the wall lies past it.
pub open spec fn corrected(v: ShapeView) -> ShapeView {
    v.moved(-(CELL_WIDTH * overshoot_from(v.slices, 0)), 0)
}

/// The piece after a quarter turn, or why it cannot be turned.
///
/// The turned pattern has one row for each whole cell of the width of the
/// box around the piece. Its runs are cut from those rows with column 0 at
/// the left edge of the box and the first row on the row of the first run.
/// A piece that would then reach the right wall is pushed back from it.
pub open spec fn rotation(v: ShapeView) -> Result<ShapeView, ShapeError> {
    if v.slices.len() == 0 || width_in_cells(v.slices) <= 0 {
        Err(ShapeError::EmptyLayout)
    } else {
        match built(
            rotated_rows(v.raw_slices, width_in_cells(v.slices)),
            closest_x(v.slices),
            v.slices[0].y,
            v.color,
        ) {
            Err(e) => Err(e),
            Ok(turned) => if corrected(turned).representable() {
                Ok(corrected(turned))
            } else {
                Err(ShapeError::OutOfRange)
            },
        }
    }
}

/// A quarter turn that succeeds gives a well-formed piece of the same color,
/// with one run for each whole cell of the width of the box around the
/// piece before the turn.
pub proof fn lemma_rotation_wf(v: ShapeView)
    ensures
        rotation(v) matches Ok(t) ==> t.wf() && t.color == v.color && t.slices.len()
            == width_in_cells(v.slices),
{
    if let Ok(t) = rotation(v) {
        let rows = rotated_rows(v.raw_slices, width_in_cells(v.slices));
        lemma_layout_wf(rows, closest_x(v.slices), v.slices[0].y, v.color);
        let turned = layout(rows, closest_x(v.slices), v.slices[0].y, v.color);
        lemma_moved_wf(turned, -(CELL_WIDTH * overshoot_from(turned.slices, 0)), 0);
    }
}

/// The box around the first `n` runs holds each of them.
pub proof fn lemma_box_bounds(slices: Seq<SliceView>, n: int)
    requires
        1 <= n <= slices.len(),
    ensures
        forall|i: int|
            0 <= i < n ==> closest_x_of(slices, n) <= (#[trigger] slices[i]).x && slices[i].right()
                <= furthest_x_of(slices, n),
        closest_x_of(slices, n) <= furthest_x_of(slices, n),
        exists|i: int| 0 <= i < n && closest_x_of(slices, n) == (#[trigger] slices[i]).x,
        exists|i: int| 0 <= i < n && furthest_x_of(slices, n) == (#[trigger] slices[i]).right(),
    decreases n,
{
    if n > 1 {
        lemma_box_bounds(slices, n - 1);
        let a = choose|i: int| 0 <= i < n - 1 && closest_x_of(slices, n - 1) == (#[trigger] slices[i]).x;
        let b = choose|i: int|
            0 <= i < n - 1 && furthest_x_of(slices, n - 1) == (#[trigger] slices[i]).right();
        if slices[n - 1].x < closest_x_of(slices, n - 1) {
            assert(closest_x_of(slices, n) == slices[n - 1].x);
        } else {
            assert(closest_x_of(slices, n) == slices[a].x);
        }
        if slices[n - 1].right() > furthest_x_of(slices, n - 1) {
            assert(furthest_x_of(slices, n) == slices[n - 1].right());
        } else {
            assert(furthest_x_of(slices, n) == slices[b].right());
        }
    } else {
        assert(closest_x_of(slices, n) == slices[0].x);
        assert(furthest_x_of(slices, n) == slices[0].right());
    }
}

/// The piece after `n` quarter turns in a row, or why one of them failed.
pub open spec fn turns(v: ShapeView, n: nat) -> Result<ShapeView, ShapeError>
    decreases n,
{
    if n == 0 {
        Ok(v)
    } else {
        match turns(v, (n - 1) as nat) {
            Ok(w) => rotation(w),
            Err(e) => Err(e),
        }
    }
}

/// If no run at or after `i` reaches the right wall, nothing is pushed back.
pub proof fn lemma_no_overshoot(slices: Seq<SliceView>, i: int)
    requires
        0 <= i,
        forall|j: int| i <= j < slices.len() ==> (#[trigger] slices[j]).right() - 1 < RECT_LOWER_X,
    ensures
        overshoot_from(slices, i) == 0,
    decreases slices.len() - i,
{
    if i < slices.len() {
        lemma_no_overshoot(slices, i + 1);
    }
}

/// A quarter turn of a piece that stays clear of the right wall: if the
/// turned pattern is `turned_rows` and every row of it has an occupied
/// column, the turned piece is the one cut from `turned_rows` at the left
/// edge of the box around the piece, on the row of its first run.
pub proof fn lemma_turn(v: ShapeView, turned_rows: Seq<Seq<char>>)
    requires
        v.slices.len() >= 1,
        turned_rows.len() == width_in_cells(v.slices),
        turned_rows.len() >= 1,
        forall|k: int|
            0 <= k < turned_rows.len() ==> #[trigger] turned_rows[k] == rotated_row(v.raw_slices, k),
        all_rows_occupied(turned_rows),
        layout_fits(turned_rows, closest_x(v.slices), v.slices[0].y),
        forall|j: int|
            0 <= j < turned_rows.len() ==> (#[trigger] layout(
                turned_rows,
                closest_x(v.slices),
                v.slices[0].y,
                v.color,
            ).slices[j]).right() - 1 < RECT_LOWER_X,
    ensures
        rotation(v) == Ok::<ShapeView, ShapeError>(
            layout(turned_rows, closest_x(v.slices), v.slices[0].y, v.color),
        ),
{
    let left = closest_x(v.slices);
    let top = v.slices[0].y;
    let t = layout(turned_rows, left, top, v.color);
    assert(rotated_rows(v.raw_slices, width_in_cells(v.slices)) =~= turned_rows);
    assert forall|i: int| 0 <= i < t.slices.len() implies (#[trigger] t.slices[i]).representable() by {
        assert(slice_of_row(turned_rows[i], left, top + i).representable());
    }
    lemma_no_overshoot(t.slices, 0);
    assert(t.moved(0, 0).slices =~= t.slices);
}

impl Shape {
    /// Row `k` of the turned pattern.
    fn turned_row(&self, k: usize) -> (row: String)
        ensures
            row@ == rotated_row(self@.raw_slices, k as int),
    {
        let ghost rows = self@.raw_slices;
        let m = self.raw_slices.len();
        let mut row = String::new();
        let mut j: usize = 0;
        while j < m
            invariant
                m == self.raw_slices@.len(),
                rows == self@.raw_slices,
                j <= m,
                row@ == stacked(rows, k as int, j as int),
            decreases m - j,
        {
            let raw = self.raw_slices[m - 1 - j].as_str();
            let len = raw.unicode_len();
            let cell = CELL_WIDTH as usize;
            let from = if k <= len / cell {
                cell * k
            } else {
                len
            };
            let to = if len - from >= cell {
                from + cell
            } else {
                len
            };
            assert(raw@ == rows[rows.len() - (j + 1)]);
            assert(from == clip(k * CELL_WIDTH, len as int));
            assert(to == clip(k * CELL_WIDTH + CELL_WIDTH, len as int));
            row.append(raw.substring_char(from, to));
            j += 1;
        }
        row
    }

    /// The tightest box around the runs: its left edge and the column just
    /// past its right edge.
    fn bounding_box(&self) -> (edges: (i32, i128))
        requires
            self.slices@.len() >= 1,
        ensures
            edges.0 == closest_x(self@.slices),
            edges.1 == furthest_x(self@.slices),
            edges.0 <= edges.1,
            edges.1 - edges.0 <= usize::MAX + u32::MAX,
    {
        let ghost runs = self@.slices;
        let n = self.slices.len();
        let mut left: i32 = self.slices[0].x;
        let mut right: i128 = self.slices[0].x as i128 + self.slices[0].width() as i128;
        let mut i: usize = 1;
        while i < n
            invariant
                n == self.slices@.len(),
                runs == self@.slices,
                1 <= i <= n,
                left == closest_x_of(runs, i as int),
                right == furthest_x_of(runs, i as int),
                right <= i32::MAX + usize::MAX,
            decreases n - i,
        {
            let slice = &self.slices[i];
            assert(slice@ == runs[i as int]);
            let end = slice.x as i128 + slice.width() as i128;
            if slice.x < left {
                left = slice.x;
            }
            if end > right {
                right = end;
            }
            i += 1;
        }
        proof {
            lemma_box_bounds(runs, n as int);
        }
        (left, right)
    }

    /// Whole cells by which the first run that reaches the right wall lies
    /// past it; 0 if no run reaches the wall.
    fn overshoot(&self) -> (cells: i128)
        ensures
            cells == overshoot_from(self@.slices, 0),
            0 <= cells <= i32::MAX + usize::MAX,
    {
        let ghost runs = self@.slices;
        let n = self.slices.len();
        let mut i: usize = 0;
        while i < n
            invariant
                n == self.slices@.len(),
                runs == self@.slices,
                i <= n,
                overshoot_from(runs, 0) == overshoot_from(runs, i as int),
            decreases n - i,
        {
            let slice = &self.slices[i];
            assert(slice@ == runs[i as int]);
            let right = slice.x as i128 + slice.width() as i128;
            if right - 1 >= RECT_LOWER_X as i128 {
                return (right - RECT_LOWER_X as i128) / (CELL_WIDTH as i128);
            }
            i += 1;
        }
        0
    }

    /// Pushes the piece back from the right wall, if it reaches it.
    fn pushed_back(self) -> (r: Result<Shape, ShapeError>)
        requires
            self.wf(),
        ensures
            outcome(r) == if corrected(self@).representable() {
                Ok::<ShapeView, ShapeError>(corrected(self@))
            } else {
                Err::<ShapeView, ShapeError>(ShapeError::OutOfRange)
            },
            r matches Ok(s) ==> s.wf(),
    {
        let mut shape = self;
        let back: i128 = shape.overshoot() * (CELL_WIDTH as i128);
        let ghost target = corrected(shape@);
        let n = shape.slices.len();
        let mut i: usize = 0;
        while i < n
            invariant
                n == shape.slices@.len(),
                i <= n,
                shape@ == self@,
                target == corrected(self@),
                target == shape@.moved(-back, 0),
                0 <= back <= 2 * (i32::MAX + usize::MAX),
                forall|j: int| 0 <= j < i ==> (#[trigger] target.slices[j]).representable(),
            decreases n - i,
        {
            assert(target.slices[i as int] == shape@.slices[i as int].moved(-back, 0));
            if shape.slices[i].x as i128 - back < i32::MIN as i128 {
                assert(!target.slices[i as int].representable());
                return Err(ShapeError::OutOfRange);
            }
            i += 1;
        }
        if n == 0 {
            return Ok(shape);
        }
        assert(target.slices[0].representable());
        assert(target.slices[0] == shape@.slices[0].moved(-back, 0));
        shape.shift(-(back as i64), 0);
        Ok(shape)
    }

    /// The piece after a quarter turn; the piece itself is left as it is.
    ///
    /// Fails with `EmptyLayout` if the piece has no run or is less than a
    /// cell wide, with `EmptyRow` if a row of the turned pattern has no
    /// occupied column, and with `OutOfRange` if a coordinate of the turned
    /// piece does not fit the coordinate type.
    pub fn rotated(&self) -> (r: Result<Shape, ShapeError>)
        ensures
            outcome(r) == rotation(self@),
            r matches Ok(s) ==> s.wf(),
    {
        if self.slices.len() == 0 {
            return Err(ShapeError::EmptyLayout);
        }
        let (left, right) = self.bounding_box();
        let cells: i128 = (right - left as i128) / (CELL_WIDTH as i128);
        if cells <= 0 {
            return Err(ShapeError::EmptyLayout);
        }
        let count = cells as usize;
        let ghost old_rows = self@.raw_slices;
        let mut rows: Vec<String> = Vec::new();
        let mut k: usize = 0;
        while k < count
            invariant
                k <= count,
                old_rows == self@.raw_slices,
                texts(rows@) == rotated_rows(old_rows, k as int),
            decreases count - k,
        {
            let ghost before = texts(rows@);
            rows.push(self.turned_row(k));
            assert(texts(rows@) =~= before.push(rotated_row(old_rows, k as int)));
            k += 1;
            assert(texts(rows@) =~= rotated_rows(old_rows, k as int));
        }
        assert(self@.slices[0] == self.slices@[0]@);
        match Shape::build(rows, left, self.slices[0].y, self.color) {
            Err(e) => Err(e),
            Ok(turned) => turned.pushed_back(),
        }
    }

    /// Turns the piece by a quarter turn, or leaves it as it is and says
    /// why it cannot be turned.
    pub fn rotate(&mut self) -> (r: Result<(), ShapeError>)
        ensures
            match rotation(old(self)@) {
                Ok(v) => r is Ok && final(self)@ == v && final(self).wf(),
                Err(e) => r == Err::<(), ShapeError>(e) && *final(self) == *old(self),
            },
    {
        match self.rotated() {
            Ok(turned) => {
                *self = turned;
                Ok(())
            },
            Err(e) => Err(e),
        }
    }
}

} // verus!
