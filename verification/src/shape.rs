//! A piece: its runs, the rows they were cut from, and its color.

use crate::color::{palette, palette_colors, Color};
use crate::random::{choose_color, thread_generator};
use crate::slice::{Slice, SliceView};
use crate::text::{
    find_block_end, find_first_block, first_block, has_block, lemma_block_bounds,
    lemma_trimmed, rows, split_rows, texts, trimmed, BLOCK,
};
use crate::{CELL_WIDTH, SPAWN_X, SPAWN_Y};
use vstd::pervasive::unreached;
use vstd::prelude::*;
use vstd::string::*;

verus! {

/// Why a piece could not be built.
#[derive(Clone, Copy, Debug, PartialEq, Eq, Structural)]
pub enum ShapeError {
    /// A row has no occupied column.
    EmptyRow,
    /// There is no row at all.
    EmptyLayout,
    /// A coordinate of the piece does not fit the coordinate type.
    OutOfRange,
}

/// A piece. `slices[i]` is the occupied run of `raw_slices[i]`, the i-th row
/// of the pattern the piece was built from; all runs share one color.
#[derive(Debug, Clone, PartialEq, Eq)]
pub struct Shape {
    pub slices: Vec<Slice>,
    pub raw_slices: Vec<String>,
    pub color: Color,
}

/// The mathematical content of a [`Shape`].
pub ghost struct ShapeView {
    pub slices: Seq<SliceView>,
    pub raw_slices: Seq<Seq<char>>,
    pub color: Color,
}

/// The run cut from `row`, when column 0 of the row stands at column `x` of
/// row `y`: it starts at the first occupied column and ends at the last.
pub open spec fn slice_of_row(row: Seq<char>, x: int, y: int) -> SliceView {
    SliceView { x: x + first_block(row), y: y, filling: trimmed(row) }
}

/// The piece cut from `rows`, when column 0 of the first row stands at
/// column `x` of row `y` and each further row stands one row lower.
pub open spec fn layout(rows: Seq<Seq<char>>, x: int, y: int, color: Color) -> ShapeView {
    ShapeView {
        slices: Seq::new(rows.len(), |i: int| slice_of_row(rows[i], x, y + i)),
        raw_slices: rows,
        color: color,
    }
}

/// Whether every row has an occupied column.
pub open spec fn all_rows_occupied(rows: Seq<Seq<char>>) -> bool {
    forall|i: int| 0 <= i < rows.len() ==> has_block(#[trigger] rows[i])
}

/// Whether the coordinates of every run cut from `rows` at column `x` of
/// row `y` fit the coordinate type.
pub open spec fn layout_fits(rows: Seq<Seq<char>>, x: int, y: int) -> bool {
    forall|i: int| 0 <= i < rows.len() ==> slice_of_row(#[trigger] rows[i], x, y + i).representable()
}

/// Why no piece can be cut from `rows` at column `x` of row `y`, if so: there
/// is no row; or else a row has no occupied column; or else a coordinate
/// does not fit the coordinate type.
pub open spec fn build_error(rows: Seq<Seq<char>>, x: int, y: int) -> Option<ShapeError> {
    if rows.len() == 0 {
        Some(ShapeError::EmptyLayout)
    } else if !all_rows_occupied(rows) {
        Some(ShapeError::EmptyRow)
    } else if !layout_fits(rows, x, y) {
        Some(ShapeError::OutOfRange)
    } else {
        None
    }
}

/// The piece cut from `rows` at column `x` of row `y`, or why there is none.
pub open spec fn built(rows: Seq<Seq<char>>, x: int, y: int, color: Color) -> Result<
    ShapeView,
    ShapeError,
> {
    match build_error(rows, x, y) {
        Some(e) => Err(e),
        None => Ok(layout(rows, x, y, color)),
    }
}

/// The content of a result that holds a piece.
pub open spec fn outcome(r: Result<Shape, ShapeError>) -> Result<ShapeView, ShapeError> {
    match r {
        Ok(s) => Ok(s@),
        Err(e) => Err(e),
    }
}

impl ShapeView {
    /// Whether the coordinates of every run fit the coordinate type.
    pub open spec fn representable(self) -> bool {
        forall|i: int| 0 <= i < self.slices.len() ==> (#[trigger] self.slices[i]).representable()
    }

    /// Column at which column 0 of the rows stands.
    pub open spec fn anchor_x(self) -> int {
        self.slices[0].x - first_block(self.raw_slices[0])
    }

    /// Row of the first run.
    pub open spec fn anchor_y(self) -> int {
        self.slices[0].y
    }

    /// Well-formedness: there is at least one row, every row has an occupied
    /// column, and the runs are the ones cut from the rows at the anchor. It
    /// follows that no run is empty, that each run starts and ends with an
    /// occupied column, and that the runs stand on consecutive rows.
    pub open spec fn wf(self) -> bool {
        &&& self.raw_slices.len() >= 1
        &&& all_rows_occupied(self.raw_slices)
        &&& self == layout(self.raw_slices, self.anchor_x(), self.anchor_y(), self.color)
    }

    /// The piece moved by `dx` columns and `dy` rows.
    pub open spec fn moved(self, dx: int, dy: int) -> ShapeView {
        ShapeView {
            slices: Seq::new(self.slices.len(), |i: int| self.slices[i].moved(dx, dy)),
            raw_slices: self.raw_slices,
            color: self.color,
        }
    }

    /// Whether some run of the piece stands on the cell at column `x` of row `y`.
    pub open spec fn covers(self, x: int, y: int) -> bool {
        exists|i: int| 0 <= i < self.slices.len() && (#[trigger] self.slices[i]).covers(x, y)
    }
}

impl View for Shape {
    type V = ShapeView;

    open spec fn view(&self) -> ShapeView {
        ShapeView {
            slices: Seq::new(self.slices@.len(), |i: int| self.slices@[i]@),
            raw_slices: texts(self.raw_slices@),
            color: self.color,
        }
    }
}

/// A piece cut from rows that all have an occupied column is well-formed,
/// wherever it stands.
pub proof fn lemma_layout_wf(rows: Seq<Seq<char>>, x: int, y: int, color: Color)
    requires
        rows.len() >= 1,
        all_rows_occupied(rows),
    ensures
        layout(rows, x, y, color).wf(),
        layout(rows, x, y, color).anchor_x() == x,
        layout(rows, x, y, color).anchor_y() == y,
{
    let v = layout(rows, x, y, color);
    assert(v.slices[0] == slice_of_row(rows[0], x, y + 0));
    assert(v.slices =~= layout(v.raw_slices, v.anchor_x(), v.anchor_y(), v.color).slices);
}

/// Moving a piece cut from rows gives the piece cut from the same rows at
/// the moved anchor.
pub proof fn lemma_layout_moved(rows: Seq<Seq<char>>, x: int, y: int, color: Color, dx: int, dy: int)
    ensures
        layout(rows, x, y, color).moved(dx, dy) == layout(rows, x + dx, y + dy, color),
{
    assert(layout(rows, x, y, color).moved(dx, dy).slices =~= layout(
        rows,
        x + dx,
        y + dy,
        color,
    ).slices);
}

/// Moving keeps a piece well-formed.
pub proof fn lemma_moved_wf(v: ShapeView, dx: int, dy: int)
    requires
        v.wf(),
    ensures
        v.moved(dx, dy).wf(),
{
    lemma_layout_moved(v.raw_slices, v.anchor_x(), v.anchor_y(), v.color, dx, dy);
    lemma_layout_wf(v.raw_slices, v.anchor_x() + dx, v.anchor_y() + dy, v.color);
}

/// In a well-formed piece no run is empty, each run starts and ends with
/// an occupied column, and the runs stand on consecutive rows, so that no
/// two of them share a row.
pub proof fn lemma_wf_runs(v: ShapeView)
    requires
        v.wf(),
    ensures
        v.slices.len() == v.raw_slices.len(),
        v.slices.len() >= 1,
        forall|i: int|
            0 <= i < v.slices.len() ==> {
                &&& (#[trigger] v.slices[i]).filling.len() >= 1
                &&& v.slices[i].filling[0] == BLOCK
                &&& v.slices[i].filling[v.slices[i].filling.len() - 1] == BLOCK
                &&& v.slices[i].y == v.slices[0].y + i
            },
        forall|i: int, j: int|
            0 <= i < j < v.slices.len() ==> (#[trigger] v.slices[i]).y != (#[trigger] v.slices[j]).y,
{
    assert forall|i: int| 0 <= i < v.slices.len() implies {
        &&& (#[trigger] v.slices[i]).filling.len() >= 1
        &&& v.slices[i].filling[0] == BLOCK
        &&& v.slices[i].filling[v.slices[i].filling.len() - 1] == BLOCK
        &&& v.slices[i].y == v.slices[0].y + i
    } by {
        assert(has_block(v.raw_slices[i]));
        lemma_trimmed(v.raw_slices[i]);
    }
}

/// Moving a piece twice is moving it once by the sum of the two steps.
pub proof fn lemma_moved_adds(v: ShapeView, dx1: int, dy1: int, dx2: int, dy2: int)
    ensures
        v.moved(dx1, dy1).moved(dx2, dy2) == v.moved(dx1 + dx2, dy1 + dy2),
{
    assert(v.moved(dx1, dy1).moved(dx2, dy2).slices =~= v.moved(dx1 + dx2, dy1 + dy2).slices);
}

/// Moving a piece and then moving it back by the same step puts every run
/// where it was: down then up, left then right, or any other step.
pub proof fn lemma_moved_back(v: ShapeView, dx: int, dy: int)
    ensures
        v.moved(dx, dy).moved(-dx, -dy) == v,
        v.moved(0, 0) == v,
{
    assert(v.moved(dx, dy).moved(-dx, -dy).slices =~= v.slices);
    assert(v.moved(0, 0).slices =~= v.slices);
}

/// A move changes nothing but the position: every run keeps its characters
/// and is displaced by exactly the step, and the rows and the color stay.
pub proof fn lemma_moved_runs(v: ShapeView, dx: int, dy: int)
    ensures
        v.moved(dx, dy).slices.len() == v.slices.len(),
        v.moved(dx, dy).raw_slices == v.raw_slices,
        v.moved(dx, dy).color == v.color,
        forall|i: int|
            0 <= i < v.slices.len() ==> {
                &&& (#[trigger] v.moved(dx, dy).slices[i]).x == v.slices[i].x + dx
                &&& v.moved(dx, dy).slices[i].y == v.slices[i].y + dy
                &&& v.moved(dx, dy).slices[i].filling == v.slices[i].filling
            },
{
}

impl Shape {
    /// Whether the content of the piece is well-formed.
    pub open spec fn wf(&self) -> bool {
        self@.wf()
    }

    /// Cuts a piece from rows: column 0 of the first row stands at column
    /// `x` of row `y`, each further row one row lower. The rows are kept as
    /// they are; each run is the part of its row from the first occupied
    /// column to the last.
    ///
    /// Fails with `EmptyLayout` if there is no row, else with `EmptyRow` if
    /// a row has no occupied column, else with `OutOfRange` if a coordinate
    /// of a run does not fit the coordinate type.
    pub fn build(rows: Vec<String>, x: i32, y: i32, color: Color) -> (r: Result<Shape, ShapeError>)
        ensures
            outcome(r) == built(texts(rows@), x as int, y as int, color),
            r matches Ok(s) ==> s.wf(),
    {
        let n = rows.len();
        if n == 0 {
            return Err(ShapeError::EmptyLayout);
        }
        let ghost lines = texts(rows@);
        let mut i: usize = 0;
        while i < n
            invariant
                n == rows@.len(),
                lines == texts(rows@),
                i <= n,
                forall|j: int| 0 <= j < i ==> has_block(#[trigger] lines[j]),
            decreases n - i,
        {
            let row = rows[i].as_str();
            if find_first_block(row) >= row.unicode_len() {
                assert(!has_block(lines[i as int]));
                return Err(ShapeError::EmptyRow);
            }
            i += 1;
        }
        assert(all_rows_occupied(lines));
        let ghost target = layout(lines, x as int, y as int, color);
        let mut slices: Vec<Slice> = Vec::new();
        let mut i: usize = 0;
        while i < n
            invariant
                n == rows@.len(),
                lines == texts(rows@),
                i <= n,
                target == layout(lines, x as int, y as int, color),
                all_rows_occupied(lines),
                slices@.len() == i,
                forall|j: int| 0 <= j < i ==> (#[trigger] slices@[j])@ == target.slices[j],
            decreases n - i,
        {
            let row = rows[i].as_str();
            let first = find_first_block(row);
            let end = find_block_end(row);
            proof {
                assert(has_block(lines[i as int]));
                lemma_block_bounds(lines[i as int]);
                assert(target.slices[i as int] == slice_of_row(lines[i as int], x as int, y + i));
            }
            let column: i128 = x as i128 + first as i128;
            let line: i128 = y as i128 + i as i128;
            if column > i32::MAX as i128 || line > i32::MAX as i128 {
                proof {
                    assert(!slice_of_row(lines[i as int], x as int, y + i).representable());
                }
                return Err(ShapeError::OutOfRange);
            }
            let filling = String::from_str(row.substring_char(first, end));
            slices.push(Slice::new(column as i32, line as i32, filling));
            i += 1;
        }
        let shape = Shape { slices, raw_slices: rows, color };
        proof {
            assert(shape@.slices =~= target.slices);
            assert(shape@ == target);
            assert forall|j: int| 0 <= j < lines.len() implies slice_of_row(
                #[trigger] lines[j],
                x as int,
                y + j,
            ).representable() by {
                assert(target.slices[j] == shape.slices@[j]@);
            }
            lemma_layout_wf(lines, x as int, y as int, color);
        }
        Ok(shape)
    }

    /// Cuts a piece from a template whose rows are separated by row breaks,
    /// with column 0 of its first row at column `x` of row `y`.
    ///
    /// Fails with `EmptyRow` if a row of the template has no occupied
    /// column, else with `OutOfRange` if a coordinate of a run does not fit
    /// the coordinate type.
    pub fn from_template(template: &str, x: i32, y: i32, color: Color) -> (r: Result<
        Shape,
        ShapeError,
    >)
        ensures
            outcome(r) == built(rows(template@), x as int, y as int, color),
            r matches Ok(s) ==> s.wf(),
    {
        Shape::build(split_rows(template), x, y, color)
    }

    /// Cuts a piece from a template at the spawn position and gives it a
    /// color drawn at random from the palette. Fails as `from_template`
    /// does; which color is drawn plays no part in that.
    pub fn new(shape: &str) -> (r: Result<Shape, ShapeError>)
        ensures
            match r {
                Ok(s) => {
                    &&& build_error(rows(shape@), SPAWN_X as int, SPAWN_Y as int) is None
                    &&& s@ == layout(rows(shape@), SPAWN_X as int, SPAWN_Y as int, s.color)
                    &&& palette_colors().contains(s.color)
                    &&& s.wf()
                },
                Err(e) => build_error(rows(shape@), SPAWN_X as int, SPAWN_Y as int) == Some(e),
            },
    {
        let colors = palette();
        let mut rng = thread_generator();
        let color = match choose_color(&colors, &mut rng) {
            Some(c) => c,
            None => unreached(),
        };
        Shape::from_template(shape, SPAWN_X, SPAWN_Y, color)
    }

    /// Whether every run can be moved by `dx` columns and `dy` rows without
    /// leaving the range of the coordinate type.
    pub open spec fn can_move(&self, dx: int, dy: int) -> bool {
        self@.moved(dx, dy).representable()
    }

    /// Moves every run by `dx` columns and `dy` rows.
    pub fn shift(&mut self, dx: i64, dy: i64)
        requires
            old(self).can_move(dx as int, dy as int),
        ensures
            final(self)@ == old(self)@.moved(dx as int, dy as int),
            old(self).wf() ==> final(self).wf(),
    {
        let ghost before = self@;
        let ghost target = self@.moved(dx as int, dy as int);
        let n = self.slices.len();
        let mut i: usize = 0;
        while i < n
            invariant
                n == self.slices@.len(),
                before.slices.len() == n,
                target == before.moved(dx as int, dy as int),
                target.representable(),
                i <= n,
                self.raw_slices == old(self).raw_slices,
                self.color == old(self).color,
                forall|j: int| 0 <= j < i ==> (#[trigger] self.slices@[j])@ == target.slices[j],
                forall|j: int| i <= j < n ==> (#[trigger] self.slices@[j])@ == before.slices[j],
            decreases n - i,
        {
            assert(target.slices[i as int].representable());
            assert(target.slices[i as int] == before.slices[i as int].moved(dx as int, dy as int));
            self.slices[i].x = (self.slices[i].x as i128 + dx as i128) as i32;
            self.slices[i].y = (self.slices[i].y as i128 + dy as i128) as i32;
            i += 1;
        }
        proof {
            assert(self@.slices =~= target.slices);
            if before.wf() {
                lemma_moved_wf(before, dx as int, dy as int);
            }
        }
    }

    /// Moves the piece one row down. Whether the move is legal is for the
    /// caller to ask first; nothing is checked here.
    pub fn go_down(&mut self)
        requires
            old(self).can_move(0, 1),
        ensures
            final(self)@ == old(self)@.moved(0, 1),
            old(self).wf() ==> final(self).wf(),
    {
        self.shift(0, 1);
    }

    /// Moves the piece one cell to the left. Whether the move is legal is
    /// for the caller to ask first; nothing is checked here.
    pub fn go_left(&mut self)
        requires
            old(self).can_move(-CELL_WIDTH, 0),
        ensures
            final(self)@ == old(self)@.moved(-CELL_WIDTH, 0),
            old(self).wf() ==> final(self).wf(),
    {
        self.shift(-(CELL_WIDTH as i64), 0);
    }

    /// Moves the piece one cell to the right. Whether the move is legal is
    /// for the caller to ask first; nothing is checked here.
    pub fn go_right(&mut self)
        requires
            old(self).can_move(CELL_WIDTH as int, 0),
        ensures
            final(self)@ == old(self)@.moved(CELL_WIDTH as int, 0),
            old(self).wf() ==> final(self).wf(),
    {
        self.shift(CELL_WIDTH as i64, 0);
    }
}

} // verus!
