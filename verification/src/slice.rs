//! One horizontal run of a piece.

use vstd::prelude::*;
use vstd::string::*;

verus! {

/// One horizontal run of a piece: the column of its first character, its
/// row, and the characters of the run. The run stands in the columns `x`,
/// `x + 1`, ... of row `y`, one column per character.
#[derive(Debug, Clone, PartialEq, Eq)]
pub struct Slice {
    pub x: i32,
    pub y: i32,
    pub filling: String,
}

/// The mathematical content of a [`Slice`].
pub ghost struct SliceView {
    pub x: int,
    pub y: int,
    pub filling: Seq<char>,
}

impl SliceView {
    /// Number of columns of the run.
    pub open spec fn width(self) -> int {
        self.filling.len() as int
    }

    /// The column just past the last column of the run.
    pub open spec fn right(self) -> int {
        self.x + self.filling.len()
    }

    /// Whether the run stands on the cell at column `x` of row `y`.
    pub open spec fn covers(self, x: int, y: int) -> bool {
        self.y == y && self.x <= x < self.x + self.filling.len()
    }

    /// The run moved by `dx` columns and `dy` rows.
    pub open spec fn moved(self, dx: int, dy: int) -> SliceView {
        SliceView { x: self.x + dx, y: self.y + dy, filling: self.filling }
    }

    /// Whether both coordinates fit the coordinate type.
    pub open spec fn representable(self) -> bool {
        i32::MIN <= self.x <= i32::MAX && i32::MIN <= self.y <= i32::MAX
    }
}

impl View for Slice {
    type V = SliceView;

    open spec fn view(&self) -> SliceView {
        SliceView { x: self.x as int, y: self.y as int, filling: self.filling@ }
    }
}

impl Slice {
    /// A run with the given first column, row and characters.
    pub fn new(x: i32, y: i32, filling: String) -> (s: Slice)
        ensures
            s.x == x,
            s.y == y,
            s.filling == filling,
            s@ == (SliceView { x: x as int, y: y as int, filling: filling@ }),
    {
        Slice { x, y, filling }
    }

    /// Number of columns of the run.
    pub fn width(&self) -> (w: usize)
        ensures
            w == self@.width(),
    {
        self.filling.as_str().unicode_len()
    }
}

} // verus!
