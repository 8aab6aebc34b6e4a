//! The collision engine: whether a move of the active piece is blocked by a
//! wall, by the floor or by a piece that has come to rest.

use crate::shape::{Shape, ShapeView};
use crate::slice::{Slice, SliceView};
use crate::text::same_text;
use crate::{RECT_LOWER_X, RECT_LOWER_Y};
use vstd::prelude::*;
use vstd::string::*;

verus! {

/// The move whose legality is asked.
#[derive(Clone, Copy, Debug, PartialEq, Eq, Structural)]
pub enum Direction {
    /// One row down.
    Down,
    /// Towards the left wall.
    Left,
    /// Towards the right wall.
    Right,
    /// A rotation; it is judged in place, after the piece has been turned.
    Rotate,
}

/// A direction tag that names no direction.
#[derive(Clone, Copy, Debug, PartialEq, Eq, Structural)]
pub struct UnknownDirection;

impl Direction {
    /// Columns by which the cells of the active piece are shifted before
    /// they are compared with the cells at rest.
    pub open spec fn dx(self) -> int {
        match self {
            Direction::Left => -1,
            Direction::Right => 1,
            _ => 0,
        }
    }

    /// Rows by which the cells of the active piece are shifted before they
    /// are compared with the cells at rest.
    pub open spec fn dy(self) -> int {
        match self {
            Direction::Down => 1,
            _ => 0,
        }
    }

    /// The direction that a tag names: `y+` is down, `x-` left, `x+` right
    /// and `rotate` a rotation. Any other tag names none.
    pub open spec fn of_tag(tag: Seq<char>) -> Option<Direction> {
        if tag == "y+"@ {
            Some(Direction::Down)
        } else if tag == "x-"@ {
            Some(Direction::Left)
        } else if tag == "x+"@ {
            Some(Direction::Right)
        } else if tag == "rotate"@ {
            Some(Direction::Rotate)
        } else {
            None
        }
    }

    /// Reads a direction tag.
    pub fn from_tag(tag: &str) -> (r: Result<Direction, UnknownDirection>)
        ensures
            match Direction::of_tag(tag@) {
                Some(d) => r == Ok::<Direction, UnknownDirection>(d),
                None => r is Err,
            },
    {
        if same_text(tag, "y+") {
            Ok(Direction::Down)
        } else if same_text(tag, "x-") {
            Ok(Direction::Left)
        } else if same_text(tag, "x+") {
            Ok(Direction::Right)
        } else if same_text(tag, "rotate") {
            Ok(Direction::Rotate)
        } else {
            Err(UnknownDirection)
        }
    }
}

/// The four tags and the directions they name.
pub proof fn lemma_tags()
    ensures
        Direction::of_tag("y+"@) == Some(Direction::Down),
        Direction::of_tag("x-"@) == Some(Direction::Left),
        Direction::of_tag("x+"@) == Some(Direction::Right),
        Direction::of_tag("rotate"@) == Some(Direction::Rotate),
{
    reveal_strlit("y+");
    reveal_strlit("x-");
    reveal_strlit("x+");
    reveal_strlit("rotate");
    assert("x-"@[0] != "y+"@[0]);
    assert("x+"@[0] != "y+"@[0]);
    assert("x+"@[1] != "x-"@[1]);
    assert("rotate"@.len() != "y+"@.len());
    assert("rotate"@.len() != "x-"@.len());
    assert("rotate"@.len() != "x+"@.len());
}

/// Whether the run, moved in the direction, would leave the playfield.
pub open spec fn at_boundary(s: SliceView, d: Direction) -> bool {
    match d {
        Direction::Down => s.y + 1 >= RECT_LOWER_Y,
        Direction::Left => s.x - 1 <= 0,
        Direction::Right => s.x + s.filling.len() >= RECT_LOWER_X,
        Direction::Rotate => s.x + s.filling.len() - 1 >= RECT_LOWER_X || s.x <= 0 || s.y
            >= RECT_LOWER_Y,
    }
}

/// Whether some cell of the run `a`, shifted in the direction, is a cell of
/// the run `b`.
pub open spec fn run_meets_run(a: SliceView, b: SliceView, d: Direction) -> bool {
    exists|x: int| #[trigger] a.covers(x, a.y) && b.covers(x + d.dx(), a.y + d.dy())
}

/// Whether some cell of the run `a`, shifted in the direction, is a cell of
/// the piece `p`.
pub open spec fn run_meets_shape(a: SliceView, p: ShapeView, d: Direction) -> bool {
    exists|j: int| 0 <= j < p.slices.len() && run_meets_run(a, #[trigger] p.slices[j], d)
}

/// Whether some cell of the run `a`, shifted in the direction, is a cell of
/// one of the pieces at rest.
pub open spec fn run_meets_settled(a: SliceView, settled: Seq<ShapeView>, d: Direction) -> bool {
    exists|k: int| 0 <= k < settled.len() && run_meets_shape(a, #[trigger] settled[k], d)
}

/// Whether the move of the active piece in the direction is blocked: some
/// run of it would leave the playfield, or some cell of it, shifted in the
/// direction, is a cell of a piece at rest.
pub open spec fn blocked(settled: Seq<ShapeView>, active: ShapeView, d: Direction) -> bool {
    exists|i: int|
        0 <= i < active.slices.len() && (at_boundary(#[trigger] active.slices[i], d)
            || run_meets_settled(active.slices[i], settled, d))
}

/// Whether one of the pieces at rest stands on the cell at column `x` of row `y`.
pub open spec fn occupied(settled: Seq<ShapeView>, x: int, y: int) -> bool {
    exists|k: int| 0 <= k < settled.len() && (#[trigger] settled[k]).covers(x, y)
}

/// A move is blocked exactly when a run of the active piece would leave the
/// playfield, or when the piece stands on a cell whose neighbour in the
/// direction of the move is occupied by a piece at rest.
pub proof fn lemma_blocked_by_cells(settled: Seq<ShapeView>, active: ShapeView, d: Direction)
    ensures
        blocked(settled, active, d) <==> (exists|i: int|
            0 <= i < active.slices.len() && at_boundary(#[trigger] active.slices[i], d)) || (exists|
            x: int,
            y: int,
        | #[trigger] active.covers(x, y) && occupied(settled, x + d.dx(), y + d.dy())),
{
    if blocked(settled, active, d) {
        let i = choose|i: int|
            0 <= i < active.slices.len() && (at_boundary(#[trigger] active.slices[i], d)
                || run_meets_settled(active.slices[i], settled, d));
        let a = active.slices[i];
        if !at_boundary(a, d) {
            let k = choose|k: int|
                0 <= k < settled.len() && run_meets_shape(a, #[trigger] settled[k], d);
            let j = choose|j: int|
                0 <= j < settled[k].slices.len() && run_meets_run(
                    a,
                    #[trigger] settled[k].slices[j],
                    d,
                );
            let b = settled[k].slices[j];
            let x = choose|x: int| #[trigger] a.covers(x, a.y) && b.covers(x + d.dx(), a.y + d.dy());
            assert(active.covers(x, a.y));
            assert(settled[k].covers(x + d.dx(), a.y + d.dy()));
            assert(occupied(settled, x + d.dx(), a.y + d.dy()));
        }
    }
    if exists|x: int, y: int| #[trigger]
        active.covers(x, y) && occupied(settled, x + d.dx(), y + d.dy()) {
        let (x, y) = choose|x: int, y: int| #[trigger]
            active.covers(x, y) && occupied(settled, x + d.dx(), y + d.dy());
        let i = choose|i: int| 0 <= i < active.slices.len() && (#[trigger] active.slices[i]).covers(x, y);
        let k = choose|k: int|
            0 <= k < settled.len() && (#[trigger] settled[k]).covers(x + d.dx(), y + d.dy());
        let j = choose|j: int|
            0 <= j < settled[k].slices.len() && (#[trigger] settled[k].slices[j]).covers(
                x + d.dx(),
                y + d.dy(),
            );
        let a = active.slices[i];
        assert(a.covers(x, a.y) && settled[k].slices[j].covers(x + d.dx(), a.y + d.dy()));
        assert(run_meets_run(a, settled[k].slices[j], d));
        assert(run_meets_shape(a, settled[k], d));
        assert(run_meets_settled(a, settled, d));
    }
}

/// A piece with a run on the row just above the floor cannot move down,
/// whatever is at rest.
pub proof fn lemma_floor_blocks(settled: Seq<ShapeView>, active: ShapeView, i: int)
    requires
        0 <= i < active.slices.len(),
        active.slices[i].y == RECT_LOWER_Y - 1,
    ensures
        blocked(settled, active, Direction::Down),
{
    assert(at_boundary(active.slices[i], Direction::Down));
}

/// A piece whose runs all stand two rows or more above the floor, and that
/// stands on no cell with an occupied cell right below it, can move down.
pub proof fn lemma_free_fall(settled: Seq<ShapeView>, active: ShapeView)
    requires
        forall|i: int| 0 <= i < active.slices.len() ==> (#[trigger] active.slices[i]).y <= RECT_LOWER_Y - 2,
        forall|x: int, y: int| #[trigger] active.covers(x, y) ==> !occupied(settled, x, y + 1),
    ensures
        !blocked(settled, active, Direction::Down),
{
    lemma_blocked_by_cells(settled, active, Direction::Down);
}

/// With nothing at rest, only the walls and the floor can block a move.
pub proof fn lemma_empty_field(active: ShapeView, d: Direction)
    ensures
        blocked(Seq::empty(), active, d) <==> exists|i: int|
            0 <= i < active.slices.len() && at_boundary(#[trigger] active.slices[i], d),
{
}

/// A piece that stands on a cell whose neighbour in the direction of the
/// move is occupied by a piece at rest cannot make the move: a cell right
/// below blocks the way down, a cell to the right the way right, a cell to
/// the left the way left, and a cell in the same place a rotation.
pub proof fn lemma_cell_blocks(
    settled: Seq<ShapeView>,
    active: ShapeView,
    d: Direction,
    x: int,
    y: int,
)
    requires
        active.covers(x, y),
        occupied(settled, x + d.dx(), y + d.dy()),
    ensures
        blocked(settled, active, d),
{
    lemma_blocked_by_cells(settled, active, d);
}

/// The contents of a sequence of pieces.
pub open spec fn shape_views(shapes: Seq<Shape>) -> Seq<ShapeView> {
    Seq::new(shapes.len(), |i: int| shapes[i]@)
}

/// Whether the run, moved in the direction, would leave the playfield.
pub fn hits_boundary(slice: &Slice, direction: Direction) -> (hit: bool)
    ensures
        hit == at_boundary(slice@, direction),
{
    let x = slice.x as i128;
    let y = slice.y as i128;
    let right = x + slice.width() as i128;
    match direction {
        Direction::Down => y + 1 >= RECT_LOWER_Y as i128,
        Direction::Left => x - 1 <= 0,
        Direction::Right => right >= RECT_LOWER_X as i128,
        Direction::Rotate => right - 1 >= RECT_LOWER_X as i128 || x <= 0 || y
            >= RECT_LOWER_Y as i128,
    }
}

/// Whether some cell of `a`, shifted in the direction, is a cell of `b`.
pub fn runs_meet(a: &Slice, b: &Slice, direction: Direction) -> (hit: bool)
    ensures
        hit == run_meets_run(a@, b@, direction),
{
    let (dx, dy): (i128, i128) = match direction {
        Direction::Down => (0, 1),
        Direction::Left => (-1, 0),
        Direction::Right => (1, 0),
        Direction::Rotate => (0, 0),
    };
    let wa = a.width();
    let wb = b.width();
    let from_a = a.x as i128 + dx;
    let from_b = b.x as i128;
    let hit = wa > 0 && wb > 0 && a.y as i128 + dy == b.y as i128 && from_a < from_b + wb as i128
        && from_b < from_a + wa as i128;
    proof {
        if hit {
            let z = if from_a >= from_b {
                from_a as int
            } else {
                from_b as int
            };
            let x = z - direction.dx();
            assert(a@.covers(x, a@.y) && b@.covers(x + direction.dx(), a@.y + direction.dy()));
        }
    }
    hit
}

/// Whether some cell of the run, shifted in the direction, is a cell of the piece.
pub fn run_hits_shape(a: &Slice, shape: &Shape, direction: Direction) -> (hit: bool)
    ensures
        hit == run_meets_shape(a@, shape@, direction),
{
    let n = shape.slices.len();
    let mut j: usize = 0;
    while j < n
        invariant
            n == shape.slices@.len(),
            j <= n,
            forall|k: int| 0 <= k < j ==> !run_meets_run(a@, #[trigger] shape@.slices[k], direction),
        decreases n - j,
    {
        if runs_meet(a, &shape.slices[j], direction) {
            assert(run_meets_run(a@, shape@.slices[j as int], direction));
            return true;
        }
        j += 1;
    }
    false
}

/// Whether some cell of the run, shifted in the direction, is a cell of one
/// of the pieces at rest.
pub fn run_hits_settled(a: &Slice, inactive_shapes: &Vec<Shape>, direction: Direction) -> (hit:
    bool)
    ensures
        hit == run_meets_settled(a@, shape_views(inactive_shapes@), direction),
{
    let ghost settled = shape_views(inactive_shapes@);
    let n = inactive_shapes.len();
    let mut k: usize = 0;
    while k < n
        invariant
            n == inactive_shapes@.len(),
            settled == shape_views(inactive_shapes@),
            k <= n,
            forall|m: int| 0 <= m < k ==> !run_meets_shape(a@, #[trigger] settled[m], direction),
        decreases n - k,
    {
        if run_hits_shape(a, &inactive_shapes[k], direction) {
            assert(run_meets_shape(a@, settled[k as int], direction));
            return true;
        }
        k += 1;
    }
    false
}

/// Whether the move of the active piece in the direction is blocked, by a
/// wall, by the floor or by a piece at rest. Neither the active piece nor
/// the pieces at rest are changed.
pub fn has_collision(inactive_shapes: &Vec<Shape>, active_shape: &Shape, direction: Direction) -> (hit:
    bool)
    ensures
        hit == blocked(shape_views(inactive_shapes@), active_shape@, direction),
{
    let ghost settled = shape_views(inactive_shapes@);
    let n = active_shape.slices.len();
    let mut i: usize = 0;
    while i < n
        invariant
            n == active_shape.slices@.len(),
            settled == shape_views(inactive_shapes@),
            i <= n,
            forall|m: int|
                0 <= m < i ==> !at_boundary(#[trigger] active_shape@.slices[m], direction)
                    && !run_meets_settled(active_shape@.slices[m], settled, direction),
        decreases n - i,
    {
        let slice = &active_shape.slices[i];
        assert(slice@ == active_shape@.slices[i as int]);
        if hits_boundary(slice, direction) {
            return true;
        }
        if run_hits_settled(slice, inactive_shapes, direction) {
            return true;
        }
        i += 1;
    }
    false
}

} // verus!
