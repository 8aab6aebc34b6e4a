//! The seven canonical pieces and the random choice among them.

use crate::color::{palette_colors, Color};
use crate::grid::{cell_row, cell_rows, gridded, inside, lemma_layout_gridded};
use crate::random::draw_below;
use crate::rotation::{
    block_at, closest_x, closest_x_of, furthest_x, furthest_x_of, lemma_turn, rotated_row,
    rotation, stacked, turns, width_in_cells,
};
use crate::shape::{all_rows_occupied, build_error, layout, Shape, ShapeError, ShapeView};
use crate::slice::SliceView;
use crate::text::{
    first_block, has_block, has_break, lemma_block_bounds, lemma_first_block_is,
    lemma_last_block_is, lemma_rows_append, lemma_rows_single, rows, trimmed, BLOCK, ROW_BREAK,
};
use crate::{RECT_LOWER_X, RECT_LOWER_Y, SPAWN_X, SPAWN_Y};
use rand::rngs::ThreadRng;
use vstd::pervasive::unreached;
use vstd::prelude::*;
use vstd::string::*;

verus! {

/// Number of canonical pieces.
pub const SHAPE_COUNT: i32 = 7;

/// The template of the canonical piece with the given number: the bar, the
/// cube, the Z, the S, the L, the J and the T, in this order. Two
/// characters make one cell.
pub open spec fn template(index: int) -> Seq<char> {
    if index == 0 {
        "########"@
    } else if index == 1 {
        "####\n####"@
    } else if index == 2 {
        "####  \n  ####"@
    } else if index == 3 {
        "  ####\n####  "@
    } else if index == 4 {
        "######\n##    "@
    } else if index == 5 {
        "######\n    ##"@
    } else {
        "######\n  ##  "@
    }
}

/// Whether `v` is the piece cut from the template at the spawn position, in
/// a color of the palette.
pub open spec fn spawned(v: ShapeView, template: Seq<char>) -> bool {
    &&& v == layout(rows(template), SPAWN_X as int, SPAWN_Y as int, v.color)
    &&& palette_colors().contains(v.color)
    &&& v.wf()
}

/// Whether `v` is one of the seven canonical pieces at the spawn position.
pub open spec fn canonical_piece(v: ShapeView) -> bool {
    exists|index: int| 0 <= index < SHAPE_COUNT && spawned(v, #[trigger] template(index))
}

/// A row whose occupied columns are known: where its run starts and what
/// the run holds.
proof fn lemma_run(row: Seq<char>, first: int, last: int)
    requires
        0 <= first <= last < row.len(),
        row[first] == BLOCK,
        row[last] == BLOCK,
        forall|j: int| 0 <= j < first ==> row[j] != BLOCK,
        forall|j: int| last < j < row.len() ==> row[j] != BLOCK,
    ensures
        has_block(row),
        first_block(row) == first,
        trimmed(row) == row.subrange(first, last + 1),
{
    lemma_first_block_is(row, first);
    lemma_last_block_is(row, last);
}

/// A template of two rows.
proof fn lemma_two_rows(t: Seq<char>, upper: Seq<char>, lower: Seq<char>)
    requires
        t == upper + seq![ROW_BREAK] + lower,
        !has_break(upper),
        !has_break(lower),
    ensures
        rows(t) == seq![upper, lower],
{
    lemma_rows_single(upper);
    lemma_rows_append(upper, lower);
    assert(seq![upper].push(lower) =~= seq![upper, lower]);
}

/// A piece of one row at the spawn position.
proof fn lemma_one_row_piece(t: Seq<char>, first: int, last: int)
    requires
        !has_break(t),
        0 <= first <= last < t.len(),
        SPAWN_X + t.len() <= i32::MAX,
        t[first] == BLOCK,
        t[last] == BLOCK,
        forall|j: int| 0 <= j < first ==> t[j] != BLOCK,
        forall|j: int| last < j < t.len() ==> t[j] != BLOCK,
    ensures
        rows(t) == seq![t],
        build_error(rows(t), SPAWN_X as int, SPAWN_Y as int) is None,
        forall|c: Color|
            (#[trigger] layout(rows(t), SPAWN_X as int, SPAWN_Y as int, c)).slices == seq![
                SliceView { x: SPAWN_X + first, y: SPAWN_Y as int, filling: t.subrange(first, last + 1) },
            ],
{
    lemma_rows_single(t);
    lemma_run(t, first, last);
    let r = rows(t);
    assert(all_rows_occupied(r));
    assert forall|c: Color|
        (#[trigger] layout(r, SPAWN_X as int, SPAWN_Y as int, c)).slices == seq![
            SliceView { x: SPAWN_X + first, y: SPAWN_Y as int, filling: t.subrange(first, last + 1) },
        ] by {
        assert(layout(r, SPAWN_X as int, SPAWN_Y as int, c).slices =~= seq![
            SliceView { x: SPAWN_X + first, y: SPAWN_Y as int, filling: t.subrange(first, last + 1) },
        ]);
    }
}

/// A piece of two rows at the spawn position.
proof fn lemma_two_row_piece(
    t: Seq<char>,
    upper: Seq<char>,
    lower: Seq<char>,
    first0: int,
    last0: int,
    first1: int,
    last1: int,
)
    requires
        t == upper + seq![ROW_BREAK] + lower,
        !has_break(upper),
        !has_break(lower),
        0 <= first0 <= last0 < upper.len(),
        SPAWN_X + upper.len() <= i32::MAX,
        upper[first0] == BLOCK,
        upper[last0] == BLOCK,
        forall|j: int| 0 <= j < first0 ==> upper[j] != BLOCK,
        forall|j: int| last0 < j < upper.len() ==> upper[j] != BLOCK,
        0 <= first1 <= last1 < lower.len(),
        SPAWN_X + lower.len() <= i32::MAX,
        lower[first1] == BLOCK,
        lower[last1] == BLOCK,
        forall|j: int| 0 <= j < first1 ==> lower[j] != BLOCK,
        forall|j: int| last1 < j < lower.len() ==> lower[j] != BLOCK,
    ensures
        rows(t) == seq![upper, lower],
        build_error(rows(t), SPAWN_X as int, SPAWN_Y as int) is None,
        forall|c: Color|
            (#[trigger] layout(rows(t), SPAWN_X as int, SPAWN_Y as int, c)).slices == seq![
                SliceView {
                    x: SPAWN_X + first0,
                    y: SPAWN_Y as int,
                    filling: upper.subrange(first0, last0 + 1),
                },
                SliceView {
                    x: SPAWN_X + first1,
                    y: SPAWN_Y + 1,
                    filling: lower.subrange(first1, last1 + 1),
                },
            ],
{
    lemma_two_rows(t, upper, lower);
    lemma_run(upper, first0, last0);
    lemma_run(lower, first1, last1);
    let r = rows(t);
    assert(all_rows_occupied(r));
    assert forall|c: Color|
        (#[trigger] layout(r, SPAWN_X as int, SPAWN_Y as int, c)).slices == seq![
            SliceView {
                x: SPAWN_X + first0,
                y: SPAWN_Y as int,
                filling: upper.subrange(first0, last0 + 1),
            },
            SliceView {
                x: SPAWN_X + first1,
                y: SPAWN_Y + 1,
                filling: lower.subrange(first1, last1 + 1),
            },
        ] by {
        assert(layout(r, SPAWN_X as int, SPAWN_Y as int, c).slices =~= seq![
            SliceView {
                x: SPAWN_X + first0,
                y: SPAWN_Y as int,
                filling: upper.subrange(first0, last0 + 1),
            },
            SliceView {
                x: SPAWN_X + first1,
                y: SPAWN_Y + 1,
                filling: lower.subrange(first1, last1 + 1),
            },
        ]);
    }
}

/// A piece cut at the spawn position from rows made of whole cells that
/// reach no further than the right wall stands on the cell grid, between
/// the walls and above the floor, with its first run on the spawn row.
proof fn lemma_spawn_on_field(r: Seq<Seq<char>>, color: Color)
    requires
        1 <= r.len() <= 2,
        all_rows_occupied(r),
        cell_rows(r),
        forall|i: int| 0 <= i < r.len() ==> SPAWN_X + (#[trigger] r[i]).len() <= RECT_LOWER_X,
    ensures
        gridded(layout(r, SPAWN_X as int, SPAWN_Y as int, color)),
        inside(layout(r, SPAWN_X as int, SPAWN_Y as int, color)),
        layout(r, SPAWN_X as int, SPAWN_Y as int, color).slices[0].y == SPAWN_Y,
{
    let v = layout(r, SPAWN_X as int, SPAWN_Y as int, color);
    lemma_layout_gridded(r, SPAWN_X as int, SPAWN_Y as int, color);
    assert forall|i: int| 0 <= i < v.slices.len() implies {
        &&& 0 < (#[trigger] v.slices[i]).x
        &&& v.slices[i].right() <= RECT_LOWER_X
        &&& v.slices[i].y < RECT_LOWER_Y
    } by {
        assert(has_block(r[i]));
        lemma_block_bounds(r[i]);
        assert(SPAWN_X + r[i].len() <= RECT_LOWER_X);
    }
}

/// Every canonical piece, as it starts to fall, stands on the cell grid,
/// between the walls and above the floor, with its first run on the spawn
/// row.
pub proof fn lemma_canonical_on_field(v: ShapeView)
    requires
        canonical_piece(v),
    ensures
        gridded(v),
        inside(v),
        v.slices[0].y == SPAWN_Y,
{
    let index = choose|index: int| 0 <= index < SHAPE_COUNT && spawned(v, #[trigger] template(index));
    let t = template(index);
    reveal_strlit("########");
    reveal_strlit("######");
    reveal_strlit("####");
    reveal_strlit("####  ");
    reveal_strlit("  ####");
    reveal_strlit("##    ");
    reveal_strlit("    ##");
    reveal_strlit("  ##  ");
    if index == 0 {
        lemma_rows_single(t);
        lemma_run(t, 0, 7);
        assert(cell_row(t));
    } else {
        let (upper, lower) = if index == 1 {
            reveal_strlit("####\n####");
            ("####"@, "####"@)
        } else if index == 2 {
            reveal_strlit("####  \n  ####");
            ("####  "@, "  ####"@)
        } else if index == 3 {
            reveal_strlit("  ####\n####  ");
            ("  ####"@, "####  "@)
        } else if index == 4 {
            reveal_strlit("######\n##    ");
            ("######"@, "##    "@)
        } else if index == 5 {
            reveal_strlit("######\n    ##");
            ("######"@, "    ##"@)
        } else {
            reveal_strlit("######\n  ##  ");
            ("######"@, "  ##  "@)
        };
        assert(t =~= upper + seq![ROW_BREAK] + lower);
        lemma_two_rows(t, upper, lower);
        assert(has_block(upper)) by {
            assert(upper[0] == BLOCK || upper[2] == BLOCK);
        }
        assert(has_block(lower)) by {
            assert(lower[0] == BLOCK || lower[2] == BLOCK || lower[4] == BLOCK);
        }
        assert(cell_row(upper));
        assert(cell_row(lower));
    }
    lemma_spawn_on_field(rows(t), v.color);
}

/// A quarter turn of the bar lying flat, clear of the right wall, stands it
/// up at its left end.
proof fn lemma_bar_stands_up(x: int, y: int, color: Color)
    requires
        i32::MIN <= x,
        x + 8 <= RECT_LOWER_X,
        i32::MIN <= y,
        y + 3 <= i32::MAX,
    ensures
        rotation(layout(seq!["########"@], x, y, color)) == Ok::<ShapeView, ShapeError>(
            layout(seq!["##"@, "##"@, "##"@, "##"@], x, y, color),
        ),
{
    reveal_strlit("########");
    reveal_strlit("##");
    let long = "########"@;
    let cell = "##"@;
    let flat = seq![long];
    let tall = seq![cell, cell, cell, cell];
    lemma_run(long, 0, 7);
    lemma_run(cell, 0, 1);
    assert(long.subrange(0, 8) =~= long);
    assert(cell.subrange(0, 2) =~= cell);
    let lying = layout(flat, x, y, color);
    let standing = layout(tall, x, y, color);
    assert(lying.slices[0] == SliceView { x: x, y: y, filling: long });
    assert(closest_x(lying.slices) == x);
    assert(furthest_x(lying.slices) == x + 8);
    assert(width_in_cells(lying.slices) == 4);
    assert forall|k: int| 0 <= k < tall.len() implies #[trigger] tall[k] == rotated_row(flat, k) by {
        reveal_with_fuel(stacked, 2);
        assert(block_at(long, k) =~= cell);
        assert(rotated_row(flat, k) =~= cell);
    }
    assert(all_rows_occupied(tall));
    assert forall|j: int| 0 <= j < tall.len() implies (#[trigger] standing.slices[j]) == (SliceView {
        x: x,
        y: y + j,
        filling: cell,
    }) by {}
    lemma_turn(lying, tall);
}

/// A quarter turn of the bar standing up, clear of the right wall, lays it
/// flat, with its left end where the bar stood.
proof fn lemma_bar_lies_down(x: int, y: int, color: Color)
    requires
        i32::MIN <= x,
        x + 8 <= RECT_LOWER_X,
        i32::MIN <= y,
        y + 3 <= i32::MAX,
    ensures
        rotation(layout(seq!["##"@, "##"@, "##"@, "##"@], x, y, color)) == Ok::<
            ShapeView,
            ShapeError,
        >(layout(seq!["########"@], x, y, color)),
{
    reveal_strlit("########");
    reveal_strlit("##");
    let long = "########"@;
    let cell = "##"@;
    let flat = seq![long];
    let tall = seq![cell, cell, cell, cell];
    lemma_run(long, 0, 7);
    lemma_run(cell, 0, 1);
    assert(long.subrange(0, 8) =~= long);
    assert(cell.subrange(0, 2) =~= cell);
    let lying = layout(flat, x, y, color);
    let standing = layout(tall, x, y, color);
    assert forall|j: int| 0 <= j < tall.len() implies (#[trigger] standing.slices[j]) == (SliceView {
        x: x,
        y: y + j,
        filling: cell,
    }) by {}
    assert(standing.slices[0].x == x && standing.slices[1].x == x && standing.slices[2].x == x
        && standing.slices[3].x == x);
    assert(standing.slices[0].right() == x + 2 && standing.slices[1].right() == x + 2
        && standing.slices[2].right() == x + 2 && standing.slices[3].right() == x + 2);
    assert(closest_x(standing.slices) == x) by {
        reveal_with_fuel(closest_x_of, 4);
    }
    assert(furthest_x(standing.slices) == x + 2) by {
        reveal_with_fuel(furthest_x_of, 4);
    }
    assert(width_in_cells(standing.slices) == 1);
    assert(block_at(cell, 0) =~= cell);
    assert(stacked(tall, 0, 1) =~= cell) by {
        reveal_with_fuel(stacked, 2);
    }
    assert(stacked(tall, 0, 2) =~= cell + cell);
    assert(stacked(tall, 0, 3) =~= cell + cell + cell);
    assert(stacked(tall, 0, 4) =~= long);
    assert(flat[0] == rotated_row(tall, 0));
    assert(all_rows_occupied(flat));
    assert(lying.slices[0] == SliceView { x: x, y: y, filling: long });
    lemma_turn(standing, flat);
}

/// Two quarter turns, and therefore four, of the bar lying flat and clear
/// of the right wall put every run of it back where it was.
pub proof fn lemma_bar_four_turns(x: int, y: int, color: Color)
    requires
        i32::MIN <= x,
        x + 8 <= RECT_LOWER_X,
        i32::MIN <= y,
        y + 3 <= i32::MAX,
    ensures
        turns(layout(rows(template(0)), x, y, color), 2) == Ok::<ShapeView, ShapeError>(
            layout(rows(template(0)), x, y, color),
        ),
        turns(layout(rows(template(0)), x, y, color), 4) == Ok::<ShapeView, ShapeError>(
            layout(rows(template(0)), x, y, color),
        ),
{
    reveal_strlit("########");
    lemma_rows_single("########"@);
    lemma_bar_stands_up(x, y, color);
    lemma_bar_lies_down(x, y, color);
    let lying = layout(seq!["########"@], x, y, color);
    let standing = layout(seq!["##"@, "##"@, "##"@, "##"@], x, y, color);
    assert(turns(lying, 0) == Ok::<ShapeView, ShapeError>(lying));
    assert(turns(lying, 1) == Ok::<ShapeView, ShapeError>(standing));
    assert(turns(lying, 2) == Ok::<ShapeView, ShapeError>(lying));
    assert(turns(lying, 3) == Ok::<ShapeView, ShapeError>(standing));
    assert(turns(lying, 4) == Ok::<ShapeView, ShapeError>(lying));
}

/// A quarter turn of the cube, clear of the right wall, leaves every run of
/// it where it was; so do four of them.
pub proof fn lemma_cube_four_turns(x: int, y: int, color: Color)
    requires
        i32::MIN <= x,
        x + 4 <= RECT_LOWER_X,
        i32::MIN <= y,
        y + 1 <= i32::MAX,
    ensures
        rotation(layout(rows(template(1)), x, y, color)) == Ok::<ShapeView, ShapeError>(
            layout(rows(template(1)), x, y, color),
        ),
        turns(layout(rows(template(1)), x, y, color), 4) == Ok::<ShapeView, ShapeError>(
            layout(rows(template(1)), x, y, color),
        ),
{
    reveal_strlit("####\n####");
    reveal_strlit("####");
    let t = "####\n####"@;
    let row = "####"@;
    let square = seq![row, row];
    assert(t =~= row + seq![ROW_BREAK] + row);
    lemma_two_rows(t, row, row);
    lemma_run(row, 0, 3);
    assert(row.subrange(0, 4) =~= row);
    let cube = layout(square, x, y, color);
    assert forall|j: int| 0 <= j < square.len() implies (#[trigger] cube.slices[j]) == (SliceView {
        x: x,
        y: y + j,
        filling: row,
    }) by {}
    assert(closest_x(cube.slices) == x) by {
        reveal_with_fuel(closest_x_of, 2);
    }
    assert(furthest_x(cube.slices) == x + 4) by {
        reveal_with_fuel(furthest_x_of, 2);
    }
    assert(width_in_cells(cube.slices) == 2);
    assert forall|k: int| 0 <= k < square.len() implies #[trigger] square[k] == rotated_row(
        square,
        k,
    ) by {
        reveal_with_fuel(stacked, 3);
        assert(block_at(row, k).len() == 2);
        assert(rotated_row(square, k) =~= row);
    }
    assert(all_rows_occupied(square));
    lemma_turn(cube, square);
    reveal_with_fuel(turns, 5);
}

impl Shape {
    /// The bar: one row of four cells.
    pub fn bar() -> (s: Shape)
        ensures
            spawned(s@, template(0)),
            s@.raw_slices == seq!["########"@],
            s@.slices == seq![SliceView { x: 3, y: 3, filling: "########"@ }],
    {
        proof {
            reveal_strlit("########");
            let t = "########"@;
            lemma_one_row_piece(t, 0, 7);
            assert(t.subrange(0, 8) =~= t);
        }
        match Shape::new("########") {
            Ok(s) => s,
            Err(_) => unreached(),
        }
    }

    /// The cube: two rows of two cells.
    pub fn cube() -> (s: Shape)
        ensures
            spawned(s@, template(1)),
            s@.raw_slices == seq!["####"@, "####"@],
            s@.slices == seq![
                SliceView { x: 3, y: 3, filling: "####"@ },
                SliceView { x: 3, y: 4, filling: "####"@ },
            ],
    {
        proof {
            reveal_strlit("####\n####");
            reveal_strlit("####");
            let t = "####\n####"@;
            let row = "####"@;
            assert(t =~= row + seq![ROW_BREAK] + row);
            lemma_two_row_piece(t, row, row, 0, 3, 0, 3);
            assert(row.subrange(0, 4) =~= row);
        }
        match Shape::new("####\n####") {
            Ok(s) => s,
            Err(_) => unreached(),
        }
    }

    /// The Z: two cells, and two more one cell to the right on the row below.
    pub fn z_shape() -> (s: Shape)
        ensures
            spawned(s@, template(2)),
            s@.raw_slices == seq!["####  "@, "  ####"@],
            s@.slices == seq![
                SliceView { x: 3, y: 3, filling: "####"@ },
                SliceView { x: 5, y: 4, filling: "####"@ },
            ],
    {
        proof {
            reveal_strlit("####  \n  ####");
            reveal_strlit("####  ");
            reveal_strlit("  ####");
            reveal_strlit("####");
            let t = "####  \n  ####"@;
            let upper = "####  "@;
            let lower = "  ####"@;
            assert(t =~= upper + seq![ROW_BREAK] + lower);
            lemma_two_row_piece(t, upper, lower, 0, 3, 2, 5);
            assert(upper.subrange(0, 4) =~= "####"@);
            assert(lower.subrange(2, 6) =~= "####"@);
        }
        match Shape::new("####  \n  ####") {
            Ok(s) => s,
            Err(_) => unreached(),
        }
    }

    /// The S: two cells one cell in, and two more on the row below.
    pub fn s_shape() -> (s: Shape)
        ensures
            spawned(s@, template(3)),
            s@.raw_slices == seq!["  ####"@, "####  "@],
            s@.slices == seq![
                SliceView { x: 5, y: 3, filling: "####"@ },
                SliceView { x: 3, y: 4, filling: "####"@ },
            ],
    {
        proof {
            reveal_strlit("  ####\n####  ");
            reveal_strlit("####  ");
            reveal_strlit("  ####");
            reveal_strlit("####");
            let t = "  ####\n####  "@;
            let upper = "  ####"@;
            let lower = "####  "@;
            assert(t =~= upper + seq![ROW_BREAK] + lower);
            lemma_two_row_piece(t, upper, lower, 2, 5, 0, 3);
            assert(upper.subrange(2, 6) =~= "####"@);
            assert(lower.subrange(0, 4) =~= "####"@);
        }
        match Shape::new("  ####\n####  ") {
            Ok(s) => s,
            Err(_) => unreached(),
        }
    }

    /// The L: three cells, and one more below the first.
    pub fn l_shape() -> (s: Shape)
        ensures
            spawned(s@, template(4)),
            s@.raw_slices == seq!["######"@, "##    "@],
            s@.slices == seq![
                SliceView { x: 3, y: 3, filling: "######"@ },
                SliceView { x: 3, y: 4, filling: "##"@ },
            ],
    {
        proof {
            reveal_strlit("######\n##    ");
            reveal_strlit("######");
            reveal_strlit("##    ");
            reveal_strlit("##");
            let t = "######\n##    "@;
            let upper = "######"@;
            let lower = "##    "@;
            assert(t =~= upper + seq![ROW_BREAK] + lower);
            lemma_two_row_piece(t, upper, lower, 0, 5, 0, 1);
            assert(upper.subrange(0, 6) =~= upper);
            assert(lower.subrange(0, 2) =~= "##"@);
        }
        match Shape::new("######\n##    ") {
            Ok(s) => s,
            Err(_) => unreached(),
        }
    }

    /// The J: three cells, and one more below the last.
    pub fn j_shape() -> (s: Shape)
        ensures
            spawned(s@, template(5)),
            s@.raw_slices == seq!["######"@, "    ##"@],
            s@.slices == seq![
                SliceView { x: 3, y: 3, filling: "######"@ },
                SliceView { x: 7, y: 4, filling: "##"@ },
            ],
    {
        proof {
            reveal_strlit("######\n    ##");
            reveal_strlit("######");
            reveal_strlit("    ##");
            reveal_strlit("##");
            let t = "######\n    ##"@;
            let upper = "######"@;
            let lower = "    ##"@;
            assert(t =~= upper + seq![ROW_BREAK] + lower);
            lemma_two_row_piece(t, upper, lower, 0, 5, 4, 5);
            assert(upper.subrange(0, 6) =~= upper);
            assert(lower.subrange(4, 6) =~= "##"@);
        }
        match Shape::new("######\n    ##") {
            Ok(s) => s,
            Err(_) => unreached(),
        }
    }

    /// The T: three cells, and one more below the middle one.
    pub fn t_shape() -> (s: Shape)
        ensures
            spawned(s@, template(6)),
            s@.raw_slices == seq!["######"@, "  ##  "@],
            s@.slices == seq![
                SliceView { x: 3, y: 3, filling: "######"@ },
                SliceView { x: 5, y: 4, filling: "##"@ },
            ],
    {
        proof {
            reveal_strlit("######\n  ##  ");
            reveal_strlit("######");
            reveal_strlit("  ##  ");
            reveal_strlit("##");
            let t = "######\n  ##  "@;
            let upper = "######"@;
            let lower = "  ##  "@;
            assert(t =~= upper + seq![ROW_BREAK] + lower);
            lemma_two_row_piece(t, upper, lower, 0, 5, 2, 3);
            assert(upper.subrange(0, 6) =~= upper);
            assert(lower.subrange(2, 4) =~= "##"@);
        }
        match Shape::new("######\n  ##  ") {
            Ok(s) => s,
            Err(_) => unreached(),
        }
    }

    /// The canonical piece with the given number, at the spawn position and
    /// in a color drawn at random.
    pub fn canonical(index: i32) -> (s: Shape)
        requires
            0 <= index < SHAPE_COUNT,
        ensures
            spawned(s@, template(index as int)),
    {
        if index == 0 {
            Shape::bar()
        } else if index == 1 {
            Shape::cube()
        } else if index == 2 {
            Shape::z_shape()
        } else if index == 3 {
            Shape::s_shape()
        } else if index == 4 {
            Shape::l_shape()
        } else if index == 5 {
            Shape::j_shape()
        } else {
            Shape::t_shape()
        }
    }

    /// One of the seven canonical pieces, drawn at random, at the spawn
    /// position and in a color drawn at random.
    pub fn random_shape(rng: &mut ThreadRng) -> (s: Shape)
        ensures
            canonical_piece(s@),
    {
        let index = draw_below(rng, SHAPE_COUNT);
        let s = Shape::canonical(index);
        assert(spawned(s@, template(index as int)));
        s
    }
}

} // verus!
