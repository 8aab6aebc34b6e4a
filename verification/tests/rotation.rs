use tetromino::color::Color;
use tetromino::shape::{Shape, ShapeError};
use tetromino::slice::Slice;
use tetromino::{CELL_WIDTH, RECT_LOWER_X};

fn run(x: i32, y: i32, filling: &str) -> Slice {
    Slice::new(x, y, filling.to_string())
}

fn lines(rows: &[&str]) -> Vec<String> {
    rows.iter().map(|r| r.to_string()).collect()
}

fn left_edge(s: &Shape) -> i32 {
    s.slices.iter().map(|r| r.x).min().unwrap()
}

fn right_edge(s: &Shape) -> i32 {
    s.slices.iter().map(|r| r.x + r.width() as i32).max().unwrap()
}

#[test]
fn t_shape_turns_once() {
    let mut s = Shape::t_shape();
    let color = s.color;
    assert_eq!(s.rotate(), Ok(()));
    assert_eq!(s.slices, vec![run(5, 3, "##"), run(3, 4, "####"), run(5, 5, "##")]);
    assert_eq!(s.raw_slices, lines(&["  ##", "####", "  ##"]));
    assert_eq!(s.color, color);
}

#[test]
fn turned_t_shape_is_as_wide_as_it_was_high() {
    let mut s = Shape::t_shape();
    let rows_before = s.slices.len() as i32;
    let cells_before = (right_edge(&s) - left_edge(&s)) / CELL_WIDTH;
    s.rotate().unwrap();
    assert_eq!((right_edge(&s) - left_edge(&s)) / CELL_WIDTH, rows_before);
    assert_eq!(s.slices.len() as i32, cells_before);
    for r in &s.slices {
        assert!(r.x >= 0);
        assert!(r.x + r.width() as i32 <= RECT_LOWER_X);
    }
}

#[test]
fn t_shape_turns_four_times() {
    let mut s = Shape::t_shape();
    s.rotate().unwrap();
    s.rotate().unwrap();
    assert_eq!(s.slices, vec![run(5, 3, "##"), run(3, 4, "######")]);
    assert_eq!(s.raw_slices, lines(&["  ##  ", "######"]));
    s.rotate().unwrap();
    assert_eq!(s.slices, vec![run(3, 3, "##"), run(3, 4, "####"), run(3, 5, "##")]);
    s.rotate().unwrap();
    assert_eq!(s.slices, Shape::t_shape().slices);
    assert_eq!(s.raw_slices, Shape::t_shape().raw_slices);
}

#[test]
fn bar_stands_up_and_lies_down() {
    let mut s = Shape::bar();
    s.rotate().unwrap();
    assert_eq!(s.slices, vec![run(3, 3, "##"), run(3, 4, "##"), run(3, 5, "##"), run(3, 6, "##")]);
    assert_eq!(s.raw_slices, lines(&["##", "##", "##", "##"]));
    s.rotate().unwrap();
    assert_eq!(s.slices, vec![run(3, 3, "########")]);
    assert_eq!(s.raw_slices, lines(&["########"]));
}

#[test]
fn bar_is_back_after_four_turns() {
    let mut s = Shape::from_template("########", 11, 17, Color::Red).unwrap();
    for _ in 0..4 {
        s.rotate().unwrap();
    }
    assert_eq!(s, Shape::from_template("########", 11, 17, Color::Red).unwrap());
}

#[test]
fn cube_is_back_after_every_turn() {
    let mut s = Shape::from_template("####\n####", 9, 2, Color::Blue).unwrap();
    for _ in 0..4 {
        s.rotate().unwrap();
        assert_eq!(s, Shape::from_template("####\n####", 9, 2, Color::Blue).unwrap());
    }
}

#[test]
fn every_canonical_piece_is_back_after_four_turns() {
    for i in 0..tetromino::tetrominoes::SHAPE_COUNT {
        let mut s = Shape::canonical(i);
        let before = s.clone();
        for _ in 0..4 {
            s.rotate().unwrap();
            assert_eq!(s.slices.iter().map(|r| r.width()).sum::<usize>(), 8);
        }
        assert_eq!(s, before);
    }
}

#[test]
fn s_shape_turns_once() {
    let mut s = Shape::s_shape();
    s.rotate().unwrap();
    assert_eq!(s.slices, vec![run(3, 3, "##"), run(3, 4, "####"), run(5, 5, "##")]);
    assert_eq!(s.raw_slices, lines(&["##  ", "####", "  ##"]));
}

#[test]
fn l_shape_turns_once() {
    let mut s = Shape::l_shape();
    s.rotate().unwrap();
    assert_eq!(s.slices, vec![run(3, 3, "####"), run(5, 4, "##"), run(5, 5, "##")]);
    assert_eq!(s.raw_slices, lines(&["####", "  ##", "  ##"]));
}

#[test]
fn rotated_leaves_the_piece_as_it_is() {
    let s = Shape::t_shape();
    let turned = s.rotated().unwrap();
    assert_eq!(s.slices, vec![run(3, 3, "######"), run(5, 4, "##")]);
    assert_eq!(turned.slices, vec![run(5, 3, "##"), run(3, 4, "####"), run(5, 5, "##")]);
    assert_eq!(turned.color, s.color);
}

#[test]
fn piece_past_the_right_wall_is_pushed_back() {
    let mut s = Shape::from_template("##\n##\n##\n##", 29, 3, Color::Red).unwrap();
    s.rotate().unwrap();
    assert_eq!(s.slices, vec![run(23, 3, "########")]);
    assert_eq!(s.slices[0].x + s.slices[0].width() as i32, RECT_LOWER_X);
}

#[test]
fn piece_that_ends_at_the_right_wall_stays() {
    let mut s = Shape::from_template("##\n##\n##\n##", 23, 3, Color::Red).unwrap();
    s.rotate().unwrap();
    assert_eq!(s.slices, vec![run(23, 3, "########")]);
}

#[test]
fn push_back_goes_by_the_first_run_that_reaches_the_wall() {
    let mut s = Shape::from_template("####\n##  \n##  ", 27, 3, Color::Red).unwrap();
    s.rotate().unwrap();
    assert_eq!(s.raw_slices, lines(&["######", "    ##"]));
    assert_eq!(s.slices, vec![run(25, 3, "######"), run(29, 4, "##")]);
}

#[test]
fn push_back_counts_whole_cells_only() {
    let mut s = Shape::from_template("##\n##", 28, 3, Color::Red).unwrap();
    s.rotate().unwrap();
    assert_eq!(s.slices, vec![run(28, 3, "####")]);
    let mut t = Shape::from_template("##\n##\n##", 28, 3, Color::Red).unwrap();
    t.rotate().unwrap();
    assert_eq!(t.slices, vec![run(26, 3, "######")]);
}

#[test]
fn piece_less_than_a_cell_wide_cannot_turn() {
    let mut s = Shape::from_template("#\n#", 5, 5, Color::Red).unwrap();
    let before = s.clone();
    assert_eq!(s.rotate(), Err(ShapeError::EmptyLayout));
    assert_eq!(s, before);
    assert_eq!(before.rotated(), Err(ShapeError::EmptyLayout));
}

#[test]
fn piece_without_runs_cannot_turn() {
    let mut s = Shape { slices: Vec::new(), raw_slices: Vec::new(), color: Color::Red };
    assert_eq!(s.rotate(), Err(ShapeError::EmptyLayout));
    assert_eq!(s.slices.len(), 0);
}

#[test]
fn turn_that_leaves_a_row_empty_is_refused() {
    let mut s = Shape::from_template("##  ##", 5, 5, Color::Red).unwrap();
    let before = s.clone();
    assert_eq!(s.rotate(), Err(ShapeError::EmptyRow));
    assert_eq!(s, before);
}

#[test]
fn turn_of_a_piece_cut_from_indented_rows_reads_the_rows_from_their_first_column() {
    let mut s = Shape::from_template("  ##\n  ##", 5, 5, Color::Red).unwrap();
    assert_eq!(s.slices, vec![run(7, 5, "##"), run(7, 6, "##")]);
    assert_eq!(s.rotate(), Err(ShapeError::EmptyRow));
}

#[test]
fn turn_past_the_last_row_is_refused() {
    let mut s = Shape::from_template("####", 5, i32::MAX, Color::Red).unwrap();
    let before = s.clone();
    assert_eq!(s.rotate(), Err(ShapeError::OutOfRange));
    assert_eq!(s, before);
}

#[test]
fn push_back_takes_a_piece_from_far_right_to_the_wall() {
    let mut s = Shape::from_template("##", i32::MAX - 2, 0, Color::Red).unwrap();
    s.rotate().unwrap();
    assert_eq!(s.slices, vec![run(29, 0, "##")]);
    let mut t = Shape::from_template("##", i32::MAX - 3, 0, Color::Red).unwrap();
    t.rotate().unwrap();
    assert_eq!(t.slices, vec![run(30, 0, "##")]);
}

#[test]
fn rows_of_unequal_length_are_read_as_far_as_they_reach() {
    let mut s = Shape::from_template("####\n##", 3, 3, Color::Red).unwrap();
    s.rotate().unwrap();
    assert_eq!(s.raw_slices, lines(&["####", "##"]));
    assert_eq!(s.slices, vec![run(3, 3, "####"), run(3, 4, "##")]);
}
