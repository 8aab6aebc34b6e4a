use tetromino::collision::{
    has_collision, hits_boundary, run_hits_settled, run_hits_shape, runs_meet, Direction,
    UnknownDirection,
};
use tetromino::color::Color;
use tetromino::shape::Shape;
use tetromino::slice::Slice;
use tetromino::text::same_text;
use tetromino::{RECT_LOWER_X, RECT_LOWER_Y};

fn run(x: i32, y: i32, filling: &str) -> Slice {
    Slice::new(x, y, filling.to_string())
}

fn piece(template: &str, x: i32, y: i32) -> Shape {
    Shape::from_template(template, x, y, Color::Red).unwrap()
}

#[test]
fn tags_name_the_four_directions() {
    assert_eq!(Direction::from_tag("y+"), Ok(Direction::Down));
    assert_eq!(Direction::from_tag("x-"), Ok(Direction::Left));
    assert_eq!(Direction::from_tag("x+"), Ok(Direction::Right));
    assert_eq!(Direction::from_tag("rotate"), Ok(Direction::Rotate));
}

#[test]
fn unknown_tags_name_no_direction() {
    assert_eq!(Direction::from_tag("y-"), Err(UnknownDirection));
    assert_eq!(Direction::from_tag(""), Err(UnknownDirection));
    assert_eq!(Direction::from_tag("x"), Err(UnknownDirection));
    assert_eq!(Direction::from_tag("x+ "), Err(UnknownDirection));
    assert_eq!(Direction::from_tag("Rotate"), Err(UnknownDirection));
    assert_eq!(Direction::from_tag("down"), Err(UnknownDirection));
}

#[test]
fn same_text_compares_character_by_character() {
    assert!(same_text("rotate", "rotate"));
    assert!(same_text("", ""));
    assert!(!same_text("rotate", "rotatE"));
    assert!(!same_text("x+", "x"));
    assert!(!same_text("x", "x+"));
}

#[test]
fn piece_on_the_row_above_the_floor_cannot_fall() {
    let settled: Vec<Shape> = Vec::new();
    let active = piece("####", 5, RECT_LOWER_Y - 1);
    assert!(has_collision(&settled, &active, Direction::Down));
}

#[test]
fn piece_two_rows_above_the_floor_can_fall() {
    let settled: Vec<Shape> = Vec::new();
    let active = piece("####", 5, RECT_LOWER_Y - 2);
    assert!(!has_collision(&settled, &active, Direction::Down));
}

#[test]
fn lowest_run_decides_whether_a_piece_can_fall() {
    let settled: Vec<Shape> = Vec::new();
    assert!(has_collision(&settled, &piece("####\n####", 5, RECT_LOWER_Y - 2), Direction::Down));
    assert!(!has_collision(&settled, &piece("####\n####", 5, RECT_LOWER_Y - 3), Direction::Down));
}

#[test]
fn cell_at_rest_right_below_blocks_the_fall() {
    let settled = vec![piece("#", 5, 10)];
    let active = piece("#", 5, 9);
    assert!(has_collision(&settled, &active, Direction::Down));
    assert!(!has_collision(&settled, &piece("#", 6, 9), Direction::Down));
    assert!(!has_collision(&settled, &piece("#", 4, 9), Direction::Down));
    assert!(!has_collision(&settled, &piece("#", 5, 8), Direction::Down));
}

#[test]
fn cell_at_rest_to_the_right_blocks_the_move_right() {
    let settled = vec![piece("#", 5, 10)];
    let active = piece("#", 4, 10);
    assert!(has_collision(&settled, &active, Direction::Right));
    assert!(!has_collision(&settled, &active, Direction::Left));
    assert!(!has_collision(&settled, &active, Direction::Down));
    assert!(!has_collision(&settled, &piece("#", 3, 10), Direction::Right));
    assert!(!has_collision(&settled, &piece("#", 4, 9), Direction::Right));
}

#[test]
fn cell_at_rest_to_the_left_blocks_the_move_left() {
    let settled = vec![piece("#", 5, 10)];
    let active = piece("#", 6, 10);
    assert!(has_collision(&settled, &active, Direction::Left));
    assert!(!has_collision(&settled, &active, Direction::Right));
    assert!(!has_collision(&settled, &piece("#", 7, 10), Direction::Left));
}

#[test]
fn cell_at_rest_in_the_same_place_blocks_a_rotation() {
    let settled = vec![piece("#", 5, 10)];
    assert!(has_collision(&settled, &piece("#", 5, 10), Direction::Rotate));
    assert!(has_collision(&settled, &piece("###", 3, 10), Direction::Rotate));
    assert!(!has_collision(&settled, &piece("#", 4, 10), Direction::Rotate));
    assert!(!has_collision(&settled, &piece("#", 6, 10), Direction::Rotate));
    assert!(!has_collision(&settled, &piece("#", 5, 9), Direction::Rotate));
}

#[test]
fn every_piece_at_rest_is_looked_at() {
    let settled = vec![piece("##", 20, 20), piece("##\n##", 9, 12), piece("##", 5, 10)];
    assert!(has_collision(&settled, &piece("##", 5, 9), Direction::Down));
    assert!(has_collision(&settled, &piece("##", 9, 12), Direction::Rotate));
    assert!(has_collision(&settled, &piece("##", 10, 12), Direction::Down));
    assert!(!has_collision(&settled, &piece("##", 14, 9), Direction::Down));
}

#[test]
fn every_run_of_the_active_piece_is_looked_at() {
    let settled = vec![piece("##", 7, 11)];
    let active = piece("######\n    ##", 3, 9);
    assert!(has_collision(&settled, &active, Direction::Down));
    let higher = piece("######\n    ##", 3, 8);
    assert!(!has_collision(&settled, &higher, Direction::Down));
}

#[test]
fn left_wall_blocks_at_column_one() {
    let settled: Vec<Shape> = Vec::new();
    assert!(has_collision(&settled, &piece("##", 1, 5), Direction::Left));
    assert!(has_collision(&settled, &piece("##", 0, 5), Direction::Left));
    assert!(!has_collision(&settled, &piece("##", 2, 5), Direction::Left));
    assert!(!has_collision(&settled, &piece("##", 3, 5), Direction::Left));
}

#[test]
fn right_wall_blocks_a_run_that_ends_at_it() {
    let settled: Vec<Shape> = Vec::new();
    assert!(has_collision(&settled, &piece("##", RECT_LOWER_X - 2, 5), Direction::Right));
    assert!(!has_collision(&settled, &piece("##", RECT_LOWER_X - 3, 5), Direction::Right));
    assert!(has_collision(&settled, &piece("########", 23, 5), Direction::Right));
    assert!(!has_collision(&settled, &piece("########", 21, 5), Direction::Right));
}

#[test]
fn rotation_is_refused_outside_the_playfield() {
    let settled: Vec<Shape> = Vec::new();
    assert!(!has_collision(&settled, &piece("##", 1, 5), Direction::Rotate));
    assert!(has_collision(&settled, &piece("##", 0, 5), Direction::Rotate));
    assert!(!has_collision(&settled, &piece("##", RECT_LOWER_X - 2, 5), Direction::Rotate));
    assert!(has_collision(&settled, &piece("##", RECT_LOWER_X - 1, 5), Direction::Rotate));
    assert!(!has_collision(&settled, &piece("##", 5, RECT_LOWER_Y - 1), Direction::Rotate));
    assert!(has_collision(&settled, &piece("##", 5, RECT_LOWER_Y), Direction::Rotate));
}

#[test]
fn piece_without_runs_is_never_blocked() {
    let settled = vec![piece("##", 5, 10)];
    let nothing = Shape { slices: Vec::new(), raw_slices: Vec::new(), color: Color::Red };
    assert!(!has_collision(&settled, &nothing, Direction::Down));
    assert!(!has_collision(&settled, &nothing, Direction::Left));
    assert!(!has_collision(&settled, &nothing, Direction::Right));
    assert!(!has_collision(&settled, &nothing, Direction::Rotate));
}

#[test]
fn empty_runs_meet_nothing() {
    assert!(!runs_meet(&run(5, 9, ""), &run(5, 10, "##"), Direction::Down));
    assert!(!runs_meet(&run(5, 9, "##"), &run(5, 10, ""), Direction::Down));
    assert!(!runs_meet(&run(6, 9, ""), &run(4, 10, "####"), Direction::Down));
}

#[test]
fn runs_meet_where_their_columns_overlap() {
    assert!(runs_meet(&run(3, 9, "####"), &run(6, 10, "##"), Direction::Down));
    assert!(!runs_meet(&run(3, 9, "####"), &run(7, 10, "##"), Direction::Down));
    assert!(runs_meet(&run(3, 9, "####"), &run(7, 9, "##"), Direction::Right));
    assert!(!runs_meet(&run(3, 9, "####"), &run(8, 9, "##"), Direction::Right));
    assert!(runs_meet(&run(3, 9, "####"), &run(1, 9, "##"), Direction::Left));
    assert!(!runs_meet(&run(3, 9, "####"), &run(0, 9, "##"), Direction::Left));
    assert!(runs_meet(&run(3, 9, "####"), &run(6, 9, "##"), Direction::Rotate));
    assert!(!runs_meet(&run(3, 9, "####"), &run(6, 10, "##"), Direction::Rotate));
}

#[test]
fn gaps_inside_a_run_count_as_cells() {
    let settled = vec![piece("#", 5, 10)];
    let active = piece("# #", 4, 9);
    assert!(has_collision(&settled, &active, Direction::Down));
}

#[test]
fn runs_at_the_ends_of_the_coordinate_range_are_compared_without_overflow() {
    assert!(hits_boundary(&run(i32::MAX, i32::MAX, "####"), Direction::Right));
    assert!(hits_boundary(&run(i32::MAX, i32::MAX, "####"), Direction::Down));
    assert!(hits_boundary(&run(i32::MIN, i32::MIN, "####"), Direction::Left));
    assert!(!hits_boundary(&run(i32::MIN, i32::MIN, "####"), Direction::Down));
    assert!(!runs_meet(&run(i32::MAX, i32::MAX, "##"), &run(i32::MIN, i32::MIN, "##"), Direction::Down));
    assert!(runs_meet(&run(i32::MAX - 1, 0, "##"), &run(i32::MAX, 0, "#"), Direction::Right));
}

#[test]
fn boundary_test_of_a_single_run() {
    assert!(hits_boundary(&run(5, 29, "##"), Direction::Down));
    assert!(!hits_boundary(&run(5, 28, "##"), Direction::Down));
    assert!(hits_boundary(&run(1, 5, "##"), Direction::Left));
    assert!(!hits_boundary(&run(2, 5, "##"), Direction::Left));
    assert!(hits_boundary(&run(29, 5, "##"), Direction::Right));
    assert!(!hits_boundary(&run(28, 5, "##"), Direction::Right));
    assert!(hits_boundary(&run(30, 5, "##"), Direction::Rotate));
    assert!(!hits_boundary(&run(29, 5, "##"), Direction::Rotate));
}

#[test]
fn run_against_one_piece_and_against_all() {
    let cube = piece("####\n####", 9, 12);
    assert!(run_hits_shape(&run(9, 11, "##"), &cube, Direction::Down));
    assert!(!run_hits_shape(&run(9, 10, "##"), &cube, Direction::Down));
    assert!(run_hits_shape(&run(13, 13, "##"), &cube, Direction::Left));
    let settled = vec![piece("##", 20, 20), cube];
    assert!(run_hits_settled(&run(9, 11, "##"), &settled, Direction::Down));
    assert!(run_hits_settled(&run(18, 20, "##"), &settled, Direction::Right));
    assert!(!run_hits_settled(&run(16, 20, "##"), &settled, Direction::Right));
    assert!(!run_hits_settled(&run(9, 11, "##"), &Vec::new(), Direction::Down));
}
