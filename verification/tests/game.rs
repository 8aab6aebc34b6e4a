use tetromino::color::Color;
use tetromino::game::{Fall, Game, Input, Phase};
use tetromino::shape::Shape;
use tetromino::slice::Slice;
use tetromino::{CELL_WIDTH, GRAVITY_PERIOD, RECT_LOWER_X, RECT_LOWER_Y, SPAWN_X, SPAWN_Y};

fn run(x: i32, y: i32, filling: &str) -> Slice {
    Slice::new(x, y, filling.to_string())
}

fn piece(template: &str, x: i32, y: i32) -> Shape {
    Shape::from_template(template, x, y, Color::Red).unwrap()
}

fn idle() -> Input {
    Input { quit: false, soft_drop: false, rotate: false, move_left: false, move_right: false }
}

#[test]
fn new_game_has_nothing_at_rest() {
    let g = Game::new(Shape::t_shape());
    assert_eq!(g.inactive_shapes.len(), 0);
    assert_eq!(g.phase, Phase::Falling);
    assert_eq!(g.active_shape.slices, Shape::t_shape().slices);
}

#[test]
fn gravity_acts_once_in_every_period() {
    assert!(Game::is_gravity_due(0, false));
    assert!(Game::is_gravity_due(GRAVITY_PERIOD as usize, false));
    assert!(Game::is_gravity_due(2 * GRAVITY_PERIOD as usize, false));
    assert!(!Game::is_gravity_due(1, false));
    assert!(!Game::is_gravity_due(GRAVITY_PERIOD as usize - 1, false));
    assert!(!Game::is_gravity_due(GRAVITY_PERIOD as usize + 1, false));
}

#[test]
fn soft_drop_acts_on_every_tick() {
    assert!(Game::is_gravity_due(1, true));
    assert!(Game::is_gravity_due(59, true));
    assert!(Game::is_gravity_due(60, true));
}

#[test]
fn piece_falls_one_row_when_gravity_is_due() {
    let mut g = Game::new(Shape::t_shape());
    assert_eq!(g.advance(60, &idle(), Shape::bar()), Phase::Falling);
    assert_eq!(g.active_shape.slices, vec![run(3, 4, "######"), run(5, 5, "##")]);
    assert_eq!(g.inactive_shapes.len(), 0);
}

#[test]
fn piece_stays_between_two_pulls_of_gravity() {
    let mut g = Game::new(Shape::t_shape());
    for frame in 1..60 {
        assert_eq!(g.advance(frame, &idle(), Shape::bar()), Phase::Falling);
    }
    assert_eq!(g.active_shape.slices, Shape::t_shape().slices);
}

#[test]
fn soft_drop_pulls_the_piece_down() {
    let mut g = Game::new(Shape::t_shape());
    let input = Input { soft_drop: true, ..idle() };
    g.advance(7, &input, Shape::bar());
    g.advance(8, &input, Shape::bar());
    assert_eq!(g.active_shape.slices, vec![run(3, 5, "######"), run(5, 6, "##")]);
}

#[test]
fn piece_comes_to_rest_on_the_floor() {
    let mut g = Game::new(piece("####\n####", 5, RECT_LOWER_Y - 2));
    let next = Shape::bar();
    assert_eq!(g.advance(120, &idle(), next), Phase::Falling);
    assert_eq!(g.inactive_shapes.len(), 1);
    assert_eq!(g.inactive_shapes[0], piece("####\n####", 5, RECT_LOWER_Y - 2));
    assert_eq!(g.active_shape.slices, vec![run(3, 3, "########")]);
}

#[test]
fn pieces_come_to_rest_in_the_order_in_which_they_land() {
    let mut g = Game::new(piece("##", 5, RECT_LOWER_Y - 1));
    g.advance(0, &idle(), piece("##", 5, RECT_LOWER_Y - 2));
    g.advance(60, &idle(), piece("##", 9, 9));
    assert_eq!(g.inactive_shapes.len(), 2);
    assert_eq!(g.inactive_shapes[0], piece("##", 5, RECT_LOWER_Y - 1));
    assert_eq!(g.inactive_shapes[1], piece("##", 5, RECT_LOWER_Y - 2));
    assert_eq!(g.active_shape, piece("##", 9, 9));
}

#[test]
fn blocked_piece_on_the_spawn_row_ends_the_game() {
    let mut g = Game::new(Shape::cube());
    g.inactive_shapes.push(piece("####", 3, SPAWN_Y + 2));
    assert_eq!(g.advance(60, &idle(), Shape::bar()), Phase::GameOver);
    assert_eq!(g.phase, Phase::GameOver);
    assert_eq!(g.inactive_shapes.len(), 1);
    assert_eq!(g.active_shape.slices, Shape::cube().slices);
}

#[test]
fn stack_up_to_the_spawn_row_ends_the_game() {
    let mut g = Game::new(Shape::bar());
    g.inactive_shapes.push(piece("########\n########", 3, SPAWN_Y));
    assert_eq!(g.advance(0, &idle(), Shape::bar()), Phase::GameOver);
    assert_eq!(g.inactive_shapes.len(), 1);
    assert_eq!(g.active_shape.slices, Shape::bar().slices);
}

#[test]
fn game_that_is_over_stays_as_it_is() {
    let mut g = Game::new(Shape::cube());
    g.inactive_shapes.push(piece("####", 3, SPAWN_Y + 2));
    g.advance(60, &idle(), Shape::bar());
    let input = Input { soft_drop: true, move_right: true, quit: true, ..idle() };
    assert_eq!(g.advance(61, &input, Shape::bar()), Phase::GameOver);
    assert_eq!(g.active_shape.slices, Shape::cube().slices);
    assert_eq!(g.inactive_shapes.len(), 1);
}

#[test]
fn game_over_comes_before_quit_and_commands() {
    let mut g = Game::new(Shape::cube());
    g.inactive_shapes.push(piece("####", 3, SPAWN_Y + 2));
    let input = Input { quit: true, move_right: true, ..idle() };
    assert_eq!(g.advance(60, &input, Shape::bar()), Phase::GameOver);
    assert_eq!(g.active_shape.slices, Shape::cube().slices);
}

#[test]
fn quit_ends_the_game_after_gravity_and_before_commands() {
    let mut g = Game::new(Shape::t_shape());
    let input = Input { quit: true, move_right: true, ..idle() };
    assert_eq!(g.advance(60, &input, Shape::bar()), Phase::Quit);
    assert_eq!(g.active_shape.slices, vec![run(3, 4, "######"), run(5, 5, "##")]);
    assert_eq!(g.advance(61, &Input { move_right: true, ..idle() }, Shape::bar()), Phase::Quit);
    assert_eq!(g.active_shape.slices, vec![run(3, 4, "######"), run(5, 5, "##")]);
}

#[test]
fn move_left_goes_one_cell() {
    let mut g = Game::new(Shape::t_shape());
    g.advance(1, &Input { move_left: true, ..idle() }, Shape::bar());
    assert_eq!(g.active_shape.slices, vec![run(1, 3, "######"), run(3, 4, "##")]);
}

#[test]
fn move_left_stops_at_the_wall() {
    let mut g = Game::new(Shape::t_shape());
    g.advance(1, &Input { move_left: true, ..idle() }, Shape::bar());
    g.advance(2, &Input { move_left: true, ..idle() }, Shape::bar());
    assert_eq!(g.active_shape.slices, vec![run(1, 3, "######"), run(3, 4, "##")]);
}

#[test]
fn move_right_stops_at_the_wall() {
    let mut g = Game::new(Shape::bar());
    for frame in 1..40 {
        g.advance(frame, &Input { move_right: true, ..idle() }, Shape::bar());
    }
    assert_eq!(g.active_shape.slices, vec![run(23, 3, "########")]);
}

#[test]
fn move_right_stops_at_a_piece_at_rest() {
    let mut g = Game::new(piece("##", 3, 10));
    g.inactive_shapes.push(piece("##", 7, 10));
    g.advance(1, &Input { move_right: true, ..idle() }, Shape::bar());
    assert_eq!(g.active_shape.slices, vec![run(5, 10, "##")]);
    g.advance(2, &Input { move_right: true, ..idle() }, Shape::bar());
    assert_eq!(g.active_shape.slices, vec![run(5, 10, "##")]);
}

#[test]
fn rotation_comes_before_the_moves() {
    let mut g = Game::new(Shape::t_shape());
    let input = Input { rotate: true, move_left: true, move_right: true, ..idle() };
    g.advance(1, &input, Shape::bar());
    assert_eq!(g.active_shape.slices, vec![run(5, 3, "##"), run(3, 4, "####"), run(5, 5, "##")]);
}

#[test]
fn move_left_comes_before_move_right() {
    let mut g = Game::new(Shape::t_shape());
    let input = Input { move_left: true, move_right: true, ..idle() };
    g.advance(1, &input, Shape::bar());
    assert_eq!(g.active_shape.slices, vec![run(1, 3, "######"), run(3, 4, "##")]);
}

#[test]
fn gravity_and_a_move_on_the_same_tick() {
    let mut g = Game::new(Shape::t_shape());
    g.advance(60, &Input { move_right: true, ..idle() }, Shape::bar());
    assert_eq!(g.active_shape.slices, vec![run(5, 4, "######"), run(7, 5, "##")]);
}

#[test]
fn rotation_onto_a_piece_at_rest_leaves_the_piece_as_it_is() {
    let mut g = Game::new(Shape::bar());
    g.inactive_shapes.push(piece("##", 3, 5));
    g.advance(1, &Input { rotate: true, ..idle() }, Shape::cube());
    assert_eq!(g.active_shape.slices, vec![run(3, 3, "########")]);
    assert_eq!(g.active_shape.raw_slices, vec!["########".to_string()]);
    assert_eq!(g.phase, Phase::Falling);
}

#[test]
fn rotation_through_the_floor_leaves_the_piece_as_it_is() {
    let mut g = Game::new(piece("########", 3, RECT_LOWER_Y - 2));
    g.advance(1, &Input { rotate: true, ..idle() }, Shape::cube());
    assert_eq!(g.active_shape.slices, vec![run(3, RECT_LOWER_Y - 2, "########")]);
}

#[test]
fn rotation_that_cannot_be_made_leaves_the_piece_as_it_is() {
    let mut g = Game::new(piece("##  ##", 3, 3));
    g.advance(1, &Input { rotate: true, ..idle() }, Shape::cube());
    assert_eq!(g.active_shape, piece("##  ##", 3, 3));
}

#[test]
fn rotation_at_the_right_wall_pushes_the_piece_back() {
    let mut g = Game::new(piece("##\n##\n##\n##", 29, 3));
    g.advance(1, &Input { rotate: true, ..idle() }, Shape::cube());
    assert_eq!(g.active_shape.slices, vec![run(23, 3, "########")]);
}

#[test]
fn fall_lets_the_next_piece_start() {
    let mut g = Game::new(piece("##", 5, RECT_LOWER_Y - 1));
    g.fall(Shape::z_shape());
    assert_eq!(g.inactive_shapes, vec![piece("##", 5, RECT_LOWER_Y - 1)]);
    assert_eq!(g.active_shape.slices, Shape::z_shape().slices);
    assert_eq!(g.phase, Phase::Falling);
}

#[test]
fn command_without_a_command_changes_nothing() {
    let mut g = Game::new(Shape::t_shape());
    g.command(&idle());
    assert_eq!(g.active_shape.slices, Shape::t_shape().slices);
}

#[test]
fn tick_lets_a_canonical_piece_start_when_one_lands() {
    let mut rng = rand::thread_rng();
    let mut g = Game::new(piece("##", 5, RECT_LOWER_Y - 1));
    assert_eq!(g.tick(0, &idle(), &mut rng), Phase::Falling);
    assert_eq!(g.inactive_shapes, vec![piece("##", 5, RECT_LOWER_Y - 1)]);
    assert_eq!(g.active_shape.slices[0].y, SPAWN_Y);
    assert_eq!(g.active_shape.slices.iter().map(|r| r.width()).sum::<usize>(), 8);
}

#[test]
fn a_whole_game_ends_when_the_stack_reaches_the_spawn_row() {
    let mut rng = rand::thread_rng();
    let mut g = Game::new(Shape::cube());
    let mut frame = 0;
    while g.phase == Phase::Falling && frame < 100_000 {
        g.tick(frame, &Input { soft_drop: true, ..idle() }, &mut rng);
        frame += 1;
    }
    assert_eq!(g.phase, Phase::GameOver);
    assert!(g.inactive_shapes.len() >= 1);
    assert_eq!(g.active_shape.slices[0].y, SPAWN_Y);
    for s in &g.inactive_shapes {
        for r in &s.slices {
            assert!(r.y < RECT_LOWER_Y);
            assert!(r.y > SPAWN_Y);
        }
    }
}

#[test]
fn pull_down_moves_a_free_piece() {
    let mut g = Game::new(Shape::t_shape());
    assert_eq!(g.pull_down(), Fall::Moved);
    assert_eq!(g.active_shape.slices, vec![run(3, 4, "######"), run(5, 5, "##")]);
    assert_eq!(g.phase, Phase::Falling);
}

#[test]
fn pull_down_reports_a_landing_and_changes_nothing() {
    let mut g = Game::new(piece("##", 5, RECT_LOWER_Y - 1));
    assert_eq!(g.pull_down(), Fall::Landed);
    assert_eq!(g.active_shape, piece("##", 5, RECT_LOWER_Y - 1));
    assert_eq!(g.inactive_shapes.len(), 0);
    assert_eq!(g.phase, Phase::Falling);
}

#[test]
fn pull_down_ends_the_game_on_the_spawn_row() {
    let mut g = Game::new(Shape::cube());
    g.inactive_shapes.push(piece("####", 3, SPAWN_Y + 2));
    assert_eq!(g.pull_down(), Fall::ToppedOut);
    assert_eq!(g.phase, Phase::GameOver);
    assert_eq!(g.inactive_shapes.len(), 1);
}

#[test]
fn settle_puts_the_piece_last() {
    let mut g = Game::new(piece("##", 5, 20));
    g.inactive_shapes.push(piece("##", 5, 21));
    g.settle(Shape::l_shape());
    assert_eq!(g.inactive_shapes, vec![piece("##", 5, 21), piece("##", 5, 20)]);
    assert_eq!(g.active_shape.slices, Shape::l_shape().slices);
}

#[test]
fn handle_input_quits_before_it_moves() {
    let mut g = Game::new(Shape::t_shape());
    assert_eq!(g.handle_input(&Input { quit: true, move_left: true, ..idle() }), Phase::Quit);
    assert_eq!(g.active_shape.slices, Shape::t_shape().slices);
}

#[test]
fn tick_without_a_landing_is_the_same_as_advance() {
    let mut rng = rand::thread_rng();
    let mut a = Game::new(Shape::from_template("######\n  ##  ", 3, 3, Color::Red).unwrap());
    let mut b = Game::new(Shape::from_template("######\n  ##  ", 3, 3, Color::Red).unwrap());
    let inputs = [
        Input { move_right: true, ..idle() },
        Input { rotate: true, ..idle() },
        Input { soft_drop: true, ..idle() },
        Input { move_left: true, soft_drop: true, ..idle() },
        Input { rotate: true, move_right: true, ..idle() },
        idle(),
    ];
    for frame in 0..48 {
        let input = inputs[frame % inputs.len()];
        let pa = a.tick(frame, &input, &mut rng);
        let pb = b.advance(frame, &input, Shape::bar());
        assert_eq!(pa, pb);
        assert_eq!(a.active_shape, b.active_shape);
        assert_eq!(a.inactive_shapes.len(), 0);
        assert_eq!(b.inactive_shapes.len(), 0);
    }
}

fn in_order(s: &Shape) -> bool {
    s.slices.iter().all(|r| {
        (r.x - SPAWN_X) % CELL_WIDTH == 0
            && r.width() % CELL_WIDTH as usize == 0
            && 0 < r.x
            && r.x + r.width() as i32 <= RECT_LOWER_X
            && r.y < RECT_LOWER_Y
    })
}

fn overlaps(a: &Shape, b: &Shape) -> bool {
    a.slices.iter().any(|p| {
        b.slices.iter().any(|q| {
            p.y == q.y && p.x < q.x + q.width() as i32 && q.x < p.x + p.width() as i32
        })
    })
}

#[test]
fn a_long_game_stays_in_order() {
    let mut rng = rand::thread_rng();
    let mut g = Game::new(Shape::canonical(2));
    let mut frame = 0;
    while g.phase == Phase::Falling && frame < 200_000 {
        let key = (frame * 7 + frame / 13) % 11;
        let input = Input {
            quit: false,
            soft_drop: key % 2 == 0,
            rotate: key == 3 || key == 8,
            move_left: key == 1 || key == 4 || key == 5,
            move_right: key == 6 || key == 7 || key == 9,
        };
        let at_rest = g.inactive_shapes.len();
        let was_clear = !g.inactive_shapes.iter().any(|s| overlaps(s, &g.active_shape));
        g.tick(frame, &input, &mut rng);
        assert!(in_order(&g.active_shape));
        assert!(g.inactive_shapes.iter().all(in_order));
        if was_clear && g.inactive_shapes.len() == at_rest {
            assert!(!g.inactive_shapes.iter().any(|s| overlaps(s, &g.active_shape)));
        }
        frame += 1;
    }
    assert_eq!(g.phase, Phase::GameOver);
    assert!(g.inactive_shapes.len() >= 4);
}
