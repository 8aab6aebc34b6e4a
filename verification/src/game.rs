//! The game as a state machine: what one tick does to the active piece and
//! to the pieces at rest, given the commands of the player.

use crate::collision::{at_boundary, blocked, has_collision, shape_views, Direction};
use crate::grid::{
    all_on_grid, clear_of, gridded, inside, lemma_down_stays_clear, lemma_left_stays_clear,
    lemma_right_stays_clear, lemma_rotation_gridded, lemma_turn_stays_clear, on_grid,
};
use crate::rotation::rotation;
use crate::shape::{Shape, ShapeView};
use crate::tetrominoes::{canonical_piece, lemma_canonical_on_field};
use crate::{CELL_WIDTH, GRAVITY_PERIOD, SPAWN_Y};
use rand::rngs::ThreadRng;
use vstd::prelude::*;

verus! {

/// Where the game stands.
#[derive(Clone, Copy, Debug, PartialEq, Eq, Structural)]
pub enum Phase {
    /// A piece is falling and commands are taken.
    Falling,
    /// The stack has reached the spawn row; the game has ended.
    GameOver,
    /// The player has quit.
    Quit,
}

/// The commands of the player that were seen during one tick.
#[derive(Clone, Copy, Debug, PartialEq, Eq, Structural)]
pub struct Input {
    pub quit: bool,
    pub soft_drop: bool,
    pub rotate: bool,
    pub move_left: bool,
    pub move_right: bool,
}

/// The whole state of a game: the pieces at rest in the order in which they
/// came to rest, the piece that is falling, and the phase.
#[derive(Debug)]
pub struct Game {
    pub inactive_shapes: Vec<Shape>,
    pub active_shape: Shape,
    pub phase: Phase,
}

/// The mathematical content of a [`Game`].
pub ghost struct GameView {
    pub settled: Seq<ShapeView>,
    pub active: ShapeView,
    pub phase: Phase,
}

impl View for Game {
    type V = GameView;

    open spec fn view(&self) -> GameView {
        GameView {
            settled: shape_views(self.inactive_shapes@),
            active: self.active_shape@,
            phase: self.phase,
        }
    }
}

/// Whether the active piece is pulled down on this tick: on every tick
/// whose number is a multiple of the gravity period, and whenever the
/// player asks for it.
pub open spec fn gravity_due(frame_count: int, soft_drop: bool) -> bool {
    frame_count % (GRAVITY_PERIOD as int) == 0 || soft_drop
}

/// What a pull of gravity does to the active piece.
#[derive(Clone, Copy, Debug, PartialEq, Eq, Structural)]
pub enum Fall {
    /// Nothing is in its way: it moves one row down.
    Moved,
    /// It is blocked below the spawn row: it comes to rest.
    Landed,
    /// It is blocked while its first run is still on the spawn row.
    ToppedOut,
}

/// What a pull of gravity does to the active piece of the game.
pub open spec fn fall_of(g: GameView) -> Fall {
    if !blocked(g.settled, g.active, Direction::Down) {
        Fall::Moved
    } else if g.active.slices[0].y == SPAWN_Y {
        Fall::ToppedOut
    } else {
        Fall::Landed
    }
}

/// The game after the active piece has come to rest behind the pieces that
/// rest already, and `next` has started to fall.
pub open spec fn after_landing(g: GameView, next: ShapeView) -> GameView {
    GameView { settled: g.settled.push(g.active), active: next, phase: g.phase }
}

/// The game after the active piece was pulled down. If nothing is in its
/// way it moves one row down. If it is blocked while its first run is still
/// on the spawn row, the game is over and nothing else changes. Otherwise
/// it comes to rest and `next` starts to fall.
pub open spec fn after_fall(g: GameView, next: ShapeView) -> GameView {
    match fall_of(g) {
        Fall::Moved => GameView { active: g.active.moved(0, 1), ..g },
        Fall::ToppedOut => GameView { phase: Phase::GameOver, ..g },
        Fall::Landed => after_landing(g, next),
    }
}

/// The game after the move the player asked for. A rotation comes before a
/// move to the left, and that before a move to the right; only the first of
/// them that was asked for is tried. A move that is blocked changes
/// nothing. A rotation changes nothing if the piece cannot be turned or if
/// the turned piece, pushed back from the right wall, would leave the
/// playfield or stand on a piece at rest.
pub open spec fn after_command(g: GameView, input: Input) -> GameView {
    if input.rotate {
        match rotation(g.active) {
            Ok(turned) => if blocked(g.settled, turned, Direction::Rotate) {
                g
            } else {
                GameView { active: turned, ..g }
            },
            Err(_) => g,
        }
    } else if input.move_left {
        if blocked(g.settled, g.active, Direction::Left) {
            g
        } else {
            GameView { active: g.active.moved(-CELL_WIDTH, 0), ..g }
        }
    } else if input.move_right {
        if blocked(g.settled, g.active, Direction::Right) {
            g
        } else {
            GameView { active: g.active.moved(CELL_WIDTH as int, 0), ..g }
        }
    } else {
        g
    }
}

/// The rest of a tick, once gravity has acted: a game that is over stays
/// so; else a quit command ends the game; else the move that the player
/// asked for is tried.
pub open spec fn after_input(g: GameView, input: Input) -> GameView {
    if g.phase == Phase::GameOver {
        g
    } else if input.quit {
        GameView { phase: Phase::Quit, ..g }
    } else {
        after_command(g, input)
    }
}

/// The game after one tick, where `next` is the piece that starts to fall
/// if the active one comes to rest. A game that is not in the falling
/// phase stays as it is. Otherwise gravity acts first, if it is due, and
/// the commands of the player are looked at after it.
pub open spec fn step(g: GameView, frame_count: int, input: Input, next: ShapeView) -> GameView {
    if g.phase != Phase::Falling {
        g
    } else if gravity_due(frame_count, input.soft_drop) {
        after_input(after_fall(g, next), input)
    } else {
        after_input(g, input)
    }
}

/// Whether the active piece comes to rest on this tick, so that a new piece
/// starts to fall.
pub open spec fn lands(g: GameView, frame_count: int, input: Input) -> bool {
    g.phase == Phase::Falling && gravity_due(frame_count, input.soft_drop) && fall_of(g)
        == Fall::Landed
}

/// A piece that is blocked in some direction has a run.
pub proof fn lemma_blocked_has_run(settled: Seq<ShapeView>, active: ShapeView, d: Direction)
    requires
        blocked(settled, active, d),
    ensures
        active.slices.len() >= 1,
{
}

/// A blocked fall of a piece whose first run is on the spawn row ends the
/// game, and the piece does not join the pieces at rest.
pub proof fn lemma_top_out(g: GameView, frame_count: int, input: Input, next: ShapeView)
    requires
        g.phase == Phase::Falling,
        gravity_due(frame_count, input.soft_drop),
        blocked(g.settled, g.active, Direction::Down),
        g.active.slices[0].y == SPAWN_Y,
    ensures
        step(g, frame_count, input, next).phase == Phase::GameOver,
        step(g, frame_count, input, next).settled == g.settled,
        step(g, frame_count, input, next).active == g.active,
{
}

/// A blocked fall of a piece whose first run is not on the spawn row puts
/// the piece last among the pieces at rest and lets `next` fall.
pub proof fn lemma_landing(g: GameView, next: ShapeView)
    requires
        blocked(g.settled, g.active, Direction::Down),
        g.active.slices[0].y != SPAWN_Y,
    ensures
        after_fall(g, next).settled == g.settled.push(g.active),
        after_fall(g, next).active == next,
        after_fall(g, next).phase == g.phase,
{
}

/// A newly started canonical piece that cannot fall ends the game: the
/// stack has reached it on the spawn row.
pub proof fn lemma_new_piece_tops_out(g: GameView, frame_count: int, input: Input, next: ShapeView)
    requires
        g.phase == Phase::Falling,
        gravity_due(frame_count, input.soft_drop),
        canonical_piece(g.active),
        blocked(g.settled, g.active, Direction::Down),
    ensures
        step(g, frame_count, input, next).phase == Phase::GameOver,
        step(g, frame_count, input, next).settled == g.settled,
        step(g, frame_count, input, next).active == g.active,
{
    lemma_canonical_on_field(g.active);
    lemma_top_out(g, frame_count, input, next);
}

/// Whether the game is in order: every piece, falling or at rest, stands on
/// the cell grid, is cut from rows made of whole cells, and stands between
/// the walls and above the floor.
pub open spec fn in_order(g: GameView) -> bool {
    &&& gridded(g.active)
    &&& inside(g.active)
    &&& forall|k: int|
        0 <= k < g.settled.len() ==> gridded(#[trigger] g.settled[k]) && inside(g.settled[k])
}

/// Whether the falling piece stands on no cell that a piece at rest occupies.
pub open spec fn in_the_clear(g: GameView) -> bool {
    clear_of(g.settled, g.active)
}

/// A pull of gravity keeps the game in order, and keeps the falling piece
/// clear of the pieces at rest unless a new piece starts.
pub proof fn lemma_fall_keeps_order(g: GameView, next: ShapeView)
    requires
        in_order(g),
        canonical_piece(next),
    ensures
        in_order(after_fall(g, next)),
        in_the_clear(g) && fall_of(g) != Fall::Landed ==> in_the_clear(after_fall(g, next)),
{
    let h = after_fall(g, next);
    match fall_of(g) {
        Fall::Moved => {
            lemma_down_stays_clear(g.settled, g.active);
        },
        Fall::ToppedOut => {},
        Fall::Landed => {
            lemma_canonical_on_field(next);
            assert forall|k: int| 0 <= k < h.settled.len() implies gridded(#[trigger] h.settled[k])
                && inside(h.settled[k]) by {
                if k < g.settled.len() {
                    assert(h.settled[k] == g.settled[k]);
                }
            }
        },
    }
}

/// The move that the player asked for keeps the game in order and the
/// falling piece clear of the pieces at rest: a piece is never moved or
/// turned into a wall, through the floor or onto a piece at rest.
pub proof fn lemma_command_keeps_order(g: GameView, input: Input)
    requires
        in_order(g),
    ensures
        in_order(after_command(g, input)),
        in_the_clear(g) ==> in_the_clear(after_command(g, input)),
{
    assert(all_on_grid(g.settled)) by {
        assert forall|k: int| 0 <= k < g.settled.len() implies on_grid(#[trigger] g.settled[k]) by {
            assert(gridded(g.settled[k]));
        }
    }
    if input.rotate {
        if let Ok(turned) = rotation(g.active) {
            if !blocked(g.settled, turned, Direction::Rotate) {
                lemma_rotation_gridded(g.active);
                lemma_turn_stays_clear(g.settled, turned);
            }
        }
    } else if input.move_left {
        if !blocked(g.settled, g.active, Direction::Left) {
            lemma_left_stays_clear(g.settled, g.active);
        }
    } else if input.move_right {
        if !blocked(g.settled, g.active, Direction::Right) {
            lemma_right_stays_clear(g.settled, g.active);
        }
    }
}

/// A tick keeps the game in order, whatever the player asks for. It also
/// keeps the falling piece clear of the pieces at rest, unless a new piece
/// starts on this tick: a new piece starts at the spawn position whether or
/// not the stack has reached it.
pub proof fn lemma_step_keeps_order(g: GameView, frame_count: int, input: Input, next: ShapeView)
    requires
        in_order(g),
        canonical_piece(next),
    ensures
        in_order(step(g, frame_count, input, next)),
        in_the_clear(g) && !lands(g, frame_count, input) ==> in_the_clear(
            step(g, frame_count, input, next),
        ),
{
    if g.phase == Phase::Falling {
        let fallen = if gravity_due(frame_count, input.soft_drop) {
            after_fall(g, next)
        } else {
            g
        };
        lemma_fall_keeps_order(g, next);
        lemma_command_keeps_order(fallen, input);
    }
}

impl Game {
    /// A game in which `first` starts to fall and nothing is at rest.
    pub fn new(first: Shape) -> (g: Game)
        ensures
            g@ == (GameView { settled: Seq::empty(), active: first@, phase: Phase::Falling }),
    {
        let g = Game { inactive_shapes: Vec::new(), active_shape: first, phase: Phase::Falling };
        assert(g@.settled =~= Seq::empty());
        g
    }

    /// Whether gravity acts on the tick with the given number.
    pub fn is_gravity_due(frame_count: usize, soft_drop: bool) -> (due: bool)
        ensures
            due == gravity_due(frame_count as int, soft_drop),
    {
        frame_count % (GRAVITY_PERIOD as usize) == 0 || soft_drop
    }

    /// Pulls the active piece down: it moves one row, or the game is over,
    /// or, if it has come to rest, nothing is changed and the caller is told
    /// so.
    pub fn pull_down(&mut self) -> (fall: Fall)
        ensures
            fall == fall_of(old(self)@),
            fall is Moved ==> final(self)@ == (GameView {
                active: old(self)@.active.moved(0, 1),
                ..old(self)@
            }),
            fall is ToppedOut ==> final(self)@ == (GameView {
                phase: Phase::GameOver,
                ..old(self)@
            }),
            fall is Landed ==> *final(self) == *old(self),
    {
        if !has_collision(&self.inactive_shapes, &self.active_shape, Direction::Down) {
            proof {
                let v = self.active_shape@;
                assert forall|i: int| 0 <= i < v.slices.len() implies (#[trigger] v.moved(
                    0,
                    1,
                ).slices[i]).representable() by {
                    assert(!at_boundary(v.slices[i], Direction::Down));
                    assert(v.slices[i] == self.active_shape.slices@[i]@);
                }
            }
            self.active_shape.go_down();
            Fall::Moved
        } else {
            proof {
                lemma_blocked_has_run(self@.settled, self@.active, Direction::Down);
            }
            if self.active_shape.slices[0].y == SPAWN_Y {
                self.phase = Phase::GameOver;
                Fall::ToppedOut
            } else {
                Fall::Landed
            }
        }
    }

    /// Puts the active piece last among the pieces at rest and lets `next`
    /// start to fall.
    pub fn settle(&mut self, next: Shape)
        ensures
            final(self)@ == after_landing(old(self)@, next@),
    {
        let ghost before = self@;
        let mut landed = next;
        core::mem::swap(&mut self.active_shape, &mut landed);
        self.inactive_shapes.push(landed);
        assert(self@.settled =~= before.settled.push(before.active));
    }

    /// Pulls the active piece down: it moves, or the game is over, or the
    /// piece comes to rest and `next` takes its place.
    pub fn fall(&mut self, next: Shape)
        ensures
            final(self)@ == after_fall(old(self)@, next@),
    {
        match self.pull_down() {
            Fall::Landed => self.settle(next),
            _ => {},
        }
    }

    /// The rest of a tick, once gravity has acted: looks at the commands of
    /// the player. Returns the phase the game is in afterwards.
    pub fn handle_input(&mut self, input: &Input) -> (phase: Phase)
        ensures
            final(self)@ == after_input(old(self)@, *input),
            phase == final(self).phase,
    {
        if self.phase == Phase::GameOver {
            return self.phase;
        }
        if input.quit {
            self.phase = Phase::Quit;
            return self.phase;
        }
        self.command(input);
        self.phase
    }

    /// Tries the move that the player asked for.
    pub fn command(&mut self, input: &Input)
        ensures
            final(self)@ == after_command(old(self)@, *input),
    {
        if input.rotate {
            match self.active_shape.rotated() {
                Ok(turned) => {
                    if !has_collision(&self.inactive_shapes, &turned, Direction::Rotate) {
                        self.active_shape = turned;
                    }
                },
                Err(_) => {},
            }
        } else if input.move_left {
            if !has_collision(&self.inactive_shapes, &self.active_shape, Direction::Left) {
                proof {
                    let v = self.active_shape@;
                    assert forall|i: int| 0 <= i < v.slices.len() implies (#[trigger] v.moved(
                        -CELL_WIDTH,
                        0,
                    ).slices[i]).representable() by {
                        assert(!at_boundary(v.slices[i], Direction::Left));
                        assert(v.slices[i] == self.active_shape.slices@[i]@);
                    }
                }
                self.active_shape.go_left();
            }
        } else if input.move_right {
            if !has_collision(&self.inactive_shapes, &self.active_shape, Direction::Right) {
                proof {
                    let v = self.active_shape@;
                    assert forall|i: int| 0 <= i < v.slices.len() implies (#[trigger] v.moved(
                        CELL_WIDTH as int,
                        0,
                    ).slices[i]).representable() by {
                        assert(!at_boundary(v.slices[i], Direction::Right));
                        assert(v.slices[i] == self.active_shape.slices@[i]@);
                    }
                }
                self.active_shape.go_right();
            }
        }
    }

    /// Plays one tick, with `next` as the piece that starts to fall if the
    /// active one comes to rest. Returns the phase the game is in afterwards.
    pub fn advance(&mut self, frame_count: usize, input: &Input, next: Shape) -> (phase: Phase)
        ensures
            final(self)@ == step(old(self)@, frame_count as int, *input, next@),
            phase == final(self).phase,
    {
        if self.phase != Phase::Falling {
            return self.phase;
        }
        if Game::is_gravity_due(frame_count, input.soft_drop) {
            self.fall(next);
        }
        self.handle_input(input)
    }

    /// Plays one tick. If the active piece comes to rest, the piece that
    /// starts to fall is one of the canonical pieces, drawn at random; on
    /// any other tick nothing is drawn. Returns the phase the game is in
    /// afterwards.
    pub fn tick(&mut self, frame_count: usize, input: &Input, rng: &mut ThreadRng) -> (phase: Phase)
        ensures
            lands(old(self)@, frame_count as int, *input) ==> exists|next: ShapeView| #[trigger]
                canonical_piece(next) && final(self)@ == step(
                    old(self)@,
                    frame_count as int,
                    *input,
                    next,
                ),
            !lands(old(self)@, frame_count as int, *input) ==> forall|next: ShapeView|
                final(self)@ == #[trigger] step(old(self)@, frame_count as int, *input, next),
            phase == final(self).phase,
    {
        if self.phase != Phase::Falling {
            return self.phase;
        }
        if Game::is_gravity_due(frame_count, input.soft_drop) {
            match self.pull_down() {
                Fall::Landed => {
                    let next = Shape::random_shape(rng);
                    let ghost drawn = next@;
                    self.settle(next);
                    let phase = self.handle_input(input);
                    assert(canonical_piece(drawn) && self@ == step(
                        old(self)@,
                        frame_count as int,
                        *input,
                        drawn,
                    ));
                    return phase;
                },
                _ => {},
            }
        }
        self.handle_input(input)
    }
}

} // verus!
