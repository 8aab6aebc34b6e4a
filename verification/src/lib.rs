//! A falling-block puzzle engine: pieces built from character templates,
//! moves and quarter turns of a piece, and collision detection against the
//! playfield walls and the pieces that have already come to rest.
//!
//! Every column in this crate is a display column. One logical board cell is
//! [`CELL_WIDTH`] columns wide, and that ratio is applied uniformly to the
//! templates, to the horizontal step of a move and to the rotation.

use vstd::prelude::*;

pub mod collision;
pub mod color;
pub mod game;
pub mod grid;
pub mod random;
pub mod rotation;
pub mod shape;
pub mod slice;
pub mod tetrominoes;
pub mod text;

pub use collision::{has_collision, Direction};
pub use color::Color;
pub use game::{Game, Input, Phase};
pub use shape::{Shape, ShapeError};
pub use slice::Slice;

verus! {

/// Number of display columns that make up one logical board cell.
pub const CELL_WIDTH: i32 = 2;

/// Column of the right wall of the playfield; the left wall is column 0.
pub const RECT_LOWER_X: i32 = 31;

/// Row of the floor of the playfield; the top is open.
pub const RECT_LOWER_Y: i32 = 30;

/// Column at which the template of a new piece is anchored.
pub const SPAWN_X: i32 = 3;

/// Row at which the template of a new piece is anchored.
pub const SPAWN_Y: i32 = 3;

/// Gravity pulls the active piece down once every this many ticks.
pub const GRAVITY_PERIOD: u32 = 60;

} // verus!
