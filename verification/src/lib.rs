//! A grid-based snake game engine: a wraparound tile grid, a snake state
//! machine, a bounded random fruit spawner, a plurality-vote move aggregator,
//! and a text renderer. Every operation carries a contract describing its
//! effect on the game state.
use vstd::prelude::*;

pub mod fruit;
pub mod game;
pub mod game_level;
pub mod helper;
pub mod renderer;
mod rng;
pub mod snake;

pub use fruit::FruitRandomLimited;
pub use game::Game;
pub use game_level::{
    GameLevel, LevelCoordinates, LevelDimensions, SiblingPosition, Tile, TileSiblings, TileType,
    TileXY,
};
pub use helper::get_most_move_occurrences_in;
pub use renderer::GameDisplayToString;
pub use snake::SnakeUnbounded;

verus! {

/// The four axis-aligned movement directions.
#[derive(Debug, Copy, Clone, PartialEq, Eq, Hash, Structural)]
pub enum MovementDirection {
    Up,
    Down,
    Left,
    Right,
}

impl MovementDirection {
    /// The exact reverse of a direction.
    pub open spec fn spec_opposite(self) -> MovementDirection {
        match self {
            MovementDirection::Up => MovementDirection::Down,
            MovementDirection::Down => MovementDirection::Up,
            MovementDirection::Left => MovementDirection::Right,
            MovementDirection::Right => MovementDirection::Left,
        }
    }

    /// Whether `new_direction` is the exact reverse of `self`.
    pub fn is_opposite_to(&self, new_direction: &Self) -> (r: bool)
        ensures
            r == (*new_direction == self.spec_opposite()),
    {
        match (self, new_direction) {
            (MovementDirection::Left, MovementDirection::Right) => true,
            (MovementDirection::Right, MovementDirection::Left) => true,
            (MovementDirection::Up, MovementDirection::Down) => true,
            (MovementDirection::Down, MovementDirection::Up) => true,
            _ => false,
        }
    }
}

/// How an operation on the game can fail.
#[derive(Debug, Copy, Clone, PartialEq, Eq, Structural)]
pub enum GameError {
    /// The snake collided with itself, or a reversal was requested:
    /// the expected terminal outcome of normal play.
    GameOver,
    /// An internal invariant was violated; a defect signal, never a
    /// gameplay outcome.
    InvalidInternalState,
    /// The render sink failed to format output.
    RenderingError,
    /// Invalid construction parameters.
    ConfigError,
}

} // verus!
