//! A grid-deduction game engine: a rectangular board with hidden mines, where
//! cells are opened or flagged, openings cascade through regions with no mine
//! nearby, and the game ends when a mine is opened or every safe cell is open.
//! Which cells count as neighbours is chosen per game by a geometry variant.

pub mod board;
pub mod geometry;
pub mod grid;
pub mod input;
pub mod laws;

pub use board::{BoardView, CellView, GameSettings, GameState, Minesweeper, MoveType, Position};
pub use geometry::MinesweeperVariant;
pub use input::{
    command_from_lowered, move_pos_from, parse_move_type, parse_usize, MoveCommand,
    MoveValidationError, PosInput, VariantParseError,
};
