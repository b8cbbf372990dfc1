//! The board-state engine of a Minesweeper game.
//!
//! The crate owns the grid, the mine layout, the reveal and flag rules, and
//! the detection of wins and losses. Every executable function carries a
//! contract over a mathematical model of the board, and the contracts are
//! machine-checked.
//!
//! - [`grid`]: coordinates, adjacency and the numbering of cells.
//! - [`board`]: the model of a board and the rules of the game stated on it.
//! - [`minesweeper`]: the mine field and its actions.
//! - [`session`]: a game, with the first-reveal rule and the flag budget.
//! - [`snapshot`]: the picture of a board for a renderer.
//! - [`random`]: the supplier of mine positions.
//! - [`presets`]: the board sizes that are offered by name.
//! - [`laws`]: what holds of every board and every session.
//! - [`cells`], [`flood`]: lemmas that the proofs rest on.

pub mod board;
pub mod cells;
pub mod flood;
pub mod grid;
pub mod laws;
pub mod minesweeper;
pub mod presets;
pub mod random;
pub mod session;
pub mod snapshot;

pub use crate::grid::{BoardSize, Position};
pub use crate::minesweeper::{FlagResult, InvalidConfiguration, Minesweeper, OpenResult};
pub use crate::presets::Preset;
pub use crate::random::{fields_from_draws, random_fields};
pub use crate::session::{FlagOutcome, GameSession, OpenOutcome};
pub use crate::snapshot::{CellView, Snapshot};
