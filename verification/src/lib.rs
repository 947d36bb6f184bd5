//! Rules engine of a minesweeper game: the board, the mine layout, the
//! player's cursor, and the transitions for moving, flagging, revealing and
//! detecting a win.
//!
//! Every operation has a contract over [`board::BoardView`], the mathematical
//! picture of a game.

pub mod board;
pub mod cells;
pub mod error;
pub mod game;
pub mod laws;
pub mod layout;

pub use board::{BoardView, Pos};
pub use error::{ConfigError, RangeError};
pub use game::GameState;
