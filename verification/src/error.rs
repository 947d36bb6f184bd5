use vstd::prelude::*;

verus! {

/// A position outside the board was handed to a query.
#[derive(Debug, Clone, Copy, PartialEq, Eq, Structural)]
pub struct RangeError;

impl RangeError {
    /// The text shown for this error.
    pub fn message(&self) -> (s: String)
        ensures
            s@ == "RangeError: specified position is out of range"@,
    {
        "RangeError: specified position is out of range".to_string()
    }
}

/// Why a game could not be constructed.
#[derive(Debug, Clone, Copy, PartialEq, Eq, Structural)]
pub enum ConfigError {
    /// The board has no cells: its width or its height is zero.
    EmptyBoard,
    /// More mines were asked for than the board has cells.
    TooManyMines,
    /// A mine of a given layout lies outside the board.
    MineOutOfRange,
    /// A given layout names the same cell twice.
    DuplicateMine,
}

impl ConfigError {
    /// The text shown for this error.
    pub fn message(&self) -> (s: String)
        ensures
            s@ == (match *self {
                ConfigError::EmptyBoard => "ConfigError: the board has no cells"@,
                ConfigError::TooManyMines => "ConfigError: more mines than cells"@,
                ConfigError::MineOutOfRange => "ConfigError: a mine lies outside the board"@,
                ConfigError::DuplicateMine => "ConfigError: a cell holds two mines"@,
            }),
    {
        match self {
            ConfigError::EmptyBoard => "ConfigError: the board has no cells".to_string(),
            ConfigError::TooManyMines => "ConfigError: more mines than cells".to_string(),
            ConfigError::MineOutOfRange => "ConfigError: a mine lies outside the board".to_string(),
            ConfigError::DuplicateMine => "ConfigError: a cell holds two mines".to_string(),
        }
    }
}

} // verus!
