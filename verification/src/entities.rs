//! The value types of the game: marks, boards, outcomes, and the state of a
//! running session.

use vstd::prelude::*;

verus! {

/// A mark on the board: one of the two players' symbols, or the empty-cell
/// sentinel `Empty` (which is not a player).
#[derive(Debug, Clone, Copy, PartialEq, Eq, Structural)]
pub enum Player {
    O,
    X,
    Empty,
}

/// A board is an ordered sequence of 9 marks, laid out row-major:
/// indices 0 1 2 on the top row, 3 4 5 in the middle, 6 7 8 at the bottom.
pub type Board = Vec<Player>;

/// The classification of a board: still in progress, won by a mark
/// (never `Empty`), or drawn.
#[derive(Debug, Clone, Copy, PartialEq, Eq, Structural)]
pub enum GameResult {
    Playing,
    Win(Player),
    Draw,
}

/// Which screen a session is on: picking a mark, playing, or showing the
/// final result.
#[derive(Debug, Clone, Copy, PartialEq, Eq, Structural)]
pub enum GameState {
    SelectPlayer,
    Playing,
    GameOver(GameResult),
}

/// The mark the given mark plays against; `Empty` maps to itself as a
/// sentinel and is never used in scoring.
pub open spec fn spec_opponent(p: Player) -> Player {
    match p {
        Player::X => Player::O,
        Player::O => Player::X,
        Player::Empty => Player::Empty,
    }
}

/// The one-character text of a mark: its symbol, or a space for `Empty`.
pub open spec fn spec_text(p: Player) -> Seq<char> {
    match p {
        Player::X => seq!['X'],
        Player::O => seq!['O'],
        Player::Empty => seq![' '],
    }
}

impl Player {
    /// The mark this mark plays against.
    pub fn get_opponent(&self) -> (r: Player)
        ensures
            r == spec_opponent(*self),
    {
        match self {
            Player::X => Player::O,
            Player::O => Player::X,
            Player::Empty => Player::Empty,
        }
    }

    /// The character shown for this mark, as a one-character string.
    pub fn get_text(&self) -> (r: String)
        ensures
            r@ == spec_text(*self),
    {
        proof {
            broadcast use vstd::string::group_string_axioms;

            reveal_strlit("X");
            reveal_strlit("O");
            reveal_strlit(" ");
        }
        match self {
            Player::X => "X".to_string(),
            Player::O => "O".to_string(),
            Player::Empty => " ".to_string(),
        }
    }
}

/// The display state of one cell of the grid; drawing it is left to the
/// presentation layer.
pub struct CellWidget {
    pub player: Player,
    pub is_selected: bool,
    pub is_winner: bool,
}

impl CellWidget {
    /// The width, in columns, of one rendered cell.
    pub fn size() -> (r: u16)
        ensures
            r == 10,
    {
        10
    }
}

} // verus!
