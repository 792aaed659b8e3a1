//! Verified core of a 3x3 two-player board game.
//!
//! The rules engine classifies a board as in progress, won, or drawn, and
//! enumerates the empty cells; the search engine runs an exhaustive minimax
//! over the game tree and picks an optimal move, breaking ties at random.

pub mod app;
pub mod entities;
pub mod laws;
pub mod tictactoe;

pub use app::App;
pub use entities::Board;
pub use entities::GameResult;
pub use entities::GameState;
pub use entities::CellWidget;
pub use entities::Player;
pub use tictactoe::TicTacToe;
