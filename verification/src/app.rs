//! The session state around the engine: the human's mark, the current
//! screen, the cursor, and the board. The presentation layer owns the input
//! and the drawing; the decisions that touch the rules — the computer's turn
//! and the end-of-game check — live here, verified.

use vstd::pervasive::VecAdditionalExecFns;
use vstd::prelude::*;

use crate::entities::Board;
use crate::entities::GameResult;
use crate::entities::GameState;
use crate::entities::Player;
use crate::entities::spec_opponent;
use crate::tictactoe::TicTacToe;
use crate::tictactoe::all_empty;
use crate::tictactoe::board_full;
use crate::tictactoe::board_ok;
use crate::tictactoe::is_optimal_move;
use crate::tictactoe::spec_game_result;

verus! {

/// The state of one interactive session.
#[derive(Debug)]
pub struct App {
    /// The human's mark; the computer plays its opponent.
    pub player: Player,
    pub game_state: GameState,
    /// The cursor: the cell the human has highlighted.
    pub selected_index: u16,
    pub board: Board,
    pub exit: bool,
}

impl App {
    /// What the engine needs of a session: a 9-cell board and a human mark
    /// that is a real player, not the empty sentinel.
    pub open spec fn wf(self) -> bool {
        board_ok(self.board@) && self.player != Player::Empty
    }

    /// A fresh session: the human plays `O` until they pick otherwise, the
    /// mark-selection screen is up, and the board is empty.
    pub fn new() -> (r: App)
        ensures
            r.wf(),
            r.player == Player::O,
            r.game_state == GameState::SelectPlayer,
            r.selected_index == 0,
            all_empty(r.board@),
            !r.exit,
    {
        App {
            player: Player::O,
            game_state: GameState::SelectPlayer,
            selected_index: 0,
            board: App::get_empty_board(),
            exit: false,
        }
    }

    /// A board of 9 empty cells.
    pub fn get_empty_board() -> (b: Board)
        ensures
            board_ok(b@),
            all_empty(b@),
    {
        TicTacToe::get_empty_board()
    }

    /// The computer's turn: on a full board nothing happens; otherwise the
    /// human's opponent is placed on one optimal empty cell, and the rest of
    /// the session state is untouched.
    pub fn play_as_computer(&mut self)
        requires
            old(self).wf(),
        ensures
            final(self).wf(),
            final(self).player == old(self).player,
            final(self).game_state == old(self).game_state,
            final(self).selected_index == old(self).selected_index,
            final(self).exit == old(self).exit,
            board_full(old(self).board@) ==> final(self).board@ == old(self).board@,
            !board_full(old(self).board@) ==> exists|mv: int|
                is_optimal_move(old(self).board@, spec_opponent(old(self).player), mv)
                    && final(self).board@ == old(self).board@.update(
                    mv,
                    spec_opponent(old(self).player),
                ),
    {
        if TicTacToe::is_full(&self.board) {
            return ;
        }
        let computer = self.player.get_opponent();
        let index = TicTacToe::get_best_move(&self.board, computer);
        self.board.set(index, computer);
        proof {
            assert(is_optimal_move(old(self).board@, spec_opponent(old(self).player), index as int)
                && self.board@ == old(self).board@.update(
                index as int,
                spec_opponent(old(self).player),
            ));
        }
    }

    /// Classify the board and, if the game has ended, move to the game-over
    /// screen carrying that result; an unfinished game changes nothing.
    pub fn check_game_state(&mut self)
        requires
            board_ok(old(self).board@),
        ensures
            final(self).player == old(self).player,
            final(self).selected_index == old(self).selected_index,
            final(self).board@ == old(self).board@,
            final(self).exit == old(self).exit,
            final(self).game_state == if spec_game_result(old(self).board@) != GameResult::Playing {
                GameState::GameOver(spec_game_result(old(self).board@))
            } else {
                old(self).game_state
            },
    {
        let result = TicTacToe::get_game_result(&self.board);
        if result != GameResult::Playing {
            self.game_state = GameState::GameOver(result);
        }
    }
}

} // verus!
