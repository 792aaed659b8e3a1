use tictactoe::GameResult;
use tictactoe::Player;
use tictactoe::TicTacToe;

fn board(cells: [Player; 9]) -> Vec<Player> {
    cells.to_vec()
}

const X: Player = Player::X;
const O: Player = Player::O;
const E: Player = Player::Empty;

#[test]
fn empty_board_is_playing() {
    let b = TicTacToe::get_empty_board();
    assert_eq!(TicTacToe::get_game_result(&b), GameResult::Playing);
}

#[test]
fn get_empty_board_has_nine_empty_cells() {
    let b = TicTacToe::get_empty_board();
    assert_eq!(b.len(), 9);
    assert!(b.iter().all(|c| *c == E));
    assert!(TicTacToe::is_empty(&b));
    assert!(!TicTacToe::is_full(&b));
}

#[test]
fn new_game_starts_empty() {
    let t = TicTacToe::new();
    assert_eq!(t.board, TicTacToe::get_empty_board());
}

#[test]
fn row_win_with_empty_cells_remaining() {
    let b = board([X, X, X, O, O, E, E, E, E]);
    assert_eq!(TicTacToe::get_game_result(&b), GameResult::Win(X));
}

#[test]
fn column_win_is_detected() {
    let b = board([O, X, E, O, X, E, O, E, X]);
    assert_eq!(TicTacToe::get_game_result(&b), GameResult::Win(O));
}

#[test]
fn diagonal_win_is_detected() {
    let b = board([X, O, O, E, X, E, E, E, X]);
    assert_eq!(TicTacToe::get_game_result(&b), GameResult::Win(X));
}

#[test]
fn anti_diagonal_win_is_detected() {
    let b = board([X, X, O, E, O, E, O, E, E]);
    assert_eq!(TicTacToe::get_game_result(&b), GameResult::Win(O));
}

#[test]
fn first_line_in_fixed_order_wins_on_overspecified_board() {
    // Both marks hold a line; the row checked first decides.
    let b = board([X, X, X, O, O, O, E, E, E]);
    assert_eq!(TicTacToe::get_game_result(&b), GameResult::Win(X));
}

#[test]
fn full_board_without_line_is_draw() {
    let b = board([X, O, X, X, O, O, O, X, X]);
    assert_eq!(TicTacToe::get_game_result(&b), GameResult::Draw);
}

#[test]
fn unfinished_board_is_playing() {
    let b = board([X, O, E, E, E, E, E, E, E]);
    assert_eq!(TicTacToe::get_game_result(&b), GameResult::Playing);
}

#[test]
fn one_empty_cell_no_line_plays_on() {
    // Exactly one empty cell, no completed line: the single available move
    // is that cell and the game is still in progress.
    let b = board([X, O, X, X, O, O, O, X, E]);
    assert_eq!(TicTacToe::get_game_result(&b), GameResult::Playing);
    assert_eq!(TicTacToe::get_available_moves(&b), vec![8]);
}

#[test]
fn available_moves_of_empty_board_are_all_cells() {
    let b = TicTacToe::get_empty_board();
    assert_eq!(TicTacToe::get_available_moves(&b), vec![0, 1, 2, 3, 4, 5, 6, 7, 8]);
}

#[test]
fn available_moves_of_full_board_are_none() {
    let b = board([X, O, X, X, O, O, O, X, X]);
    assert!(TicTacToe::get_available_moves(&b).is_empty());
    assert!(TicTacToe::is_full(&b));
    assert!(!TicTacToe::is_empty(&b));
}

#[test]
fn available_moves_are_ascending_empty_cells() {
    let b = board([E, X, E, O, E, X, E, O, E]);
    assert_eq!(TicTacToe::get_available_moves(&b), vec![0, 2, 4, 6, 8]);
}

#[test]
fn opponents_are_symmetric() {
    assert_eq!(X.get_opponent(), O);
    assert_eq!(O.get_opponent(), X);
    assert_eq!(E.get_opponent(), E);
}

#[test]
fn mark_text_is_its_symbol() {
    assert_eq!(X.get_text(), "X");
    assert_eq!(O.get_text(), "O");
    assert_eq!(E.get_text(), " ");
}
