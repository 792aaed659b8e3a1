use tictactoe::App;
use tictactoe::CellWidget;
use tictactoe::GameResult;
use tictactoe::GameState;
use tictactoe::Player;
use tictactoe::TicTacToe;

const X: Player = Player::X;
const O: Player = Player::O;
const E: Player = Player::Empty;

#[test]
fn new_session_starts_on_mark_selection() {
    let app = App::new();
    assert_eq!(app.player, O);
    assert_eq!(app.game_state, GameState::SelectPlayer);
    assert_eq!(app.selected_index, 0);
    assert_eq!(app.board, App::get_empty_board());
    assert!(!app.exit);
}

#[test]
fn computer_skips_its_turn_on_a_full_board() {
    let mut app = App::new();
    app.board = vec![X, O, X, X, O, O, O, X, X];
    app.play_as_computer();
    assert_eq!(app.board, vec![X, O, X, X, O, O, O, X, X]);
}

#[test]
fn computer_places_exactly_one_opponent_mark() {
    let mut app = App::new();
    app.player = X;
    app.board = vec![X, E, E, E, E, E, E, E, E];
    app.play_as_computer();
    let placed: Vec<usize> = (0..9).filter(|&i| app.board[i] == O).collect();
    assert_eq!(placed.len(), 1);
    assert_eq!(app.board.iter().filter(|&&c| c == X).count(), 1);
}

#[test]
fn computer_takes_its_winning_cell_and_the_game_ends() {
    // The human plays O; the computer X holds the 0-4 diagonal and wins at 8.
    let mut app = App::new();
    app.player = O;
    app.game_state = GameState::Playing;
    app.board = vec![X, O, O, O, X, E, E, E, E];
    app.play_as_computer();
    assert_eq!(app.board[8], X);
    app.check_game_state();
    assert_eq!(app.game_state, GameState::GameOver(GameResult::Win(X)));
}

#[test]
fn unfinished_game_keeps_its_state() {
    let mut app = App::new();
    app.game_state = GameState::Playing;
    app.board = vec![X, O, E, E, E, E, E, E, E];
    app.check_game_state();
    assert_eq!(app.game_state, GameState::Playing);
    assert_eq!(app.board, vec![X, O, E, E, E, E, E, E, E]);
}

#[test]
fn drawn_game_is_reported_as_over() {
    let mut app = App::new();
    app.game_state = GameState::Playing;
    app.board = vec![X, O, X, X, O, O, O, X, X];
    app.check_game_state();
    assert_eq!(app.game_state, GameState::GameOver(GameResult::Draw));
}

#[test]
fn a_full_round_from_an_empty_board_stays_open() {
    // One human move and the reply cannot finish a game.
    let mut app = App::new();
    app.player = X;
    app.game_state = GameState::Playing;
    app.board[4] = X;
    app.play_as_computer();
    app.check_game_state();
    assert_eq!(app.game_state, GameState::Playing);
    assert_eq!(app.board.iter().filter(|&&c| c == E).count(), 7);
}

#[test]
fn cell_widget_has_a_fixed_size() {
    assert_eq!(CellWidget::size(), 10);
    let w = CellWidget { player: X, is_selected: true, is_winner: false };
    assert_eq!(w.player, X);
    assert!(w.is_selected);
    assert!(!w.is_winner);
}

#[test]
fn engine_state_exposes_its_board() {
    let mut t = TicTacToe::new();
    assert!(TicTacToe::is_empty(&t.board));
    t.board[0] = X;
    assert!(!TicTacToe::is_empty(&t.board));
}
