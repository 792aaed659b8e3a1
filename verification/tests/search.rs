use tictactoe::GameResult;
use tictactoe::Player;
use tictactoe::TicTacToe;

const X: Player = Player::X;
const O: Player = Player::O;
const E: Player = Player::Empty;

fn board(cells: [Player; 9]) -> Vec<Player> {
    cells.to_vec()
}

#[test]
fn evaluate_scores_finished_boards() {
    let won = board([X, X, X, O, O, E, E, E, E]);
    assert_eq!(TicTacToe::evaluate(&won, X, true, 0), 100);
    assert_eq!(TicTacToe::evaluate(&won, O, true, 0), -100);
    let drawn = board([X, O, X, X, O, O, O, X, X]);
    assert_eq!(TicTacToe::evaluate(&drawn, X, true, 0), 0);
    assert_eq!(TicTacToe::evaluate(&drawn, O, false, 3), 0);
}

#[test]
fn evaluate_prefers_the_faster_win() {
    // X can win at once at cell 2: one ply below the root scores 99.
    let b = board([X, X, E, O, O, E, E, E, E]);
    assert_eq!(TicTacToe::evaluate(&b, X, true, 0), 99);
}

#[test]
fn evaluate_sees_a_lost_position() {
    // O to move cannot stop X from completing either 0-1-2 or 0-4-8.
    let b = board([X, X, E, O, X, E, O, E, E]);
    assert!(TicTacToe::evaluate(&b, X, false, 0) > 0);
}

#[test]
fn best_move_takes_the_winning_cell() {
    // The automated mark X holds 0 and 4; only 8 completes the diagonal.
    let b = board([X, O, O, O, X, E, E, E, E]);
    assert_eq!(TicTacToe::get_best_move(&b, X), 8);
}

#[test]
fn best_move_blocks_an_immediate_threat() {
    // O threatens 0-1-2 at cell 2; X has no win of its own, so it must block.
    let b = board([O, O, E, E, X, E, E, E, X]);
    assert_eq!(TicTacToe::get_best_move(&b, X), 2);
}

#[test]
fn best_move_returns_an_empty_cell() {
    let boards = [
        board([E, E, E, E, E, E, E, E, E]),
        board([X, E, E, E, O, E, E, E, E]),
        board([X, O, X, O, X, E, E, E, E]),
        board([X, O, X, X, O, O, O, X, E]),
    ];
    for b in boards.iter() {
        for p in [X, O] {
            let mv = TicTacToe::get_best_move(b, p);
            assert_eq!(b[mv], E);
        }
    }
}

#[test]
fn tie_break_picks_every_optimal_move_and_nothing_else() {
    // X can win at once at 2 (row 0-1-2) or at 8 (diagonal 0-4-8); both
    // score 99 and every other move scores less, so over many runs both
    // must appear and nothing else may.
    let b = board([X, X, E, E, X, E, O, O, E]);
    for (cell, want) in [(2usize, 99), (8usize, 99), (3usize, -98)] {
        let mut child = b.clone();
        child[cell] = X;
        let got = TicTacToe::evaluate(&child, X, false, 1);
        assert_eq!(got, want);
    }
    let mut seen2 = 0u32;
    let mut seen8 = 0u32;
    for _ in 0..300 {
        match TicTacToe::get_best_move(&b, X) {
            2 => seen2 += 1,
            8 => seen8 += 1,
            other => panic!("non-optimal move {}", other),
        }
    }
    assert!(seen2 >= 75, "cell 2 chosen only {} times of 300", seen2);
    assert!(seen8 >= 75, "cell 8 chosen only {} times of 300", seen8);
}

#[test]
fn rotated_board_has_the_same_score() {
    // A quarter turn clockwise: cell i of the rotated board is cell
    // ROT_SRC[i] of the original.
    const ROT_SRC: [usize; 9] = [6, 3, 0, 7, 4, 1, 8, 5, 2];
    let boards = [
        board([X, O, O, O, X, E, E, E, E]),
        board([X, E, E, E, O, E, E, E, E]),
        board([O, O, E, E, X, E, E, E, X]),
    ];
    for b in boards.iter() {
        let rotated: Vec<Player> = ROT_SRC.iter().map(|&s| b[s]).collect();
        for p in [X, O] {
            assert_eq!(
                TicTacToe::evaluate(&rotated, p, true, 0),
                TicTacToe::evaluate(b, p, true, 0)
            );
        }
    }
}

#[test]
fn computer_is_not_losing_after_any_opening() {
    // Whatever cell the human opens on, the replying side's value is not
    // negative: the computer can always at least draw from there.
    for i in 0..9 {
        let mut b = TicTacToe::get_empty_board();
        b[i] = X;
        assert!(TicTacToe::evaluate(&b, O, true, 0) >= 0, "losing after opening {}", i);
    }
}

fn explore_all_human_lines(b: &Vec<Player>, human: Player, computer: Player) {
    for mv in TicTacToe::get_available_moves(b) {
        let mut after_human = b.clone();
        after_human[mv] = human;
        let r = TicTacToe::get_game_result(&after_human);
        assert_ne!(r, GameResult::Win(human));
        if r != GameResult::Playing {
            continue;
        }
        let reply = TicTacToe::get_best_move(&after_human, computer);
        assert_eq!(after_human[reply], E);
        let mut after_computer = after_human;
        after_computer[reply] = computer;
        let r = TicTacToe::get_game_result(&after_computer);
        assert_ne!(r, GameResult::Win(human));
        if r == GameResult::Playing {
            explore_all_human_lines(&after_computer, human, computer);
        }
    }
}

#[test]
fn computer_is_never_beaten_from_the_empty_board() {
    // Every sequence of human moves, against the engine's own replies,
    // ends in a draw or a computer win.
    let empty = TicTacToe::get_empty_board();
    explore_all_human_lines(&empty, X, O);
}
