//! The stated laws of the engine, each proved from the public contracts:
//! how classification relates to lines and fullness; the safety of optimal
//! play — a side that is not losing never hands its opponent a win; and the
//! quarter-turn symmetry of the search.

use vstd::prelude::*;

use crate::entities::GameResult;
use crate::entities::Player;
use crate::entities::spec_opponent;
use crate::tictactoe::all_empty;
use crate::tictactoe::b_empty_at;
use crate::tictactoe::board_full;
use crate::tictactoe::board_ok;
use crate::tictactoe::count_empty;
use crate::tictactoe::count_empty_upto;
use crate::tictactoe::has_line;
use crate::tictactoe::is_optimal_move;
use crate::tictactoe::lemma_count_empty_in_range;
use crate::tictactoe::lemma_count_empty_update;
use crate::tictactoe::lemma_count_empty_upto_extremes;
use crate::tictactoe::lemma_max_score_from_sup;
use crate::tictactoe::lemma_min_score_from_inf;
use crate::tictactoe::lemma_playing_has_empty;
use crate::tictactoe::max_score_from;
use crate::tictactoe::min_score_from;
use crate::tictactoe::minimax;
use crate::tictactoe::spec_game_result;

verus! {

/// A classification of `Win` can only come from a completed line of that
/// same non-empty mark.
pub proof fn lemma_win_has_line(b: Seq<Player>, m: Player)
    requires
        board_ok(b),
        spec_game_result(b) == GameResult::Win(m),
    ensures
        has_line(b, m),
        m != Player::Empty,
{
}

/// A board still in progress has no completed line at all.
pub proof fn lemma_playing_no_line(b: Seq<Player>)
    requires
        board_ok(b),
        spec_game_result(b) == GameResult::Playing,
    ensures
        !has_line(b, Player::X),
        !has_line(b, Player::O),
{
}

/// A board with exactly one empty cell and no completed line is still in
/// progress, and the enumerated moves — anything meeting the enumeration's
/// contract — are exactly that one cell.
pub proof fn lemma_one_empty_no_line(b: Seq<Player>, e: int, moves: Seq<usize>)
    requires
        board_ok(b),
        0 <= e < 9,
        b_empty_at(b, e),
        count_empty(b) == 1,
        !has_line(b, Player::X),
        !has_line(b, Player::O),
        moves.len() == count_empty(b),
        forall|i: usize| i < b.len() && b_empty_at(b, i as int) ==> moves.contains(i),
    ensures
        moves =~= seq![e as usize],
        spec_game_result(b) == GameResult::Playing,
{
    assert(moves.contains(e as usize));
    assert(moves[0] == e as usize);
    assert(!all_empty(b)) by {
        lemma_count_empty_upto_extremes(b, 9);
    }
    assert(!board_full(b));
}

/// A completed line of a non-empty mark wins the board for that mark — even
/// with empty cells remaining — as long as the other mark has no line of its
/// own (with two rival lines the first in the fixed order wins instead).
pub proof fn lemma_line_gives_win(b: Seq<Player>, m: Player)
    requires
        board_ok(b),
        m != Player::Empty,
        has_line(b, m),
        !has_line(b, spec_opponent(m)),
    ensures
        spec_game_result(b) == GameResult::Win(m),
{
    assert(!all_empty(b));
}

/// A full board with no completed line is a draw.
pub proof fn lemma_full_no_line_draw(b: Seq<Player>)
    requires
        board_ok(b),
        board_full(b),
        !has_line(b, Player::X),
        !has_line(b, Player::O),
    ensures
        spec_game_result(b) == GameResult::Draw,
{
    assert(b[0] != Player::Empty);
    assert(!all_empty(b));
}

/// The all-empty board is still in progress.
pub proof fn lemma_empty_board_playing(b: Seq<Player>)
    requires
        board_ok(b),
        all_empty(b),
    ensures
        spec_game_result(b) == GameResult::Playing,
{
}

/// Placing a mark other than `m` never completes a line for `m`.
pub proof fn lemma_place_keeps_no_line(b: Seq<Player>, i: int, v: Player, m: Player)
    requires
        board_ok(b),
        0 <= i < 9,
        v != m,
        !has_line(b, m),
    ensures
        !has_line(b.update(i, v), m),
{
}

/// A side whose minimax value is not negative has not lost the board.
pub proof fn lemma_nonneg_not_lost(b: Seq<Player>, p: Player)
    requires
        board_ok(b),
        p != Player::Empty,
        minimax(b, p, true, 0) >= 0,
    ensures
        spec_game_result(b) != GameResult::Win(spec_opponent(p)),
{
    if spec_game_result(b) == GameResult::Win(spec_opponent(p)) {
        assert(minimax(b, p, true, 0) == -100);
    }
}

/// The sign of the minimax value does not depend on the depth the search
/// starts from: a position is non-losing at one depth exactly when it is at
/// another.
pub proof fn lemma_minimax_sign(b: Seq<Player>, p: Player, maximizing: bool, d1: int, d2: int)
    requires
        board_ok(b),
        p != Player::Empty,
        0 <= d1,
        d1 + count_empty(b) <= 9,
        0 <= d2,
        d2 + count_empty(b) <= 9,
    ensures
        (minimax(b, p, maximizing, d1) >= 0) == (minimax(b, p, maximizing, d2) >= 0),
    decreases count_empty(b), 10int,
{
    lemma_count_empty_in_range(b);
    if spec_game_result(b) == GameResult::Playing {
        if maximizing {
            lemma_max_sign(b, p, d1, d2, 0);
        } else {
            lemma_min_sign(b, p, d1, d2, 0);
        }
    }
}

proof fn lemma_max_sign(b: Seq<Player>, p: Player, d1: int, d2: int, i: int)
    requires
        board_ok(b),
        p != Player::Empty,
        0 <= d1,
        d1 + count_empty(b) <= 9,
        0 <= d2,
        d2 + count_empty(b) <= 9,
        0 <= i <= 9,
    ensures
        (max_score_from(b, p, d1, i) >= 0) == (max_score_from(b, p, d2, i) >= 0),
    decreases count_empty(b), 9 - i,
{
    if i < 9 {
        lemma_max_sign(b, p, d1, d2, i + 1);
        if b_empty_at(b, i) {
            lemma_count_empty_update(b, i, p);
            lemma_count_empty_in_range(b.update(i, p));
            lemma_minimax_sign(b.update(i, p), p, false, d1 + 1, d2 + 1);
        }
    }
}

proof fn lemma_min_sign(b: Seq<Player>, p: Player, d1: int, d2: int, i: int)
    requires
        board_ok(b),
        p != Player::Empty,
        0 <= d1,
        d1 + count_empty(b) <= 9,
        0 <= d2,
        d2 + count_empty(b) <= 9,
        0 <= i <= 9,
    ensures
        (min_score_from(b, p, d1, i) >= 0) == (min_score_from(b, p, d2, i) >= 0),
    decreases count_empty(b), 9 - i,
{
    if i < 9 {
        lemma_min_sign(b, p, d1, d2, i + 1);
        if b_empty_at(b, i) {
            lemma_count_empty_update(b, i, spec_opponent(p));
            lemma_count_empty_in_range(b.update(i, spec_opponent(p)));
            lemma_minimax_sign(b.update(i, spec_opponent(p)), p, true, d1 + 1, d2 + 1);
        }
    }
}

/// Optimal play is never beaten, one round at a time: from a position still
/// in progress where the side to move is not losing, an optimal move never
/// hands the opponent the game; and if the game goes on, then after any
/// legal opponent reply the side to move has still not lost and is still
/// not losing. Chained over the rounds of a game, this is the induction
/// step showing that a side that starts not losing and always plays an
/// optimal move never ends in a board its opponent has won;
/// `lemma_optimal_play_never_beaten` does that chaining.
pub proof fn lemma_optimal_move_is_safe(b: Seq<Player>, p: Player, mv: int)
    requires
        board_ok(b),
        p != Player::Empty,
        spec_game_result(b) == GameResult::Playing,
        is_optimal_move(b, p, mv),
        minimax(b, p, true, 0) >= 0,
    ensures
        spec_game_result(b.update(mv, p)) != GameResult::Win(spec_opponent(p)),
        spec_game_result(b.update(mv, p)) == GameResult::Playing ==> forall|j: int|
            0 <= j < 9 && b_empty_at(b.update(mv, p), j) ==> {
                let reply = b.update(mv, p).update(j, spec_opponent(p));
                spec_game_result(reply) != GameResult::Win(spec_opponent(p)) && minimax(
                    reply,
                    p,
                    true,
                    0,
                ) >= 0
            },
{
    let opp = spec_opponent(p);
    let bp = b.update(mv, p);
    lemma_playing_no_line(b);
    lemma_place_keeps_no_line(b, mv, p, opp);
    if spec_game_result(bp) == GameResult::Win(opp) {
        lemma_win_has_line(bp, opp);
    }
    lemma_playing_has_empty(b);
    lemma_count_empty_in_range(b);
    lemma_count_empty_update(b, mv, p);
    if spec_game_result(bp) == GameResult::Playing {
        assert(minimax(bp, p, false, 1) == max_score_from(b, p, 0, 0));
        assert(minimax(bp, p, false, 1) == min_score_from(bp, p, 1, 0));
        lemma_min_score_from_inf(bp, p, 1, 0);
        assert forall|j: int| 0 <= j < 9 && b_empty_at(bp, j) implies {
            let reply = bp.update(j, opp);
            spec_game_result(reply) != GameResult::Win(opp) && minimax(reply, p, true, 0) >= 0
        } by {
            let reply = bp.update(j, opp);
            assert(minimax(reply, p, true, 2) >= min_score_from(bp, p, 1, 0));
            lemma_count_empty_update(bp, j, opp);
            lemma_count_empty_in_range(reply);
            lemma_minimax_sign(reply, p, true, 2, 0);
            lemma_nonneg_not_lost(reply, p);
        }
    }
}

/// The board after the listed cells are filled in turn order: the computer's
/// own mark `p` goes in when it is the computer's turn, its opponent's mark
/// otherwise, and the turns alternate.
pub open spec fn board_after(
    b: Seq<Player>,
    p: Player,
    moves: Seq<int>,
    computer_turn: bool,
) -> Seq<Player>
    decreases moves.len(),
{
    if moves.len() == 0 {
        b
    } else {
        let mark = if computer_turn {
            p
        } else {
            spec_opponent(p)
        };
        board_after(
            b.update(moves[0], mark),
            p,
            moves.subrange(1, moves.len() as int),
            !computer_turn,
        )
    }
}

/// A legal stretch of play from `b`: each listed move lands in an empty cell
/// of a board still in progress, the turns alternate, and every move the
/// computer makes is optimal. The human's moves are arbitrary legal moves.
pub open spec fn optimal_play(b: Seq<Player>, p: Player, moves: Seq<int>, computer_turn: bool) -> bool
    decreases moves.len(),
{
    moves.len() == 0 || {
        let mark = if computer_turn {
            p
        } else {
            spec_opponent(p)
        };
        &&& spec_game_result(b) == GameResult::Playing
        &&& 0 <= moves[0] < 9
        &&& b_empty_at(b, moves[0])
        &&& (computer_turn ==> is_optimal_move(b, p, moves[0]))
        &&& optimal_play(
            b.update(moves[0], mark),
            p,
            moves.subrange(1, moves.len() as int),
            !computer_turn,
        )
    }
}

/// The never-beaten law over a whole game: start the computer's turn at a
/// position it has not lost and is not losing; then however the game runs on
/// — any legal human replies, any optimal computer moves, stopped at any
/// point — the board is never one the computer's opponent has won.
pub proof fn lemma_optimal_play_never_beaten(b: Seq<Player>, p: Player, moves: Seq<int>)
    requires
        board_ok(b),
        p != Player::Empty,
        minimax(b, p, true, 0) >= 0,
        optimal_play(b, p, moves, true),
    ensures
        spec_game_result(board_after(b, p, moves, true)) != GameResult::Win(spec_opponent(p)),
    decreases moves.len(),
{
    let opp = spec_opponent(p);
    if moves.len() == 0 {
        lemma_nonneg_not_lost(b, p);
    } else {
        let m0 = moves[0];
        let b1 = b.update(m0, p);
        let rest = moves.subrange(1, moves.len() as int);
        lemma_optimal_move_is_safe(b, p, m0);
        assert(board_after(b, p, moves, true) == board_after(b1, p, rest, false));
        if rest.len() == 0 {
            assert(board_after(b1, p, rest, false) == b1);
        } else {
            let m1 = rest[0];
            let b2 = b1.update(m1, opp);
            let rest2 = rest.subrange(1, rest.len() as int);
            assert(optimal_play(b1, p, rest, false));
            assert(spec_game_result(b1) == GameResult::Playing);
            assert(0 <= m1 < 9 && b_empty_at(b1, m1));
            assert(optimal_play(b2, p, rest2, true));
            assert(minimax(b2, p, true, 0) >= 0 && spec_game_result(b2) != GameResult::Win(opp));
            assert(board_after(b1, p, rest, false) == board_after(b2, p, rest2, true));
            lemma_optimal_play_never_beaten(b2, p, rest2);
        }
    }
}

/// The board cell that lands at index `i` after a clockwise quarter turn.
pub open spec fn rot_src(i: int) -> int {
    if i == 0 {
        6
    } else if i == 1 {
        3
    } else if i == 2 {
        0
    } else if i == 3 {
        7
    } else if i == 4 {
        4
    } else if i == 5 {
        1
    } else if i == 6 {
        8
    } else if i == 7 {
        5
    } else {
        2
    }
}

/// Where the board cell at index `i` lands after a clockwise quarter turn;
/// the inverse of `rot_src`.
pub open spec fn rot_dst(i: int) -> int {
    if i == 0 {
        2
    } else if i == 1 {
        5
    } else if i == 2 {
        8
    } else if i == 3 {
        1
    } else if i == 4 {
        4
    } else if i == 5 {
        7
    } else if i == 6 {
        0
    } else if i == 7 {
        3
    } else {
        6
    }
}

/// The board turned a quarter turn clockwise.
pub open spec fn rotate(b: Seq<Player>) -> Seq<Player> {
    Seq::new(9, |i: int| b[rot_src(i)])
}

/// Rotating after a placement is placing after a rotation, at the rotated
/// cell.
pub proof fn lemma_rotate_update(b: Seq<Player>, i: int, v: Player)
    requires
        board_ok(b),
        0 <= i < 9,
    ensures
        rotate(b.update(i, v)) == rotate(b).update(rot_dst(i), v),
{
    assert(rotate(b.update(i, v)) =~= rotate(b).update(rot_dst(i), v));
}

/// Rotation carries each completed line to a completed line of the same
/// mark, and keeps emptiness, fullness and the empty-cell count.
pub proof fn lemma_rotate_structure(b: Seq<Player>)
    requires
        board_ok(b),
    ensures
        board_ok(rotate(b)),
        forall|m: Player| #[trigger] has_line(rotate(b), m) == has_line(b, m),
        all_empty(rotate(b)) == all_empty(b),
        board_full(rotate(b)) == board_full(b),
        forall|i: int| 0 <= i < 9 ==> b_empty_at(rotate(b), rot_dst(i)) == b_empty_at(b, i),
        count_empty(rotate(b)) == count_empty(b),
{
    let rb = rotate(b);
    assert(rb[0] == b[6] && rb[1] == b[3] && rb[2] == b[0] && rb[3] == b[7] && rb[4] == b[4]
        && rb[5] == b[1] && rb[6] == b[8] && rb[7] == b[5] && rb[8] == b[2]);
    assert forall|i: int| 0 <= i < 9 implies b_empty_at(rb, rot_dst(i)) == b_empty_at(b, i) by {
        assert(rb[rot_dst(i)] == b[i]);
    }
    if all_empty(b) {
        assert forall|i: int| 0 <= i < 9 implies rb[i] == Player::Empty by {
            assert(b[rot_src(i)] == Player::Empty);
        }
    }
    if all_empty(rb) {
        assert forall|i: int| 0 <= i < 9 implies b[i] == Player::Empty by {
            assert(rb[rot_dst(i)] == b[i]);
        }
    }
    if board_full(b) {
        assert forall|i: int| 0 <= i < 9 implies rb[i] != Player::Empty by {
            assert(b[rot_src(i)] != Player::Empty);
        }
    }
    if board_full(rb) {
        assert forall|i: int| 0 <= i < 9 implies b[i] != Player::Empty by {
            assert(rb[rot_dst(i)] == b[i]);
        }
    }
    assert(count_empty(rb) == count_empty(b)) by {
        reveal_with_fuel(count_empty_upto, 11);
    }
}

/// On a board where at most one mark has a completed line, rotation does not
/// change the classification. (With two rival completed lines — an illegal
/// board — the first line in the fixed checking order wins, and rotation can
/// reorder the lines.)
pub proof fn lemma_rotate_result(b: Seq<Player>)
    requires
        board_ok(b),
        !(has_line(b, Player::X) && has_line(b, Player::O)),
    ensures
        spec_game_result(rotate(b)) == spec_game_result(b),
{
    let rb = rotate(b);
    lemma_rotate_structure(b);
    if all_empty(b) {
        assert(spec_game_result(b) == GameResult::Playing);
        assert(spec_game_result(rb) == GameResult::Playing);
    } else if has_line(b, Player::X) {
        lemma_line_gives_win(b, Player::X);
        lemma_line_gives_win(rb, Player::X);
    } else if has_line(b, Player::O) {
        lemma_line_gives_win(b, Player::O);
        lemma_line_gives_win(rb, Player::O);
    } else if board_full(b) {
        lemma_full_no_line_draw(b);
        lemma_full_no_line_draw(rb);
    } else {
        assert(spec_game_result(b) == GameResult::Playing);
        assert(spec_game_result(rb) == GameResult::Playing);
    }
}

/// Rotating the board does not change its minimax value, as long as at most
/// one mark holds a completed line — which is every board that legal play
/// can reach.
pub proof fn lemma_rotate_minimax(b: Seq<Player>, p: Player, maximizing: bool, depth: int)
    requires
        board_ok(b),
        p != Player::Empty,
        !(has_line(b, Player::X) && has_line(b, Player::O)),
    ensures
        minimax(rotate(b), p, maximizing, depth) == minimax(b, p, maximizing, depth),
    decreases count_empty(b),
{
    let rb = rotate(b);
    let opp = spec_opponent(p);
    lemma_count_empty_in_range(b);
    lemma_rotate_structure(b);
    lemma_rotate_result(b);
    if spec_game_result(b) == GameResult::Playing {
        lemma_playing_no_line(b);
        if maximizing {
            assert forall|j: int| 0 <= j < 9 && b_empty_at(rb, j) implies minimax(
                rb.update(j, p),
                p,
                false,
                depth + 1,
            ) == minimax(b.update(rot_src(j), p), p, false, depth + 1) by {
                let i = rot_src(j);
                assert(b_empty_at(rb, rot_dst(i)) == b_empty_at(b, i));
                lemma_rotate_update(b, i, p);
                lemma_place_keeps_no_line(b, i, p, opp);
                lemma_count_empty_update(b, i, p);
                lemma_count_empty_in_range(b.update(i, p));
                lemma_rotate_minimax(b.update(i, p), p, false, depth + 1);
            }
            lemma_max_score_from_sup(b, p, depth, 0);
            lemma_max_score_from_sup(rb, p, depth, 0);
            let vb = max_score_from(b, p, depth, 0);
            let vr = max_score_from(rb, p, depth, 0);
            assert forall|j: int| 0 <= j < 9 && b_empty_at(rb, j) implies vb >= minimax(
                rb.update(j, p),
                p,
                false,
                depth + 1,
            ) by {
                assert(b_empty_at(rb, rot_dst(rot_src(j))) == b_empty_at(b, rot_src(j)));
                assert(vb >= minimax(b.update(rot_src(j), p), p, false, depth + 1));
            }
            assert forall|i: int| 0 <= i < 9 && b_empty_at(b, i) implies vr >= minimax(
                b.update(i, p),
                p,
                false,
                depth + 1,
            ) by {
                assert(b_empty_at(rb, rot_dst(i)) == b_empty_at(b, i));
                assert(vr >= minimax(rb.update(rot_dst(i), p), p, false, depth + 1));
                assert(minimax(rb.update(rot_dst(i), p), p, false, depth + 1) == minimax(
                    b.update(rot_src(rot_dst(i)), p),
                    p,
                    false,
                    depth + 1,
                ));
            }
            assert(vr <= vb);
            assert(vb <= vr);
        } else {
            assert forall|j: int| 0 <= j < 9 && b_empty_at(rb, j) implies minimax(
                rb.update(j, opp),
                p,
                true,
                depth + 1,
            ) == minimax(b.update(rot_src(j), opp), p, true, depth + 1) by {
                let i = rot_src(j);
                assert(b_empty_at(rb, rot_dst(i)) == b_empty_at(b, i));
                lemma_rotate_update(b, i, opp);
                lemma_place_keeps_no_line(b, i, opp, p);
                lemma_count_empty_update(b, i, opp);
                lemma_count_empty_in_range(b.update(i, opp));
                lemma_rotate_minimax(b.update(i, opp), p, true, depth + 1);
            }
            lemma_min_score_from_inf(b, p, depth, 0);
            lemma_min_score_from_inf(rb, p, depth, 0);
            let vb = min_score_from(b, p, depth, 0);
            let vr = min_score_from(rb, p, depth, 0);
            assert forall|j: int| 0 <= j < 9 && b_empty_at(rb, j) implies vb <= minimax(
                rb.update(j, opp),
                p,
                true,
                depth + 1,
            ) by {
                assert(b_empty_at(rb, rot_dst(rot_src(j))) == b_empty_at(b, rot_src(j)));
                assert(vb <= minimax(b.update(rot_src(j), opp), p, true, depth + 1));
            }
            assert forall|i: int| 0 <= i < 9 && b_empty_at(b, i) implies vr <= minimax(
                b.update(i, opp),
                p,
                true,
                depth + 1,
            ) by {
                assert(b_empty_at(rb, rot_dst(i)) == b_empty_at(b, i));
                assert(vr <= minimax(rb.update(rot_dst(i), opp), p, true, depth + 1));
                assert(minimax(rb.update(rot_dst(i), opp), p, true, depth + 1) == minimax(
                    b.update(rot_src(rot_dst(i)), opp),
                    p,
                    true,
                    depth + 1,
                ));
            }
            assert(vr >= vb);
            assert(vb >= vr);
        }
    }
}

/// Symmetry of the search: on a board still in progress, rotating the board
/// rotates the optimal moves and keeps the root value — the score of an
/// optimal move on the rotated board equals the score of the corresponding
/// optimal move on the unrotated board.
pub proof fn lemma_rotation_preserves_optimal(b: Seq<Player>, p: Player, mv: int)
    requires
        board_ok(b),
        p != Player::Empty,
        spec_game_result(b) == GameResult::Playing,
        is_optimal_move(b, p, mv),
    ensures
        is_optimal_move(rotate(b), p, rot_dst(mv)),
        minimax(rotate(b), p, true, 0) == minimax(b, p, true, 0),
{
    let rb = rotate(b);
    let opp = spec_opponent(p);
    lemma_playing_no_line(b);
    lemma_rotate_structure(b);
    lemma_rotate_result(b);
    lemma_rotate_minimax(b, p, true, 0);
    lemma_rotate_update(b, mv, p);
    lemma_place_keeps_no_line(b, mv, p, opp);
    lemma_rotate_minimax(b.update(mv, p), p, false, 1);
    assert(b_empty_at(rb, rot_dst(mv)) == b_empty_at(b, mv));
    assert(minimax(rb.update(rot_dst(mv), p), p, false, 1) == minimax(b.update(mv, p), p, false, 1));
    assert(max_score_from(rb, p, 0, 0) == minimax(rb, p, true, 0));
    assert(max_score_from(b, p, 0, 0) == minimax(b, p, true, 0));
}

} // verus!
