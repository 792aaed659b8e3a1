//! The rules engine and the search engine.
//!
//! The rules engine classifies a 9-cell board (rows first, then columns, then
//! diagonals, first completed line wins) and enumerates the empty cells. The
//! search engine is an exhaustive minimax over the game tree: `evaluate` is
//! the recursive scorer, `get_best_move` is the root-only chooser that picks
//! one optimal empty cell, breaking ties uniformly at random.

use vstd::pervasive::VecAdditionalExecFns;
use vstd::prelude::*;

use crate::entities::Board;
use crate::entities::GameResult;
use crate::entities::Player;
use crate::entities::spec_opponent;

verus! {

/// A well-formed board: exactly 9 cells, row-major.
pub open spec fn board_ok(b: Seq<Player>) -> bool {
    b.len() == 9
}

/// Every cell is unoccupied.
pub open spec fn all_empty(b: Seq<Player>) -> bool {
    forall|i: int| 0 <= i < b.len() ==> b[i] == Player::Empty
}

/// No cell is unoccupied.
pub open spec fn board_full(b: Seq<Player>) -> bool {
    forall|i: int| 0 <= i < b.len() ==> b[i] != Player::Empty
}

/// The cells at `i`, `j` and `k` hold the same non-empty mark.
pub open spec fn line_filled(b: Seq<Player>, i: int, j: int, k: int) -> bool {
    b[i] != Player::Empty && b[i] == b[j] && b[i] == b[k]
}

/// Mark `p` holds one of the 8 winning lines:
/// rows 0-1-2, 3-4-5, 6-7-8; columns 0-3-6, 1-4-7, 2-5-8;
/// diagonals 0-4-8, 2-4-6.
pub open spec fn has_line(b: Seq<Player>, p: Player) -> bool {
    p != Player::Empty && ((b[0] == p && b[1] == p && b[2] == p) || (b[3] == p && b[4] == p
        && b[5] == p) || (b[6] == p && b[7] == p && b[8] == p) || (b[0] == p && b[3] == p && b[6]
        == p) || (b[1] == p && b[4] == p && b[7] == p) || (b[2] == p && b[5] == p && b[8] == p) || (
    b[0] == p && b[4] == p && b[8] == p) || (b[2] == p && b[4] == p && b[6] == p))
}

/// The classification of a board, with the checks in the engine's fixed
/// order: the all-empty board first, then the 8 lines (first match wins),
/// then a full board is a draw, and anything else is still in progress.
pub open spec fn spec_game_result(b: Seq<Player>) -> GameResult {
    if all_empty(b) {
        GameResult::Playing
    } else if line_filled(b, 0, 1, 2) {
        GameResult::Win(b[0])
    } else if line_filled(b, 3, 4, 5) {
        GameResult::Win(b[3])
    } else if line_filled(b, 6, 7, 8) {
        GameResult::Win(b[6])
    } else if line_filled(b, 0, 3, 6) {
        GameResult::Win(b[0])
    } else if line_filled(b, 1, 4, 7) {
        GameResult::Win(b[1])
    } else if line_filled(b, 2, 5, 8) {
        GameResult::Win(b[2])
    } else if line_filled(b, 0, 4, 8) {
        GameResult::Win(b[0])
    } else if line_filled(b, 2, 4, 6) {
        GameResult::Win(b[2])
    } else if board_full(b) {
        GameResult::Draw
    } else {
        GameResult::Playing
    }
}

/// How many of the first `n` cells are empty.
pub open spec fn count_empty_upto(b: Seq<Player>, n: int) -> int
    decreases n,
{
    if n <= 0 {
        0
    } else {
        count_empty_upto(b, n - 1) + if b[n - 1] == Player::Empty {
            1int
        } else {
            0int
        }
    }
}

/// How many cells of the board are empty.
pub open spec fn count_empty(b: Seq<Player>) -> int {
    count_empty_upto(b, b.len() as int)
}

pub proof fn lemma_count_empty_upto_update(b: Seq<Player>, i: int, v: Player, n: int)
    requires
        0 <= i < b.len(),
        n <= b.len(),
    ensures
        count_empty_upto(b.update(i, v), n) == count_empty_upto(b, n) + if i < n {
            (if v == Player::Empty {
                1int
            } else {
                0int
            }) - (if b[i] == Player::Empty {
                1int
            } else {
                0int
            })
        } else {
            0int
        },
    decreases n,
{
    if n > 0 {
        lemma_count_empty_upto_update(b, i, v, n - 1);
    }
}

/// Writing a mark into a cell changes the number of empty cells by the
/// difference between what leaves the cell and what enters it.
pub proof fn lemma_count_empty_update(b: Seq<Player>, i: int, v: Player)
    requires
        0 <= i < b.len(),
    ensures
        count_empty(b.update(i, v)) == count_empty(b) + (if v == Player::Empty {
            1int
        } else {
            0int
        }) - (if b[i] == Player::Empty {
            1int
        } else {
            0int
        }),
{
    lemma_count_empty_upto_update(b, i, v, b.len() as int);
}

pub proof fn lemma_count_empty_upto_bounds(b: Seq<Player>, n: int)
    requires
        0 <= n,
    ensures
        0 <= count_empty_upto(b, n) <= n,
    decreases n,
{
    if n > 0 {
        lemma_count_empty_upto_bounds(b, n - 1);
    }
}

/// The empty-cell count of a whole board lies between zero and its length.
pub broadcast proof fn lemma_count_empty_in_range(b: Seq<Player>)
    ensures
        0 <= #[trigger] count_empty(b) <= b.len(),
{
    lemma_count_empty_upto_bounds(b, b.len() as int);
}

/// The empty-cell count of a prefix is zero exactly when the prefix has no
/// empty cell, and maximal exactly when every cell of the prefix is empty.
pub proof fn lemma_count_empty_upto_extremes(b: Seq<Player>, n: int)
    requires
        0 <= n,
    ensures
        (count_empty_upto(b, n) == 0) <==> (forall|i: int| 0 <= i < n ==> b[i] != Player::Empty),
        (count_empty_upto(b, n) == n) <==> (forall|i: int| 0 <= i < n ==> b[i] == Player::Empty),
    decreases n,
{
    if n > 0 {
        lemma_count_empty_upto_extremes(b, n - 1);
        lemma_count_empty_upto_bounds(b, n - 1);
    }
}

/// A board still in progress has at least one empty cell.
pub proof fn lemma_playing_has_empty(b: Seq<Player>)
    requires
        board_ok(b),
        spec_game_result(b) == GameResult::Playing,
    ensures
        exists|i: int| 0 <= i < 9 && b_empty_at(b, i),
        count_empty(b) > 0,
{
    if all_empty(b) {
        assert(b_empty_at(b, 0));
    } else {
        assert(!board_full(b));
        let w = choose|i: int| 0 <= i < b.len() && b[i] == Player::Empty;
        assert(b_empty_at(b, w));
    }
    let w = choose|i: int| 0 <= i < 9 && b_empty_at(b, i);
    assert(b[w] == Player::Empty);
    lemma_count_empty_upto_extremes(b, 9);
    lemma_count_empty_in_range(b);
}

/// The engine's state: the board is the whole of it.
#[derive(Debug)]
pub struct TicTacToe {
    pub board: Board,
}

impl TicTacToe {
    /// A fresh game: an all-empty board.
    pub fn new() -> (r: TicTacToe)
        ensures
            board_ok(r.board@),
            all_empty(r.board@),
    {
        TicTacToe { board: TicTacToe::get_empty_board() }
    }

    /// A board of 9 empty cells.
    pub fn get_empty_board() -> (b: Board)
        ensures
            board_ok(b@),
            all_empty(b@),
    {
        let mut b: Board = Vec::new();
        let mut i: usize = 0;
        while i < 9
            invariant
                i <= 9,
                b@.len() == i,
                forall|j: int| 0 <= j < i ==> b@[j] == Player::Empty,
            decreases 9 - i,
        {
            b.push(Player::Empty);
            i += 1;
        }
        b
    }

    /// Whether every cell of the board is unoccupied.
    pub fn is_empty(board: &Board) -> (r: bool)
        ensures
            r == all_empty(board@),
    {
        let n = board.len();
        let mut i: usize = 0;
        while i < n
            invariant
                n == board@.len(),
                i <= n,
                forall|j: int| 0 <= j < i ==> board@[j] == Player::Empty,
            decreases n - i,
        {
            if board[i] != Player::Empty {
                return false;
            }
            i += 1;
        }
        true
    }

    /// Whether no cell of the board is unoccupied.
    pub fn is_full(board: &Board) -> (r: bool)
        ensures
            r == board_full(board@),
    {
        let n = board.len();
        let mut i: usize = 0;
        while i < n
            invariant
                n == board@.len(),
                i <= n,
                forall|j: int| 0 <= j < i ==> board@[j] != Player::Empty,
            decreases n - i,
        {
            if board[i] == Player::Empty {
                return false;
            }
            i += 1;
        }
        true
    }

    /// Classify the board: the all-empty board is in progress; otherwise the
    /// first completed line in the fixed order wins; otherwise a full board
    /// is a draw and anything else is in progress.
    pub fn get_game_result(board: &Board) -> (r: GameResult)
        requires
            board_ok(board@),
        ensures
            r == spec_game_result(board@),
    {
        if TicTacToe::is_empty(board) {
            return GameResult::Playing;
        }
        // Rows
        if board[0] != Player::Empty && board[0] == board[1] && board[0] == board[2] {
            return GameResult::Win(board[0]);
        }
        if board[3] != Player::Empty && board[3] == board[4] && board[3] == board[5] {
            return GameResult::Win(board[3]);
        }
        if board[6] != Player::Empty && board[6] == board[7] && board[6] == board[8] {
            return GameResult::Win(board[6]);
        }
        // Columns
        if board[0] != Player::Empty && board[0] == board[3] && board[0] == board[6] {
            return GameResult::Win(board[0]);
        }
        if board[1] != Player::Empty && board[1] == board[4] && board[1] == board[7] {
            return GameResult::Win(board[1]);
        }
        if board[2] != Player::Empty && board[2] == board[5] && board[2] == board[8] {
            return GameResult::Win(board[2]);
        }
        // Diagonals
        if board[0] != Player::Empty && board[0] == board[4] && board[0] == board[8] {
            return GameResult::Win(board[0]);
        }
        if board[2] != Player::Empty && board[2] == board[4] && board[2] == board[6] {
            return GameResult::Win(board[2]);
        }
        if TicTacToe::is_full(board) {
            return GameResult::Draw;
        }
        GameResult::Playing
    }

    /// The indices of the empty cells, in ascending order: each returned
    /// index is an empty cell, and every empty cell is returned.
    pub fn get_available_moves(board: &Board) -> (moves: Vec<usize>)
        ensures
            moves@.len() == count_empty(board@),
            forall|k: int|
                0 <= k < moves@.len() ==> (#[trigger] moves@[k]) < board@.len()
                    && board@[moves@[k] as int] == Player::Empty,
            forall|k1: int, k2: int| 0 <= k1 < k2 < moves@.len() ==> moves@[k1] < moves@[k2],
            forall|i: usize| i < board@.len() && b_empty_at(board@, i as int) ==> moves@.contains(i),
    {
        let n = board.len();
        let mut moves: Vec<usize> = Vec::new();
        let mut i: usize = 0;
        while i < n
            invariant
                n == board@.len(),
                i <= n,
                moves@.len() == count_empty_upto(board@, i as int),
                forall|k: int|
                    0 <= k < moves@.len() ==> (#[trigger] moves@[k]) < i && board@[moves@[k] as int]
                        == Player::Empty,
                forall|k1: int, k2: int| 0 <= k1 < k2 < moves@.len() ==> moves@[k1] < moves@[k2],
                forall|j: usize| j < i && b_empty_at(board@, j as int) ==> moves@.contains(j),
            decreases n - i,
        {
            if board[i] == Player::Empty {
                let ghost prev = moves@;
                moves.push(i);
                proof {
                    assert forall|j: usize| j < i + 1 && b_empty_at(board@, j as int) implies moves@
                        .contains(j) by {
                        if j < i {
                            let k = choose|k: int| 0 <= k < prev.len() && prev[k] == j;
                            assert(moves@[k] == j);
                        } else {
                            assert(moves@[moves@.len() - 1] == i);
                        }
                    }
                }
            }
            i += 1;
        }
        moves
    }
}

/// The cell at `i` is unoccupied; a named form so that quantified claims
/// about empty cells have a stable trigger.
pub open spec fn b_empty_at(b: Seq<Player>, i: int) -> bool {
    b[i] == Player::Empty
}

pub open spec fn int_max(a: int, b: int) -> int {
    if a >= b {
        a
    } else {
        b
    }
}

pub open spec fn int_min(a: int, b: int) -> int {
    if a <= b {
        a
    } else {
        b
    }
}

/// The heuristic value of a finished board seen from `p`: a win is worth
/// more the fewer moves it took, a loss is the least bad the longer it was
/// staved off, and everything else is worth nothing.
pub open spec fn terminal_score(r: GameResult, p: Player, depth: int) -> int {
    if r == GameResult::Win(p) {
        100 - depth
    } else if r == GameResult::Win(spec_opponent(p)) {
        -100 + depth
    } else {
        0
    }
}

/// The minimax value of a board seen from `p`, `depth` plies below the root.
/// A finished board scores by `terminal_score`; otherwise the side to move
/// places `p` itself on a maximizing turn and `p`'s opponent on a minimizing
/// turn, into any empty cell, and the best child value is taken.
pub open spec fn minimax(b: Seq<Player>, p: Player, maximizing: bool, depth: int) -> int
    decreases count_empty(b), 10int,
    when p != Player::Empty && board_ok(b)
{
    if spec_game_result(b) != GameResult::Playing {
        terminal_score(spec_game_result(b), p, depth)
    } else if maximizing {
        max_score_from(b, p, depth, 0)
    } else {
        min_score_from(b, p, depth, 0)
    }
}

/// The largest minimax value over the children reached by placing `p` in an
/// empty cell with index at least `i`, folded against the floor -100.
pub open spec fn max_score_from(b: Seq<Player>, p: Player, depth: int, i: int) -> int
    decreases count_empty(b), 9 - i,
    when p != Player::Empty && board_ok(b) && 0 <= i
{
    if i >= 9 {
        -100
    } else if b_empty_at(b, i) {
        proof {
            lemma_count_empty_update(b, i, p);
            lemma_count_empty_in_range(b.update(i, p));
        }
        int_max(
            minimax(b.update(i, p), p, false, depth + 1),
            max_score_from(b, p, depth, i + 1),
        )
    } else {
        max_score_from(b, p, depth, i + 1)
    }
}

/// The smallest minimax value over the children reached by placing `p`'s
/// opponent in an empty cell with index at least `i`, folded against the
/// ceiling 100.
pub open spec fn min_score_from(b: Seq<Player>, p: Player, depth: int, i: int) -> int
    decreases count_empty(b), 9 - i,
    when p != Player::Empty && board_ok(b) && 0 <= i
{
    if i >= 9 {
        100
    } else if b_empty_at(b, i) {
        proof {
            lemma_count_empty_update(b, i, spec_opponent(p));
            lemma_count_empty_in_range(b.update(i, spec_opponent(p)));
        }
        int_min(
            minimax(b.update(i, spec_opponent(p)), p, true, depth + 1),
            min_score_from(b, p, depth, i + 1),
        )
    } else {
        min_score_from(b, p, depth, i + 1)
    }
}

/// The fold over cells `i..9` is an upper bound on every child value there,
/// and is either the floor -100 or a value some child attains.
pub proof fn lemma_max_score_from_sup(b: Seq<Player>, p: Player, depth: int, i: int)
    requires
        board_ok(b),
        p != Player::Empty,
        0 <= i <= 9,
    ensures
        max_score_from(b, p, depth, i) >= -100,
        forall|j: int|
            i <= j < 9 && b_empty_at(b, j) ==> max_score_from(b, p, depth, i) >= minimax(
                b.update(j, p),
                p,
                false,
                depth + 1,
            ),
        max_score_from(b, p, depth, i) == -100 || exists|j: int|
            i <= j < 9 && b_empty_at(b, j) && max_score_from(b, p, depth, i) == minimax(
                b.update(j, p),
                p,
                false,
                depth + 1,
            ),
    decreases 9 - i,
{
    if i < 9 {
        lemma_max_score_from_sup(b, p, depth, i + 1);
    }
}

/// The fold over cells `i..9` is a lower bound on every child value there,
/// and is either the ceiling 100 or a value some child attains.
pub proof fn lemma_min_score_from_inf(b: Seq<Player>, p: Player, depth: int, i: int)
    requires
        board_ok(b),
        p != Player::Empty,
        0 <= i <= 9,
    ensures
        min_score_from(b, p, depth, i) <= 100,
        forall|j: int|
            i <= j < 9 && b_empty_at(b, j) ==> min_score_from(b, p, depth, i) <= minimax(
                b.update(j, spec_opponent(p)),
                p,
                true,
                depth + 1,
            ),
        min_score_from(b, p, depth, i) == 100 || exists|j: int|
            i <= j < 9 && b_empty_at(b, j) && min_score_from(b, p, depth, i) == minimax(
                b.update(j, spec_opponent(p)),
                p,
                true,
                depth + 1,
            ),
    decreases 9 - i,
{
    if i < 9 {
        lemma_min_score_from_inf(b, p, depth, i + 1);
    }
}

/// Minimax values stay within the window of terminal scores reachable from
/// `depth`: no deeper outcome can score outside it.
pub proof fn lemma_minimax_bounds(b: Seq<Player>, p: Player, maximizing: bool, depth: int)
    requires
        board_ok(b),
        p != Player::Empty,
        0 <= depth,
        depth + count_empty(b) <= 9,
    ensures
        -100 + depth <= minimax(b, p, maximizing, depth) <= 100 - depth,
    decreases count_empty(b), 10int,
{
    lemma_count_empty_in_range(b);
    if spec_game_result(b) == GameResult::Playing {
        lemma_playing_has_empty(b);
        if maximizing {
            lemma_max_score_bounds(b, p, depth, 0);
        } else {
            lemma_min_score_bounds(b, p, depth, 0);
        }
    }
}

proof fn lemma_max_score_bounds(b: Seq<Player>, p: Player, depth: int, i: int)
    requires
        board_ok(b),
        p != Player::Empty,
        0 <= depth,
        depth + count_empty(b) <= 9,
        0 <= i <= 9,
    ensures
        (exists|j: int| i <= j < 9 && b_empty_at(b, j)) ==> -100 + depth + 1 <= max_score_from(
            b,
            p,
            depth,
            i,
        ) <= 100 - depth - 1,
    decreases count_empty(b), 9 - i,
{
    if i < 9 {
        lemma_max_score_bounds(b, p, depth, i + 1);
        lemma_max_score_from_sup(b, p, depth, i + 1);
        if b_empty_at(b, i) {
            lemma_count_empty_update(b, i, p);
            lemma_count_empty_in_range(b.update(i, p));
            lemma_minimax_bounds(b.update(i, p), p, false, depth + 1);
            if !(exists|j: int| i + 1 <= j < 9 && b_empty_at(b, j)) {
                assert(max_score_from(b, p, depth, i + 1) == -100);
            }
        }
    }
}

proof fn lemma_min_score_bounds(b: Seq<Player>, p: Player, depth: int, i: int)
    requires
        board_ok(b),
        p != Player::Empty,
        0 <= depth,
        depth + count_empty(b) <= 9,
        0 <= i <= 9,
    ensures
        (exists|j: int| i <= j < 9 && b_empty_at(b, j)) ==> -100 + depth + 1 <= min_score_from(
            b,
            p,
            depth,
            i,
        ) <= 100 - depth - 1,
    decreases count_empty(b), 9 - i,
{
    if i < 9 {
        lemma_min_score_bounds(b, p, depth, i + 1);
        lemma_min_score_from_inf(b, p, depth, i + 1);
        if b_empty_at(b, i) {
            lemma_count_empty_update(b, i, spec_opponent(p));
            lemma_count_empty_in_range(b.update(i, spec_opponent(p)));
            lemma_minimax_bounds(b.update(i, spec_opponent(p)), p, true, depth + 1);
            if !(exists|j: int| i + 1 <= j < 9 && b_empty_at(b, j)) {
                assert(min_score_from(b, p, depth, i + 1) == 100);
            }
        }
    }
}

/// `mv` is a legal move for `p` whose child value is the best that any of
/// `p`'s moves can reach on this board.
pub open spec fn is_optimal_move(b: Seq<Player>, p: Player, mv: int) -> bool {
    0 <= mv < 9 && b_empty_at(b, mv) && minimax(b.update(mv, p), p, false, 1) == max_score_from(
        b,
        p,
        0,
        0,
    )
}

/// Relies on rand::Rng::gen_range over rand::thread_rng: the result is drawn
/// uniformly from the half-open range below `n`, which is nonempty here, and
/// lies inside it.
#[verifier::external_body]
fn random_below(n: usize) -> (r: usize)
    requires
        n > 0,
    ensures
        r < n,
{
    rand::Rng::gen_range(&mut rand::thread_rng(), 0..n)
}

impl TicTacToe {
    /// An exact copy of the board.
    fn clone_board(board: &Board) -> (c: Board)
        ensures
            c@ == board@,
    {
        let mut c: Board = Vec::new();
        let n = board.len();
        let mut i: usize = 0;
        while i < n
            invariant
                n == board@.len(),
                i <= n,
                c@.len() == i,
                forall|j: int| 0 <= j < i ==> c@[j] == board@[j],
            decreases n - i,
        {
            c.push(board[i]);
            i += 1;
        }
        proof {
            assert(c@ =~= board@);
        }
        c
    }

    /// The minimax value of the board seen from `player`, `depth` plies below
    /// the root, computed by exhaustive search with no pruning: the score of
    /// the finished board, or the best score among the children of the side
    /// to move. Move exhaustion alone bounds the recursion — the depth only
    /// grows while the board fills — so no depth cap is needed.
    #[verifier::loop_isolation(false)]
    pub fn evaluate(board: &Board, player: Player, is_maximizing: bool, depth: i32) -> (score: i32)
        requires
            board_ok(board@),
            player != Player::Empty,
            0 <= depth,
            depth + count_empty(board@) <= 9,
        ensures
            score as int == minimax(board@, player, is_maximizing, depth as int),
        decreases count_empty(board@),
    {
        proof {
            lemma_count_empty_in_range(board@);
        }
        let result = TicTacToe::get_game_result(board);
        if result != GameResult::Playing {
            if result == GameResult::Win(player) {
                return 100 - depth;
            } else if result == GameResult::Win(player.get_opponent()) {
                return -100 + depth;
            } else {
                return 0;
            }
        }
        if is_maximizing {
            proof {
                lemma_max_score_from_sup(board@, player, depth as int, 0);
            }
            let mut best: i32 = -100;
            let mut i: usize = 0;
            while i < 9
                invariant
                    i <= 9,
                    best >= -100,
                    int_max(best as int, max_score_from(board@, player, depth as int, i as int))
                        == max_score_from(board@, player, depth as int, 0),
                decreases 9 - i,
            {
                if board[i] == Player::Empty {
                    let mut child = TicTacToe::clone_board(board);
                    child.set(i, player);
                    proof {
                        lemma_count_empty_update(board@, i as int, player);
                        lemma_count_empty_in_range(child@);
                    }
                    let value = TicTacToe::evaluate(&child, player, false, depth + 1);
                    if value > best {
                        best = value;
                    }
                }
                i += 1;
            }
            best
        } else {
            proof {
                lemma_min_score_from_inf(board@, player, depth as int, 0);
            }
            let opponent = player.get_opponent();
            let mut best: i32 = 100;
            let mut i: usize = 0;
            while i < 9
                invariant
                    i <= 9,
                    best <= 100,
                    int_min(best as int, min_score_from(board@, player, depth as int, i as int))
                        == min_score_from(board@, player, depth as int, 0),
                decreases 9 - i,
            {
                if board[i] == Player::Empty {
                    let mut child = TicTacToe::clone_board(board);
                    child.set(i, opponent);
                    proof {
                        lemma_count_empty_update(board@, i as int, opponent);
                        lemma_count_empty_in_range(child@);
                    }
                    let value = TicTacToe::evaluate(&child, player, true, depth + 1);
                    if value < best {
                        best = value;
                    }
                }
                i += 1;
            }
            best
        }
    }

    /// One optimal move for `player`, who is about to place their own mark:
    /// an empty cell whose child value is the best reachable, chosen
    /// uniformly at random among the equally good candidates.
    #[verifier::loop_isolation(false)]
    pub fn get_best_move(board: &Board, player: Player) -> (mv: usize)
        requires
            board_ok(board@),
            player != Player::Empty,
            !board_full(board@),
        ensures
            is_optimal_move(board@, player, mv as int),
            spec_game_result(board@) == GameResult::Playing ==> minimax(
                board@.update(mv as int, player),
                player,
                false,
                1,
            ) == minimax(board@, player, true, 0),
    {
        proof {
            lemma_count_empty_in_range(board@);
            lemma_max_score_from_sup(board@, player, 0, 0);
        }
        let mut best: i32 = -100;
        let mut candidates: Vec<usize> = Vec::new();
        let mut i: usize = 0;
        while i < 9
            invariant
                i <= 9,
                best >= -100,
                int_max(best as int, max_score_from(board@, player, 0, i as int))
                    == max_score_from(board@, player, 0, 0),
                candidates@.len() == 0 ==> best == -100,
                forall|k: int|
                    0 <= k < candidates@.len() ==> (#[trigger] candidates@[k]) < i && b_empty_at(
                        board@,
                        candidates@[k] as int,
                    ) && minimax(board@.update(candidates@[k] as int, player), player, false, 1)
                        == best as int,
                (exists|j: int| 0 <= j < i && b_empty_at(board@, j)) ==> candidates@.len() > 0,
            decreases 9 - i,
        {
            if board[i] == Player::Empty {
                let mut child = TicTacToe::clone_board(board);
                child.set(i, player);
                proof {
                    lemma_count_empty_update(board@, i as int, player);
                }
                let value = TicTacToe::evaluate(&child, player, false, 1);
                proof {
                    lemma_minimax_bounds(child@, player, false, 1);
                }
                if value > best {
                    best = value;
                    candidates = Vec::new();
                    candidates.push(i);
                } else if value == best {
                    candidates.push(i);
                }
                proof {
                    assert(b_empty_at(board@, i as int));
                }
            }
            i += 1;
        }
        proof {
            let w = choose|j: int| 0 <= j < board@.len() && board@[j] == Player::Empty;
            assert(b_empty_at(board@, w));
            assert(candidates@.len() > 0);
        }
        let k = random_below(candidates.len());
        candidates[k]
    }
}

} // verus!
