//! The search engine: a static evaluator, a move ordering and a depth-limited
//! negamax search with alpha-beta pruning.

use vstd::prelude::*;
use crate::board::{Board, Piece, count_in_window, lemma_same_board, lemma_shape};
use crate::grid::{
    dropped, has_gap, has_room, holds, lemma_insert_then_undo, lemma_open_columns, open_columns,
    settled,
};
use crate::lines::outcome;
use crate::order::{
    THREAT_BONUS, goes_before, in_order, lemma_move_order, lemma_slotted, move_order, priority,
    ranked,
};
use crate::playable::lemma_settled_score;
use crate::pruning::lemma_pruning_is_exact;
use crate::score::{
    WIN, falling_lines, lemma_field_bounds, lemma_window_bounds, line_worth, line_worth_below,
    lines_worth, pow10, rising_lines, row_lines, static_score,
};
use crate::search::{Choice, exhaustive, limit, negamax, nothing_tried, try_moves};

verus! {

/// How many moves deep the engine searches when it chooses a move.
pub const SEARCH_DEPTH: u32 = 7;

/// The automated player.
pub struct Engine;

/// What a search returns: the score of the position, seen from the side to move,
/// and the column to play.
#[derive(Clone, Copy, PartialEq, Eq, Structural, Debug)]
pub struct GameState {
    pub eval: isize,
    pub best_move: usize,
}

impl View for GameState {
    type V = Choice;

    open spec fn view(&self) -> Choice {
        Choice { score: self.eval as int, column: self.best_move }
    }
}

impl GameState {
    /// Score 0 and column 0.
    pub fn new() -> (r: GameState)
        ensures
            r.eval == 0,
            r.best_move == 0,
    {
        GameState { eval: 0, best_move: 0 }
    }
}

/// Ten to the power `n`.
fn power_of_ten(n: usize) -> (r: isize)
    requires
        n <= 4,
    ensures
        r == pow10(n as int),
{
    let mut r: isize = 1;
    let mut k: usize = 0;
    while k < n
        invariant
            k <= n <= 4,
            r == pow10(k as int),
            1 <= r <= 10_000,
        decreases n - k,
    {
        proof {
            reveal_with_fuel(pow10, 5);
        }
        r = r * 10;
        k += 1;
    }
    r
}

/// What the windows of four cells in `line` are worth to `piece`, summed.
fn line_value(line: &[Piece], piece: Piece) -> (r: isize)
    requires
        line.len() <= 7,
    ensures
        r == line_worth(line@, piece),
        0 <= r <= 40_000,
{
    let mut total: isize = 0;
    if line.len() < 4 {
        return total;
    }
    let mut i: usize = 0;
    while i <= line.len() - 4
        invariant
            4 <= line.len() <= 7,
            i <= line.len() - 3,
            total == line_worth_below(line@, i as int, piece),
            0 <= total <= 10_000 * i,
        decreases line.len() - i,
    {
        let piece_count = count_in_window(line, i, piece);
        let empty_count = count_in_window(line, i, Piece::Empty);
        proof {
            lemma_window_bounds(line@, i as int, piece);
        }
        if piece_count + empty_count == 4 {
            total = total + power_of_ten(piece_count);
        }
        i += 1;
    }
    total
}

/// What the windows of four cells in `lines` are worth to `piece`, summed.
fn lines_value(lines: &Vec<Vec<Piece>>, piece: Piece) -> (r: isize)
    requires
        lines@.len() <= 7,
        forall|i: int| 0 <= i < lines@.len() ==> (#[trigger] lines@[i])@.len() <= 7,
    ensures
        r == lines_worth(Seq::new(lines@.len(), |i: int| lines@[i]@), piece),
        0 <= r <= 280_000,
{
    let ghost all = Seq::new(lines@.len(), |i: int| lines@[i]@);
    let mut total: isize = 0;
    let mut n: usize = 0;
    while n < lines.len()
        invariant
            n <= lines@.len() <= 7,
            forall|i: int| 0 <= i < lines@.len() ==> (#[trigger] lines@[i])@.len() <= 7,
            all == Seq::new(lines@.len(), |i: int| lines@[i]@),
            total == lines_worth(all.take(n as int), piece),
            0 <= total <= 40_000 * n,
        decreases lines@.len() - n,
    {
        let worth = line_value(lines[n].as_slice(), piece);
        proof {
            assert(all.take(n + 1).drop_last() =~= all.take(n as int));
            assert(all.take(n + 1).last() == lines@[n as int]@);
        }
        total = total + worth;
        n += 1;
    }
    assert(all.take(n as int) =~= all);
    total
}

impl Engine {
    /// The static score of the position for `piece`. Where the last move made four
    /// in a line the score is that of a win, counted for the winner. Else every
    /// window of four cells on the field that holds no piece of the other side adds
    /// ten to the number of `piece`'s pieces in it, and the sum counts for `piece`.
    /// Scores for `O` count upwards and scores for `X` downwards, whoever is to move.
    pub fn eval(board: &Board, piece: Piece) -> (r: isize)
        requires
            board.last_move < 7,
            piece != Piece::Empty,
        ensures
            r == static_score(board@, board.last_move as int, piece),
    {
        if let Some(winner) = board.check_win() {
            return match winner {
                Piece::O => WIN,
                _ => -WIN,
            };
        }
        let (diagonals_up, diagonals_down) = board.diagonals();
        let cols = board.cols();
        let rows = board.rows();
        proof {
            assert(Seq::new(diagonals_up@.len(), |i: int| diagonals_up@[i]@) =~= rising_lines(
                board@,
            ));
            assert(Seq::new(diagonals_down@.len(), |i: int| diagonals_down@[i]@)
                =~= falling_lines(board@));
            assert(Seq::new(cols@.len(), |i: int| cols@[i]@) =~= board@);
            assert(Seq::new(rows@.len(), |i: int| rows@[i]@) =~= row_lines(board@));
        }
        let total = lines_value(&diagonals_up, piece) + lines_value(&diagonals_down, piece)
            + lines_value(&cols, piece) + lines_value(&rows, piece);
        match piece {
            Piece::O => total,
            _ => -total,
        }
    }

    /// The rank of dropping `piece` into column `col`: the threat bonus where the
    /// move makes an open three, and three less the column's distance from the
    /// centre. The board returns as it came.
    fn rank(board: &mut Board, col: usize, piece: Piece) -> (r: usize)
        requires
            col < 7,
        ensures
            *final(board) == *old(board),
            r == priority(old(board)@, piece, col),
    {
        let centre: usize = if col <= 3 { col } else { 6 - col };
        if board.creates_three_in_a_row(col, piece) {
            THREAT_BONUS + centre
        } else {
            centre
        }
    }

    /// The columns that have an empty cell, in the order in which a search for
    /// `piece` tries them: by falling rank, and columns of equal rank from left to
    /// right. The board returns as it came.
    pub fn order_moves(board: &mut Board, piece: Piece) -> (ordered: Vec<usize>)
        ensures
            *final(board) == *old(board),
            ordered@ == move_order(old(board)@, piece),
            in_order(old(board)@, piece, ordered@),
            forall|c: usize|
                #[trigger] holds(ordered@, c) <==> c < 7 && has_gap(old(board)@[c as int]),
    {
        proof {
            lemma_move_order(board@, piece);
        }
        let moves = board.get_moves();
        let mut ordered: Vec<usize> = Vec::new();
        let mut ranks: Vec<usize> = Vec::new();
        let mut i: usize = 0;
        proof {
            lemma_open_columns(board@, 7);
        }
        while i < moves.len()
            invariant
                i <= moves@.len(),
                *board == *old(board),
                moves@ == open_columns(board@),
                forall|k: int| 0 <= k < moves@.len() ==> (#[trigger] moves@[k]) < 7,
                ordered@ == ranked(board@, piece, moves@.take(i as int)),
                ranks@.len() == ordered@.len(),
                forall|k: int|
                    0 <= k < ordered@.len() ==> (#[trigger] ranks@[k]) == priority(
                        board@,
                        piece,
                        ordered@[k],
                    ),
            decreases moves@.len() - i,
        {
            let col = moves[i];
            let rank = Engine::rank(board, col, piece);
            let mut j: usize = ordered.len();
            while j > 0 && !(ranks[j - 1] > rank || (ranks[j - 1] == rank && ordered[j - 1] < col))
                invariant
                    j <= ordered@.len(),
                    ranks@.len() == ordered@.len(),
                    rank == priority(board@, piece, col),
                    forall|k: int|
                        0 <= k < ordered@.len() ==> (#[trigger] ranks@[k]) == priority(
                            board@,
                            piece,
                            ordered@[k],
                        ),
                    forall|k: int|
                        j <= k < ordered@.len() ==> !goes_before(
                            board@,
                            piece,
                            #[trigger] ordered@[k],
                            col,
                        ),
                decreases j,
            {
                j -= 1;
            }
            proof {
                lemma_slotted(board@, piece, ordered@, col, j as int);
                assert(moves@.take(i + 1).drop_last() =~= moves@.take(i as int));
                assert(moves@.take(i + 1).last() == col);
            }
            ordered.insert(j, col);
            ranks.insert(j, rank);
            i += 1;
        }
        assert(moves@.take(i as int) =~= moves@);
        ordered
    }

    /// Negamax with alpha-beta pruning, `depth` moves deep, for `piece` to move and
    /// the window from `alpha` to `beta`. The search drops and takes back pieces on
    /// `board` itself, which returns as it came.
    pub fn minimax(
        &self,
        board: &mut Board,
        piece: Piece,
        alpha: isize,
        beta: isize,
        depth: u32,
    ) -> (r: GameState)
        requires
            old(board).last_move < 7,
            piece != Piece::Empty,
            WIN + depth <= isize::MAX,
            -limit() <= alpha,
            -limit() <= beta,
        ensures
            *final(board) == *old(board),
            r@ == negamax(
                old(board)@,
                old(board).last_move as int,
                piece,
                alpha as int,
                beta as int,
                depth as nat,
            ),
            -limit() <= r.eval,
        decreases depth,
    {
        if let Some(end) = board.is_terminal() {
            let magnitude: isize = WIN + depth as isize;
            let eval: isize = if end == Piece::Empty {
                0
            } else if end == piece {
                magnitude
            } else {
                -magnitude
            };
            return GameState { eval, best_move: 0 };
        }
        if depth == 0 {
            proof {
                lemma_shape(*board);
                lemma_field_bounds(board@, piece);
            }
            return GameState { eval: Engine::eval(board, piece), best_move: 0 };
        }
        let last_move = board.last_move;
        let moves = Engine::order_moves(board, piece);
        let ghost g = board@;
        let ghost goal = try_moves(
            g,
            piece,
            moves@,
            alpha as int,
            beta as int,
            depth as nat,
            nothing_tried(),
        );
        let mut best = GameState { eval: -isize::MAX, best_move: 0 };
        let mut alpha = alpha;
        let mut pruned = false;
        let mut i: usize = 0;
        assert(moves@.skip(0) =~= moves@);
        while i < moves.len() && !pruned
            invariant
                i <= moves@.len(),
                *board == *old(board),
                g == board@,
                last_move == board.last_move,
                last_move < 7,
                piece != Piece::Empty,
                depth > 0,
                WIN + depth <= isize::MAX,
                moves@ == move_order(g, piece),
                -limit() <= alpha,
                -limit() <= beta,
                -limit() <= best.eval,
                pruned ==> best@ == goal,
                !pruned ==> try_moves(
                    g,
                    piece,
                    moves@.skip(i as int),
                    alpha as int,
                    beta as int,
                    depth as nat,
                    best@,
                ) == goal,
            decreases moves@.len() - i, if pruned { 0int } else { 1int },
        {
            let col = moves[i];
            proof {
                lemma_move_order(g, piece);
                assert(moves@.skip(i as int)[0] == col);
                assert(moves@.skip(i as int).drop_first() =~= moves@.skip(i + 1));
            }
            i += 1;
            if board.insert_piece(col, piece).is_err() {
                proof {
                    lemma_same_board(*board, *old(board));
                }
                continue;
            }
            let reply = self.minimax(board, piece.opponent(), -beta, -alpha, depth - 1);
            let score = -reply.eval;
            board.undo_move(col);
            board.last_move = last_move;
            proof {
                lemma_shape(*old(board));
                lemma_insert_then_undo(g, col as int, piece);
                lemma_same_board(*board, *old(board));
            }
            if score > best.eval {
                best = GameState { eval: score, best_move: col };
            }
            if best.eval > alpha {
                alpha = best.eval;
            }
            if alpha >= beta {
                pruned = true;
            }
        }
        best
    }

    /// The column to play for `piece`, with its score: what negamax over the full
    /// tree gives, [`SEARCH_DEPTH`] moves deep. The search runs on a copy; `board`
    /// is only read.
    pub fn choose_move(&self, board: &Board, piece: Piece) -> (r: GameState)
        requires
            board.last_move < 7,
            piece != Piece::Empty,
        ensures
            r@ == exhaustive(board@, board.last_move as int, piece, SEARCH_DEPTH as nat),
    {
        let mut copy = Board { cols: board.cols, last_move: board.last_move, eval: board.eval };
        proof {
            lemma_shape(*board);
            lemma_pruning_is_exact(board@, board.last_move as int, piece, SEARCH_DEPTH as nat);
        }
        self.minimax(&mut copy, piece, -isize::MAX, isize::MAX, SEARCH_DEPTH)
    }

    /// Plays the engine's move for `piece`: the column that [`Engine::choose_move`]
    /// names takes the piece, and the board keeps the score of the search. The game
    /// must still be open and the board under gravity, so that the column has room.
    pub fn make_move(&self, board: &mut Board, piece: Piece)
        requires
            old(board).last_move < 7,
            piece != Piece::Empty,
            settled(old(board)@),
            outcome(old(board)@, old(board).last_move as int) is None,
        ensures
            ({
                let found = exhaustive(
                    old(board)@,
                    old(board).last_move as int,
                    piece,
                    SEARCH_DEPTH as nat,
                );
                &&& found.column < 7
                &&& has_room(old(board)@, found.column as int)
                &&& final(board)@ == dropped(old(board)@, found.column as int, piece)
                &&& final(board).last_move == found.column
                &&& final(board).eval == found.score
            }),
            settled(final(board)@),
    {
        let game_state = self.choose_move(board, piece);
        proof {
            lemma_shape(*board);
            lemma_settled_score(board@, board.last_move as int, piece, SEARCH_DEPTH as nat);
        }
        let placed = board.insert_piece(game_state.best_move, piece);
        assert(placed is Ok);
        board.eval = game_state.eval;
    }
}

} // verus!
