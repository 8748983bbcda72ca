//! What the search computes: negamax to a fixed depth, stated once with alpha-beta
//! pruning, as the engine runs it, and once over the full tree.

use vstd::prelude::*;
use crate::board::Piece;
use crate::grid::{Grid, dropped, has_room};
use crate::lines::outcome;
use crate::order::move_order;
use crate::score::{WIN, static_score};

verus! {

/// A column and the score that playing it leads to, seen from the side to move.
pub struct Choice {
    pub score: int,
    pub column: usize,
}

/// The bound of the search window; its negative is the score of a position in
/// which no move was tried.
pub open spec fn limit() -> int {
    isize::MAX as int
}

/// What a search begins with: no move tried yet.
pub open spec fn nothing_tried() -> Choice {
    Choice { score: -limit(), column: 0 }
}

/// The score of a finished game for `p`, the side to move, with `depth` moves of the
/// search still unused: nothing for a draw; a win counts upwards and a loss
/// downwards, both by more the sooner the search meets them.
pub open spec fn terminal_score(end: Piece, p: Piece, depth: nat) -> int {
    if end == Piece::Empty {
        0
    } else if end == p {
        WIN + depth
    } else {
        -(WIN + depth)
    }
}

/// `best`, or column `c` with `score` where that is strictly more.
pub open spec fn better(best: Choice, score: int, c: usize) -> Choice {
    if score > best.score {
        Choice { score, column: c }
    } else {
        best
    }
}

/// The larger of two integers.
pub open spec fn greater(a: int, b: int) -> int {
    if a >= b {
        a
    } else {
        b
    }
}

/// Negamax with alpha-beta pruning. A finished game scores by [`terminal_score`],
/// a position at depth 0 by [`static_score`]; both name column 0. Else the moves
/// are tried in their order, as [`try_moves`] says.
pub open spec fn negamax(g: Grid, last: int, p: Piece, alpha: int, beta: int, depth: nat) -> Choice
    decreases depth, move_order(g, p).len() + 1,
{
    match outcome(g, last) {
        Some(end) => Choice { score: terminal_score(end, p, depth), column: 0 },
        None => if depth == 0 {
            Choice { score: static_score(g, last, p), column: 0 }
        } else {
            try_moves(g, p, move_order(g, p), alpha, beta, depth, nothing_tried())
        },
    }
}

/// The rest of one node's work: `moves` are still to try, `best` is the best
/// choice so far and `alpha` the lower bound of the window as it now stands. A
/// column without room is passed over. Else the piece is dropped, the other side
/// searches the window `(-beta, -alpha)` one move less deep, and the negated score
/// replaces `best` if it is strictly more. `alpha` rises to the best score, and
/// once it reaches `beta` the moves that are left are not tried.
pub open spec fn try_moves(
    g: Grid,
    p: Piece,
    moves: Seq<usize>,
    alpha: int,
    beta: int,
    depth: nat,
    best: Choice,
) -> Choice
    decreases depth, moves.len(),
{
    if moves.len() == 0 || depth == 0 {
        best
    } else {
        let c = moves[0];
        if !has_room(g, c as int) {
            try_moves(g, p, moves.drop_first(), alpha, beta, depth, best)
        } else {
            let reply = negamax(
                dropped(g, c as int, p),
                c as int,
                p.other(),
                -beta,
                -alpha,
                (depth - 1) as nat,
            );
            let best = better(best, -reply.score, c);
            let alpha = greater(alpha, best.score);
            if alpha >= beta {
                best
            } else {
                try_moves(g, p, moves.drop_first(), alpha, beta, depth, best)
            }
        }
    }
}

/// Negamax over the full tree: as [`negamax`], with no window and no move left out.
pub open spec fn exhaustive(g: Grid, last: int, p: Piece, depth: nat) -> Choice
    decreases depth, move_order(g, p).len() + 1,
{
    match outcome(g, last) {
        Some(end) => Choice { score: terminal_score(end, p, depth), column: 0 },
        None => if depth == 0 {
            Choice { score: static_score(g, last, p), column: 0 }
        } else {
            best_of(g, p, move_order(g, p), depth, nothing_tried())
        },
    }
}

/// The best choice among `best` and the moves `moves`: each column with room is
/// scored by the negated score of the other side's full search one move less
/// deep, and a later column replaces an earlier one only by a strictly higher score.
pub open spec fn best_of(g: Grid, p: Piece, moves: Seq<usize>, depth: nat, best: Choice) -> Choice
    decreases depth, moves.len(),
{
    if moves.len() == 0 || depth == 0 {
        best
    } else {
        let c = moves[0];
        if !has_room(g, c as int) {
            best_of(g, p, moves.drop_first(), depth, best)
        } else {
            let reply = exhaustive(dropped(g, c as int, p), c as int, p.other(), (depth - 1) as nat);
            best_of(g, p, moves.drop_first(), depth, better(best, -reply.score, c))
        }
    }
}

} // verus!
