//! Alpha-beta pruning leaves the result of the search as it is: over the full
//! window the pruned search and the search of the full tree choose the same column
//! with the same score.

use vstd::prelude::*;
use crate::board::Piece;
use crate::grid::{Grid, dropped, has_room, lemma_drop_settles, well_shaped};
use crate::lines::outcome;
use crate::order::{lemma_move_order, move_order};
use crate::score::{WIN, lemma_field_bounds};
use crate::search::{
    Choice, best_of, better, exhaustive, greater, limit, negamax, nothing_tried, try_moves,
};

verus! {

/// The score of the full search lies between the bounds of the widest window.
pub proof fn lemma_exhaustive_bounds(g: Grid, last: int, p: Piece, depth: nat)
    requires
        well_shaped(g),
        WIN + depth <= limit(),
    ensures
        -limit() <= exhaustive(g, last, p, depth).score <= limit(),
    decreases depth, move_order(g, p).len() + 1,
{
    match outcome(g, last) {
        Some(end) => {},
        None => {
            if depth == 0 {
                lemma_field_bounds(g, p);
            } else {
                lemma_move_order(g, p);
                lemma_best_of_bounds(g, p, move_order(g, p), depth, nothing_tried());
            }
        },
    }
}

/// Trying more moves never lowers the best score, keeps it within the bounds, and
/// changes nothing once it stands at the upper bound.
pub proof fn lemma_best_of_bounds(g: Grid, p: Piece, moves: Seq<usize>, depth: nat, best: Choice)
    requires
        well_shaped(g),
        depth > 0,
        WIN + depth <= limit(),
        -limit() <= best.score <= limit(),
        forall|i: int| 0 <= i < moves.len() ==> (#[trigger] moves[i]) < 7,
    ensures
        best.score <= best_of(g, p, moves, depth, best).score <= limit(),
        best.score == limit() ==> best_of(g, p, moves, depth, best) == best,
    decreases depth, moves.len(),
{
    if moves.len() > 0 {
        let c = moves[0];
        let rest = moves.drop_first();
        assert forall|i: int| 0 <= i < rest.len() implies (#[trigger] rest[i]) < 7 by {
            assert(rest[i] == moves[i + 1]);
        }
        if !has_room(g, c as int) {
            lemma_best_of_bounds(g, p, rest, depth, best);
        } else {
            let h = dropped(g, c as int, p);
            lemma_drop_settles(g, c as int, p);
            lemma_exhaustive_bounds(h, c as int, p.other(), (depth - 1) as nat);
            let reply = exhaustive(h, c as int, p.other(), (depth - 1) as nat);
            lemma_best_of_bounds(g, p, rest, depth, better(best, -reply.score, c));
        }
    }
}

/// How the pruned result `a` stands to the full result `f` for the window from
/// `alpha` to `beta`: equal where the full score lies inside the window, and else
/// on the same side of the window, no further out than the full score. At a bound
/// of the widest window the two are equal as well.
pub open spec fn agrees(a: Choice, f: Choice, alpha: int, beta: int) -> bool {
    &&& alpha < f.score < beta ==> a == f
    &&& f.score <= alpha ==> f.score <= a.score <= alpha
    &&& f.score >= beta ==> beta <= a.score <= f.score
    &&& alpha == -limit() && f.score <= alpha ==> a == f
    &&& beta == limit() && f.score >= beta ==> a == f
}

/// How a node's pruned search, part of the way through its moves, stands to its
/// full search at the same place: `alpha0` is the lower bound with which the node
/// began, `best_a` and `best_f` the best choices so far. Either no move has yet
/// beaten `alpha0` in truth, and the pruned best lies between the true best and
/// `alpha0`; or one has, and the two are equal.
pub open spec fn in_step(alpha0: int, best_a: Choice, best_f: Choice) -> bool {
    ||| {
        &&& best_f.score <= alpha0
        &&& best_f.score <= best_a.score <= alpha0
        &&& alpha0 == -limit() ==> best_a == best_f
    }
    ||| {
        &&& alpha0 < best_f.score
        &&& best_a == best_f
    }
}

/// For every window, the pruned search of a position agrees with its full search.
pub proof fn lemma_window(g: Grid, last: int, p: Piece, alpha: int, beta: int, depth: nat)
    requires
        well_shaped(g),
        WIN + depth <= limit(),
        -limit() <= alpha < beta <= limit(),
    ensures
        agrees(negamax(g, last, p, alpha, beta, depth), exhaustive(g, last, p, depth), alpha, beta),
    decreases depth, move_order(g, p).len() + 1,
{
    match outcome(g, last) {
        Some(end) => {},
        None => {
            if depth > 0 {
                lemma_move_order(g, p);
                lemma_window_moves(
                    g,
                    p,
                    move_order(g, p),
                    alpha,
                    alpha,
                    beta,
                    depth,
                    nothing_tried(),
                    nothing_tried(),
                );
            }
        },
    }
}

/// The same for the rest of a node's moves, from any place at which the two
/// searches are in step.
pub proof fn lemma_window_moves(
    g: Grid,
    p: Piece,
    moves: Seq<usize>,
    alpha0: int,
    alpha: int,
    beta: int,
    depth: nat,
    best_a: Choice,
    best_f: Choice,
)
    requires
        well_shaped(g),
        depth > 0,
        WIN + depth <= limit(),
        forall|i: int| 0 <= i < moves.len() ==> (#[trigger] moves[i]) < 7,
        -limit() <= alpha0 < beta <= limit(),
        alpha == greater(alpha0, best_a.score),
        alpha < beta,
        -limit() <= best_f.score <= limit(),
        in_step(alpha0, best_a, best_f),
    ensures
        agrees(
            try_moves(g, p, moves, alpha, beta, depth, best_a),
            best_of(g, p, moves, depth, best_f),
            alpha0,
            beta,
        ),
    decreases depth, moves.len(),
{
    if moves.len() > 0 {
        let c = moves[0];
        let rest = moves.drop_first();
        assert forall|i: int| 0 <= i < rest.len() implies (#[trigger] rest[i]) < 7 by {
            assert(rest[i] == moves[i + 1]);
        }
        if !has_room(g, c as int) {
            lemma_window_moves(g, p, rest, alpha0, alpha, beta, depth, best_a, best_f);
        } else {
            let h = dropped(g, c as int, p);
            let d = (depth - 1) as nat;
            lemma_drop_settles(g, c as int, p);
            lemma_window(h, c as int, p.other(), -beta, -alpha, d);
            lemma_exhaustive_bounds(h, c as int, p.other(), d);
            let w = -negamax(h, c as int, p.other(), -beta, -alpha, d).score;
            let t = -exhaustive(h, c as int, p.other(), d).score;
            let next_a = better(best_a, w, c);
            let next_f = better(best_f, t, c);
            let next_alpha = greater(alpha, next_a.score);
            assert(best_f.score <= alpha);
            assert(best_a.score <= alpha);
            if t >= beta {
                assert(beta <= w <= t);
                assert(next_a == Choice { score: w, column: c });
                assert(next_f == Choice { score: t, column: c });
                assert(next_alpha >= beta);
                lemma_best_of_bounds(g, p, rest, depth, next_f);
            } else if t > alpha {
                assert(w == t);
                assert(next_a == next_f);
                assert(next_alpha == t);
                lemma_window_moves(g, p, rest, alpha0, next_alpha, beta, depth, next_a, next_f);
            } else {
                assert(t <= w <= alpha);
                assert(next_alpha == alpha);
                assert(in_step(alpha0, next_a, next_f));
                lemma_window_moves(g, p, rest, alpha0, next_alpha, beta, depth, next_a, next_f);
            }
        }
    }
}

/// Pruning is an optimisation and changes no result: searched over the widest
/// window, the pruned negamax returns the column and the score that negamax over
/// the full tree returns, for every position, side and depth.
pub proof fn lemma_pruning_is_exact(g: Grid, last: int, p: Piece, depth: nat)
    requires
        well_shaped(g),
        WIN + depth <= limit(),
    ensures
        negamax(g, last, p, -limit(), limit(), depth) == exhaustive(g, last, p, depth),
{
    lemma_window(g, last, p, -limit(), limit(), depth);
    lemma_exhaustive_bounds(g, last, p, depth);
}

} // verus!
