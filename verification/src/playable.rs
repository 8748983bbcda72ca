//! On a board under gravity the search ends on a column that can be played.

use vstd::prelude::*;
use crate::board::Piece;
use crate::grid::{
    Grid, dropped, filled, has_gap, has_room, holds, lemma_drop_settles, on_board, settled,
    settled_column, well_shaped,
};
use crate::lines::outcome;
use crate::order::{lemma_move_order, move_order};
use crate::score::{WIN, lemma_field_bounds};
use crate::search::{Choice, best_of, better, exhaustive, limit, nothing_tried};

verus! {

/// Whether `best` is what a search may hold part of the way through the moves of a
/// node: either no move was tried, or a column with room is named.
pub open spec fn sound(g: Grid, best: Choice) -> bool {
    &&& -limit() <= best.score < limit()
    &&& best.score > -limit() ==> best.column < 7 && has_room(g, best.column as int)
}

/// Under gravity a column with an empty cell has room at the top.
pub proof fn lemma_gap_gives_room(g: Grid, x: int)
    requires
        well_shaped(g),
        0 <= x < 7,
        settled_column(g[x]),
        has_gap(g[x]),
    ensures
        has_room(g, x),
{
    let y = choose|y: int| 0 <= y < g[x].len() && g[x][y] == Piece::Empty;
    if y < 5 && g[x][5] != Piece::Empty {
        assert(g[x][y] != Piece::Empty);
    }
}

/// Under gravity the score of the full search lies strictly inside the widest window.
pub proof fn lemma_settled_score(g: Grid, last: int, p: Piece, depth: nat)
    requires
        well_shaped(g),
        settled(g),
        WIN + depth < limit(),
    ensures
        -limit() < exhaustive(g, last, p, depth).score < limit(),
        outcome(g, last) is None && depth > 0 ==> has_room(
            g,
            exhaustive(g, last, p, depth).column as int,
        ) && exhaustive(g, last, p, depth).column < 7,
    decreases depth, move_order(g, p).len() + 1,
{
    match outcome(g, last) {
        Some(end) => {},
        None => {
            if depth == 0 {
                lemma_field_bounds(g, p);
            } else {
                let moves = move_order(g, p);
                lemma_move_order(g, p);
                lemma_settled_moves(g, p, moves, depth, nothing_tried());
                assert(!filled(g));
                let (x, y) = choose|x: int, y: int| on_board(x, y) && g[x][y] == Piece::Empty;
                assert(has_gap(g[x]));
                assert(holds(moves, x as usize));
                let i = choose|i: int| 0 <= i < moves.len() && moves[i] == x as usize;
                assert(settled_column(g[x]));
                lemma_gap_gives_room(g, x);
                assert(has_room(g, moves[i] as int));
            }
        },
    }
}

/// Under gravity, trying more moves keeps the best choice sound, and a column with
/// room among them leaves a move chosen.
pub proof fn lemma_settled_moves(g: Grid, p: Piece, moves: Seq<usize>, depth: nat, best: Choice)
    requires
        well_shaped(g),
        settled(g),
        depth > 0,
        WIN + depth < limit(),
        forall|i: int| 0 <= i < moves.len() ==> (#[trigger] moves[i]) < 7,
        sound(g, best),
    ensures
        sound(g, best_of(g, p, moves, depth, best)),
        best.score <= best_of(g, p, moves, depth, best).score,
        forall|i: int|
            0 <= i < moves.len() && has_room(g, (#[trigger] moves[i]) as int) ==> best_of(
                g,
                p,
                moves,
                depth,
                best,
            ).score > -limit(),
    decreases depth, moves.len(),
{
    if moves.len() > 0 {
        let c = moves[0];
        let rest = moves.drop_first();
        assert forall|i: int| 0 <= i < rest.len() implies (#[trigger] rest[i]) < 7 by {
            assert(rest[i] == moves[i + 1]);
        }
        if !has_room(g, c as int) {
            lemma_settled_moves(g, p, rest, depth, best);
            assert forall|i: int|
                0 <= i < moves.len() && has_room(g, (#[trigger] moves[i]) as int) implies best_of(
                g,
                p,
                moves,
                depth,
                best,
            ).score > -limit() by {
                assert(moves[i] == rest[i - 1]);
            }
        } else {
            let h = dropped(g, c as int, p);
            lemma_drop_settles(g, c as int, p);
            lemma_settled_score(h, c as int, p.other(), (depth - 1) as nat);
            let reply = exhaustive(h, c as int, p.other(), (depth - 1) as nat);
            lemma_settled_moves(g, p, rest, depth, better(best, -reply.score, c));
        }
    }
}

} // verus!
