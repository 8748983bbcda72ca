//! Four in a line, stated over the whole field, and what the scan through the last
//! move sees of it.

use vstd::prelude::*;
use crate::board::Piece;
use crate::grid::{
    Grid, dropped, filled, has_room, is_stack_top, lemma_stack_top, on_board, stack_top,
    well_shaped,
};
use crate::lines::{
    falling_through, first_four, first_four_from, four_at, lesser, near_first, outcome,
    rising_through, row_near, top_row, winner,
};

verus! {

/// The four ways a line can run: up a column, along a row, up a rising diagonal,
/// down a falling one.
pub open spec fn is_direction(dx: int, dy: int) -> bool {
    ||| dx == 0 && dy == 1
    ||| dx == 1 && dy == 0
    ||| dx == 1 && dy == 1
    ||| dx == 1 && dy == -1
}

/// Whether the four cells that begin at `(x, y)` and go on by `(dx, dy)` lie on the
/// field and all hold `p`.
pub open spec fn four_from(g: Grid, x: int, y: int, dx: int, dy: int, p: Piece) -> bool {
    &&& on_board(x, y)
    &&& on_board(x + 3 * dx, y + 3 * dy)
    &&& g[x][y] == p
    &&& g[x + dx][y + dy] == p
    &&& g[x + 2 * dx][y + 2 * dy] == p
    &&& g[x + 3 * dx][y + 3 * dy] == p
}

/// Whether `(cx, cy)` is one of the four cells that begin at `(x, y)` and go on by
/// `(dx, dy)`.
pub open spec fn passes(x: int, y: int, dx: int, dy: int, cx: int, cy: int) -> bool {
    ||| cx == x && cy == y
    ||| cx == x + dx && cy == y + dy
    ||| cx == x + 2 * dx && cy == y + 2 * dy
    ||| cx == x + 3 * dx && cy == y + 3 * dy
}

/// Whether `p` has four in a line somewhere on the field.
pub open spec fn four_anywhere(g: Grid, p: Piece) -> bool {
    exists|x: int, y: int, dx: int, dy: int|
        is_direction(dx, dy) && #[trigger] four_from(g, x, y, dx, dy, p)
}

/// Whether `p` has four in a line of which the cell `(cx, cy)` is one.
pub open spec fn four_through(g: Grid, cx: int, cy: int, p: Piece) -> bool {
    exists|x: int, y: int, dx: int, dy: int|
        is_direction(dx, dy) && #[trigger] four_from(g, x, y, dx, dy, p) && passes(
            x,
            y,
            dx,
            dy,
            cx,
            cy,
        )
}

/// A run of four pieces in a line is found by reading the line from any index at
/// or before it.
pub proof fn lemma_run_is_found(line: Seq<Piece>, i: int, p: Piece, from: int)
    requires
        four_at(line, i, p),
        p != Piece::Empty,
        0 <= from <= i,
    ensures
        first_four_from(line, from) is Some,
    decreases i - from,
{
    if from < i {
        lemma_run_is_found(line, i, p, from + 1);
    }
}

/// What reading a line finds is a run of four pieces of one side.
pub proof fn lemma_found_is_run(line: Seq<Piece>, from: int) -> (i: int)
    requires
        0 <= from,
        first_four_from(line, from) is Some,
    ensures
        from <= i,
        four_at(line, i, first_four_from(line, from)->0),
        first_four_from(line, from)->0 != Piece::Empty,
    decreases line.len() - from,
{
    if four_at(line, from, Piece::X) {
        from
    } else if four_at(line, from, Piece::O) {
        from
    } else {
        lemma_found_is_run(line, from + 1)
    }
}

/// The highest piece of a column lies on the field.
pub proof fn lemma_top_row(g: Grid, x: int)
    requires
        well_shaped(g),
        0 <= x < 7,
    ensures
        0 <= top_row(g, x) < 6,
{
    lemma_stack_top(g[x]);
}

/// A run that the scan through `(cx, cy)` finds in one of its four lines is four in
/// a line on the field.
pub proof fn lemma_scan_is_sound(g: Grid, cx: int, cy: int)
    requires
        well_shaped(g),
        on_board(cx, cy),
    ensures
        first_four(g[cx]) matches Some(q) ==> q != Piece::Empty && four_anywhere(g, q),
        first_four(row_near(g, cx, cy)) matches Some(q) ==> q != Piece::Empty && four_anywhere(
            g,
            q,
        ),
        first_four(rising_through(g, cx, cy)) matches Some(q) ==> q != Piece::Empty
            && four_anywhere(g, q),
        first_four(falling_through(g, cx, cy)) matches Some(q) ==> q != Piece::Empty
            && four_anywhere(g, q),
{
    if first_four(g[cx]) is Some {
        let q = first_four(g[cx])->0;
        let i = lemma_found_is_run(g[cx], 0);
        assert(is_direction(0, 1) && four_from(g, cx, i, 0, 1, q));
    }
    if first_four(row_near(g, cx, cy)) is Some {
        let line = row_near(g, cx, cy);
        let q = first_four(line)->0;
        let i = lemma_found_is_run(line, 0);
        let first = near_first(cx);
        assert(line[i] == g[first + i][cy]);
        assert(line[i + 1] == g[first + i + 1][cy]);
        assert(line[i + 2] == g[first + i + 2][cy]);
        assert(line[i + 3] == g[first + i + 3][cy]);
        assert(is_direction(1, 0) && four_from(g, first + i, cy, 1, 0, q));
    }
    if first_four(rising_through(g, cx, cy)) is Some {
        let line = rising_through(g, cx, cy);
        let q = first_four(line)->0;
        let i = lemma_found_is_run(line, 0);
        let back = lesser(cx, cy);
        let x0 = cx - back;
        let y0 = cy - back;
        assert(line[i] == g[x0 + i][y0 + i]);
        assert(line[i + 1] == g[x0 + i + 1][y0 + i + 1]);
        assert(line[i + 2] == g[x0 + i + 2][y0 + i + 2]);
        assert(line[i + 3] == g[x0 + i + 3][y0 + i + 3]);
        assert(is_direction(1, 1) && four_from(g, x0 + i, y0 + i, 1, 1, q));
    }
    if first_four(falling_through(g, cx, cy)) is Some {
        let line = falling_through(g, cx, cy);
        let q = first_four(line)->0;
        let i = lemma_found_is_run(line, 0);
        let back = lesser(cx, 5 - cy);
        let x0 = cx - back;
        let y0 = cy + back;
        assert(line[i] == g[x0 + i][y0 - i]);
        assert(line[i + 1] == g[x0 + i + 1][y0 - (i + 1)]);
        assert(line[i + 2] == g[x0 + i + 2][y0 - (i + 2)]);
        assert(line[i + 3] == g[x0 + i + 3][y0 - (i + 3)]);
        assert(is_direction(1, -1) && four_from(g, x0 + i, y0 - i, 1, -1, q));
    }
}

/// Four in a row through `(cx, cy)` are found in the stretch of the row that the
/// scan reads.
proof fn lemma_row_run(g: Grid, cx: int, cy: int, p: Piece, x: int)
    requires
        well_shaped(g),
        on_board(cx, cy),
        p != Piece::Empty,
        four_from(g, x, cy, 1, 0, p),
        x <= cx <= x + 3,
    ensures
        first_four(row_near(g, cx, cy)) is Some,
{
    let line = row_near(g, cx, cy);
    let i = x - near_first(cx);
    assert(line[i] == g[x][cy]);
    assert(line[i + 1] == g[x + 1][cy]);
    assert(line[i + 2] == g[x + 2][cy]);
    assert(line[i + 3] == g[x + 3][cy]);
    assert(four_at(line, i, p));
    lemma_run_is_found(line, i, p, 0);
}

/// Four on a rising diagonal through `(cx, cy)` are found on the diagonal that the
/// scan reads.
proof fn lemma_rising_run(g: Grid, cx: int, cy: int, p: Piece, x: int, y: int)
    requires
        well_shaped(g),
        on_board(cx, cy),
        p != Piece::Empty,
        four_from(g, x, y, 1, 1, p),
        x <= cx <= x + 3,
        cx - x == cy - y,
    ensures
        first_four(rising_through(g, cx, cy)) is Some,
{
    let line = rising_through(g, cx, cy);
    let back = lesser(cx, cy);
    let x0 = cx - back;
    let y0 = cy - back;
    let i = x - x0;
    assert(y - y0 == i);
    assert(0 <= i && i + 4 <= line.len());
    assert(line[i] == g[x0 + i][y0 + i]);
    assert(line[i + 1] == g[x0 + (i + 1)][y0 + (i + 1)]);
    assert(line[i + 2] == g[x0 + (i + 2)][y0 + (i + 2)]);
    assert(line[i + 3] == g[x0 + (i + 3)][y0 + (i + 3)]);
    assert(four_at(line, i, p));
    lemma_run_is_found(line, i, p, 0);
}

/// Four on a falling diagonal through `(cx, cy)` are found on the diagonal that
/// the scan reads.
proof fn lemma_falling_run(g: Grid, cx: int, cy: int, p: Piece, x: int, y: int)
    requires
        well_shaped(g),
        on_board(cx, cy),
        p != Piece::Empty,
        four_from(g, x, y, 1, -1, p),
        x <= cx <= x + 3,
        cx - x == y - cy,
    ensures
        first_four(falling_through(g, cx, cy)) is Some,
{
    let line = falling_through(g, cx, cy);
    let back = lesser(cx, 5 - cy);
    let x0 = cx - back;
    let y0 = cy + back;
    let i = x - x0;
    assert(y0 - y == i);
    assert(0 <= i && i + 4 <= line.len());
    assert(line[i] == g[x0 + i][y0 - i]);
    assert(line[i + 1] == g[x0 + (i + 1)][y0 - (i + 1)]);
    assert(line[i + 2] == g[x0 + (i + 2)][y0 - (i + 2)]);
    assert(line[i + 3] == g[x0 + (i + 3)][y0 - (i + 3)]);
    assert(four_at(line, i, p));
    lemma_run_is_found(line, i, p, 0);
}

/// Four in a line through `(cx, cy)` are found by the scan through that cell, in
/// the line that runs their way.
pub proof fn lemma_scan_is_complete(g: Grid, cx: int, cy: int, p: Piece)
    requires
        well_shaped(g),
        on_board(cx, cy),
        p != Piece::Empty,
        four_through(g, cx, cy, p),
    ensures
        first_four(g[cx]) is Some || first_four(row_near(g, cx, cy)) is Some || first_four(
            rising_through(g, cx, cy),
        ) is Some || first_four(falling_through(g, cx, cy)) is Some,
{
    let (x, y, dx, dy) = choose|x: int, y: int, dx: int, dy: int|
        is_direction(dx, dy) && #[trigger] four_from(g, x, y, dx, dy, p) && passes(
            x,
            y,
            dx,
            dy,
            cx,
            cy,
        );
    if dx == 0 {
        assert(four_at(g[cx], y, p));
        lemma_run_is_found(g[cx], y, p, 0);
    } else if dy == 0 {
        lemma_row_run(g, cx, cy, p, x);
    } else if dy == 1 {
        lemma_rising_run(g, cx, cy, p, x, y);
    } else {
        lemma_falling_run(g, cx, cy, p, x, y);
    }
}

/// A winner that the scan names has four in a line on the field.
pub proof fn lemma_winner_has_four(g: Grid, last: int)
    requires
        well_shaped(g),
        0 <= last < 7,
    ensures
        winner(g, last) matches Some(q) ==> q != Piece::Empty && four_anywhere(g, q),
{
    lemma_top_row(g, last);
    lemma_scan_is_sound(g, last, top_row(g, last));
}

/// Four in a line of which the last piece is one are seen as a win. The side named
/// is the side of that piece, unless the other side has four in a line as well and
/// the scan meets those first.
pub proof fn lemma_win_through_last_piece(g: Grid, last: int, p: Piece)
    requires
        well_shaped(g),
        0 <= last < 7,
        p != Piece::Empty,
        four_through(g, last, top_row(g, last), p),
    ensures
        winner(g, last) is Some,
        winner(g, last) == Some(p) || (winner(g, last) == Some(p.other()) && four_anywhere(
            g,
            p.other(),
        )),
        !four_anywhere(g, p.other()) ==> winner(g, last) == Some(p),
{
    lemma_top_row(g, last);
    lemma_scan_is_complete(g, last, top_row(g, last), p);
    lemma_winner_has_four(g, last);
}

/// Looking only at the lines through the last move misses nothing in play: when no
/// side had four in a line before a piece was dropped, then after the drop the scan
/// names a winner exactly if some side has four in a line anywhere on the field,
/// and the winner is the side that dropped the piece.
pub proof fn lemma_scan_misses_nothing(before: Grid, col: int, p: Piece)
    requires
        well_shaped(before),
        0 <= col < 7,
        has_room(before, col),
        p != Piece::Empty,
        !four_anywhere(before, Piece::X),
        !four_anywhere(before, Piece::O),
    ensures
        winner(dropped(before, col, p), col) is Some <==> four_anywhere(
            dropped(before, col, p),
            Piece::X,
        ) || four_anywhere(dropped(before, col, p), Piece::O),
        winner(dropped(before, col, p), col) is Some ==> winner(dropped(before, col, p), col)
            == Some(p),
{
    let g = dropped(before, col, p);
    let t = stack_top(before[col]);
    lemma_stack_top(before[col]);
    assert(t < 6) by {
        if t == 6 {
            assert(before[col][5] != Piece::Empty);
        }
    }
    crate::grid::lemma_drop_settles(before, col, p);
    lemma_stack_top(g[col]);
    assert(is_stack_top(g[col], t + 1));
    assert(top_row(g, col) == t);
    lemma_winner_has_four(g, col);
    assert forall|q: Piece| q != Piece::Empty && four_anywhere(g, q) implies q == p
        && four_through(g, col, t, p) by {
        let (x, y, dx, dy) = choose|x: int, y: int, dx: int, dy: int|
            is_direction(dx, dy) && #[trigger] four_from(g, x, y, dx, dy, q);
        if !passes(x, y, dx, dy, col, t) {
            assert(g[x][y] == before[x][y]);
            assert(g[x + dx][y + dy] == before[x + dx][y + dy]);
            assert(g[x + 2 * dx][y + 2 * dy] == before[x + 2 * dx][y + 2 * dy]);
            assert(g[x + 3 * dx][y + 3 * dy] == before[x + 3 * dx][y + 3 * dy]);
            assert(four_from(before, x, y, dx, dy, q));
            assert(four_anywhere(before, q));
        }
        assert(g[col][t] == p);
    }
    if four_anywhere(g, Piece::X) || four_anywhere(g, Piece::O) {
        assert(four_through(g, col, t, p));
        lemma_win_through_last_piece(g, col, p);
    }
}

/// A filled field on which no side has four in a line is a draw.
pub proof fn lemma_filled_without_four_is_draw(g: Grid, last: int)
    requires
        well_shaped(g),
        0 <= last < 7,
        filled(g),
        !four_anywhere(g, Piece::X),
        !four_anywhere(g, Piece::O),
    ensures
        outcome(g, last) == Some(Piece::Empty),
{
    lemma_winner_has_four(g, last);
}

} // verus!
