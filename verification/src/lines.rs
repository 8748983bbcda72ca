//! The lines that run through the field, and what is looked for on them: four in a
//! line, and three with a free cell.

use vstd::prelude::*;
use crate::board::Piece;
use crate::grid::{Grid, dropped, filled, has_room, stack_top};

verus! {

/// The smaller of two integers.
pub open spec fn lesser(a: int, b: int) -> int {
    if a <= b {
        a
    } else {
        b
    }
}

/// The row of the highest piece in column `x`; row 0 when the column is empty.
pub open spec fn top_row(g: Grid, x: int) -> int {
    let t = stack_top(g[x]);
    if t == 0 {
        0
    } else {
        t - 1
    }
}

/// Row `y` from the left edge to the right edge.
pub open spec fn row_of(g: Grid, y: int) -> Seq<Piece> {
    Seq::new(7, |x: int| g[x][y])
}

/// The column in which [`row_near`] begins.
pub open spec fn near_first(x: int) -> int {
    if x >= 3 {
        x - 3
    } else {
        0
    }
}

/// The stretch of row `y` that lies within three columns of column `x`, left to right.
pub open spec fn row_near(g: Grid, x: int, y: int) -> Seq<Piece> {
    let first = near_first(x);
    let last = lesser(x + 3, 6);
    Seq::new((last - first + 1) as nat, |k: int| g[first + k][y])
}

/// The rising diagonal through `(x, y)`, from its lowest cell up and to the right.
pub open spec fn rising_through(g: Grid, x: int, y: int) -> Seq<Piece> {
    let back = lesser(x, y);
    let x0 = x - back;
    let y0 = y - back;
    Seq::new(lesser(7 - x0, 6 - y0) as nat, |k: int| g[x0 + k][y0 + k])
}

/// The falling diagonal through `(x, y)`, from its highest cell down and to the right.
pub open spec fn falling_through(g: Grid, x: int, y: int) -> Seq<Piece> {
    let back = lesser(x, 5 - y);
    let x0 = x - back;
    let y0 = y + back;
    Seq::new(lesser(7 - x0, y0 + 1) as nat, |k: int| g[x0 + k][y0 - k])
}

/// Whether the four cells of `line` that begin at index `i` all hold `p`.
pub open spec fn four_at(line: Seq<Piece>, i: int, p: Piece) -> bool {
    &&& 0 <= i
    &&& i + 4 <= line.len()
    &&& line[i] == p
    &&& line[i + 1] == p
    &&& line[i + 2] == p
    &&& line[i + 3] == p
}

/// The side that owns the first run of four equal pieces found in `line` at index
/// `i` or later, if there is such a run.
pub open spec fn first_four_from(line: Seq<Piece>, i: int) -> Option<Piece>
    decreases line.len() - i,
{
    if i < 0 || i + 4 > line.len() {
        None
    } else if four_at(line, i, Piece::X) {
        Some(Piece::X)
    } else if four_at(line, i, Piece::O) {
        Some(Piece::O)
    } else {
        first_four_from(line, i + 1)
    }
}

/// The side that owns the first run of four equal pieces in `line`, read from its
/// start; `None` when the line holds no such run or is shorter than four cells.
pub open spec fn first_four(line: Seq<Piece>) -> Option<Piece> {
    first_four_from(line, 0)
}

/// The winner as seen from the last move: the first run of four found in the column
/// `last`, then in the row of that column's highest piece within three columns
/// either side, then on the rising and on the falling diagonal through that piece.
pub open spec fn winner(g: Grid, last: int) -> Option<Piece> {
    let y = top_row(g, last);
    if first_four(g[last]) is Some {
        first_four(g[last])
    } else if first_four(row_near(g, last, y)) is Some {
        first_four(row_near(g, last, y))
    } else if first_four(rising_through(g, last, y)) is Some {
        first_four(rising_through(g, last, y))
    } else {
        first_four(falling_through(g, last, y))
    }
}

/// How the game stands: `Some` side that has won, `Some(Empty)` for a draw on a
/// filled board, `None` while play goes on.
pub open spec fn outcome(g: Grid, last: int) -> Option<Piece> {
    if winner(g, last) is Some {
        winner(g, last)
    } else if filled(g) {
        Some(Piece::Empty)
    } else {
        None
    }
}

/// 1 when cell `c` holds `p`, else 0.
pub open spec fn hit(c: Piece, p: Piece) -> int {
    if c == p {
        1
    } else {
        0
    }
}

/// How many of the four cells of `line` that begin at index `i` hold `p`.
pub open spec fn tally(line: Seq<Piece>, i: int, p: Piece) -> int {
    hit(line[i], p) + hit(line[i + 1], p) + hit(line[i + 2], p) + hit(line[i + 3], p)
}

/// Whether the four cells of `line` that begin at index `i` hold three pieces of
/// `p` and one empty cell.
pub open spec fn open_three_at(line: Seq<Piece>, i: int, p: Piece) -> bool {
    &&& 0 <= i
    &&& i + 4 <= line.len()
    &&& tally(line, i, p) == 3
    &&& tally(line, i, Piece::Empty) == 1
}

/// Whether some four neighbouring cells of `line` hold three pieces of `p` and one
/// empty cell.
pub open spec fn has_open_three(line: Seq<Piece>, p: Piece) -> bool {
    exists|i: int| open_three_at(line, i, p)
}

/// Whether one of the lines through the highest piece of column `col` (the column,
/// the row within three columns either side, the two diagonals) holds an open
/// three of `p`.
pub open spec fn open_three_through(g: Grid, col: int, p: Piece) -> bool {
    let y = top_row(g, col);
    ||| has_open_three(g[col], p)
    ||| has_open_three(row_near(g, col, y), p)
    ||| has_open_three(rising_through(g, col, y), p)
    ||| has_open_three(falling_through(g, col, y), p)
}

/// Whether dropping `p` into column `col` leaves an open three of `p` on a line
/// through the dropped piece. A column without room takes no piece and so makes none.
pub open spec fn makes_three(g: Grid, col: int, p: Piece) -> bool {
    has_room(g, col) && open_three_through(dropped(g, col, p), col, p)
}

} // verus!
