//! What a position is worth before any move is tried: the count of the windows of
//! four cells that a side can still complete.

use vstd::prelude::*;
use crate::board::Piece;
use crate::grid::{Grid, well_shaped};
use crate::lines::{falling_through, rising_through, row_of, tally, winner};

verus! {

/// The score of a position in which one side has four in a line, before the depth
/// at which the search met it is added.
pub const WIN: isize = 100_000_000;

/// Ten to the power `n`.
pub open spec fn pow10(n: int) -> int
    decreases n,
{
    if n <= 0 {
        1
    } else {
        10 * pow10(n - 1)
    }
}

/// What the four cells of `line` that begin at index `i` are worth to `p`: ten to
/// the number of its pieces among them while none of the four belongs to the other
/// side, and nothing once one does.
pub open spec fn window_worth(line: Seq<Piece>, i: int, p: Piece) -> int {
    if tally(line, i, p) + tally(line, i, Piece::Empty) == 4 {
        pow10(tally(line, i, p))
    } else {
        0
    }
}

/// The sum of [`window_worth`] over the windows of `line` that begin below index `n`.
pub open spec fn line_worth_below(line: Seq<Piece>, n: int, p: Piece) -> int
    decreases n,
{
    if n <= 0 {
        0
    } else {
        line_worth_below(line, n - 1, p) + window_worth(line, n - 1, p)
    }
}

/// The sum of [`window_worth`] over all windows of four cells in `line`.
pub open spec fn line_worth(line: Seq<Piece>, p: Piece) -> int {
    line_worth_below(line, line.len() - 3, p)
}

/// The sum of [`line_worth`] over `lines`.
pub open spec fn lines_worth(lines: Seq<Seq<Piece>>, p: Piece) -> int
    decreases lines.len(),
{
    if lines.len() == 0 {
        0
    } else {
        lines_worth(lines.drop_last(), p) + line_worth(lines.last(), p)
    }
}

/// The six rising diagonals that are four cells or longer, from left to right.
pub open spec fn rising_lines(g: Grid) -> Seq<Seq<Piece>> {
    Seq::new(6, |i: int| rising_through(g, i, 2))
}

/// The six falling diagonals that are four cells or longer, from left to right.
pub open spec fn falling_lines(g: Grid) -> Seq<Seq<Piece>> {
    Seq::new(6, |i: int| falling_through(g, i, 3))
}

/// The six rows, from the bottom up.
pub open spec fn row_lines(g: Grid) -> Seq<Seq<Piece>> {
    Seq::new(6, |y: int| row_of(g, y))
}

/// The sum of [`window_worth`] over every window of four cells on the field: on
/// the diagonals of both families, in the columns and in the rows.
pub open spec fn field_worth(g: Grid, p: Piece) -> int {
    lines_worth(rising_lines(g), p) + lines_worth(falling_lines(g), p) + lines_worth(g, p)
        + lines_worth(row_lines(g), p)
}

/// A value counted for its side: upwards for `O`, downwards for `X`, whoever is
/// to move.
pub open spec fn signed(p: Piece, v: int) -> int {
    if p == Piece::O {
        v
    } else {
        -v
    }
}

/// The static score of a position for `p`: the fixed score of a win where the last
/// move made four in a line, counted for the winner, and else the worth of the
/// field to `p`, counted for `p`.
pub open spec fn static_score(g: Grid, last: int, p: Piece) -> int {
    match winner(g, last) {
        Some(w) => signed(w, WIN as int),
        None => signed(p, field_worth(g, p)),
    }
}

/// A window is worth between nothing and ten thousand.
pub proof fn lemma_window_bounds(line: Seq<Piece>, i: int, p: Piece)
    ensures
        0 <= window_worth(line, i, p) <= 10_000,
{
    reveal_with_fuel(pow10, 5);
}

/// A line's windows below `n` are worth at most ten thousand each.
pub proof fn lemma_line_bounds(line: Seq<Piece>, n: int, p: Piece)
    requires
        0 <= n,
    ensures
        0 <= line_worth_below(line, n, p) <= 10_000 * n,
    decreases n,
{
    if n > 0 {
        lemma_line_bounds(line, n - 1, p);
        lemma_window_bounds(line, n - 1, p);
    }
}

/// Lines of at most seven cells are worth at most forty thousand each.
pub proof fn lemma_lines_bounds(lines: Seq<Seq<Piece>>, p: Piece)
    requires
        forall|i: int| 0 <= i < lines.len() ==> (#[trigger] lines[i]).len() <= 7,
    ensures
        0 <= lines_worth(lines, p) <= 40_000 * lines.len(),
    decreases lines.len(),
{
    if lines.len() > 0 {
        lemma_lines_bounds(lines.drop_last(), p);
        let line = lines.last();
        if line.len() >= 3 {
            lemma_line_bounds(line, line.len() - 3, p);
        }
    }
}

/// The field is worth less than a win.
pub proof fn lemma_field_bounds(g: Grid, p: Piece)
    requires
        well_shaped(g),
    ensures
        0 <= field_worth(g, p) <= 1_000_000,
{
    lemma_lines_bounds(rising_lines(g), p);
    lemma_lines_bounds(falling_lines(g), p);
    lemma_lines_bounds(g, p);
    lemma_lines_bounds(row_lines(g), p);
}

} // verus!
