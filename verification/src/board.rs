//! The board: seven columns of six cells under gravity, with drop and undo, win
//! and draw detection scoped to the last move, and the lines an evaluator reads.

use vstd::prelude::*;
use crate::grid::{
    Grid, dropped, empty_grid, filled, has_gap, has_room, holds, is_stack_top,
    lemma_drop_settles, lemma_insert_then_undo, lemma_lift_settles, lemma_open_columns,
    lemma_settled_by_neighbours, lemma_stack_top, lifted, on_board, open_columns,
    open_columns_below, placed, rests, settled, settled_column, well_shaped,
};
use crate::lines::{
    falling_through, first_four, first_four_from, has_open_three, makes_three, open_three_at,
    open_three_through, outcome, rising_through, row_near, row_of, tally, top_row, winner,
};

verus! {

/// What a cell holds: a piece of one of the two sides, or nothing.
#[derive(Clone, Copy, PartialEq, Eq, Structural, Debug)]
pub enum Piece {
    X,
    O,
    Empty,
}

impl Piece {
    /// The other side; `Empty` has no opponent and maps to itself.
    pub open spec fn other(self) -> Piece {
        match self {
            Piece::O => Piece::X,
            Piece::X => Piece::O,
            Piece::Empty => Piece::Empty,
        }
    }

    /// The other side; `Empty` maps to itself.
    pub fn opponent(&self) -> (r: Piece)
        ensures
            r == self.other(),
    {
        match self {
            Piece::O => Piece::X,
            Piece::X => Piece::O,
            Piece::Empty => Piece::Empty,
        }
    }
}

/// The playing field, stored column by column, each column a stack that grows
/// upwards from row 0.
#[derive(Clone, Debug)]
pub struct Board {
    /// `cols[x][y]` is the cell in column `x`, row `y`.
    pub cols: [[Piece; 6]; 7],
    /// The column that took the most recent piece.
    pub last_move: usize,
    /// The score that the last search gave this position; the board itself never reads it.
    pub eval: isize,
}

impl View for Board {
    type V = Grid;

    open spec fn view(&self) -> Grid {
        Seq::new(7, |x: int| self.cols[x]@)
    }
}

impl Default for Board {
    /// An empty board.
    fn default() -> (b: Board)
        ensures
            b@ == empty_grid(),
            b.last_move == 0,
            b.eval == 0,
    {
        Self::new()
    }
}

impl Board {
    /// An empty board.
    pub fn new() -> (b: Board)
        ensures
            b@ == empty_grid(),
            b.last_move == 0,
            b.eval == 0,
    {
        let b = Board { cols: [[Piece::Empty; 6]; 7], last_move: 0, eval: 0 };
        assert(b@ =~~= empty_grid());
        b
    }

    /// The cells as they stand, for whoever draws the board: `cells()[x][y]` is the
    /// cell in column `x`, row `y`, row 0 at the bottom.
    pub fn cells(&self) -> (cells: &[[Piece; 6]; 7])
        ensures
            *cells == self.cols,
    {
        &self.cols
    }

    /// Drops `piece` into column `col`. The piece enters at the top and slides down
    /// until the cell beneath it is taken; the column is then the last move. A
    /// column whose topmost cell is taken refuses the piece and nothing changes.
    pub fn insert_piece(&mut self, col: usize, piece: Piece) -> (r: Result<(), &'static str>)
        requires
            col < 7,
        ensures
            r is Ok <==> has_room(old(self)@, col as int),
            r is Err ==> r == Err::<(), &'static str>("Column is full"),
            final(self)@ == placed(old(self)@, col as int, piece),
            final(self).last_move == (if r is Ok {
                col
            } else {
                old(self).last_move
            }),
            final(self).eval == old(self).eval,
            settled(old(self)@) ==> settled(final(self)@),
    {
        if self.cols[col][5] != Piece::Empty {
            return Err("Column is full");
        }
        let mut i: usize = 5;
        while i > 0 && self.cols[col][i - 1] == Piece::Empty
            invariant
                col < 7,
                0 <= i <= 5,
                *self == *old(self),
                forall|r: int| i <= r < 6 ==> self@[col as int][r] == Piece::Empty,
            decreases i,
        {
            i -= 1;
        }
        proof {
            lemma_stack_top(self@[col as int]);
            assert(is_stack_top(self@[col as int], i as int));
            lemma_drop_settles(self@, col as int, piece);
        }
        self.cols[col][i] = piece;
        self.last_move = col;
        assert(self@ =~= dropped(old(self)@, col as int, piece));
        Ok(())
    }

    /// Clears the highest occupied cell of column `col`; an empty column stays as it is.
    pub fn undo_move(&mut self, col: usize)
        requires
            col < 7,
        ensures
            final(self)@ == lifted(old(self)@, col as int),
            final(self).last_move == old(self).last_move,
            final(self).eval == old(self).eval,
            settled(old(self)@) ==> settled(final(self)@),
    {
        let mut row: usize = 6;
        while row > 0 && self.cols[col][row - 1] == Piece::Empty
            invariant
                col < 7,
                0 <= row <= 6,
                *self == *old(self),
                forall|r: int| row <= r < 6 ==> self@[col as int][r] == Piece::Empty,
            decreases row,
        {
            row -= 1;
        }
        proof {
            lemma_stack_top(self@[col as int]);
            assert(is_stack_top(self@[col as int], row as int));
            lemma_lift_settles(self@, col as int);
        }
        if row > 0 {
            self.cols[col][row - 1] = Piece::Empty;
        }
        assert(self@ =~= lifted(old(self)@, col as int));
    }

    /// The rising diagonal through the cell `(x, y)`, from its lowest cell.
    fn rising(&self, x: usize, y: usize) -> (diag: Vec<Piece>)
        requires
            x < 7,
            y < 6,
        ensures
            diag@ == rising_through(self@, x as int, y as int),
    {
        let back = if x < y { x } else { y };
        let x0 = x - back;
        let y0 = y - back;
        let len = if 7 - x0 < 6 - y0 { 7 - x0 } else { 6 - y0 };
        let mut diag: Vec<Piece> = Vec::new();
        let mut k: usize = 0;
        while k < len
            invariant
                k <= len,
                x0 + len <= 7,
                y0 + len <= 6,
                diag@ == Seq::new(k as nat, |j: int| self@[x0 + j][y0 + j]),
            decreases len - k,
        {
            diag.push(self.cols[x0 + k][y0 + k]);
            k += 1;
            assert(diag@ =~= Seq::new(k as nat, |j: int| self@[x0 + j][y0 + j]));
        }
        assert(diag@ =~= rising_through(self@, x as int, y as int));
        diag
    }

    /// The falling diagonal through the cell `(x, y)`, from its highest cell.
    fn falling(&self, x: usize, y: usize) -> (diag: Vec<Piece>)
        requires
            x < 7,
            y < 6,
        ensures
            diag@ == falling_through(self@, x as int, y as int),
    {
        let back = if x < 5 - y { x } else { 5 - y };
        let x0 = x - back;
        let y0 = y + back;
        let len = if 7 - x0 < y0 + 1 { 7 - x0 } else { y0 + 1 };
        let mut diag: Vec<Piece> = Vec::new();
        let mut k: usize = 0;
        while k < len
            invariant
                k <= len,
                x0 + len <= 7,
                len <= y0 + 1,
                y0 < 6,
                diag@ == Seq::new(k as nat, |j: int| self@[x0 + j][y0 - j]),
            decreases len - k,
        {
            diag.push(self.cols[x0 + k][y0 - k]);
            k += 1;
            assert(diag@ =~= Seq::new(k as nat, |j: int| self@[x0 + j][y0 - j]));
        }
        assert(diag@ =~= falling_through(self@, x as int, y as int));
        diag
    }

    /// The two diagonals through the cell `(last_x, last_y)`, each in full: first the
    /// rising one from its lowest cell, then the falling one from its highest.
    pub fn get_diagonals_of_last_piece(&self, last_x: usize, last_y: usize) -> (r: (
        Vec<Piece>,
        Vec<Piece>,
    ))
        requires
            last_x < 7,
            last_y < 6,
        ensures
            r.0@ == rising_through(self@, last_x as int, last_y as int),
            r.1@ == falling_through(self@, last_x as int, last_y as int),
    {
        (self.rising(last_x, last_y), self.falling(last_x, last_y))
    }

    /// The row of the highest piece in column `col`; row 0 when the column is empty.
    fn top_piece_row(&self, col: usize) -> (y: usize)
        requires
            col < 7,
        ensures
            y == top_row(self@, col as int),
            y < 6,
    {
        let mut y: usize = 5;
        while self.cols[col][y] == Piece::Empty && y != 0
            invariant
                col < 7,
                0 <= y <= 5,
                forall|r: int| y < r < 6 ==> self@[col as int][r] == Piece::Empty,
            decreases y,
        {
            y -= 1;
        }
        proof {
            lemma_stack_top(self@[col as int]);
            if self@[col as int][y as int] == Piece::Empty {
                assert(is_stack_top(self@[col as int], 0));
            } else {
                assert(is_stack_top(self@[col as int], y + 1));
            }
        }
        y
    }

    /// The cells of the row of `last_y` that lie within three columns of `last_x`.
    fn row_around(&self, last_x: usize, last_y: usize) -> (row: Vec<Piece>)
        requires
            last_x < 7,
            last_y < 6,
        ensures
            row@ == row_near(self@, last_x as int, last_y as int),
    {
        let first: usize = if last_x >= 3 { last_x - 3 } else { 0 };
        let last: usize = if last_x + 3 < 6 { last_x + 3 } else { 6 };
        let mut row: Vec<Piece> = Vec::new();
        let mut x: usize = first;
        while x <= last
            invariant
                first <= x <= last + 1,
                last <= 6,
                last_y < 6,
                row@ == Seq::new((x - first) as nat, |k: int| self@[first + k][last_y as int]),
            decreases last + 1 - x,
        {
            row.push(self.cols[x][last_y]);
            x += 1;
            assert(row@ =~= Seq::new((x - first) as nat, |k: int| self@[first + k][last_y as int]));
        }
        assert(row@ =~= row_near(self@, last_x as int, last_y as int));
        row
    }

    /// The winner, looked for only on the lines through the last move: its column,
    /// the row of that column's highest piece, and the two diagonals through that
    /// piece. A run of four elsewhere on the board is not looked for.
    pub fn check_win(&self) -> (r: Option<Piece>)
        requires
            self.last_move < 7,
        ensures
            r == winner(self@, self.last_move as int),
    {
        let in_col = find_four(&self.cols[self.last_move]);
        if in_col.is_some() {
            return in_col;
        }
        let last_piece_y = self.top_piece_row(self.last_move);
        let last_piece_x = self.last_move;
        let row = self.row_around(last_piece_x, last_piece_y);
        let in_row = find_four(row.as_slice());
        if in_row.is_some() {
            return in_row;
        }
        let (diagonal1, diagonal2) = self.get_diagonals_of_last_piece(last_piece_x, last_piece_y);
        let in_rising = find_four(diagonal1.as_slice());
        if in_rising.is_some() {
            return in_rising;
        }
        find_four(diagonal2.as_slice())
    }

    /// Whether an open three of `piece` stands on a line through the highest piece of
    /// the column of the last move.
    fn three_through_last(&self, piece: Piece) -> (r: bool)
        requires
            self.last_move < 7,
        ensures
            r == open_three_through(self@, self.last_move as int, piece),
    {
        if find_three(&self.cols[self.last_move], piece) {
            return true;
        }
        let last_piece_y = self.top_piece_row(self.last_move);
        let last_piece_x = self.last_move;
        let row = self.row_around(last_piece_x, last_piece_y);
        if find_three(row.as_slice(), piece) {
            return true;
        }
        let (diagonal1, diagonal2) = self.get_diagonals_of_last_piece(last_piece_x, last_piece_y);
        if find_three(diagonal1.as_slice(), piece) {
            return true;
        }
        find_three(diagonal2.as_slice(), piece)
    }

    /// Whether dropping `piece` into column `col` would leave an open three of
    /// `piece` (three of them and one empty cell among four neighbours) on a line
    /// through the dropped piece. The piece is dropped, the lines are read, and the
    /// drop is taken back: the board returns as it came. A column without room, or
    /// `Piece::Empty` for a piece, gives `false`.
    pub fn creates_three_in_a_row(&mut self, col: usize, piece: Piece) -> (r: bool)
        requires
            col < 7,
        ensures
            *final(self) == *old(self),
            r == makes_three(old(self)@, col as int, piece),
    {
        if piece == Piece::Empty {
            proof {
                lemma_no_three_of_nothing(old(self)@, col as int);
            }
            return false;
        }
        let before = self.last_move;
        if self.insert_piece(col, piece).is_err() {
            proof {
                lemma_same_board(*self, *old(self));
            }
            return false;
        }
        let found = self.three_through_last(piece);
        self.undo_move(col);
        self.last_move = before;
        proof {
            lemma_shape(*old(self));
            lemma_insert_then_undo(old(self)@, col as int, piece);
            lemma_same_board(*self, *old(self));
        }
        found
    }

    /// The six diagonals of each family that are four cells or longer: first the
    /// rising ones, then the falling ones, each family from left to right.
    pub fn diagonals(&self) -> (r: (Vec<Vec<Piece>>, Vec<Vec<Piece>>))
        ensures
            r.0@.len() == 6,
            r.1@.len() == 6,
            forall|i: int| 0 <= i < 6 ==> (#[trigger] r.0@[i])@ == rising_through(self@, i, 2),
            forall|i: int| 0 <= i < 6 ==> (#[trigger] r.1@[i])@ == falling_through(self@, i, 3),
    {
        let mut diagonals_up: Vec<Vec<Piece>> = Vec::new();
        let mut i: usize = 0;
        while i < 6
            invariant
                i <= 6,
                diagonals_up@.len() == i,
                forall|j: int|
                    0 <= j < i ==> (#[trigger] diagonals_up@[j])@ == rising_through(self@, j, 2),
            decreases 6 - i,
        {
            diagonals_up.push(self.rising(i, 2));
            i += 1;
        }
        let mut diagonals_down: Vec<Vec<Piece>> = Vec::new();
        let mut i: usize = 0;
        while i < 6
            invariant
                i <= 6,
                diagonals_down@.len() == i,
                forall|j: int|
                    0 <= j < i ==> (#[trigger] diagonals_down@[j])@ == falling_through(
                        self@,
                        j,
                        3,
                    ),
            decreases 6 - i,
        {
            diagonals_down.push(self.falling(i, 3));
            i += 1;
        }
        (diagonals_up, diagonals_down)
    }

    /// The six rows from the bottom up, each from left to right.
    pub fn rows(&self) -> (rows: Vec<Vec<Piece>>)
        ensures
            rows@.len() == 6,
            forall|y: int| 0 <= y < 6 ==> (#[trigger] rows@[y])@ == row_of(self@, y),
    {
        let mut rows: Vec<Vec<Piece>> = Vec::new();
        let mut y: usize = 0;
        while y < 6
            invariant
                y <= 6,
                rows@.len() == y,
                forall|j: int| 0 <= j < y ==> (#[trigger] rows@[j])@ == row_of(self@, j),
            decreases 6 - y,
        {
            let mut row: Vec<Piece> = Vec::new();
            let mut x: usize = 0;
            while x < 7
                invariant
                    x <= 7,
                    y < 6,
                    row@ == Seq::new(x as nat, |i: int| self@[i][y as int]),
                decreases 7 - x,
            {
                row.push(self.cols[x][y]);
                x += 1;
                assert(row@ =~= Seq::new(x as nat, |i: int| self@[i][y as int]));
            }
            assert(row@ =~= row_of(self@, y as int));
            rows.push(row);
            y += 1;
        }
        rows
    }

    /// The seven columns from left to right, each from the bottom up.
    pub fn cols(&self) -> (cols: Vec<Vec<Piece>>)
        ensures
            cols@.len() == 7,
            forall|x: int| 0 <= x < 7 ==> (#[trigger] cols@[x])@ == self@[x],
    {
        let mut cols: Vec<Vec<Piece>> = Vec::new();
        let mut x: usize = 0;
        while x < 7
            invariant
                x <= 7,
                cols@.len() == x,
                forall|j: int| 0 <= j < x ==> (#[trigger] cols@[j])@ == self@[j],
            decreases 7 - x,
        {
            let mut col: Vec<Piece> = Vec::new();
            let mut y: usize = 0;
            while y < 6
                invariant
                    y <= 6,
                    x < 7,
                    col@ == Seq::new(y as nat, |j: int| self@[x as int][j]),
                decreases 6 - y,
            {
                col.push(self.cols[x][y]);
                y += 1;
                assert(col@ =~= Seq::new(y as nat, |j: int| self@[x as int][j]));
            }
            assert(col@ =~= self@[x as int]);
            cols.push(col);
            x += 1;
        }
        cols
    }

    /// The columns that have an empty cell, in ascending order.
    pub fn get_moves(&self) -> (moves: Vec<usize>)
        ensures
            moves@ == open_columns(self@),
            forall|i: int, j: int| 0 <= i < j < moves@.len() ==> moves@[i] < moves@[j],
            forall|c: usize| #[trigger] holds(moves@, c) <==> c < 7 && has_gap(self@[c as int]),
    {
        proof {
            lemma_open_columns(self@, 7);
        }
        let mut empty_cols: Vec<usize> = Vec::new();
        let mut i: usize = 0;
        while i < 7
            invariant
                i <= 7,
                empty_cols@ == open_columns_below(self@, i as nat),
            decreases 7 - i,
        {
            if has_empty_cell(&self.cols[i]) {
                empty_cols.push(i);
            }
            i += 1;
        }
        empty_cols
    }

    /// Whether no cell is empty.
    pub fn is_full(&self) -> (r: bool)
        ensures
            r == filled(self@),
    {
        let mut x: usize = 0;
        while x < 7
            invariant
                0 <= x <= 7,
                forall|i: int, j: int| 0 <= i < x && 0 <= j < 6 ==> self@[i][j] != Piece::Empty,
            decreases 7 - x,
        {
            let mut y: usize = 0;
            while y < 6
                invariant
                    0 <= x < 7,
                    0 <= y <= 6,
                    forall|i: int, j: int| 0 <= i < x && 0 <= j < 6 ==> self@[i][j] != Piece::Empty,
                    forall|j: int| 0 <= j < y ==> self@[x as int][j] != Piece::Empty,
                decreases 6 - y,
            {
                if self.cols[x][y] == Piece::Empty {
                    assert(on_board(x as int, y as int));
                    return false;
                }
                y += 1;
            }
            x += 1;
        }
        true
    }

    /// Whether the board is under gravity: in no column does an empty cell lie
    /// beneath a filled one. It is so for every board that was filled by insertions.
    pub fn is_settled(&self) -> (r: bool)
        ensures
            r == settled(self@),
    {
        let mut x: usize = 0;
        while x < 7
            invariant
                0 <= x <= 7,
                forall|i: int| 0 <= i < x ==> settled_column(#[trigger] self@[i]),
            decreases 7 - x,
        {
            let mut y: usize = 1;
            while y < 6
                invariant
                    0 <= x < 7,
                    1 <= y <= 6,
                    forall|j: int| 0 < j < y ==> #[trigger] rests(self@[x as int], j),
                decreases 6 - y,
            {
                if self.cols[x][y] != Piece::Empty && self.cols[x][y - 1] == Piece::Empty {
                    assert(!settled_column(self@[x as int])) by {
                        let c = self@[x as int];
                        assert(c[y as int] != Piece::Empty && c[y - 1] == Piece::Empty);
                    }
                    return false;
                }
                assert(rests(self@[x as int], y as int));
                y += 1;
            }
            proof {
                lemma_settled_by_neighbours(self@[x as int]);
            }
            x += 1;
        }
        true
    }

    /// How the game stands: the winner if the last move made one, else
    /// `Some(Piece::Empty)` for a draw when the board is full, else `None`.
    pub fn is_terminal(&self) -> (r: Option<Piece>)
        requires
            self.last_move < 7,
        ensures
            r == outcome(self@, self.last_move as int),
    {
        if let Some(winner) = self.check_win() {
            Some(winner)
        } else if self.is_full() {
            Some(Piece::Empty)
        } else {
            None
        }
    }
}

/// The side that owns the first run of four equal pieces in `line`.
pub fn find_four(line: &[Piece]) -> (r: Option<Piece>)
    ensures
        r == first_four(line@),
{
    if line.len() < 4 {
        return None;
    }
    let mut i: usize = 0;
    while i <= line.len() - 4
        invariant
            line.len() >= 4,
            first_four(line@) == first_four_from(line@, i as int),
        decreases line.len() - i,
    {
        if line[i] == Piece::X && line[i + 1] == Piece::X && line[i + 2] == Piece::X && line[i + 3]
            == Piece::X {
            return Some(Piece::X);
        } else if line[i] == Piece::O && line[i + 1] == Piece::O && line[i + 2] == Piece::O
            && line[i + 3] == Piece::O {
            return Some(Piece::O);
        }
        i += 1;
    }
    None
}

/// How many of the four cells of `line` that begin at index `i` hold `piece`.
pub fn count_in_window(line: &[Piece], i: usize, piece: Piece) -> (n: usize)
    requires
        i + 4 <= line.len(),
    ensures
        n == tally(line@, i as int, piece),
{
    let mut n: usize = 0;
    if line[i] == piece {
        n += 1;
    }
    if line[i + 1] == piece {
        n += 1;
    }
    if line[i + 2] == piece {
        n += 1;
    }
    if line[i + 3] == piece {
        n += 1;
    }
    n
}

/// Whether some four neighbouring cells of `line` hold three pieces of `piece` and
/// one empty cell.
pub fn find_three(line: &[Piece], piece: Piece) -> (r: bool)
    ensures
        r == has_open_three(line@, piece),
{
    if line.len() < 4 {
        return false;
    }
    let mut i: usize = 0;
    while i <= line.len() - 4
        invariant
            line.len() >= 4,
            forall|j: int| 0 <= j < i ==> !open_three_at(line@, j, piece),
        decreases line.len() - i,
    {
        if count_in_window(line, i, piece) == 3 && count_in_window(line, i, Piece::Empty) == 1 {
            assert(open_three_at(line@, i as int, piece));
            return true;
        }
        i += 1;
    }
    false
}

/// Whether some cell of `column` is empty.
fn has_empty_cell(column: &[Piece]) -> (r: bool)
    ensures
        r == has_gap(column@),
{
    let mut y: usize = 0;
    while y < column.len()
        invariant
            y <= column.len(),
            forall|j: int| 0 <= j < y ==> column@[j] != Piece::Empty,
        decreases column.len() - y,
    {
        if column[y] == Piece::Empty {
            return true;
        }
        y += 1;
    }
    false
}

/// A board's grid has seven columns of six cells.
pub proof fn lemma_shape(b: Board)
    ensures
        well_shaped(b@),
{
}

/// Two boards with the same grid, last move and score are the same board.
pub proof fn lemma_same_board(a: Board, b: Board)
    requires
        a@ == b@,
        a.last_move == b.last_move,
        a.eval == b.eval,
    ensures
        a == b,
{
    assert forall|x: int| 0 <= x < 7 implies a.cols[x] == b.cols[x] by {
        assert(a@[x] == b@[x]);
        assert(a.cols[x] =~= b.cols[x]);
    }
    assert(a.cols =~= b.cols);
}

/// No four cells hold three empty cells and one empty cell: nothing makes an open
/// three of `Piece::Empty`.
proof fn lemma_no_three_of_nothing(g: Grid, col: int)
    ensures
        !makes_three(g, col, Piece::Empty),
{
}

} // verus!
