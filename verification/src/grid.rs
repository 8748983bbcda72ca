//! The mathematical model of the playing field: a grid of seven columns, each a
//! stack of six cells counted from the bottom, and the lines that run through it.

use vstd::prelude::*;
use crate::board::Piece;

verus! {

/// Columns of cells; `g[x][y]` is the cell in column `x`, row `y`, row 0 at the bottom.
pub type Grid = Seq<Seq<Piece>>;

/// Whether `(x, y)` names a cell of the field.
pub open spec fn on_board(x: int, y: int) -> bool {
    0 <= x < 7 && 0 <= y < 6
}

/// Seven columns of six cells.
pub open spec fn well_shaped(g: Grid) -> bool {
    &&& g.len() == 7
    &&& forall|x: int| 0 <= x < 7 ==> (#[trigger] g[x]).len() == 6
}

/// One past the highest occupied cell of a column: the row in which a piece that
/// slides down from the top comes to rest. It is 0 for an empty column and the
/// column's length when the topmost cell is taken.
pub open spec fn stack_top(c: Seq<Piece>) -> int
    decreases c.len(),
{
    if c.len() == 0 || c.last() != Piece::Empty {
        c.len() as int
    } else {
        stack_top(c.drop_last())
    }
}

/// Whether `t` is the place described by [`stack_top`]: every cell from `t` upwards
/// is empty and the cell below `t`, if there is one, is not.
pub open spec fn is_stack_top(c: Seq<Piece>, t: int) -> bool {
    &&& 0 <= t <= c.len()
    &&& forall|r: int| t <= r < c.len() ==> c[r] == Piece::Empty
    &&& t > 0 ==> c[t - 1] != Piece::Empty
}

/// `stack_top` is the one place that `is_stack_top` describes.
pub proof fn lemma_stack_top(c: Seq<Piece>)
    ensures
        is_stack_top(c, stack_top(c)),
        forall|t: int| is_stack_top(c, t) ==> t == stack_top(c),
    decreases c.len(),
{
    if c.len() == 0 || c.last() != Piece::Empty {
        assert forall|t: int| is_stack_top(c, t) implies t == stack_top(c) by {
            if c.len() > 0 && t < c.len() {
                assert(c[c.len() - 1] == Piece::Empty);
            }
        }
    } else {
        let d = c.drop_last();
        lemma_stack_top(d);
        let s = stack_top(d);
        assert forall|r: int| s <= r < c.len() implies c[r] == Piece::Empty by {
            if r < d.len() {
                assert(d[r] == c[r]);
            }
        }
        if s > 0 {
            assert(d[s - 1] == c[s - 1]);
        }
        assert forall|t: int| is_stack_top(c, t) implies t == s by {
            if t == c.len() {
                assert(c[t - 1] != Piece::Empty);
            } else {
                assert forall|r: int| t <= r < d.len() implies d[r] == Piece::Empty by {
                    assert(d[r] == c[r]);
                }
                if t > 0 {
                    assert(d[t - 1] == c[t - 1]);
                }
                assert(is_stack_top(d, t));
            }
        }
    }
}

/// Gravity in one column: no empty cell lies beneath a filled one.
pub open spec fn settled_column(c: Seq<Piece>) -> bool {
    forall|lo: int, hi: int|
        0 <= lo < hi < c.len() && c[hi] != Piece::Empty ==> c[lo] != Piece::Empty
}

/// Whether the cell in row `y` of a column rests on something: it is empty, or the
/// cell directly beneath it is filled.
pub open spec fn rests(c: Seq<Piece>, y: int) -> bool {
    c[y] == Piece::Empty || c[y - 1] != Piece::Empty
}

/// Gravity holds in a column in which every cell above row 0 rests on something.
pub proof fn lemma_settled_by_neighbours(c: Seq<Piece>)
    requires
        forall|y: int| 0 < y < c.len() ==> #[trigger] rests(c, y),
    ensures
        settled_column(c),
{
    assert forall|lo: int, hi: int|
        0 <= lo < hi < c.len() && c[hi] != Piece::Empty implies c[lo] != Piece::Empty by {
        lemma_filled_below(c, lo, hi);
    }
}

/// Where every cell above row 0 rests on something, the cells beneath a filled cell
/// are filled all the way down.
proof fn lemma_filled_below(c: Seq<Piece>, lo: int, hi: int)
    requires
        forall|y: int| 0 < y < c.len() ==> #[trigger] rests(c, y),
        0 <= lo <= hi < c.len(),
        c[hi] != Piece::Empty,
    ensures
        c[lo] != Piece::Empty,
    decreases hi - lo,
{
    if lo < hi {
        assert(rests(c, hi));
        lemma_filled_below(c, lo, hi - 1);
    }
}

/// Gravity on the whole field.
pub open spec fn settled(g: Grid) -> bool {
    forall|x: int| 0 <= x < g.len() ==> settled_column(#[trigger] g[x])
}

/// The grid after a piece has come to rest in column `col`.
pub open spec fn dropped(g: Grid, col: int, p: Piece) -> Grid {
    g.update(col, g[col].update(stack_top(g[col]), p))
}

/// The grid after the highest occupied cell of column `col` has been cleared; an
/// empty column stays as it is.
pub open spec fn lifted(g: Grid, col: int) -> Grid {
    let t = stack_top(g[col]);
    if t == 0 {
        g
    } else {
        g.update(col, g[col].update(t - 1, Piece::Empty))
    }
}

/// Whether column `col` can take one more piece: its topmost cell is empty.
pub open spec fn has_room(g: Grid, col: int) -> bool {
    g[col][5] == Piece::Empty
}

/// Whether any cell of column `c` is empty.
pub open spec fn has_gap(c: Seq<Piece>) -> bool {
    exists|r: int| 0 <= r < c.len() && c[r] == Piece::Empty
}

/// Whether no cell of the field is empty.
pub open spec fn filled(g: Grid) -> bool {
    forall|x: int, y: int| on_board(x, y) ==> g[x][y] != Piece::Empty
}

/// The columns below `n` that have an empty cell, in ascending order.
pub open spec fn open_columns_below(g: Grid, n: nat) -> Seq<usize>
    decreases n,
{
    if n == 0 {
        Seq::empty()
    } else {
        let rest = open_columns_below(g, (n - 1) as nat);
        if has_gap(g[n - 1]) {
            rest.push((n - 1) as usize)
        } else {
            rest
        }
    }
}

/// The columns that have an empty cell, in ascending order.
pub open spec fn open_columns(g: Grid) -> Seq<usize> {
    open_columns_below(g, 7)
}

/// Whether `x` stands somewhere in `s`.
pub open spec fn holds(s: Seq<usize>, x: usize) -> bool {
    exists|i: int| 0 <= i < s.len() && s[i] == x
}

/// The columns below `n` with an empty cell are exactly those listed, each once and
/// in ascending order.
pub proof fn lemma_open_columns(g: Grid, n: nat)
    requires
        n <= 7,
    ensures
        forall|i: int|
            0 <= i < open_columns_below(g, n).len() ==> (#[trigger] open_columns_below(g, n)[i])
                < n,
        forall|i: int|
            0 <= i < open_columns_below(g, n).len() ==> has_gap(
                g[(#[trigger] open_columns_below(g, n)[i]) as int],
            ),
        forall|i: int, j: int|
            0 <= i < j < open_columns_below(g, n).len() ==> open_columns_below(g, n)[i]
                < open_columns_below(g, n)[j],
        forall|c: usize|
            c < n && has_gap(g[c as int]) ==> #[trigger] holds(open_columns_below(g, n), c),
    decreases n,
{
    if n > 0 {
        let rest = open_columns_below(g, (n - 1) as nat);
        let all = open_columns_below(g, n);
        lemma_open_columns(g, (n - 1) as nat);
        assert forall|i: int, j: int| 0 <= i < j < all.len() implies all[i] < all[j] by {
            if j < rest.len() {
                assert(rest[i] < rest[j]);
            } else {
                assert(rest[i] < n - 1);
            }
        }
        assert forall|c: usize| c < n && has_gap(g[c as int]) implies #[trigger] holds(
            all,
            c,
        ) by {
            if c < n - 1 {
                assert(holds(rest, c));
                let i = choose|i: int| 0 <= i < rest.len() && rest[i] == c;
                assert(all[i] == c);
            } else {
                assert(all[all.len() - 1] == c);
            }
        }
    }
}

/// There are no more open columns below `n` than columns.
pub proof fn lemma_open_count(g: Grid, n: nat)
    ensures
        open_columns_below(g, n).len() <= n,
    decreases n,
{
    if n > 0 {
        lemma_open_count(g, (n - 1) as nat);
    }
}

/// The grid with nothing on it.
pub open spec fn empty_grid() -> Grid {
    Seq::new(7, |x: int| Seq::new(6, |y: int| Piece::Empty))
}

/// What an insertion does to the grid: the piece drops where the column has room,
/// and nothing changes where it has none.
pub open spec fn placed(g: Grid, col: int, p: Piece) -> Grid {
    if has_room(g, col) {
        dropped(g, col, p)
    } else {
        g
    }
}

/// The grid reached from the empty one by the insertions `moves`, made in order.
pub open spec fn after_moves(moves: Seq<(int, Piece)>) -> Grid
    decreases moves.len(),
{
    if moves.len() == 0 {
        empty_grid()
    } else {
        placed(after_moves(moves.drop_last()), moves.last().0, moves.last().1)
    }
}

/// Dropping a piece keeps the field's shape, and keeps gravity where it held.
pub proof fn lemma_drop_settles(g: Grid, col: int, p: Piece)
    requires
        well_shaped(g),
        0 <= col < 7,
        has_room(g, col),
    ensures
        well_shaped(dropped(g, col, p)),
        settled(g) ==> settled(dropped(g, col, p)),
{
    let c = g[col];
    let t = stack_top(c);
    lemma_stack_top(c);
    let h = dropped(g, col, p);
    assert(t < 6) by {
        if t == 6 {
            assert(c[5] != Piece::Empty);
        }
    }
    assert forall|x: int| 0 <= x < 7 implies (#[trigger] h[x]).len() == 6 by {
        if x != col {
            assert(h[x] == g[x]);
        }
    }
    if settled(g) {
        assert forall|x: int| 0 <= x < h.len() implies settled_column(#[trigger] h[x]) by {
            if x == col {
                assert(settled_column(g[col]));
                let n = h[x];
                assert forall|lo: int, hi: int|
                    0 <= lo < hi < n.len() && n[hi] != Piece::Empty implies n[lo]
                    != Piece::Empty by {
                    if hi == t {
                        assert(c[t - 1] != Piece::Empty);
                        if lo < t - 1 {
                            assert(c[lo] != Piece::Empty);
                        }
                    } else {
                        assert(c[hi] != Piece::Empty);
                        assert(hi < t);
                        assert(c[lo] != Piece::Empty);
                    }
                }
            } else {
                assert(h[x] == g[x]);
            }
        }
    }
}

/// Clearing the highest piece of a column keeps the field's shape, and keeps
/// gravity where it held.
pub proof fn lemma_lift_settles(g: Grid, col: int)
    requires
        well_shaped(g),
        0 <= col < 7,
    ensures
        well_shaped(lifted(g, col)),
        settled(g) ==> settled(lifted(g, col)),
{
    let c = g[col];
    let t = stack_top(c);
    lemma_stack_top(c);
    let h = lifted(g, col);
    assert forall|x: int| 0 <= x < 7 implies (#[trigger] h[x]).len() == 6 by {
        if x != col {
            assert(h[x] == g[x]);
        }
    }
    if settled(g) {
        assert forall|x: int| 0 <= x < h.len() implies settled_column(#[trigger] h[x]) by {
            if x == col && t > 0 {
                assert(settled_column(g[col]));
                let n = h[x];
                assert forall|lo: int, hi: int|
                    0 <= lo < hi < n.len() && n[hi] != Piece::Empty implies n[lo]
                    != Piece::Empty by {
                    assert(c[hi] != Piece::Empty);
                    assert(hi < t - 1);
                    assert(c[lo] != Piece::Empty);
                }
            } else {
                assert(h[x] == g[x]);
            }
        }
    }
}

/// The empty grid is a field under gravity.
pub proof fn lemma_empty_grid()
    ensures
        well_shaped(empty_grid()),
        settled(empty_grid()),
{
}

/// Gravity holds after every insertion: whatever pieces are inserted into whatever
/// columns of an empty board, in every column the pieces then stand in one run
/// from row 0 up, with no empty cell beneath a piece.
pub proof fn lemma_gravity_after_moves(moves: Seq<(int, Piece)>)
    requires
        forall|i: int| 0 <= i < moves.len() ==> 0 <= (#[trigger] moves[i]).0 < 7,
    ensures
        well_shaped(after_moves(moves)),
        settled(after_moves(moves)),
    decreases moves.len(),
{
    if moves.len() == 0 {
        lemma_empty_grid();
    } else {
        let earlier = moves.drop_last();
        assert forall|i: int| 0 <= i < earlier.len() implies 0 <= (#[trigger] earlier[i]).0
            < 7 by {
            assert(earlier[i] == moves[i]);
        }
        lemma_gravity_after_moves(earlier);
        let g = after_moves(earlier);
        let (col, p) = moves.last();
        assert(moves[moves.len() - 1] == moves.last());
        if has_room(g, col) {
            lemma_drop_settles(g, col, p);
        }
    }
}

/// An insertion followed by an undo in the same column gives back the grid as it
/// was, wherever the column had room and a piece was inserted. (To insert
/// `Piece::Empty` changes nothing, so that the undo takes a piece away that stood
/// there before, unless the column was empty.)
pub proof fn lemma_insert_then_undo(g: Grid, col: int, p: Piece)
    requires
        well_shaped(g),
        0 <= col < 7,
        has_room(g, col),
        p != Piece::Empty || stack_top(g[col]) == 0,
    ensures
        placed(g, col, p) == dropped(g, col, p),
        lifted(placed(g, col, p), col) == g,
{
    let c = g[col];
    let t = stack_top(c);
    lemma_stack_top(c);
    assert(t < 6) by {
        if t == 6 {
            assert(c[5] != Piece::Empty);
        }
    }
    let h = dropped(g, col, p);
    let n = h[col];
    lemma_stack_top(n);
    if p != Piece::Empty {
        assert(is_stack_top(n, t + 1));
        assert(n.update(t, Piece::Empty) =~= c);
        assert(lifted(h, col) =~= g);
    } else {
        assert(n =~= c);
        assert(h =~= g);
    }
}

} // verus!
