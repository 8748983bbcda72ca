//! The order in which a search tries the columns: moves that make an open three
//! first, and among equals the columns nearer the centre.

use vstd::prelude::*;
use crate::board::Piece;
use crate::grid::{
    Grid, has_gap, holds, lemma_open_columns, lemma_open_count, open_columns, open_columns_below,
};
use crate::lines::makes_three;

verus! {

/// What a move that makes an open three is ranked above all others by.
pub const THREAT_BONUS: usize = 100;

/// Three for the centre column, one less for each column away from it.
pub open spec fn centre_bonus(c: int) -> int {
    if c <= 3 {
        c
    } else {
        6 - c
    }
}

/// The rank of dropping `p` into column `c`: the threat bonus where the move makes
/// an open three, and the centre bonus of the column.
pub open spec fn priority(g: Grid, p: Piece, c: usize) -> int {
    (if makes_three(g, c as int, p) {
        THREAT_BONUS as int
    } else {
        0
    }) + centre_bonus(c as int)
}

/// Whether column `a` is tried before column `b`: by higher rank, and at equal
/// rank by lower column.
pub open spec fn goes_before(g: Grid, p: Piece, a: usize, b: usize) -> bool {
    priority(g, p, a) > priority(g, p, b) || (priority(g, p, a) == priority(g, p, b) && a < b)
}

/// `s` with column `c` put behind the last column that goes before it.
pub open spec fn slotted(g: Grid, p: Piece, s: Seq<usize>, c: usize) -> Seq<usize>
    decreases s.len(),
{
    if s.len() == 0 {
        seq![c]
    } else if goes_before(g, p, s.last(), c) {
        s.push(c)
    } else {
        slotted(g, p, s.drop_last(), c).push(s.last())
    }
}

/// The columns `moves`, slotted one after the other into an empty sequence.
pub open spec fn ranked(g: Grid, p: Piece, moves: Seq<usize>) -> Seq<usize>
    decreases moves.len(),
{
    if moves.len() == 0 {
        Seq::empty()
    } else {
        slotted(g, p, ranked(g, p, moves.drop_last()), moves.last())
    }
}

/// The columns with an empty cell in the order in which `p` tries them: by falling
/// rank, columns of equal rank from left to right.
pub open spec fn move_order(g: Grid, p: Piece) -> Seq<usize> {
    ranked(g, p, open_columns(g))
}

/// Whether each column of `s` goes before all that follow it.
pub open spec fn in_order(g: Grid, p: Piece, s: Seq<usize>) -> bool {
    forall|i: int, j: int| 0 <= i < j < s.len() ==> goes_before(g, p, s[i], s[j])
}

/// Slotting a column in puts it at the index behind which no column goes before it.
pub proof fn lemma_slotted(g: Grid, p: Piece, s: Seq<usize>, c: usize, j: int)
    requires
        0 <= j <= s.len(),
        forall|k: int| j <= k < s.len() ==> !goes_before(g, p, #[trigger] s[k], c),
        j > 0 ==> goes_before(g, p, s[j - 1], c),
    ensures
        slotted(g, p, s, c) == s.insert(j, c),
    decreases s.len(),
{
    if s.len() == 0 {
        assert(s.insert(j, c) =~= seq![c]);
    } else if goes_before(g, p, s.last(), c) {
        if j < s.len() {
            assert(!goes_before(g, p, s[s.len() - 1], c));
        }
        assert(s.insert(j, c) =~= s.push(c));
    } else {
        let d = s.drop_last();
        assert forall|k: int| j <= k < d.len() implies !goes_before(g, p, #[trigger] d[k], c) by {
            assert(d[k] == s[k]);
        }
        lemma_slotted(g, p, d, c, j);
        assert(d.insert(j, c).push(s.last()) =~= s.insert(j, c));
    }
}

/// Slotting a column in keeps the others and adds this one.
pub proof fn lemma_slotted_holds(g: Grid, p: Piece, s: Seq<usize>, c: usize)
    ensures
        slotted(g, p, s, c).len() == s.len() + 1,
        forall|x: usize| #[trigger] holds(slotted(g, p, s, c), x) <==> (holds(s, x) || x == c),
    decreases s.len(),
{
    let r = slotted(g, p, s, c);
    if s.len() == 0 {
        assert(r[0] == c);
    } else if goes_before(g, p, s.last(), c) {
        assert(r[r.len() - 1] == c);
        assert forall|x: usize| holds(s, x) implies holds(r, x) by {
            let i = choose|i: int| 0 <= i < s.len() && s[i] == x;
            assert(r[i] == x);
        }
    } else {
        let d = s.drop_last();
        let e = slotted(g, p, d, c);
        lemma_slotted_holds(g, p, d, c);
        assert(r =~= e.push(s.last()));
        assert(r[r.len() - 1] == s.last());
        assert forall|x: usize| holds(r, x) implies (holds(s, x) || x == c) by {
            let i = choose|i: int| 0 <= i < r.len() && r[i] == x;
            if i < e.len() {
                assert(e[i] == x);
                assert(holds(e, x));
                if holds(d, x) {
                    let k = choose|k: int| 0 <= k < d.len() && d[k] == x;
                    assert(s[k] == x);
                }
            } else {
                assert(s[s.len() - 1] == x);
            }
        }
        assert forall|x: usize| (holds(s, x) || x == c) implies holds(r, x) by {
            if x == c {
                assert(holds(e, c));
                let i = choose|i: int| 0 <= i < e.len() && e[i] == c;
                assert(r[i] == c);
            } else {
                let k = choose|k: int| 0 <= k < s.len() && s[k] == x;
                if k < d.len() {
                    assert(d[k] == x);
                    assert(holds(d, x));
                    assert(holds(e, x));
                    let i = choose|i: int| 0 <= i < e.len() && e[i] == x;
                    assert(r[i] == x);
                } else {
                    assert(r[r.len() - 1] == x);
                }
            }
        }
    }
}

/// Ranking keeps the columns: as many as before, and the same ones.
pub proof fn lemma_ranked_holds(g: Grid, p: Piece, moves: Seq<usize>)
    ensures
        ranked(g, p, moves).len() == moves.len(),
        forall|x: usize| #[trigger] holds(ranked(g, p, moves), x) <==> holds(moves, x),
    decreases moves.len(),
{
    if moves.len() > 0 {
        let d = moves.drop_last();
        lemma_ranked_holds(g, p, d);
        lemma_slotted_holds(g, p, ranked(g, p, d), moves.last());
        let r = ranked(g, p, moves);
        assert forall|x: usize| #[trigger] holds(r, x) <==> holds(moves, x) by {
            assert(holds(r, x) <==> (holds(ranked(g, p, d), x) || x == moves.last()));
            assert(holds(ranked(g, p, d), x) <==> holds(d, x));
            if holds(moves, x) {
                let k = choose|k: int| 0 <= k < moves.len() && moves[k] == x;
                if k < d.len() {
                    assert(d[k] == x);
                }
            }
            if holds(d, x) {
                let k = choose|k: int| 0 <= k < d.len() && d[k] == x;
                assert(moves[k] == x);
            }
            if x == moves.last() {
                assert(moves[moves.len() - 1] == x);
            }
        }
    }
}

/// Slotting a new column into columns that are in order leaves them in order.
pub proof fn lemma_slotted_in_order(g: Grid, p: Piece, s: Seq<usize>, c: usize)
    requires
        in_order(g, p, s),
        !holds(s, c),
    ensures
        in_order(g, p, slotted(g, p, s, c)),
    decreases s.len(),
{
    let r = slotted(g, p, s, c);
    if s.len() == 0 {
    } else if goes_before(g, p, s.last(), c) {
        assert forall|i: int, j: int| 0 <= i < j < r.len() implies goes_before(
            g,
            p,
            r[i],
            r[j],
        ) by {
            if j == s.len() {
                if i < s.len() - 1 {
                    assert(goes_before(g, p, s[i], s[s.len() - 1]));
                }
            } else {
                assert(goes_before(g, p, s[i], s[j]));
            }
        }
    } else {
        let d = s.drop_last();
        let e = slotted(g, p, d, c);
        let top = s.last();
        assert(in_order(g, p, d)) by {
            assert forall|i: int, j: int| 0 <= i < j < d.len() implies goes_before(
                g,
                p,
                d[i],
                d[j],
            ) by {
                assert(goes_before(g, p, s[i], s[j]));
            }
        }
        assert(!holds(d, c)) by {
            if holds(d, c) {
                let k = choose|k: int| 0 <= k < d.len() && d[k] == c;
                assert(s[k] == c);
            }
        }
        lemma_slotted_in_order(g, p, d, c);
        lemma_slotted_holds(g, p, d, c);
        assert(r =~= e.push(top));
        assert(s[s.len() - 1] == top);
        assert(top != c);
        assert(goes_before(g, p, c, top));
        assert forall|i: int, j: int| 0 <= i < j < r.len() implies goes_before(
            g,
            p,
            r[i],
            r[j],
        ) by {
            if j < e.len() {
                assert(goes_before(g, p, e[i], e[j]));
            } else {
                assert(r[j] == top);
                assert(r[i] == e[i]);
                assert(holds(e, e[i]));
                if e[i] != c {
                    assert(holds(d, e[i]));
                    let k = choose|k: int| 0 <= k < d.len() && d[k] == e[i];
                    assert(s[k] == e[i]);
                    assert(goes_before(g, p, s[k], s[s.len() - 1]));
                }
            }
        }
    }
}

/// Ranking columns that are all different puts them in order.
pub proof fn lemma_ranked_in_order(g: Grid, p: Piece, moves: Seq<usize>)
    requires
        forall|i: int, j: int| 0 <= i < j < moves.len() ==> moves[i] != moves[j],
    ensures
        in_order(g, p, ranked(g, p, moves)),
    decreases moves.len(),
{
    if moves.len() > 0 {
        let d = moves.drop_last();
        assert forall|i: int, j: int| 0 <= i < j < d.len() implies d[i] != d[j] by {
            assert(moves[i] != moves[j]);
        }
        lemma_ranked_in_order(g, p, d);
        lemma_ranked_holds(g, p, d);
        assert(!holds(d, moves.last())) by {
            if holds(d, moves.last()) {
                let k = choose|k: int| 0 <= k < d.len() && d[k] == moves.last();
                assert(moves[k] != moves[moves.len() - 1]);
            }
        }
        assert(!holds(ranked(g, p, d), moves.last()));
        lemma_slotted_in_order(g, p, ranked(g, p, d), moves.last());
    }
}

/// The order of the moves holds exactly the columns with an empty cell, each
/// before all columns of lower rank and before the columns of its own rank that
/// lie to its right.
pub proof fn lemma_move_order(g: Grid, p: Piece)
    ensures
        in_order(g, p, move_order(g, p)),
        move_order(g, p).len() <= 7,
        forall|c: usize|
            #[trigger] holds(move_order(g, p), c) <==> c < 7 && has_gap(g[c as int]),
        forall|i: int| 0 <= i < move_order(g, p).len() ==> (#[trigger] move_order(g, p)[i]) < 7,
{
    let open = open_columns(g);
    lemma_open_columns(g, 7);
    lemma_ranked_holds(g, p, open);
    lemma_ranked_in_order(g, p, open);
    lemma_open_count(g, 7);
    assert forall|c: usize| holds(open, c) implies c < 7 && has_gap(g[c as int]) by {
        let i = choose|i: int| 0 <= i < open.len() && open[i] == c;
        assert(open_columns_below(g, 7)[i] == c);
    }
    assert forall|c: usize| #[trigger]
        holds(move_order(g, p), c) <==> c < 7 && has_gap(g[c as int]) by {
        assert(holds(move_order(g, p), c) <==> holds(open, c));
        if c < 7 && has_gap(g[c as int]) {
            assert(holds(open_columns_below(g, 7), c));
        }
    }
    assert forall|i: int| 0 <= i < move_order(g, p).len() implies (#[trigger] move_order(
        g,
        p,
    )[i]) < 7 by {
        assert(holds(move_order(g, p), move_order(g, p)[i]));
    }
}

} // verus!
