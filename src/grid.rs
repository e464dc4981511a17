//! Flat boolean grids: a board of `w` columns and `h` rows is stored column by
//! column, the cell `(x, y)` at index `x * h + y`, and seen as the set of the
//! positions whose entry is `true`.

use vstd::prelude::*;
use crate::geometry::in_bounds;

verus! {

/// The index of the cell `p` in a grid of `h` rows.
pub open spec fn cell_index(h: int, p: (int, int)) -> int {
    p.0 * h + p.1
}

/// The positions whose entry is `true` in a grid of `w` columns and `h` rows.
pub open spec fn grid_set(w: int, h: int, g: Seq<bool>) -> Set<(int, int)> {
    Set::new(|p: (int, int)| in_bounds(w, h, p) && g[cell_index(h, p)])
}

/// The number of `false` entries of `g`.
pub open spec fn count_false(g: Seq<bool>) -> nat
    decreases g.len(),
{
    if g.len() == 0 {
        0
    } else {
        count_false(g.drop_last()) + if g.last() { 0nat } else { 1nat }
    }
}

/// The index of a cell on the board lies in the grid.
pub proof fn lemma_index_bound(w: int, h: int, p: (int, int))
    requires
        in_bounds(w, h, p),
    ensures
        0 <= cell_index(h, p) < w * h,
        p.0 * h <= cell_index(h, p),
{
    assert(p.0 * h + h <= w * h) by (nonlinear_arith)
        requires
            0 <= p.0 < w,
            0 < h,
    {
    }
    assert(0 <= p.0 * h) by (nonlinear_arith)
        requires
            0 <= p.0,
            0 < h,
    {
    }
}

/// Distinct cells of the board have distinct indices.
pub proof fn lemma_index_injective(w: int, h: int, p: (int, int), q: (int, int))
    requires
        in_bounds(w, h, p),
        in_bounds(w, h, q),
        cell_index(h, p) == cell_index(h, q),
    ensures
        p == q,
{
    if p.0 < q.0 {
        assert(p.0 * h + h <= q.0 * h) by (nonlinear_arith)
            requires
                p.0 < q.0,
                0 < h,
        {
        }
    } else if q.0 < p.0 {
        assert(q.0 * h + h <= p.0 * h) by (nonlinear_arith)
            requires
                q.0 < p.0,
                0 < h,
        {
        }
    }
}

/// Writing `b` at the index of `p` adds `p` to the grid's set, or removes it.
pub proof fn lemma_grid_update(w: int, h: int, g: Seq<bool>, p: (int, int), b: bool)
    requires
        g.len() == w * h,
        in_bounds(w, h, p),
    ensures
        grid_set(w, h, g.update(cell_index(h, p), b)) == (if b {
            grid_set(w, h, g).insert(p)
        } else {
            grid_set(w, h, g).remove(p)
        }),
{
    lemma_index_bound(w, h, p);
    let g2 = g.update(cell_index(h, p), b);
    assert forall|q: (int, int)| in_bounds(w, h, q) implies g2[cell_index(h, q)] == (if q == p {
        b
    } else {
        g[cell_index(h, q)]
    }) by {
        lemma_index_bound(w, h, q);
        if q != p && cell_index(h, p) == cell_index(h, q) {
            lemma_index_injective(w, h, p, q);
        }
    }
    if b {
        assert(grid_set(w, h, g2) =~= grid_set(w, h, g).insert(p));
    } else {
        assert(grid_set(w, h, g2) =~= grid_set(w, h, g).remove(p));
    }
}

/// A grid of `false` entries is the empty set.
pub proof fn lemma_grid_empty(w: int, h: int, g: Seq<bool>)
    requires
        g.len() == w * h,
        forall|i: int| 0 <= i < g.len() ==> !g[i],
    ensures
        grid_set(w, h, g) == Set::<(int, int)>::empty(),
        count_false(g) == g.len(),
    decreases g.len(),
{
    assert forall|q: (int, int)| in_bounds(w, h, q) implies !g[cell_index(h, q)] by {
        lemma_index_bound(w, h, q);
    }
    assert(grid_set(w, h, g) =~= Set::<(int, int)>::empty());
    lemma_count_false_all(g);
}

proof fn lemma_count_false_all(g: Seq<bool>)
    requires
        forall|i: int| 0 <= i < g.len() ==> !g[i],
    ensures
        count_false(g) == g.len(),
    decreases g.len(),
{
    if g.len() > 0 {
        lemma_count_false_all(g.drop_last());
    }
}

/// The count of `false` entries is at most the length.
pub proof fn lemma_count_false_bound(g: Seq<bool>)
    ensures
        count_false(g) <= g.len(),
    decreases g.len(),
{
    if g.len() > 0 {
        lemma_count_false_bound(g.drop_last());
    }
}

/// Turning a `false` entry to `true` takes one from the count.
pub proof fn lemma_count_false_set(g: Seq<bool>, i: int)
    requires
        0 <= i < g.len(),
        !g[i],
    ensures
        count_false(g.update(i, true)) + 1 == count_false(g),
    decreases g.len(),
{
    let g2 = g.update(i, true);
    if i == g.len() - 1 {
        assert(g2.drop_last() =~= g.drop_last());
    } else {
        assert(g2.drop_last() =~= g.drop_last().update(i, true));
        lemma_count_false_set(g.drop_last(), i);
    }
}

/// Counting a prefix one entry further.
pub proof fn lemma_count_false_take(g: Seq<bool>, i: int)
    requires
        0 <= i < g.len(),
    ensures
        count_false(g.take(i + 1)) == count_false(g.take(i)) + if g[i] { 0nat } else { 1nat },
{
    assert(g.take(i + 1).drop_last() =~= g.take(i));
}

} // verus!
