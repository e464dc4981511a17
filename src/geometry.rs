//! Neighbour geometry: the relative offsets that each variant counts as
//! adjacent, and the in-bounds neighbour list of a cell.

use vstd::prelude::*;

verus! {

/// The adjacency rule of a game.
#[derive(Clone, Copy, Debug, PartialEq, Eq, Structural)]
pub enum MinesweeperVariant {
    /// The 3x3 block around the cell.
    Normal,
    /// The 5x5 block around the cell.
    FarNormal,
    /// The knight moves from the cell.
    KnightPaths,
    /// The 3x3 block without the cell directly above.
    BlindUp,
    /// The 3x3 block without the cell directly below.
    BlindDown,
    /// The 3x3 block without the cell directly to the left.
    BlindLeft,
    /// The 3x3 block without the cell directly to the right.
    BlindRight,
    /// The four orthogonal cells at distance one.
    Orthogonal,
    /// The orthogonal cells at distance one and two.
    FarOrthogonal,
    /// The four diagonal cells at distance one.
    Diagonal,
    /// The diagonal cells at distance one and two.
    FarDiagonal,
    /// The 3x3 block, with the orthogonal cells counted twice.
    Doubled,
}

/// The offsets of the 5x5 block around a cell, without the cell itself, column
/// by column.
pub open spec fn far_normal_offsets() -> Seq<(int, int)> {
    seq![
        (-2, -2), (-2, -1), (-2, 0), (-2, 1), (-2, 2),
        (-1, -2), (-1, -1), (-1, 0), (-1, 1), (-1, 2),
        (0, -2), (0, -1), (0, 1), (0, 2),
        (1, -2), (1, -1), (1, 0), (1, 1), (1, 2),
        (2, -2), (2, -1), (2, 0), (2, 1), (2, 2),
    ]
}

/// The ordered offsets `(dx, dy)` that a variant counts as neighbours. An
/// offset may occur twice, and then counts twice.
pub open spec fn offsets(v: MinesweeperVariant) -> Seq<(int, int)> {
    match v {
        MinesweeperVariant::Normal => seq![(-1, 0), (1, 0), (0, -1), (0, 1), (-1, -1), (-1, 1), (1, -1), (1, 1)],
        MinesweeperVariant::FarNormal => far_normal_offsets(),
        MinesweeperVariant::KnightPaths => seq![(-1, -2), (-1, 2), (1, -2), (1, 2), (-2, -1), (-2, 1), (2, -1), (2, 1)],
        MinesweeperVariant::BlindUp => seq![(-1, 0), (1, 0), (0, 1), (-1, -1), (-1, 1), (1, -1), (1, 1)],
        MinesweeperVariant::BlindDown => seq![(-1, 0), (1, 0), (0, -1), (-1, -1), (-1, 1), (1, -1), (1, 1)],
        MinesweeperVariant::BlindLeft => seq![(1, 0), (0, -1), (0, 1), (-1, -1), (-1, 1), (1, -1), (1, 1)],
        MinesweeperVariant::BlindRight => seq![(-1, 0), (0, -1), (0, 1), (-1, -1), (-1, 1), (1, -1), (1, 1)],
        MinesweeperVariant::Orthogonal => seq![(-1, 0), (1, 0), (0, -1), (0, 1)],
        MinesweeperVariant::FarOrthogonal => seq![(-2, 0), (2, 0), (0, -2), (0, 2), (-1, 0), (1, 0), (0, -1), (0, 1)],
        MinesweeperVariant::Diagonal => seq![(-1, -1), (1, 1), (-1, 1), (1, -1)],
        MinesweeperVariant::FarDiagonal => seq![(-2, -2), (2, 2), (-2, 2), (2, -2), (-1, -1), (1, 1), (-1, 1), (1, -1)],
        MinesweeperVariant::Doubled => seq![(-1, 0), (1, 0), (0, -1), (0, 1), (-1, 0), (1, 0), (0, -1), (0, 1), (-1, -1), (-1, 1), (1, -1), (1, 1)],
    }
}

/// Whether `p` lies on a board of `w` columns and `h` rows.
pub open spec fn in_bounds(w: int, h: int, p: (int, int)) -> bool {
    0 <= p.0 < w && 0 <= p.1 < h
}

/// The cells that the offsets `offs` lead to from `(x, y)`, in the order of the
/// offsets, leaving out those that fall off the board.
pub open spec fn shifted(w: int, h: int, x: int, y: int, offs: Seq<(int, int)>) -> Seq<(int, int)>
    decreases offs.len(),
{
    if offs.len() == 0 {
        Seq::empty()
    } else {
        let rest = shifted(w, h, x, y, offs.drop_last());
        let q = (x + offs.last().0, y + offs.last().1);
        if in_bounds(w, h, q) {
            rest.push(q)
        } else {
            rest
        }
    }
}

/// The neighbour list of `(x, y)` under variant `v`.
pub open spec fn neighbor_list(w: int, h: int, v: MinesweeperVariant, x: int, y: int) -> Seq<(int, int)> {
    shifted(w, h, x, y, offsets(v))
}

/// A sequence of exec positions seen as pairs of integers.
pub open spec fn int_positions(s: Seq<(usize, usize)>) -> Seq<(int, int)> {
    s.map_values(|p: (usize, usize)| (p.0 as int, p.1 as int))
}

/// Every entry of a shifted list lies on the board.
pub proof fn lemma_shifted_in_bounds(w: int, h: int, x: int, y: int, offs: Seq<(int, int)>)
    ensures
        forall|i: int| 0 <= i < shifted(w, h, x, y, offs).len() ==> #[trigger] in_bounds(w, h, shifted(w, h, x, y, offs)[i]),
        shifted(w, h, x, y, offs).len() <= offs.len(),
    decreases offs.len(),
{
    if offs.len() > 0 {
        lemma_shifted_in_bounds(w, h, x, y, offs.drop_last());
    }
}

impl MinesweeperVariant {
    /// The offsets of this variant, as `offsets` gives them.
    pub fn offsets(&self) -> (r: Vec<(i64, i64)>)
        ensures
            r@.len() == offsets(*self).len(),
            forall|i: int| 0 <= i < r@.len() ==> (#[trigger] r@[i]).0 as int == offsets(*self)[i].0
                && r@[i].1 as int == offsets(*self)[i].1,
    {
        let r: Vec<(i64, i64)> = match self {
            MinesweeperVariant::Normal => vec![(-1, 0), (1, 0), (0, -1), (0, 1), (-1, -1), (-1, 1), (1, -1), (1, 1)],
            MinesweeperVariant::FarNormal => vec![
                (-2, -2), (-2, -1), (-2, 0), (-2, 1), (-2, 2),
                (-1, -2), (-1, -1), (-1, 0), (-1, 1), (-1, 2),
                (0, -2), (0, -1), (0, 1), (0, 2),
                (1, -2), (1, -1), (1, 0), (1, 1), (1, 2),
                (2, -2), (2, -1), (2, 0), (2, 1), (2, 2),
            ],
            MinesweeperVariant::KnightPaths => vec![(-1, -2), (-1, 2), (1, -2), (1, 2), (-2, -1), (-2, 1), (2, -1), (2, 1)],
            MinesweeperVariant::BlindUp => vec![(-1, 0), (1, 0), (0, 1), (-1, -1), (-1, 1), (1, -1), (1, 1)],
            MinesweeperVariant::BlindDown => vec![(-1, 0), (1, 0), (0, -1), (-1, -1), (-1, 1), (1, -1), (1, 1)],
            MinesweeperVariant::BlindLeft => vec![(1, 0), (0, -1), (0, 1), (-1, -1), (-1, 1), (1, -1), (1, 1)],
            MinesweeperVariant::BlindRight => vec![(-1, 0), (0, -1), (0, 1), (-1, -1), (-1, 1), (1, -1), (1, 1)],
            MinesweeperVariant::Orthogonal => vec![(-1, 0), (1, 0), (0, -1), (0, 1)],
            MinesweeperVariant::FarOrthogonal => vec![(-2, 0), (2, 0), (0, -2), (0, 2), (-1, 0), (1, 0), (0, -1), (0, 1)],
            MinesweeperVariant::Diagonal => vec![(-1, -1), (1, 1), (-1, 1), (1, -1)],
            MinesweeperVariant::FarDiagonal => vec![(-2, -2), (2, 2), (-2, 2), (2, -2), (-1, -1), (1, 1), (-1, 1), (1, -1)],
            MinesweeperVariant::Doubled => vec![(-1, 0), (1, 0), (0, -1), (0, 1), (-1, 0), (1, 0), (0, -1), (0, 1), (-1, -1), (-1, 1), (1, -1), (1, 1)],
        };
        r
    }
}

/// The in-bounds neighbours of `(x, y)` on a board of `width` columns and
/// `height` rows, one entry per offset of `v` that stays on the board.
pub fn neighbors_of(width: usize, height: usize, v: MinesweeperVariant, x: usize, y: usize) -> (r: Vec<(usize, usize)>)
    requires
        x < width,
        y < height,
    ensures
        int_positions(r@) == neighbor_list(width as int, height as int, v, x as int, y as int),
{
    let dirs = v.offsets();
    let ghost offs = offsets(v);
    let mut out: Vec<(usize, usize)> = Vec::new();
    let mut i: usize = 0;
    while i < dirs.len()
        invariant
            i <= dirs@.len(),
            dirs@.len() == offs.len(),
            forall|j: int| 0 <= j < dirs@.len() ==> (#[trigger] dirs@[j]).0 as int == offs[j].0
                && dirs@[j].1 as int == offs[j].1,
            offs == offsets(v),
            x < width,
            y < height,
            int_positions(out@) == shifted(width as int, height as int, x as int, y as int, offs.take(i as int)),
        decreases dirs@.len() - i,
    {
        let (dx, dy) = dirs[i];
        assert(offs.take(i as int + 1).drop_last() == offs.take(i as int));
        assert(offs.take(i as int + 1).last() == offs[i as int]);
        assert(-2 <= dx <= 2 && -2 <= dy <= 2) by {
            assert(forall|j: int| 0 <= j < offsets(v).len() ==> -2 <= #[trigger] offsets(v)[j].0 <= 2
                && -2 <= offsets(v)[j].1 <= 2);
        }
        let mut inside = true;
        let mut nx: usize = 0;
        let mut ny: usize = 0;
        if dx < 0 {
            let a = (0 - dx) as usize;
            if x < a {
                inside = false;
            } else {
                nx = x - a;
            }
        } else {
            let a = dx as usize;
            if a >= width - x {
                inside = false;
            } else {
                nx = x + a;
            }
        }
        if dy < 0 {
            let a = (0 - dy) as usize;
            if y < a {
                inside = false;
            } else {
                ny = y - a;
            }
        } else {
            let a = dy as usize;
            if a >= height - y {
                inside = false;
            } else {
                ny = y + a;
            }
        }
        if inside {
            out.push((nx, ny));
        }
        proof {
            assert(int_positions(out@) == shifted(width as int, height as int, x as int, y as int, offs.take(i as int + 1)));
        }
        i = i + 1;
    }
    assert(offs.take(dirs@.len() as int) == offs);
    out
}

} // verus!
