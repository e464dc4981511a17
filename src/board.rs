//! The board: mines, open cells, flagged cells and the game state, with the
//! moves that change them.

use vstd::prelude::*;
use crate::geometry::{in_bounds, int_positions, lemma_shifted_in_bounds, neighbor_list, neighbors_of, MinesweeperVariant};
use crate::grid::{
    cell_index, count_false, grid_set, lemma_count_false_bound, lemma_count_false_set,
    lemma_count_false_take, lemma_grid_empty, lemma_grid_update, lemma_index_bound,
};
use rand::Rng;

verus! {

/// A cell of the board: column `x`, row `y`, both counted from zero.
pub type Position = (usize, usize);

/// Where a game stands. `Won` and `Lost` are final.
#[derive(Clone, Copy, Debug, PartialEq, Eq, Structural)]
pub enum GameState {
    Playing,
    Won,
    Lost,
}

/// The two moves a player can make on a cell.
#[derive(Clone, Copy, Debug, PartialEq, Eq, Structural)]
pub enum MoveType {
    Flag,
    Open,
}

/// The configuration of a game.
#[derive(Clone, Copy, Debug)]
pub struct GameSettings {
    pub board_width: usize,
    pub board_height: usize,
    pub num_mines: usize,
    pub variant: MinesweeperVariant,
}

/// The number of entries of `s` that are in `m`, counting repeated entries
/// each time.
pub open spec fn count_members(s: Seq<(int, int)>, m: Set<(int, int)>) -> nat
    decreases s.len(),
{
    if s.len() == 0 {
        0
    } else {
        count_members(s.drop_last(), m) + if m.contains(s.last()) { 1nat } else { 0nat }
    }
}

/// The number of cells `(x, 0)` to `(x, y - 1)` that hold no mine.
pub open spec fn free_in_column(v: BoardView, x: int, y: int) -> nat
    decreases y,
{
    if y <= 0 {
        0
    } else {
        free_in_column(v, x, y - 1) + if v.mines.contains((x, y - 1)) { 0nat } else { 1nat }
    }
}

/// The number of cells in the columns before `x` that hold no mine.
pub open spec fn free_in_columns(v: BoardView, x: int) -> nat
    decreases x,
{
    if x <= 0 {
        0
    } else {
        free_in_columns(v, x - 1) + free_in_column(v, x - 1, v.height)
    }
}

/// The number of mine-free cells before `p`, going column by column and, in
/// a column, row by row.
pub open spec fn free_rank(v: BoardView, p: (int, int)) -> nat {
    free_in_columns(v, p.0) + free_in_column(v, p.0, p.1)
}

/// The abstract state of a board.
pub struct BoardView {
    pub width: int,
    pub height: int,
    pub mines: Set<(int, int)>,
    pub open: Set<(int, int)>,
    pub flagged: Set<(int, int)>,
    pub state: GameState,
    pub variant: MinesweeperVariant,
}

impl BoardView {
    /// Every position of the board.
    pub open spec fn all(&self) -> Set<(int, int)> {
        Set::new(|p: (int, int)| in_bounds(self.width, self.height, p))
    }

    pub open spec fn contains(&self, p: (int, int)) -> bool {
        in_bounds(self.width, self.height, p)
    }

    /// What holds of every board: the sets lie on the board, no open cell is
    /// a mine or flagged.
    pub open spec fn inv(&self) -> bool {
        &&& self.width > 0
        &&& self.height > 0
        &&& self.mines.finite()
        &&& forall|p: (int, int)| #[trigger] self.mines.contains(p) ==> self.contains(p)
        &&& forall|p: (int, int)| #[trigger] self.flagged.contains(p) ==> self.contains(p)
        &&& forall|p: (int, int)| #[trigger] self.open.contains(p) ==> self.contains(p)
            && !self.mines.contains(p) && !self.flagged.contains(p)
    }

    /// The neighbour list of `p` under the board's variant.
    pub open spec fn neighbors(&self, p: (int, int)) -> Seq<(int, int)> {
        neighbor_list(self.width, self.height, self.variant, p.0, p.1)
    }

    /// The number of entries of the neighbour list of `p` that are mines.
    pub open spec fn mines_near(&self, p: (int, int)) -> nat {
        count_members(self.neighbors(p), self.mines)
    }

    /// A cell that opening would reveal: on the board, not open, not flagged,
    /// not a mine.
    pub open spec fn openable(&self, p: (int, int)) -> bool {
        self.contains(p) && !self.open.contains(p) && !self.flagged.contains(p) && !self.mines.contains(p)
    }

    /// A chain of openable cells, each but the last with no mine near and the
    /// next one in its neighbour list.
    pub open spec fn is_cascade(&self, path: Seq<(int, int)>) -> bool {
        &&& path.len() > 0
        &&& forall|i: int| 0 <= i < path.len() ==> self.openable(#[trigger] path[i])
        &&& forall|i: int|
            0 <= i < path.len() - 1 ==> self.mines_near(#[trigger] path[i]) == 0 && self.neighbors(
                path[i],
            ).contains(path[i + 1])
    }

    /// Opening `p` reveals `c`.
    pub open spec fn reaches(&self, p: (int, int), c: (int, int)) -> bool {
        exists|path: Seq<(int, int)>| #[trigger] self.is_cascade(path) && path[0] == p && path.last() == c
    }

    /// The cells that opening `p` reveals.
    pub open spec fn revealed_from(&self, p: (int, int)) -> Set<(int, int)> {
        Set::new(|c: (int, int)| self.reaches(p, c))
    }

    /// Every cell is open or a mine.
    pub open spec fn cleared(&self) -> bool {
        self.open.union(self.mines) == self.all()
    }

    /// The board after opening `p`.
    pub open spec fn after_open(&self, p: (int, int)) -> BoardView {
        if self.open.contains(p) || self.flagged.contains(p) {
            *self
        } else if self.mines.contains(p) {
            BoardView { state: GameState::Lost, ..*self }
        } else {
            BoardView { open: self.open.union(self.revealed_from(p)), ..*self }
        }
    }

    /// The board after flagging `p`: an open cell is left as it is, a flag is
    /// taken off, or put on.
    pub open spec fn after_flag(&self, p: (int, int)) -> BoardView {
        if self.open.contains(p) {
            *self
        } else if self.flagged.contains(p) {
            BoardView { flagged: self.flagged.remove(p), ..*self }
        } else {
            BoardView { flagged: self.flagged.insert(p), ..*self }
        }
    }

    /// The board after the win check: a game in play with every cell open or
    /// a mine is won.
    pub open spec fn after_win_check(&self) -> BoardView {
        if self.state == GameState::Playing && self.cleared() {
            BoardView { state: GameState::Won, ..*self }
        } else {
            *self
        }
    }

    /// The board after a move on `p`, and the win check that follows it.
    pub open spec fn after_move(&self, p: (int, int), m: MoveType) -> BoardView {
        match m {
            MoveType::Open => self.after_open(p).after_win_check(),
            MoveType::Flag => self.after_flag(p).after_win_check(),
        }
    }
}

/// How a cell is shown.
#[derive(Clone, Copy, Debug, PartialEq, Eq, Structural)]
pub enum CellView {
    /// A flag, while the game is not lost.
    Flagged,
    /// A mine, once the game is lost.
    DetonatedMine,
    /// A mine, while the game is not lost: shown as a closed cell.
    HiddenMine,
    /// An open cell, with the number of mines near it.
    OpenWithCount(usize),
    /// A closed cell.
    Unopened,
}

/// `s` is in the neighbour list of a cell that is open in `now` but not in
/// `v`, and has no mine near.
spec fn fed(v: BoardView, now: Set<(int, int)>, s: (int, int)) -> bool {
    exists|q: (int, int)|
        #![trigger now.contains(q), v.neighbors(q).contains(s)]
        now.contains(q) && !v.open.contains(q) && v.mines_near(q) == 0 && v.neighbors(q).contains(s)
}

/// Every neighbour of a cell opened since `v` with no mine near is open in
/// `now`, waiting in `pending`, flagged or a mine.
spec fn expanded(v: BoardView, now: Set<(int, int)>, pending: Seq<(int, int)>) -> bool {
    forall|q: (int, int), s: (int, int)|
        #![trigger now.contains(q), v.neighbors(q).contains(s)]
        now.contains(q) && !v.open.contains(q) && v.mines_near(q) == 0 && v.neighbors(q).contains(s)
            ==> now.contains(s) || pending.contains(s) || v.flagged.contains(s) || v.mines.contains(s)
}

/// A cascade that reaches a cell with no mine near goes on to each openable
/// neighbour of it.
pub proof fn lemma_reach_extend(v: BoardView, p: (int, int), q: (int, int), e: (int, int))
    requires
        v.reaches(p, q),
        v.mines_near(q) == 0,
        v.neighbors(q).contains(e),
        v.openable(e),
    ensures
        v.reaches(p, e),
{
    let path = choose|path: Seq<(int, int)>| #[trigger] v.is_cascade(path) && path[0] == p && path.last() == q;
    let path2 = path.push(e);
    assert forall|i: int| 0 <= i < path2.len() implies v.openable(#[trigger] path2[i]) by {
        if i < path.len() {
            assert(path2[i] == path[i]);
        }
    }
    assert forall|i: int| 0 <= i < path2.len() - 1 implies v.mines_near(#[trigger] path2[i]) == 0
        && v.neighbors(path2[i]).contains(path2[i + 1]) by {
        if i < path.len() - 1 {
            assert(path2[i] == path[i]);
            assert(path2[i + 1] == path[i + 1]);
        }
    }
    assert(v.is_cascade(path2));
}

/// Once nothing is pending, every cell of a cascade from an open start is open.
proof fn lemma_cascade_opened(v: BoardView, now: Set<(int, int)>, path: Seq<(int, int)>, i: int)
    requires
        v.is_cascade(path),
        now.contains(path[0]),
        0 <= i < path.len(),
        expanded(v, now, Seq::empty()),
    ensures
        now.contains(path[i]),
    decreases i,
{
    if i > 0 {
        lemma_cascade_opened(v, now, path, i - 1);
        assert(v.openable(path[i - 1]));
        assert(v.openable(path[i]));
        assert(v.mines_near(path[i - 1]) == 0 && v.neighbors(path[i - 1]).contains(path[i]));
    }
}

proof fn lemma_int_positions_split(a: Seq<(usize, usize)>, b: Seq<(usize, usize)>)
    ensures
        int_positions(a + b) == int_positions(a) + int_positions(b),
        forall|s: (int, int)| #[trigger] int_positions(a + b).contains(s) ==> int_positions(a).contains(s)
            || int_positions(b).contains(s),
        forall|s: (int, int)| int_positions(a).contains(s) ==> #[trigger] int_positions(a + b).contains(s),
        forall|s: (int, int)| int_positions(b).contains(s) ==> #[trigger] int_positions(a + b).contains(s),
{
    let t = int_positions(a + b);
    assert(t =~= int_positions(a) + int_positions(b));
    assert forall|s: (int, int)| #[trigger] t.contains(s) implies int_positions(a).contains(s)
        || int_positions(b).contains(s) by {
        let i = choose|i: int| 0 <= i < t.len() && t[i] == s;
        if i < a.len() {
            assert(int_positions(a)[i] == s);
        } else {
            assert(int_positions(b)[i - a.len()] == s);
        }
    }
    assert forall|s: (int, int)| int_positions(a).contains(s) implies #[trigger] t.contains(s) by {
        let i = choose|i: int| 0 <= i < a.len() && int_positions(a)[i] == s;
        assert(t[i] == s);
    }
    assert forall|s: (int, int)| int_positions(b).contains(s) implies #[trigger] t.contains(s) by {
        let i = choose|i: int| 0 <= i < b.len() && int_positions(b)[i] == s;
        assert(t[i + a.len()] == s);
    }
}

/// A game board.
pub struct Minesweeper {
    width: usize,
    height: usize,
    mines: Vec<bool>,
    open_squares: Vec<bool>,
    flagged_squares: Vec<bool>,
    state: GameState,
    variant: MinesweeperVariant,
}

impl View for Minesweeper {
    type V = BoardView;

    closed spec fn view(&self) -> BoardView {
        BoardView {
            width: self.width as int,
            height: self.height as int,
            mines: grid_set(self.width as int, self.height as int, self.mines@),
            open: grid_set(self.width as int, self.height as int, self.open_squares@),
            flagged: grid_set(self.width as int, self.height as int, self.flagged_squares@),
            state: self.state,
            variant: self.variant,
        }
    }
}

/// Relies on rand's `Rng::gen_range` over a half-open range, drawn from the
/// thread-local generator: a value in `[start, stop)`; it panics on an empty range.
#[verifier::external_body]
fn random_range(start: usize, stop: usize) -> (r: usize)
    requires
        start < stop,
    ensures
        start <= r < stop,
{
    let mut rng = rand::thread_rng();
    rng.gen_range(start..stop)
}

impl Minesweeper {
    /// The grids have one entry per cell, and the mine count matches the mine grid.
    pub closed spec fn layout(&self) -> bool {
        &&& self.width > 0
        &&& self.height > 0
        &&& self.width * self.height <= usize::MAX
        &&& self.mines@.len() == self.width * self.height
        &&& self.open_squares@.len() == self.width * self.height
        &&& self.flagged_squares@.len() == self.width * self.height
        &&& count_false(self.mines@) + self@.mines.len() == self.width * self.height
    }

    /// The board is well formed.
    pub open spec fn wf(&self) -> bool {
        self.layout() && self@.inv()
    }

    fn index(&self, x: usize, y: usize) -> (r: usize)
        requires
            self.layout(),
            x < self.width,
            y < self.height,
        ensures
            r == cell_index(self.height as int, (x as int, y as int)),
            r < self.mines@.len(),
    {
        proof {
            lemma_index_bound(self.width as int, self.height as int, (x as int, y as int));
        }
        x * self.height + y
    }

    /// A new game: `num_mines` mines on distinct cells drawn at random, nothing
    /// open, nothing flagged.
    pub fn new(settings: GameSettings) -> (r: Self)
        requires
            settings.board_width > 0,
            settings.board_height > 0,
            settings.board_width * settings.board_height <= usize::MAX,
            settings.num_mines < settings.board_width * settings.board_height,
        ensures
            r.wf(),
            r@.width == settings.board_width,
            r@.height == settings.board_height,
            r@.variant == settings.variant,
            r@.state == GameState::Playing,
            r@.mines.len() == settings.num_mines,
            r@.open == Set::<(int, int)>::empty(),
            r@.flagged == Set::<(int, int)>::empty(),
    {
        let n = settings.board_width * settings.board_height;
        let mut b = Self::empty(settings.board_width, settings.board_height, settings.variant);
        let mut placed: usize = 0;
        while placed < settings.num_mines
            invariant
                b.wf(),
                placed <= settings.num_mines,
                settings.num_mines < n,
                n == b@.width * b@.height,
                b@.width == settings.board_width,
                b@.height == settings.board_height,
                b@.variant == settings.variant,
                b@.state == GameState::Playing,
                b@.mines.len() == placed,
                b@.open == Set::<(int, int)>::empty(),
                b@.flagged == Set::<(int, int)>::empty(),
            decreases settings.num_mines - placed,
        {
            let k = random_range(0, n - placed);
            b.place_mine(k);
            placed = placed + 1;
        }
        b
    }

    /// A new game with mines on the given cells (a cell given twice holds one
    /// mine), nothing open, nothing flagged.
    pub fn with_mines(settings: GameSettings, mines: &Vec<Position>) -> (r: Self)
        requires
            settings.board_width > 0,
            settings.board_height > 0,
            settings.board_width * settings.board_height <= usize::MAX,
            forall|i: int| 0 <= i < mines@.len() ==> (#[trigger] mines@[i]).0 < settings.board_width
                && mines@[i].1 < settings.board_height,
        ensures
            r.wf(),
            r@.width == settings.board_width,
            r@.height == settings.board_height,
            r@.variant == settings.variant,
            r@.state == GameState::Playing,
            r@.mines == int_positions(mines@).to_set(),
            r@.open == Set::<(int, int)>::empty(),
            r@.flagged == Set::<(int, int)>::empty(),
    {
        let mut b = Self::empty(settings.board_width, settings.board_height, settings.variant);
        let mut j: usize = 0;
        while j < mines.len()
            invariant
                b.wf(),
                j <= mines@.len(),
                forall|i: int| 0 <= i < mines@.len() ==> (#[trigger] mines@[i]).0 < settings.board_width
                    && mines@[i].1 < settings.board_height,
                b@.width == settings.board_width,
                b@.height == settings.board_height,
                b@.variant == settings.variant,
                b@.state == GameState::Playing,
                b@.mines == int_positions(mines@).take(j as int).to_set(),
                b@.open == Set::<(int, int)>::empty(),
                b@.flagged == Set::<(int, int)>::empty(),
            decreases mines@.len() - j,
        {
            let (x, y) = mines[j];
            let ghost v = b@;
            let ghost g = b.mines@;
            let idx = b.index(x, y);
            if !b.mines[idx] {
                b.mines.set(idx, true);
                proof {
                    lemma_grid_update(b.width as int, b.height as int, g, (x as int, y as int), true);
                    lemma_count_false_set(g, idx as int);
                }
            }
            proof {
                let s = int_positions(mines@);
                let e = (x as int, y as int);
                let t = s.take(j as int);
                let t1 = s.take(j as int + 1);
                assert(t1 =~= t.push(e));
                assert forall|q: (int, int)| t1.contains(q) == (t.contains(q) || q == e) by {
                    if t1.contains(q) {
                        let i = choose|i: int| 0 <= i < t1.len() && t1[i] == q;
                        if i < t.len() {
                            assert(t[i] == q);
                        }
                    }
                    if t.contains(q) {
                        let i = choose|i: int| 0 <= i < t.len() && t[i] == q;
                        assert(t1[i] == q);
                    }
                    if q == e {
                        assert(t1[j as int] == q);
                    }
                }
                assert(t1.to_set() =~= v.mines.insert(e));
                assert(b@.mines =~= v.mines.insert(e));
            }
            j = j + 1;
        }
        proof {
            assert(int_positions(mines@).take(mines@.len() as int) =~= int_positions(mines@));
        }
        b
    }

    /// Puts a mine on the free cell with `k` free cells before it, going
    /// column by column, and returns that cell. With `k` drawn uniformly below
    /// the number of free cells, every free cell is equally likely.
    pub fn place_mine(&mut self, k: usize) -> (p: Position)
        requires
            old(self).wf(),
            old(self)@.open == Set::<(int, int)>::empty(),
            k < old(self)@.width * old(self)@.height - old(self)@.mines.len(),
        ensures
            final(self).wf(),
            old(self)@.contains((p.0 as int, p.1 as int)),
            !old(self)@.mines.contains((p.0 as int, p.1 as int)),
            free_rank(old(self)@, (p.0 as int, p.1 as int)) == k,
            final(self)@ == (BoardView { mines: old(self)@.mines.insert((p.0 as int, p.1 as int)), ..old(self)@ }),
    {
        let ghost v = self@;
        let ghost g = self.mines@;
        let w = self.width;
        let h = self.height;
        let mut c: usize = 0;
        let mut x: usize = 0;
        while x < w
            invariant
                self@ == v,
                v == old(self)@,
                self.mines@ == g,
                self.wf(),
                w == self.width,
                h == self.height,
                v.open == Set::<(int, int)>::empty(),
                k < w * h - v.mines.len(),
                x <= w,
                c <= k,
                c == free_in_columns(v, x as int),
                c == count_false(g.take(x * h)),
            decreases w - x,
        {
            let mut y: usize = 0;
            while y < h
                invariant
                    self@ == v,
                    v == old(self)@,
                    self.mines@ == g,
                    self.wf(),
                    w == self.width,
                    h == self.height,
                    v.open == Set::<(int, int)>::empty(),
                    k < w * h - v.mines.len(),
                    x < w,
                    y <= h,
                    c <= k,
                    c == free_in_columns(v, x as int) + free_in_column(v, x as int, y as int),
                    c == count_false(g.take(x * h + y)),
                decreases h - y,
            {
                let idx = self.index(x, y);
                proof {
                    lemma_count_false_take(g, idx as int);
                }
                if !self.mines[idx] {
                    if c == k {
                        self.mines.set(idx, true);
                        proof {
                            lemma_grid_update(w as int, h as int, g, (x as int, y as int), true);
                            lemma_count_false_set(g, idx as int);
                        }
                        return (x, y);
                    }
                    c = c + 1;
                }
                y = y + 1;
            }
            assert(x * h + h == (x + 1) * h) by (nonlinear_arith);
            x = x + 1;
        }
        proof {
            assert(g.take(w * h) =~= g);
            assert(false);
        }
        (0, 0)
    }

    /// A board with no mine, nothing open and nothing flagged.
    fn empty(width: usize, height: usize, variant: MinesweeperVariant) -> (r: Self)
        requires
            width > 0,
            height > 0,
            width * height <= usize::MAX,
        ensures
            r.wf(),
            r@.width == width,
            r@.height == height,
            r@.variant == variant,
            r@.state == GameState::Playing,
            r@.mines == Set::<(int, int)>::empty(),
            r@.open == Set::<(int, int)>::empty(),
            r@.flagged == Set::<(int, int)>::empty(),
    {
        let n = width * height;
        let mut g: Vec<bool> = Vec::new();
        let mut i: usize = 0;
        while i < n
            invariant
                i <= n,
                g@.len() == i,
                forall|j: int| 0 <= j < i ==> !g@[j],
            decreases n - i,
        {
            g.push(false);
            i = i + 1;
        }
        let r = Minesweeper {
            width,
            height,
            mines: g.clone(),
            open_squares: g.clone(),
            flagged_squares: g,
            state: GameState::Playing,
            variant,
        };
        proof {
            lemma_grid_empty(width as int, height as int, r.mines@);
            lemma_grid_empty(width as int, height as int, r.open_squares@);
            lemma_grid_empty(width as int, height as int, r.flagged_squares@);
        }
        r
    }
}

impl Minesweeper {
    /// Opens `(x, y)`. An open or flagged cell is left as it is; a mine loses
    /// the game and stays closed; any other cell is opened, and from a cell
    /// with no mine near the opening spreads to its neighbours, cell by cell.
    /// The cells opened are exactly those that a cascade reaches.
    pub fn open(&mut self, x: usize, y: usize)
        requires
            old(self).wf(),
            x < old(self)@.width,
            y < old(self)@.height,
        ensures
            final(self).wf(),
            final(self)@ == old(self)@.after_open((x as int, y as int)),
    {
        let ghost v = self@;
        let ghost p = (x as int, y as int);
        if self.is_open(x, y) || self.is_flagged(x, y) {
            return;
        }
        if self.is_mine(x, y) {
            self.state = GameState::Lost;
            return;
        }
        let mut stack: Vec<Position> = Vec::new();
        stack.push((x, y));
        proof {
            let path = seq![p];
            assert(v.is_cascade(path));
            assert(int_positions(stack@)[0] == p);
        }
        while stack.len() > 0
            invariant
                self.wf(),
                v.inv(),
                v.openable(p),
                self@.width == v.width,
                self@.height == v.height,
                self@.variant == v.variant,
                self@.mines == v.mines,
                self@.flagged == v.flagged,
                self@.state == v.state,
                forall|c: (int, int)| v.open.contains(c) ==> #[trigger] self@.open.contains(c),
                forall|c: (int, int)| #[trigger] self@.open.contains(c) ==> v.open.contains(c) || v.reaches(p, c),
                forall|s: (int, int)| #[trigger] int_positions(stack@).contains(s) ==> v.contains(s) && (s == p || fed(
                    v,
                    self@.open,
                    s,
                )),
                self@.open.contains(p) || int_positions(stack@).contains(p),
                expanded(v, self@.open, int_positions(stack@)),
            decreases count_false(self.open_squares@), stack@.len(),
        {
            let ghost st = int_positions(stack@);
            let ghost now = self@.open;
            let (cx, cy) = stack.pop().unwrap();
            let ghost e = (cx as int, cy as int);
            proof {
                assert(st.len() > 0);
                assert(st.last() == e);
                assert(int_positions(stack@) =~= st.drop_last());
                assert(st.contains(e));
                assert forall|s: (int, int)| st.contains(s) implies s == e || #[trigger] int_positions(stack@).contains(s) by {
                    let i = choose|i: int| 0 <= i < st.len() && st[i] == s;
                    if i < st.len() - 1 {
                        assert(int_positions(stack@)[i] == s);
                    }
                }
                assert forall|s: (int, int)| #[trigger] int_positions(stack@).contains(s) implies st.contains(s) by {
                    let i = choose|i: int| 0 <= i < int_positions(stack@).len() && int_positions(stack@)[i] == s;
                    assert(st[i] == s);
                }
            }
            let ghost popped = int_positions(stack@);
            if self.is_open(cx, cy) || self.is_flagged(cx, cy) || self.is_mine(cx, cy) {
                // nothing to open here; the cell stays as it is
                proof {
                    assert forall|s: (int, int)| #[trigger] int_positions(stack@).contains(s) implies v.contains(s)
                        && (s == p || fed(v, self@.open, s)) by {
                        assert(st.contains(s));
                    }
                }
            } else {
                let idx = self.index(cx, cy);
                let ghost g = self.open_squares@;
                self.open_squares.set(idx, true);
                proof {
                    lemma_grid_update(v.width, v.height, g, e, true);
                    lemma_count_false_set(g, idx as int);
                    assert(v.openable(e));
                    if e != p {
                        let q = choose|q: (int, int)|
                            #![trigger now.contains(q), v.neighbors(q).contains(e)]
                            now.contains(q) && !v.open.contains(q) && v.mines_near(q) == 0 && v.neighbors(q).contains(e);
                        lemma_reach_extend(v, p, q, e);
                    } else {
                        assert(v.is_cascade(seq![p]));
                    }
                    assert forall|s: (int, int)| fed(v, now, s) implies fed(v, self@.open, s) by {
                        let q = choose|q: (int, int)|
                            #![trigger now.contains(q), v.neighbors(q).contains(s)]
                            now.contains(q) && !v.open.contains(q) && v.mines_near(q) == 0 && v.neighbors(q).contains(s);
                        assert(self@.open.contains(q));
                    }
                }
                proof {
                    assert forall|s: (int, int)| #[trigger] popped.contains(s) implies v.contains(s)
                        && (s == p || fed(v, self@.open, s)) by {
                        assert(st.contains(s));
                        if s != p {
                            assert(fed(v, now, s));
                        }
                    }
                }
                let n = self.mines_near(cx, cy);
                if n == 0 {
                    let mut nb = self.neighbors(cx, cy);
                    let ghost before = stack@;
                    let ghost added = nb@;
                    stack.append(&mut nb);
                    proof {
                        lemma_int_positions_split(before, added);
                        lemma_shifted_in_bounds(v.width, v.height, e.0, e.1, crate::geometry::offsets(v.variant));
                        assert forall|s: (int, int)| int_positions(added).contains(s) implies v.contains(s) && fed(v, self@.open, s) by {
                            let i = choose|i: int| 0 <= i < int_positions(added).len() && int_positions(added)[i] == s;
                            assert(in_bounds(v.width, v.height, v.neighbors(e)[i]));
                            assert(v.neighbors(e).contains(s));
                            assert(self@.open.contains(e));
                        }
                        assert(stack@ == before + added);
                        assert(int_positions(before) == popped);
                        assert forall|s: (int, int)| #[trigger] int_positions(stack@).contains(s) implies v.contains(s)
                            && (s == p || fed(v, self@.open, s)) by {
                            if int_positions(before).contains(s) {
                                assert(popped.contains(s));
                            } else {
                                assert(int_positions(added).contains(s));
                            }
                        }
                    }
                }
            }
        }
        proof {
            let now = self@.open;
            assert(int_positions(stack@) =~= Seq::<(int, int)>::empty());
            assert(now.contains(p));
            assert forall|c: (int, int)| v.reaches(p, c) implies now.contains(c) by {
                let path = choose|path: Seq<(int, int)>| #[trigger] v.is_cascade(path) && path[0] == p && path.last() == c;
                lemma_cascade_opened(v, now, path, path.len() - 1);
            }
            assert(now =~= v.open.union(v.revealed_from(p)));
        }
    }

    /// Flags `(x, y)` if it is closed and unflagged, unflags it if it is
    /// flagged; an open cell is left as it is.
    pub fn flag(&mut self, x: usize, y: usize)
        requires
            old(self).wf(),
            x < old(self)@.width,
            y < old(self)@.height,
        ensures
            final(self).wf(),
            final(self)@ == old(self)@.after_flag((x as int, y as int)),
    {
        let ghost v = self@;
        let ghost p = (x as int, y as int);
        if self.is_open(x, y) {
            return;
        }
        let idx = self.index(x, y);
        let ghost g = self.flagged_squares@;
        if self.flagged_squares[idx] {
            self.flagged_squares.set(idx, false);
            proof {
                lemma_grid_update(v.width, v.height, g, p, false);
            }
        } else {
            self.flagged_squares.set(idx, true);
            proof {
                lemma_grid_update(v.width, v.height, g, p, true);
            }
        }
    }

    /// Marks a game in play as won when every cell is open or a mine.
    pub fn determine_win(&mut self)
        requires
            old(self).wf(),
        ensures
            final(self).wf(),
            final(self)@ == old(self)@.after_win_check(),
    {
        let ghost v = self@;
        if self.state != GameState::Playing {
            return;
        }
        let w = self.width;
        let h = self.height;
        let mut x: usize = 0;
        while x < w
            invariant
                self@ == v,
                self.wf(),
                w == v.width,
                h == v.height,
                x <= w,
                forall|q: (int, int)| 0 <= q.0 < x && 0 <= q.1 < h ==> #[trigger] v.open.contains(q) || v.mines.contains(q),
            decreases w - x,
        {
            let mut y: usize = 0;
            while y < h
                invariant
                    self@ == v,
                    self.wf(),
                    w == v.width,
                    h == v.height,
                    x < w,
                    y <= h,
                    forall|q: (int, int)| 0 <= q.0 < x && 0 <= q.1 < h ==> #[trigger] v.open.contains(q) || v.mines.contains(q),
                    forall|q: (int, int)| q.0 == x && 0 <= q.1 < y ==> #[trigger] v.open.contains(q) || v.mines.contains(q),
                decreases h - y,
            {
                if !self.is_open(x, y) && !self.is_mine(x, y) {
                    proof {
                        let q = (x as int, y as int);
                        assert(v.all().contains(q));
                        assert(!v.open.union(v.mines).contains(q));
                    }
                    return;
                }
                y = y + 1;
            }
            x = x + 1;
        }
        proof {
            assert(v.open.union(v.mines) =~= v.all());
        }
        self.state = GameState::Won;
    }

    /// Makes a move on `(x, y)` and then checks for a win.
    pub fn play_move(&mut self, x: usize, y: usize, move_type: MoveType)
        requires
            old(self).wf(),
            x < old(self)@.width,
            y < old(self)@.height,
        ensures
            final(self).wf(),
            final(self)@ == old(self)@.after_move((x as int, y as int), move_type),
    {
        match move_type {
            MoveType::Open => self.open(x, y),
            MoveType::Flag => self.flag(x, y),
        }
        self.determine_win();
    }

    /// How `(x, y)` is shown: a flag unless the game is lost, then a mine
    /// (revealed once the game is lost), then an open cell with its count,
    /// else a closed cell.
    pub fn cell_view(&self, x: usize, y: usize) -> (r: CellView)
        requires
            self.wf(),
            x < self@.width,
            y < self@.height,
        ensures
            r == (if self@.flagged.contains((x as int, y as int)) && self@.state != GameState::Lost {
                CellView::Flagged
            } else if self@.mines.contains((x as int, y as int)) {
                if self@.state == GameState::Lost {
                    CellView::DetonatedMine
                } else {
                    CellView::HiddenMine
                }
            } else if self@.open.contains((x as int, y as int)) {
                CellView::OpenWithCount(self@.mines_near((x as int, y as int)) as usize)
            } else {
                CellView::Unopened
            }),
    {
        if self.is_flagged(x, y) && self.state != GameState::Lost {
            CellView::Flagged
        } else if self.is_mine(x, y) {
            if self.state == GameState::Lost {
                CellView::DetonatedMine
            } else {
                CellView::HiddenMine
            }
        } else if self.is_open(x, y) {
            CellView::OpenWithCount(self.mines_near(x, y))
        } else {
            CellView::Unopened
        }
    }

    /// The number of columns.
    pub fn width(&self) -> (r: usize)
        ensures
            r == self@.width,
    {
        self.width
    }

    /// The number of rows.
    pub fn height(&self) -> (r: usize)
        ensures
            r == self@.height,
    {
        self.height
    }

    /// The state of the game.
    pub fn state(&self) -> (r: GameState)
        ensures
            r == self@.state,
    {
        self.state
    }

    /// The adjacency variant of the game.
    pub fn variant(&self) -> (r: MinesweeperVariant)
        ensures
            r == self@.variant,
    {
        self.variant
    }

    /// Whether `(x, y)` holds a mine.
    pub fn is_mine(&self, x: usize, y: usize) -> (r: bool)
        requires
            self.wf(),
            x < self@.width,
            y < self@.height,
        ensures
            r == self@.mines.contains((x as int, y as int)),
    {
        let i = self.index(x, y);
        self.mines[i]
    }

    /// Whether `(x, y)` is open.
    pub fn is_open(&self, x: usize, y: usize) -> (r: bool)
        requires
            self.wf(),
            x < self@.width,
            y < self@.height,
        ensures
            r == self@.open.contains((x as int, y as int)),
    {
        let i = self.index(x, y);
        self.open_squares[i]
    }

    /// Whether `(x, y)` is flagged.
    pub fn is_flagged(&self, x: usize, y: usize) -> (r: bool)
        requires
            self.wf(),
            x < self@.width,
            y < self@.height,
        ensures
            r == self@.flagged.contains((x as int, y as int)),
    {
        let i = self.index(x, y);
        self.flagged_squares[i]
    }

    /// The neighbours of `(x, y)` under the game's variant, in the order of
    /// its offsets, one entry per offset that stays on the board.
    pub fn neighbors(&self, x: usize, y: usize) -> (r: Vec<Position>)
        requires
            self.wf(),
            x < self@.width,
            y < self@.height,
        ensures
            int_positions(r@) == self@.neighbors((x as int, y as int)),
    {
        neighbors_of(self.width, self.height, self.variant, x, y)
    }

    /// The number of entries of the neighbour list of `(x, y)` that are mines.
    pub fn mines_near(&self, x: usize, y: usize) -> (r: usize)
        requires
            self.wf(),
            x < self@.width,
            y < self@.height,
        ensures
            r == self@.mines_near((x as int, y as int)),
    {
        let nb = self.neighbors(x, y);
        let ghost s = int_positions(nb@);
        proof {
            lemma_shifted_in_bounds(self@.width, self@.height, x as int, y as int, crate::geometry::offsets(self@.variant));
        }
        let mut count: usize = 0;
        let mut j: usize = 0;
        while j < nb.len()
            invariant
                self.wf(),
                j <= nb@.len(),
                s == int_positions(nb@),
                s == self@.neighbors((x as int, y as int)),
                forall|i: int| 0 <= i < s.len() ==> #[trigger] in_bounds(self@.width, self@.height, s[i]),
                count <= j,
                count == count_members(s.take(j as int), self@.mines),
            decreases nb@.len() - j,
        {
            let (nx, ny) = nb[j];
            proof {
                assert(s.take(j as int + 1).drop_last() =~= s.take(j as int));
                assert(in_bounds(self@.width, self@.height, s[j as int]));
            }
            if self.is_mine(nx, ny) {
                count = count + 1;
            }
            j = j + 1;
        }
        proof {
            assert(s.take(nb@.len() as int) =~= s);
        }
        count
    }
}

} // verus!
