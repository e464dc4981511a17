//! Laws of the game, stated over the board view and proved.

use vstd::prelude::*;
use crate::board::{lemma_reach_extend, BoardView, GameState, MoveType};
use crate::geometry::{lemma_shifted_in_bounds, offsets};

verus! {

/// Opening a cell that is already open changes nothing.
pub proof fn lemma_open_open_cell(v: BoardView, p: (int, int))
    requires
        v.open.contains(p),
    ensures
        v.after_open(p) == v,
{
}

/// Opening a flagged cell changes nothing.
pub proof fn lemma_open_flagged_cell(v: BoardView, p: (int, int))
    requires
        v.flagged.contains(p),
    ensures
        v.after_open(p) == v,
{
}

/// Opening a closed, unflagged mine loses the game and opens nothing.
pub proof fn lemma_open_mine(v: BoardView, p: (int, int))
    requires
        !v.open.contains(p),
        !v.flagged.contains(p),
        v.mines.contains(p),
    ensures
        v.after_open(p).state == GameState::Lost,
        v.after_open(p).open == v.open,
        v.after_open(p).mines == v.mines,
        v.after_open(p).flagged == v.flagged,
{
}

/// Opening a safe closed cell opens it, and from every cell it newly opens
/// with no mine near, the opening reaches each neighbour that is closed,
/// unflagged and safe; so a region with no mines near is opened whole,
/// together with the cells that border it.
pub proof fn lemma_open_cascades(v: BoardView, p: (int, int))
    requires
        v.openable(p),
    ensures
        v.after_open(p).open.contains(p),
        v.after_open(p).state == v.state,
        forall|c: (int, int), s: (int, int)|
            #![trigger v.after_open(p).open.contains(c), v.neighbors(c).contains(s)]
            v.after_open(p).open.contains(c) && !v.open.contains(c) && v.mines_near(c) == 0
                && v.neighbors(c).contains(s) && v.openable(s) ==> v.after_open(p).open.contains(s),
{
    assert(v.is_cascade(seq![p]));
    assert(v.reaches(p, p));
    let r = v.after_open(p);
    assert forall|c: (int, int), s: (int, int)|
        #![trigger r.open.contains(c), v.neighbors(c).contains(s)]
        r.open.contains(c) && !v.open.contains(c) && v.mines_near(c) == 0 && v.neighbors(c).contains(s)
            && v.openable(s) implies r.open.contains(s) by {
        assert(v.reaches(p, c));
        lemma_reach_extend(v, p, c, s);
    }
}

/// Flagging toggles: a closed cell gains a flag it did not have or loses the
/// one it had, flagging it twice changes nothing, and flagging an open cell
/// changes nothing.
pub proof fn lemma_flag_toggles(v: BoardView, p: (int, int))
    ensures
        v.open.contains(p) ==> v.after_flag(p) == v,
        !v.open.contains(p) ==> (v.after_flag(p).flagged.contains(p) <==> !v.flagged.contains(p)),
        !v.open.contains(p) ==> v.after_flag(p).after_flag(p) == v,
{
    if !v.open.contains(p) {
        if v.flagged.contains(p) {
            assert(v.flagged.remove(p).insert(p) =~= v.flagged);
        } else {
            assert(v.flagged.insert(p).remove(p) =~= v.flagged);
        }
    }
}

/// The win check makes a game won exactly when it was in play and every cell
/// is open or a mine, or it was already won; a lost game stays lost.
pub proof fn lemma_win_check(v: BoardView)
    ensures
        v.after_win_check().state == GameState::Won <==> (v.state == GameState::Playing && v.cleared())
            || v.state == GameState::Won,
        v.state == GameState::Lost ==> v.after_win_check() == v,
        v.after_win_check().open == v.open,
        v.after_win_check().mines == v.mines,
        v.after_win_check().flagged == v.flagged,
{
}

/// A lost game stays lost, whatever move follows.
pub proof fn lemma_lost_is_final(v: BoardView, p: (int, int), m: MoveType)
    requires
        v.state == GameState::Lost,
    ensures
        v.after_move(p, m).state == GameState::Lost,
{
}

/// A cell has at most as many neighbours as its variant has offsets.
pub proof fn lemma_neighbor_count(v: BoardView, p: (int, int))
    ensures
        v.neighbors(p).len() <= offsets(v.variant).len(),
{
    lemma_shifted_in_bounds(v.width, v.height, p.0, p.1, offsets(v.variant));
}

} // verus!
