use minesweeper::{CellView, GameSettings, GameState, Minesweeper, MinesweeperVariant, MoveType};

fn settings(w: usize, h: usize, n: usize, v: MinesweeperVariant) -> GameSettings {
    GameSettings { board_width: w, board_height: h, num_mines: n, variant: v }
}

fn count_mines(b: &Minesweeper) -> usize {
    let mut n = 0;
    for x in 0..b.width() {
        for y in 0..b.height() {
            if b.is_mine(x, y) {
                n += 1;
            }
        }
    }
    n
}

fn open_cells(b: &Minesweeper) -> Vec<(usize, usize)> {
    let mut v = Vec::new();
    for x in 0..b.width() {
        for y in 0..b.height() {
            if b.is_open(x, y) {
                v.push((x, y));
            }
        }
    }
    v
}

fn flagged_cells(b: &Minesweeper) -> Vec<(usize, usize)> {
    let mut v = Vec::new();
    for x in 0..b.width() {
        for y in 0..b.height() {
            if b.is_flagged(x, y) {
                v.push((x, y));
            }
        }
    }
    v
}

#[test]
fn new_board_has_configured_mine_count() {
    for &(w, h, n) in &[(5, 5, 10), (1, 1, 0), (3, 3, 8), (10, 4, 39), (7, 2, 1)] {
        let b = Minesweeper::new(settings(w, h, n, MinesweeperVariant::Normal));
        assert_eq!(count_mines(&b), n);
        assert_eq!(b.width(), w);
        assert_eq!(b.height(), h);
        assert_eq!(b.state(), GameState::Playing);
        assert!(open_cells(&b).is_empty());
        assert!(flagged_cells(&b).is_empty());
    }
}

#[test]
fn with_mines_counts_repeated_cell_once() {
    let b = Minesweeper::with_mines(settings(3, 3, 0, MinesweeperVariant::Normal), &vec![(1, 1), (1, 1), (2, 0)]);
    assert_eq!(count_mines(&b), 2);
    assert!(b.is_mine(1, 1));
    assert!(b.is_mine(2, 0));
    assert_eq!(b.variant(), MinesweeperVariant::Normal);
}

#[test]
fn place_mine_takes_kth_free_cell() {
    let mut b = Minesweeper::with_mines(settings(2, 2, 0, MinesweeperVariant::Normal), &vec![(0, 0)]);
    assert_eq!(b.place_mine(0), (0, 1));
    assert_eq!(b.place_mine(1), (1, 1));
    assert_eq!(count_mines(&b), 3);
    assert!(!b.is_mine(1, 0));
}

#[test]
fn opening_open_cell_is_no_op() {
    let mut b = Minesweeper::with_mines(settings(3, 1, 0, MinesweeperVariant::Normal), &vec![(2, 0)]);
    b.open(0, 0);
    let before = open_cells(&b);
    assert_eq!(before, vec![(0, 0), (1, 0)]);
    b.open(0, 0);
    assert_eq!(open_cells(&b), before);
    assert_eq!(b.state(), GameState::Playing);
    assert!(flagged_cells(&b).is_empty());
}

#[test]
fn opening_flagged_cell_is_no_op() {
    let mut b = Minesweeper::with_mines(settings(2, 2, 0, MinesweeperVariant::Normal), &vec![(0, 0)]);
    b.flag(0, 0);
    b.open(0, 0);
    assert_eq!(b.state(), GameState::Playing);
    assert!(open_cells(&b).is_empty());
    b.flag(1, 1);
    b.open(1, 1);
    assert!(open_cells(&b).is_empty());
    assert_eq!(flagged_cells(&b), vec![(0, 0), (1, 1)]);
}

#[test]
fn opening_mine_loses_and_opens_nothing() {
    let mut b = Minesweeper::with_mines(settings(2, 2, 1, MinesweeperVariant::Normal), &vec![(0, 0)]);
    b.open(0, 0);
    assert_eq!(b.state(), GameState::Lost);
    assert!(open_cells(&b).is_empty());
}

#[test]
fn cascade_opens_zero_region_and_border() {
    // 4x4, one mine in a corner: everything but the mine opens.
    let mut b = Minesweeper::with_mines(settings(4, 4, 1, MinesweeperVariant::Normal), &vec![(3, 3)]);
    b.open(0, 0);
    assert_eq!(open_cells(&b).len(), 15);
    assert!(!b.is_open(3, 3));
    assert_eq!(b.mines_near(2, 2), 1);
    assert!(b.is_open(2, 2));
    b.determine_win();
    assert_eq!(b.state(), GameState::Won);
}

#[test]
fn cascade_stops_at_flags_and_counts() {
    // 5x1 strip, mine at the right end, flag at (1, 0).
    let mut b = Minesweeper::with_mines(settings(5, 1, 1, MinesweeperVariant::Normal), &vec![(4, 0)]);
    b.flag(1, 0);
    b.open(0, 0);
    assert_eq!(open_cells(&b), vec![(0, 0)]);
    b.open(2, 0);
    assert_eq!(open_cells(&b), vec![(0, 0), (2, 0), (3, 0)]);
    b.determine_win();
    assert_eq!(b.state(), GameState::Playing);
}

#[test]
fn flag_toggles_and_ignores_open_cells() {
    let mut b = Minesweeper::with_mines(settings(3, 1, 1, MinesweeperVariant::Normal), &vec![(2, 0)]);
    b.flag(2, 0);
    assert!(b.is_flagged(2, 0));
    b.flag(2, 0);
    assert!(!b.is_flagged(2, 0));
    b.open(0, 0);
    assert!(b.is_open(0, 0));
    b.flag(0, 0);
    assert!(!b.is_flagged(0, 0));
    assert!(b.is_open(0, 0));
}

#[test]
fn win_never_fires_after_loss() {
    let mut b = Minesweeper::with_mines(settings(2, 1, 1, MinesweeperVariant::Normal), &vec![(0, 0)]);
    b.open(0, 0);
    assert_eq!(b.state(), GameState::Lost);
    b.open(1, 0);
    assert!(b.is_open(1, 0));
    b.determine_win();
    assert_eq!(b.state(), GameState::Lost);
}

#[test]
fn win_needs_every_safe_cell_open() {
    let mut b = Minesweeper::with_mines(settings(3, 1, 1, MinesweeperVariant::Orthogonal), &vec![(1, 0)]);
    b.open(0, 0);
    b.determine_win();
    assert_eq!(b.state(), GameState::Playing);
    b.open(2, 0);
    b.determine_win();
    assert_eq!(b.state(), GameState::Won);
}

#[test]
fn variant_geometry_on_five_by_five() {
    let count = |v: MinesweeperVariant, x: usize, y: usize| {
        Minesweeper::with_mines(settings(5, 5, 0, v), &vec![]).neighbors(x, y).len()
    };
    assert_eq!(count(MinesweeperVariant::Normal, 2, 2), 8);
    assert_eq!(count(MinesweeperVariant::Orthogonal, 2, 2), 4);
    assert_eq!(count(MinesweeperVariant::Diagonal, 2, 2), 4);
    assert_eq!(count(MinesweeperVariant::KnightPaths, 2, 2), 8);
    assert_eq!(count(MinesweeperVariant::KnightPaths, 0, 0), 2);
    assert_eq!(count(MinesweeperVariant::KnightPaths, 1, 2), 6);
    assert_eq!(count(MinesweeperVariant::FarNormal, 2, 2), 24);
    assert_eq!(count(MinesweeperVariant::FarOrthogonal, 2, 2), 8);
    assert_eq!(count(MinesweeperVariant::FarDiagonal, 2, 2), 8);
    assert_eq!(count(MinesweeperVariant::BlindUp, 2, 2), 7);
    assert_eq!(count(MinesweeperVariant::Doubled, 2, 2), 12);
    assert_eq!(count(MinesweeperVariant::Normal, 0, 0), 3);
}

#[test]
fn neighbor_order_follows_offsets() {
    let b = Minesweeper::with_mines(settings(5, 5, 0, MinesweeperVariant::Orthogonal), &vec![]);
    assert_eq!(b.neighbors(2, 2), vec![(1, 2), (3, 2), (2, 1), (2, 3)]);
    assert_eq!(b.neighbors(0, 0), vec![(1, 0), (0, 1)]);
}

#[test]
fn blind_variants_miss_one_side() {
    let b = Minesweeper::with_mines(settings(3, 3, 1, MinesweeperVariant::BlindUp), &vec![(1, 0)]);
    assert_eq!(b.mines_near(1, 1), 0);
    let b = Minesweeper::with_mines(settings(3, 3, 1, MinesweeperVariant::BlindDown), &vec![(1, 0)]);
    assert_eq!(b.mines_near(1, 1), 1);
    let b = Minesweeper::with_mines(settings(3, 3, 1, MinesweeperVariant::BlindLeft), &vec![(0, 1)]);
    assert_eq!(b.mines_near(1, 1), 0);
    let b = Minesweeper::with_mines(settings(3, 3, 1, MinesweeperVariant::BlindRight), &vec![(2, 1)]);
    assert_eq!(b.mines_near(1, 1), 0);
}

#[test]
fn doubled_counts_orthogonal_mine_twice() {
    let b = Minesweeper::with_mines(settings(5, 5, 1, MinesweeperVariant::Doubled), &vec![(2, 1)]);
    assert_eq!(b.mines_near(2, 2), 2);
    let b = Minesweeper::with_mines(settings(5, 5, 1, MinesweeperVariant::Doubled), &vec![(1, 1)]);
    assert_eq!(b.mines_near(2, 2), 1);
    let b = Minesweeper::with_mines(settings(5, 5, 2, MinesweeperVariant::Doubled), &vec![(1, 1), (3, 2)]);
    assert_eq!(b.mines_near(2, 2), 3);
}

#[test]
fn single_cell_board_is_won_by_opening() {
    let mut b = Minesweeper::new(settings(1, 1, 0, MinesweeperVariant::Normal));
    b.open(0, 0);
    assert_eq!(open_cells(&b), vec![(0, 0)]);
    b.determine_win();
    assert_eq!(b.state(), GameState::Won);
}

#[test]
fn orthogonal_cascade_around_center_mine() {
    // The edge-middle cells touch the mine orthogonally, so the cascade from
    // the corner stops there; the other corners need moves of their own.
    let mut b = Minesweeper::with_mines(settings(3, 3, 1, MinesweeperVariant::Orthogonal), &vec![(1, 1)]);
    assert_eq!(b.mines_near(0, 0), 0);
    b.open(0, 0);
    assert_eq!(open_cells(&b), vec![(0, 0), (0, 1), (1, 0)]);
    assert!(!b.is_open(1, 1));
    b.determine_win();
    assert_eq!(b.state(), GameState::Playing);
    b.open(2, 2);
    b.open(2, 0);
    b.open(0, 2);
    assert_eq!(open_cells(&b).len(), 8);
    assert!(!b.is_open(1, 1));
    b.determine_win();
    assert_eq!(b.state(), GameState::Won);
}

#[test]
fn two_by_two_mine_hit_loses() {
    let mut b = Minesweeper::with_mines(settings(2, 2, 1, MinesweeperVariant::Normal), &vec![(0, 0)]);
    b.open(0, 0);
    assert_eq!(b.state(), GameState::Lost);
    assert!(open_cells(&b).is_empty());
}

#[test]
fn play_move_opens_flags_and_checks_win() {
    let mut b = Minesweeper::with_mines(settings(2, 1, 1, MinesweeperVariant::Normal), &vec![(1, 0)]);
    b.play_move(1, 0, MoveType::Flag);
    assert!(b.is_flagged(1, 0));
    assert_eq!(b.state(), GameState::Playing);
    b.play_move(0, 0, MoveType::Open);
    assert!(b.is_open(0, 0));
    assert_eq!(b.state(), GameState::Won);
}

#[test]
fn cell_views_follow_state() {
    let mut b = Minesweeper::with_mines(settings(3, 1, 1, MinesweeperVariant::Normal), &vec![(0, 0)]);
    b.flag(2, 0);
    assert_eq!(b.cell_view(2, 0), CellView::Flagged);
    assert_eq!(b.cell_view(0, 0), CellView::HiddenMine);
    assert_eq!(b.cell_view(1, 0), CellView::Unopened);
    b.open(1, 0);
    assert_eq!(b.cell_view(1, 0), CellView::OpenWithCount(1));
    b.open(0, 0);
    assert_eq!(b.cell_view(0, 0), CellView::DetonatedMine);
    assert_eq!(b.cell_view(2, 0), CellView::Unopened);
}

#[test]
fn zero_count_open_cell_shows_zero() {
    let mut b = Minesweeper::with_mines(settings(3, 1, 1, MinesweeperVariant::Diagonal), &vec![(2, 0)]);
    b.open(0, 0);
    assert_eq!(b.cell_view(0, 0), CellView::OpenWithCount(0));
}
