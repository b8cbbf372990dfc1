use minesweeper::{CellView, GameSession, Minesweeper, Position};

fn field(width: usize, height: usize, mines: &[Position]) -> Minesweeper {
    Minesweeper::with_mines(width, height, &mines.to_vec()).unwrap()
}

#[test]
fn a_covered_board_shows_closed_cells() {
    let f = field(3, 2, &[(0, 0)]);
    let snap = f.snapshot();
    assert_eq!(snap.width, 3);
    assert_eq!(snap.height, 2);
    assert_eq!(snap.cells, vec![CellView::Closed; 6]);
    assert_eq!(snap.mines, vec![false; 6]);
    assert!(!snap.lost);
    assert!(!snap.won);
}

#[test]
fn cells_are_listed_row_by_row() {
    // 1 * 1
    // 1 1 1
    let mut f = field(3, 2, &[(1, 0)]);
    f.open((0, 1));
    f.open((2, 0));
    f.toggle_flag((1, 0));
    f.toggle_flag((2, 1));
    let snap = f.snapshot();
    assert_eq!(
        snap.cells,
        vec![
            CellView::Closed,
            CellView::Flagged,
            CellView::OpenCount(1),
            CellView::OpenCount(1),
            CellView::Closed,
            CellView::Flagged,
        ]
    );
    assert_eq!(f.cell_view((2, 0)), CellView::OpenCount(1));
    assert_eq!(f.cell_view((1, 0)), CellView::Flagged);
    assert_eq!(f.cell_view((0, 0)), CellView::Closed);
    assert_eq!(f.cell_view((3, 0)), CellView::Closed);
}

#[test]
fn open_cells_show_their_number() {
    let mut f = field(3, 3, &[(0, 0), (1, 0), (2, 0), (0, 1), (2, 1), (0, 2), (1, 2), (2, 2)]);
    f.open((1, 1));
    assert_eq!(f.cell_view((1, 1)), CellView::OpenCount(8));
    let mut g = field(3, 1, &[]);
    g.open((0, 0));
    assert_eq!(g.snapshot().cells, vec![CellView::OpenCount(0); 3]);
}

#[test]
fn mines_are_disclosed_once_the_game_is_lost() {
    let mut f = field(2, 2, &[(1, 1)]);
    f.open((0, 0));
    assert_eq!(f.snapshot().mines, vec![false; 4]);
    f.open((1, 1));
    let snap = f.snapshot();
    assert!(snap.lost);
    assert_eq!(snap.mines, vec![false, false, false, true]);
    assert_eq!(
        snap.cells,
        vec![CellView::OpenCount(1), CellView::Closed, CellView::Closed, CellView::Mine]
    );
}

#[test]
fn mines_are_disclosed_once_the_game_is_won() {
    let mut f = field(2, 1, &[(1, 0)]);
    f.open((0, 0));
    f.toggle_flag((1, 0));
    let snap = f.snapshot();
    assert!(snap.won);
    assert!(!snap.lost);
    assert_eq!(snap.mines, vec![false, true]);
    assert_eq!(snap.cells, vec![CellView::OpenCount(1), CellView::Flagged]);
}

#[test]
fn a_shown_loss_shows_every_mine() {
    let mut s = GameSession::with_mines(3, 1, &vec![(2, 0)]).unwrap();
    s.open((0, 0));
    s.open((2, 0));
    s.show_loss();
    let snap = s.snapshot();
    assert!(snap.lost);
    assert_eq!(
        snap.cells,
        vec![CellView::OpenCount(0), CellView::OpenCount(1), CellView::Mine]
    );
    assert_eq!(snap.mines, vec![false, false, true]);
}

#[test]
fn no_mine_shows_while_a_session_is_not_lost() {
    let mut s = GameSession::new((8, 8, 20)).unwrap();
    for y in 0..8 {
        for x in 0..8 {
            if s.over() {
                break;
            }
            s.open((x, y));
            if !s.lost() {
                let snap = s.snapshot();
                assert!(!snap.cells.contains(&CellView::Mine));
            }
        }
    }
}
