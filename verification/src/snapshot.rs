//! The picture of a board that a renderer draws: what each cell shows,
//! whether the game is over, and, once it is over, where the mines are.

use crate::board::Board;
use crate::grid::{cell_index, lemma_index_in_range, Position};
use crate::minesweeper::Minesweeper;
use crate::session::{GameSession, Session};
use vstd::prelude::*;

verus! {

/// What one cell shows.
#[derive(Clone, Copy, Debug, PartialEq, Eq, Structural)]
pub enum CellView {
    /// Covered, without a flag.
    Closed,
    /// Covered, with a flag.
    Flagged,
    /// Open, and a mine.
    Mine,
    /// Open and safe, with the number of mines that touch the cell.
    OpenCount(u8),
}

/// The picture of a board. `cells` and `mines` hold one entry for each
/// cell, row by row: the cell `(x, y)` is at `y * width + x`.
#[derive(Debug, PartialEq, Eq)]
pub struct Snapshot {
    /// The number of columns.
    pub width: usize,
    /// The number of rows.
    pub height: usize,
    /// What each cell shows.
    pub cells: Vec<CellView>,
    /// Whether the game is lost.
    pub lost: bool,
    /// Whether the game is won.
    pub won: bool,
    /// Where the mines are, once the game is over; `false` for every cell
    /// while it is not.
    pub mines: Vec<bool>,
}

/// What a cell of a board shows.
pub open spec fn cell_view(b: Board, p: Position) -> CellView {
    if b.open.contains(p) {
        if b.mines.contains(p) {
            CellView::Mine
        } else {
            CellView::OpenCount(b.mine_number(p) as u8)
        }
    } else if b.flagged.contains(p) {
        CellView::Flagged
    } else {
        CellView::Closed
    }
}

/// The snapshot is the picture of the board.
pub open spec fn pictures(snapshot: Snapshot, b: Board) -> bool {
    &&& snapshot.width == b.width
    &&& snapshot.height == b.height
    &&& snapshot.lost == b.lost
    &&& snapshot.won == b.won()
    &&& snapshot.cells@.len() == b.width * b.height
    &&& snapshot.mines@.len() == b.width * b.height
    &&& forall|p: Position|
        #![trigger cell_index(b.width, p)]
        b.has(p) ==> {
            &&& snapshot.cells@[cell_index(b.width, p)] == cell_view(b, p)
            &&& snapshot.mines@[cell_index(b.width, p)] == ((b.lost || b.won()) && b.mines.contains(
                p,
            ))
        }
}

impl Minesweeper {
    /// What a cell shows. A cell outside the board shows as closed.
    pub fn cell_view(&self, position: Position) -> (view: CellView)
        requires
            self.wf(),
        ensures
            view == cell_view(self@, position),
    {
        if self.is_open(position) {
            if self.is_mine(position) {
                CellView::Mine
            } else {
                CellView::OpenCount(self.neighboring_mines(position))
            }
        } else if self.is_flagged(position) {
            CellView::Flagged
        } else {
            CellView::Closed
        }
    }

    /// The picture of the board.
    pub fn snapshot(&self) -> (snapshot: Snapshot)
        requires
            self.wf(),
        ensures
            pictures(snapshot, self@),
    {
        proof {
            self.lemma_wf_board();
        }
        let (width, height) = self.width_and_height();
        let lost = self.lose_state();
        let won = self.win_check();
        let over = lost || won;
        let ghost b = self@;
        let mut cells: Vec<CellView> = Vec::new();
        let mut mines: Vec<bool> = Vec::new();
        let mut y: usize = 0;
        while y < height
            invariant
                self.wf(),
                b == self@,
                b.wf(),
                width == b.width,
                height == b.height,
                over == (b.lost || b.won()),
                0 <= y <= height,
                cells@.len() == y * width,
                mines@.len() == y * width,
                forall|p: Position|
                    #![trigger cell_index(b.width, p)]
                    b.has(p) && p.1 < y ==> {
                        &&& 0 <= cell_index(b.width, p) < y * width
                        &&& cells@[cell_index(b.width, p)] == cell_view(b, p)
                        &&& mines@[cell_index(b.width, p)] == (over && b.mines.contains(p))
                    },
            decreases height - y,
        {
            let mut x: usize = 0;
            while x < width
                invariant
                    self.wf(),
                    b == self@,
                    b.wf(),
                    width == b.width,
                    height == b.height,
                    over == (b.lost || b.won()),
                    0 <= y < height,
                    0 <= x <= width,
                    cells@.len() == y * width + x,
                    mines@.len() == y * width + x,
                    forall|p: Position|
                        #![trigger cell_index(b.width, p)]
                        b.has(p) && (p.1 < y || (p.1 == y && p.0 < x)) ==> {
                            &&& 0 <= cell_index(b.width, p) < y * width + x
                            &&& cells@[cell_index(b.width, p)] == cell_view(b, p)
                            &&& mines@[cell_index(b.width, p)] == (over && b.mines.contains(p))
                        },
                decreases width - x,
            {
                cells.push(self.cell_view((x, y)));
                mines.push(over && self.is_mine((x, y)));
                x = x + 1;
                proof {
                    assert forall|p: Position|
                        b.has(p) && (p.1 < y || (p.1 == y && p.0 < x)) implies 0 <= cell_index(
                        b.width,
                        p,
                    ) < y * width + x by {
                        lemma_index_before(b.width, b.height, p, (x, y));
                        lemma_index_in_range(b.width, b.height, p);
                    }
                }
            }
            proof {
                assert(y * width + width == (y + 1) * width) by (nonlinear_arith);
            }
            y = y + 1;
        }
        proof {
            assert(height * width == width * height) by (nonlinear_arith);
        }
        Snapshot { width, height, cells, lost, won, mines }
    }
}

/// A cell that comes before another, row by row, has the smaller number.
proof fn lemma_index_before(width: nat, height: nat, p: Position, q: Position)
    requires
        p.0 < width,
        q.0 <= width,
        p.1 < q.1 || (p.1 == q.1 && p.0 < q.0),
    ensures
        cell_index(width, p) < cell_index(width, q),
{
    if p.1 < q.1 {
        assert(p.1 * width + width <= q.1 * width) by (nonlinear_arith)
            requires
                p.1 < q.1,
        ;
    }
}

impl GameSession {
    /// The picture of the board of the session.
    pub fn snapshot(&self) -> (snapshot: Snapshot)
        requires
            self.wf(),
        ensures
            pictures(snapshot, self@.board),
    {
        self.field().snapshot()
    }
}

/// While a game is not lost, no cell shows a mine.
pub proof fn law_mines_show_only_after_loss(s: Session, p: Position)
    requires
        s.wf(),
        !s.board.lost,
    ensures
        cell_view(s.board, p) != CellView::Mine,
{
}

} // verus!
