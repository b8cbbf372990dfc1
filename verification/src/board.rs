//! The mathematical model of a board, and the rules of a reveal stated on it.

use crate::grid::{adjacent, all_cells, in_bounds, BoardSize, Position};
use crate::minesweeper::{FlagResult, InvalidConfiguration, OpenResult};
use vstd::prelude::*;

verus! {

/// A board as the contracts see it: its dimensions, three sets of cells and
/// the loss flag.
pub struct Board {
    pub width: nat,
    pub height: nat,
    pub mines: Set<Position>,
    pub open: Set<Position>,
    pub flagged: Set<Position>,
    pub lost: bool,
}

impl Board {
    /// The cell lies on this board.
    pub open spec fn has(self, p: Position) -> bool {
        in_bounds(self.width, self.height, p)
    }

    /// Every cell of this board.
    pub open spec fn cells(self) -> Set<Position> {
        all_cells(self.width, self.height)
    }

    /// The invariants of a board: it has at least one cell, its cells can be
    /// counted in a `usize`, each of the three sets is a finite set of cells
    /// of the board, and no cell is both open and flagged.
    pub open spec fn wf(self) -> bool {
        &&& self.width > 0
        &&& self.height > 0
        &&& self.width * self.height <= usize::MAX
        &&& self.mines.finite()
        &&& self.open.finite()
        &&& self.flagged.finite()
        &&& self.mines.subset_of(self.cells())
        &&& self.open.subset_of(self.cells())
        &&& self.flagged.subset_of(self.cells())
        &&& self.open.disjoint(self.flagged)
    }

    /// A board on which nothing has happened yet.
    pub open spec fn fresh(self) -> bool {
        &&& self.open == Set::<Position>::empty()
        &&& self.flagged == Set::<Position>::empty()
        &&& !self.lost
    }

    /// The same board with another set of open cells.
    pub open spec fn with_open(self, open: Set<Position>) -> Board {
        Board { open, ..self }
    }

    /// The mines that touch a cell.
    pub open spec fn adjacent_mines(self, p: Position) -> Set<Position> {
        self.mines.filter(|q: Position| adjacent(p, q))
    }

    /// The flags that touch a cell.
    pub open spec fn adjacent_flags(self, p: Position) -> Set<Position> {
        self.flagged.filter(|q: Position| adjacent(p, q))
    }

    /// The number a revealed cell shows: how many mines touch it.
    pub open spec fn mine_number(self, p: Position) -> nat {
        self.adjacent_mines(p).len()
    }

    /// How many flags touch a cell.
    pub open spec fn flag_number(self, p: Position) -> nat {
        self.adjacent_flags(p).len()
    }

    /// A cell of the board that is neither open nor flagged: one that a
    /// reveal may open.
    pub open spec fn covered(self, p: Position) -> bool {
        self.has(p) && !self.open.contains(p) && !self.flagged.contains(p)
    }

    /// A safe cell that no mine touches.
    pub open spec fn blank(self, p: Position) -> bool {
        !self.mines.contains(p) && self.mine_number(p) == 0
    }

    /// One step of the automatic clearing: from a blank cell to a covered
    /// cell that touches it.
    pub open spec fn flood_step(self, a: Position, b: Position) -> bool {
        self.blank(a) && adjacent(a, b) && self.covered(b)
    }

    /// A chain of cells in which each leads to the next by one step of the
    /// automatic clearing.
    pub open spec fn flood_path(self, path: Seq<Position>) -> bool {
        &&& path.len() > 0
        &&& forall|i: int|
            0 <= i < path.len() - 1 ==> self.flood_step(#[trigger] path[i], path[i + 1])
    }

    /// The automatic clearing that starts at `from` reaches `to`.
    pub open spec fn floods_to(self, from: Position, to: Position) -> bool {
        exists|path: Seq<Position>|
            #[trigger] self.flood_path(path) && path[0] == from && path.last() == to
    }

    /// The cells that revealing the covered cell `from` opens: the cell
    /// itself and, if it is blank, the connected region of blank cells
    /// around it together with the numbered cells on its border, as far as
    /// covered cells lead.
    pub open spec fn flood_region(self, from: Position) -> Set<Position> {
        Set::new(|p: Position| self.floods_to(from, p))
    }

    /// The cells that chording the open cell `p` opens when its number is
    /// matched by the flags around it: whatever revealing each covered
    /// neighbour opens.
    pub open spec fn chord_region(self, p: Position) -> Set<Position> {
        Set::new(
            |c: Position|
                exists|n: Position|
                    adjacent(p, n) && self.covered(n) && #[trigger] self.floods_to(n, c),
        )
    }

    /// Chording the cell would reveal a mine: one of its covered neighbours
    /// is a mine.
    pub open spec fn chord_hits_mine(self, p: Position) -> bool {
        exists|n: Position| adjacent(p, n) && self.covered(n) && #[trigger] self.mines.contains(n)
    }

    /// The game is won: the flags mark exactly the mines, and as many cells
    /// are open as the board has cells without a flag.
    pub open spec fn won(self) -> bool {
        &&& self.flagged == self.mines
        &&& self.open.len() == self.width * self.height - self.flagged.len()
    }

    /// The board after the covered cell `p` has been revealed.
    pub open spec fn after_reveal(self, p: Position) -> Board {
        Board {
            open: self.open.union(self.flood_region(p)),
            lost: self.lost || self.mines.contains(p),
            ..self
        }
    }

    /// The open cell `p` is satisfied: as many flags touch it as mines.
    pub open spec fn satisfied(self, p: Position) -> bool {
        self.mine_number(p) == self.flag_number(p)
    }

    /// The board after the open cell `p` has been chorded.
    pub open spec fn after_chord(self, p: Position) -> Board {
        if self.satisfied(p) {
            Board {
                open: self.open.union(self.chord_region(p)),
                lost: self.lost || self.chord_hits_mine(p),
                ..self
            }
        } else {
            self
        }
    }

    /// The board after an attempt to open `p`.
    pub open spec fn after_open(self, p: Position) -> Board {
        if !self.has(p) || self.flagged.contains(p) {
            self
        } else if self.open.contains(p) {
            self.after_chord(p)
        } else {
            self.after_reveal(p)
        }
    }

    /// What an attempt to open `p` reports.
    pub open spec fn open_result(self, p: Position) -> OpenResult {
        if !self.has(p) || self.flagged.contains(p) {
            OpenResult::Rejected
        } else if self.open.contains(p) {
            OpenResult::AlreadyOpen
        } else if self.mines.contains(p) {
            OpenResult::Mine
        } else {
            OpenResult::NoMine(self.mine_number(p) as u8)
        }
    }

    /// What toggling the flag on `p` reports.
    pub open spec fn flag_result(self, p: Position) -> FlagResult {
        if !self.has(p) || self.open.contains(p) {
            FlagResult::NotApplicable
        } else if self.flagged.contains(p) {
            FlagResult::Removed
        } else {
            FlagResult::Placed
        }
    }

    /// The board after the flag on `p` has been toggled.
    pub open spec fn after_toggle_flag(self, p: Position) -> Board {
        match self.flag_result(p) {
            FlagResult::NotApplicable => self,
            FlagResult::Removed => Board { flagged: self.flagged.remove(p), ..self },
            FlagResult::Placed => Board { flagged: self.flagged.insert(p), ..self },
        }
    }

    /// The board after every cell of `shown` has been laid open, one by
    /// one: a flag on such a cell is taken off, and a mine among those that
    /// were not open yet counts as revealed.
    pub open spec fn laid_open(self, shown: Set<Position>) -> Board {
        Board {
            open: self.open.union(shown),
            flagged: self.flagged.difference(shown),
            lost: self.lost || exists|p: Position|
                #[trigger] shown.contains(p) && !self.open.contains(p) && self.mines.contains(p),
            ..self
        }
    }

    /// The cells of the board that lie in the first `width` columns and the
    /// first `height` rows, as far as the walk over them has come: the
    /// columns before `i`, and the cells of column `i` above row `j`.
    pub open spec fn shown_before(self, width: nat, height: nat, i: nat, j: nat) -> Set<Position> {
        Set::new(
            |p: Position|
                self.has(p) && p.0 < width && p.1 < height && (p.0 < i || (p.0 == i && p.1 < j)),
        )
    }

    /// The cells of the board that lie in the first `width` columns and the
    /// first `height` rows.
    pub open spec fn shown(self, width: nat, height: nat) -> Set<Position> {
        Set::new(|p: Position| self.has(p) && p.0 < width && p.1 < height)
    }

    /// The board after the loss has been shown over the first `width`
    /// columns and `height` rows.
    pub open spec fn after_show_loss(self, width: nat, height: nat) -> Board {
        self.laid_open(self.shown(width, height))
    }
}

/// The first fault of a board size, if it has one.
pub open spec fn size_fault(size: BoardSize) -> Option<InvalidConfiguration> {
    if size.0 == 0 || size.1 == 0 {
        Some(InvalidConfiguration::EmptyGrid)
    } else if size.0 * size.1 > usize::MAX {
        Some(InvalidConfiguration::GridTooLarge)
    } else if size.2 > size.0 * size.1 {
        Some(InvalidConfiguration::TooManyMines)
    } else {
        None
    }
}

/// Some listed mine lies outside a grid of the given dimensions.
pub open spec fn strays(width: nat, height: nat, mines: Seq<Position>) -> bool {
    exists|i: int| 0 <= i < mines.len() && !in_bounds(width, height, #[trigger] mines[i])
}

/// The first fault of a list of mines for a grid of the given dimensions,
/// if it has one.
pub open spec fn layout_fault(width: usize, height: usize, mines: Seq<Position>) -> Option<
    InvalidConfiguration,
> {
    if width == 0 || height == 0 {
        Some(InvalidConfiguration::EmptyGrid)
    } else if width * height > usize::MAX {
        Some(InvalidConfiguration::GridTooLarge)
    } else if strays(width as nat, height as nat, mines) {
        Some(InvalidConfiguration::MineOutOfBounds)
    } else {
        None
    }
}

/// The fault of a list of mines that is to replace the mines of a board, if
/// it has one.
pub open spec fn relayout_fault(b: Board, mines: Seq<Position>) -> Option<InvalidConfiguration> {
    if strays(b.width, b.height, mines) {
        Some(InvalidConfiguration::MineOutOfBounds)
    } else if mines.to_set().len() != b.mines.len() {
        Some(InvalidConfiguration::MineCountMismatch)
    } else {
        None
    }
}

} // verus!
