//! The mine field: the state of one board and the actions that change it.

use crate::board::{layout_fault, relayout_fault, size_fault, strays, Board};
use crate::cells::{
    cells_of, lemma_cells_of_empty, lemma_cells_of_injective, lemma_cells_of_insert,
    lemma_cells_of_len, lemma_cells_of_remove, lemma_numbers_len_bound, numbers_on_grid,
};
use crate::flood::{
    chord_hit, chord_progress, clearing, lemma_blank_neighbour_is_safe, lemma_chord_done,
    lemma_chord_meets_open, lemma_chord_reveals, lemma_chord_skips, lemma_clearing_done,
    lemma_clearing_opens, lemma_clearing_starts, lemma_clearing_visited, lemma_laid_open_nothing,
    lemma_laid_open_one_more, lemma_region_of_numbered_cell,
};
use crate::grid::{
    adjacent, cell_index, in_bounds, lemma_adjacent_set_len, lemma_index_in_range, BoardSize,
    Position,
};
use crate::random::random_fields;
use std::collections::HashSet;
use vstd::prelude::*;
use vstd::std_specs::iter::IteratorSpec;

verus! {

broadcast use vstd::std_specs::hash::group_hash_axioms;

/// What opening a cell did.
#[derive(Clone, Copy, Debug, PartialEq, Eq, Structural)]
pub enum OpenResult {
    /// The cell was covered and held a mine; the game is lost.
    Mine,
    /// The cell was covered and safe; it shows this many neighbouring mines.
    NoMine(u8),
    /// The cell was open already, so the action was taken as a chord.
    AlreadyOpen,
    /// The cell is flagged or lies outside the board; nothing changed.
    Rejected,
}

/// What toggling a flag did.
#[derive(Clone, Copy, Debug, PartialEq, Eq, Structural)]
pub enum FlagResult {
    /// The cell is open or lies outside the board; nothing changed.
    NotApplicable,
    /// The cell carries a flag now.
    Placed,
    /// The cell carries no flag any more.
    Removed,
}

/// Why a board, or a new layout of mines for a board, is refused.
#[derive(Clone, Copy, Debug, PartialEq, Eq, Structural)]
pub enum InvalidConfiguration {
    /// The width or the height is zero.
    EmptyGrid,
    /// The number of cells does not fit in a `usize`.
    GridTooLarge,
    /// More mines are asked for than the grid has cells.
    TooManyMines,
    /// A mine is placed outside the grid.
    MineOutOfBounds,
    /// A new layout does not hold as many mines as the board it is for.
    MineCountMismatch,
}

/// One board: its dimensions, where the mines are, which cells are open and
/// which are flagged, and whether a mine has been revealed.
///
/// Cells are kept by their row-major number, so a board takes room for its
/// mines, its open cells and its flags only.
pub struct Minesweeper {
    width: usize,
    height: usize,
    open_fields: HashSet<usize>,
    mines: HashSet<usize>,
    flagged_fields: HashSet<usize>,
    lose: bool,
}

impl View for Minesweeper {
    type V = Board;

    closed spec fn view(&self) -> Board {
        Board {
            width: self.width as nat,
            height: self.height as nat,
            mines: cells_of(self.mines@, self.width as nat, self.height as nat),
            open: cells_of(self.open_fields@, self.width as nat, self.height as nat),
            flagged: cells_of(self.flagged_fields@, self.width as nat, self.height as nat),
            lost: self.lose,
        }
    }
}

impl Minesweeper {
    /// The invariant of the representation. It implies the invariants of the
    /// board that the field stands for.
    pub closed spec fn wf(&self) -> bool {
        &&& self.width > 0
        &&& self.height > 0
        &&& self.width * self.height <= usize::MAX
        &&& self.mines@.finite()
        &&& self.open_fields@.finite()
        &&& self.flagged_fields@.finite()
        &&& numbers_on_grid(self.mines@, self.width as nat, self.height as nat)
        &&& numbers_on_grid(self.open_fields@, self.width as nat, self.height as nat)
        &&& numbers_on_grid(self.flagged_fields@, self.width as nat, self.height as nat)
        &&& self.open_fields@.disjoint(self.flagged_fields@)
    }

    /// A well-formed field stands for a well-formed board.
    pub proof fn lemma_wf_board(&self)
        requires
            self.wf(),
        ensures
            self@.wf(),
    {
        let w = self.width as nat;
        let h = self.height as nat;
        lemma_cells_of_len(self.mines@, w, h);
        lemma_cells_of_len(self.open_fields@, w, h);
        lemma_cells_of_len(self.flagged_fields@, w, h);
        assert(self@.open.disjoint(self@.flagged));
    }

    /// Makes a board of a given size with mines drawn at random, nothing
    /// open and nothing flagged.
    ///
    /// The size is refused if a dimension is zero, if the cells cannot be
    /// counted in a `usize`, or if more mines are asked for than there are
    /// cells. Where the mines lie is left to chance.
    pub fn new(size: BoardSize) -> (r: Result<Minesweeper, InvalidConfiguration>)
        ensures
            match r {
                Ok(field) => {
                    &&& size_fault(size) is None
                    &&& field.wf()
                    &&& field@.wf()
                    &&& field@.width == size.0
                    &&& field@.height == size.1
                    &&& field@.mines.len() == size.2
                    &&& field@.fresh()
                },
                Err(fault) => size_fault(size) == Some(fault),
            },
    {
        let (width, height, mine_count) = size;
        if width == 0 || height == 0 {
            return Err(InvalidConfiguration::EmptyGrid);
        }
        match width.checked_mul(height) {
            None => {
                return Err(InvalidConfiguration::GridTooLarge);
            },
            Some(cells) => {
                if mine_count > cells {
                    return Err(InvalidConfiguration::TooManyMines);
                }
            },
        }
        let fields = random_fields(width, height, mine_count);
        proof {
            fields@.unique_seq_to_set();
        }
        Minesweeper::with_mines(width, height, &fields)
    }

    /// Makes a board with the given mines, nothing open and nothing flagged.
    ///
    /// A cell that is listed twice holds one mine. The board is refused if a
    /// dimension is zero, if the cells cannot be counted in a `usize`, or if
    /// a listed cell lies outside the grid.
    pub fn with_mines(width: usize, height: usize, mines: &Vec<Position>) -> (r: Result<
        Minesweeper,
        InvalidConfiguration,
    >)
        ensures
            match r {
                Ok(field) => {
                    &&& layout_fault(width, height, mines@) is None
                    &&& field.wf()
                    &&& field@.wf()
                    &&& field@.width == width
                    &&& field@.height == height
                    &&& field@.mines == mines@.to_set()
                    &&& field@.fresh()
                },
                Err(fault) => layout_fault(width, height, mines@) == Some(fault),
            },
    {
        if width == 0 || height == 0 {
            return Err(InvalidConfiguration::EmptyGrid);
        }
        if width.checked_mul(height).is_none() {
            return Err(InvalidConfiguration::GridTooLarge);
        }
        match Minesweeper::numbers_of(width, height, mines) {
            None => Err(InvalidConfiguration::MineOutOfBounds),
            Some(numbers) => {
                let field = Minesweeper {
                    width,
                    height,
                    open_fields: HashSet::new(),
                    mines: numbers,
                    flagged_fields: HashSet::new(),
                    lose: false,
                };
                proof {
                    lemma_cells_of_empty(width as nat, height as nat);
                    field.lemma_wf_board();
                }
                Ok(field)
            },
        }
    }

    /// The row-major numbers of the listed cells, or `None` if one of them
    /// lies outside the grid.
    fn numbers_of(width: usize, height: usize, mines: &Vec<Position>) -> (r: Option<HashSet<usize>>)
        requires
            width > 0,
            height > 0,
            width * height <= usize::MAX,
        ensures
            r is None <==> strays(width as nat, height as nat, mines@),
            r matches Some(numbers) ==> {
                &&& numbers@.finite()
                &&& numbers_on_grid(numbers@, width as nat, height as nat)
                &&& cells_of(numbers@, width as nat, height as nat) == mines@.to_set()
            },
    {
        let mut numbers: HashSet<usize> = HashSet::new();
        let mut i: usize = 0;
        proof {
            lemma_cells_of_empty(width as nat, height as nat);
            assert(mines@.take(0).to_set() =~= Set::<Position>::empty());
        }
        while i < mines.len()
            invariant
                width > 0,
                height > 0,
                width * height <= usize::MAX,
                0 <= i <= mines@.len(),
                numbers@.finite(),
                numbers_on_grid(numbers@, width as nat, height as nat),
                forall|k: int|
                    0 <= k < i ==> in_bounds(width as nat, height as nat, #[trigger] mines@[k]),
                cells_of(numbers@, width as nat, height as nat) == mines@.take(i as int).to_set(),
            decreases mines@.len() - i,
        {
            let (x, y) = mines[i];
            if x >= width || y >= height {
                proof {
                    assert(!in_bounds(width as nat, height as nat, mines@[i as int]));
                }
                return None;
            }
            proof {
                lemma_index_in_range(width as nat, height as nat, (x, y));
                lemma_cells_of_insert(numbers@, width as nat, height as nat, (x, y));
                assert(mines@.take(i + 1) =~= mines@.take(i as int).push((x, y)));
                mines@.take(i as int).lemma_push_to_set_commute((x, y));
            }
            numbers.insert(y * width + x);
            i = i + 1;
        }
        proof {
            assert(mines@.take(i as int) =~= mines@);
        }
        Some(numbers)
    }

    /// The dimensions of the board: `(width, height)`.
    pub fn width_and_height(&self) -> (r: (usize, usize))
        ensures
            r.0 == self@.width,
            r.1 == self@.height,
    {
        (self.width, self.height)
    }

    /// Clears the loss flag.
    pub fn false_lost(&mut self)
        ensures
            final(self)@ == (Board { lost: false, ..old(self)@ }),
            old(self).wf() ==> final(self).wf(),
    {
        self.lose = false;
    }

    /// Sets the loss flag.
    pub fn lost(&mut self)
        ensures
            final(self)@ == (Board { lost: true, ..old(self)@ }),
            old(self).wf() ==> final(self).wf(),
    {
        self.lose = true;
    }

    /// Whether a mine has been revealed.
    pub fn lose_state(&self) -> (r: bool)
        ensures
            r == self@.lost,
    {
        self.lose
    }

    /// The number of mines on the board.
    pub fn mine_count(&self) -> (r: usize)
        requires
            self.wf(),
        ensures
            r == self@.mines.len(),
    {
        proof {
            lemma_cells_of_len(self.mines@, self.width as nat, self.height as nat);
        }
        self.mines.len()
    }

    /// The row-major number of a cell of the board.
    fn number_of(&self, pos: Position) -> (number: usize)
        requires
            self.wf(),
            self@.has(pos),
        ensures
            number == cell_index(self.width as nat, pos),
            number < self.width * self.height,
    {
        proof {
            lemma_index_in_range(self.width as nat, self.height as nat, pos);
        }
        pos.1 * self.width + pos.0
    }

    /// Whether the cell lies on the board.
    fn has(&self, pos: Position) -> (r: bool)
        ensures
            r == self@.has(pos),
    {
        pos.0 < self.width && pos.1 < self.height
    }

    /// Whether the cell holds a mine. A cell outside the board holds none.
    pub fn is_mine(&self, pos: Position) -> (r: bool)
        requires
            self.wf(),
        ensures
            r == self@.mines.contains(pos),
    {
        self.has(pos) && self.mines.contains(&self.number_of(pos))
    }

    /// Whether the cell is open. A cell outside the board is not.
    pub fn is_open(&self, pos: Position) -> (r: bool)
        requires
            self.wf(),
        ensures
            r == self@.open.contains(pos),
    {
        self.has(pos) && self.open_fields.contains(&self.number_of(pos))
    }

    /// Whether the cell is flagged. A cell outside the board is not.
    pub fn is_flagged(&self, pos: Position) -> (r: bool)
        requires
            self.wf(),
        ensures
            r == self@.flagged.contains(pos),
    {
        self.has(pos) && self.flagged_fields.contains(&self.number_of(pos))
    }

    /// The cells of the board that touch `pos`, column by column from the
    /// left, each column from the top down.
    pub fn iter_neighbors(&self, pos: Position) -> (neighbors: Vec<Position>)
        requires
            self.wf(),
        ensures
            forall|q: Position|
                #![trigger neighbors@.contains(q)]
                #![trigger adjacent(pos, q)]
                neighbors@.contains(q) <==> self@.has(q) && adjacent(pos, q),
            forall|k: int, l: int|
                #![trigger neighbors@[k], neighbors@[l]]
                0 <= k < l < neighbors@.len() ==> neighbors@[k].0 < neighbors@[l].0 || (
                neighbors@[k].0 == neighbors@[l].0 && neighbors@[k].1 < neighbors@[l].1),
            neighbors@.no_duplicates(),
    {
        let (x, y) = pos;
        let x_lo: usize = if x > 0 { x - 1 } else { 0 };
        let x_hi: usize = if x < self.width - 1 { x + 1 } else { self.width - 1 };
        let y_lo: usize = if y > 0 { y - 1 } else { 0 };
        let y_hi: usize = if y < self.height - 1 { y + 1 } else { self.height - 1 };
        let mut neighbors: Vec<Position> = Vec::new();
        let mut i: usize = x_lo;
        while i <= x_hi
            invariant
                self.wf(),
                pos == (x, y),
                x_lo <= i,
                x_hi < self.width,
                y_hi < self.height,
                x_lo == (if x > 0 { x - 1 } else { 0 }),
                x_hi == (if x < self.width - 1 { x + 1 } else { self.width - 1 }),
                y_lo == (if y > 0 { y - 1 } else { 0 }),
                y_hi == (if y < self.height - 1 { y + 1 } else { self.height - 1 }),
                forall|k: int| 0 <= k < neighbors@.len() ==> (#[trigger] neighbors@[k]).0 < i,
                forall|k: int, l: int|
                    #![trigger neighbors@[k], neighbors@[l]]
                    0 <= k < l < neighbors@.len() ==> neighbors@[k].0 < neighbors@[l].0 || (
                    neighbors@[k].0 == neighbors@[l].0 && neighbors@[k].1 < neighbors@[l].1),
                forall|q: Position|
                    #![trigger neighbors@.contains(q)]
                    #![trigger adjacent(pos, q)]
                    neighbors@.contains(q) <==> self@.has(q) && adjacent(pos, q) && q.0 < i,
            decreases x_hi + 1 - i,
        {
            let mut j: usize = y_lo;
            while j <= y_hi
                invariant
                    self.wf(),
                    pos == (x, y),
                    x_lo <= i <= x_hi,
                    y_lo <= j,
                    x_hi < self.width,
                    y_hi < self.height,
                    x_lo == (if x > 0 { x - 1 } else { 0 }),
                    x_hi == (if x < self.width - 1 { x + 1 } else { self.width - 1 }),
                    y_lo == (if y > 0 { y - 1 } else { 0 }),
                    y_hi == (if y < self.height - 1 { y + 1 } else { self.height - 1 }),
                    forall|k: int|
                        0 <= k < neighbors@.len() ==> (#[trigger] neighbors@[k]).0 < i || (
                        neighbors@[k].0 == i && neighbors@[k].1 < j),
                    forall|k: int, l: int|
                        #![trigger neighbors@[k], neighbors@[l]]
                        0 <= k < l < neighbors@.len() ==> neighbors@[k].0 < neighbors@[l].0 || (
                        neighbors@[k].0 == neighbors@[l].0 && neighbors@[k].1 < neighbors@[l].1),
                    forall|q: Position|
                        #![trigger neighbors@.contains(q)]
                        #![trigger adjacent(pos, q)]
                        neighbors@.contains(q) <==> self@.has(q) && adjacent(pos, q) && (q.0 < i
                            || (q.0 == i && q.1 < j)),
                decreases y_hi + 1 - j,
            {
                if i != x || j != y {
                    let ghost before = neighbors@;
                    neighbors.push((i, j));
                    proof {
                        assert forall|q: Position|
                            #![trigger neighbors@.contains(q)]
                            #![trigger adjacent(pos, q)]
                            neighbors@.contains(q) <==> self@.has(q) && adjacent(pos, q) && (q.0
                                < i || (q.0 == i && q.1 < j + 1)) by {
                            vstd::seq_lib::lemma_seq_contains_after_push(before, (i, j), q);
                        }
                    }
                }
                j = j + 1;
            }
            i = i + 1;
        }
        neighbors
    }

    /// How many of the cells that touch `position` are in the set kept by
    /// their numbers in `among`.
    fn count_neighbors(&self, position: Position, among: &HashSet<usize>) -> (count: u8)
        requires
            self.wf(),
            among@.finite(),
            numbers_on_grid(among@, self.width as nat, self.height as nat),
        ensures
            count == cells_of(among@, self.width as nat, self.height as nat).filter(
                |q: Position| adjacent(position, q),
            ).len(),
            count <= 8,
    {
        let neighbors = self.iter_neighbors(position);
        let ghost all = cells_of(among@, self.width as nat, self.height as nat);
        let ghost touching = all.filter(|q: Position| adjacent(position, q));
        proof {
            lemma_cells_of_len(among@, self.width as nat, self.height as nat);
            all.lemma_len_filter(|q: Position| adjacent(position, q));
            vstd::set_lib::lemma_set_subset_finite(all, touching);
            lemma_adjacent_set_len(position, touching);
        }
        let mut count: u8 = 0;
        let mut k: usize = 0;
        let ghost mut counted: Set<Position> = Set::empty();
        while k < neighbors.len()
            invariant
                self.wf(),
                0 <= k <= neighbors@.len(),
                neighbors@.no_duplicates(),
                forall|q: Position|
                    #![trigger neighbors@.contains(q)]
                    #![trigger adjacent(position, q)]
                    neighbors@.contains(q) <==> self@.has(q) && adjacent(position, q),
                all == cells_of(among@, self.width as nat, self.height as nat),
                touching == all.filter(|q: Position| adjacent(position, q)),
                touching.finite(),
                touching.len() <= 8,
                counted.finite(),
                counted.subset_of(touching),
                count == counted.len(),
                forall|q: Position|
                    counted.contains(q) <==> all.contains(q) && exists|l: int|
                        0 <= l < k && neighbors@[l] == q,
            decreases neighbors@.len() - k,
        {
            let n = neighbors[k];
            proof {
                assert(neighbors@.contains(n));
            }
            if among.contains(&self.number_of(n)) {
                proof {
                    assert(touching.contains(n));
                    vstd::set_lib::lemma_len_subset(counted.insert(n), touching);
                    counted = counted.insert(n);
                }
                count = count + 1;
            }
            k = k + 1;
        }
        proof {
            assert forall|q: Position| touching.contains(q) implies counted.contains(q) by {
                assert(neighbors@.contains(q));
            }
            assert(counted =~= touching);
        }
        count
    }

    /// The number a cell shows when it is open: how many mines touch it.
    pub fn neighboring_mines(&self, position: Position) -> (count: u8)
        requires
            self.wf(),
        ensures
            count == self@.mine_number(position),
            count <= 8,
    {
        self.count_neighbors(position, &self.mines)
    }

    /// How many flags touch a cell.
    pub fn neighboring_flags(&self, position: Position) -> (count: u8)
        requires
            self.wf(),
        ensures
            count == self@.flag_number(position),
            count <= 8,
    {
        self.count_neighbors(position, &self.flagged_fields)
    }

    /// Opens a cell.
    ///
    /// A flagged cell, or one outside the board, is left alone. A covered
    /// cell is revealed: a mine loses the game; a safe cell shows its
    /// number, and a blank one clears the region around it. An open cell is
    /// chorded: if as many flags touch it as mines, each of its covered
    /// neighbours is revealed.
    pub fn open(&mut self, position: Position) -> (r: OpenResult)
        requires
            old(self).wf(),
        ensures
            final(self).wf(),
            r == old(self)@.open_result(position),
            final(self)@ == old(self)@.after_open(position),
    {
        if !self.has(position) {
            OpenResult::Rejected
        } else if self.is_open(position) {
            self.chord(position);
            OpenResult::AlreadyOpen
        } else if self.is_flagged(position) {
            OpenResult::Rejected
        } else {
            self.uncover(position)
        }
    }

    /// Reveals a covered cell: opens it and, if it is blank, clears the
    /// region around it.
    ///
    /// The blank cells whose neighbours are still to be looked at are kept
    /// in a list, so the clearing of a large region does not nest calls.
    fn uncover(&mut self, position: Position) -> (r: OpenResult)
        requires
            old(self).wf(),
            old(self)@.covered(position),
        ensures
            final(self).wf(),
            final(self)@ == old(self)@.after_reveal(position),
            r == old(self)@.open_result(position),
    {
        let ghost b0 = self@;
        let ghost w = self.width as nat;
        let ghost h = self.height as nat;
        proof {
            lemma_cells_of_insert(self.open_fields@, w, h, position);
            self.lemma_wf_board();
        }
        let number: usize = self.number_of(position);
        self.open_fields.insert(number);
        let mine = self.mines.contains(&number);
        let count: u8 = self.neighboring_mines(position);
        if mine || count != 0 {
            proof {
                lemma_region_of_numbered_cell(b0, position);
                assert(self@.open =~= b0.open.union(b0.flood_region(position)));
            }
            if mine {
                self.lose = true;
                return OpenResult::Mine;
            }
            return OpenResult::NoMine(count);
        }
        let mut pending: Vec<Position> = Vec::new();
        pending.push(position);
        proof {
            lemma_clearing_starts(b0, position);
            assert(pending@ =~= seq![position]);
        }
        while pending.len() > 0
            invariant
                self.wf(),
                b0.wf(),
                w == self.width,
                h == self.height,
                self@ == b0.with_open(self@.open),
                b0.covered(position),
                clearing(b0, position, self@.open, pending@),
            decreases self.width * self.height - self.open_fields@.len(), pending@.len(),
        {
            let ghost opened_before = self.open_fields@.len();
            let ghost pending_before = pending@;
            proof {
                lemma_numbers_len_bound(self.open_fields@, w, h);
            }
            let current = pending.pop().unwrap();
            let neighbors = self.iter_neighbors(current);
            let ghost rest_len = pending@.len();
            proof {
                assert(pending@.push(current) =~= pending_before);
                assert(pending_before[pending_before.len() - 1] == current);
            }
            let mut k: usize = 0;
            while k < neighbors.len()
                invariant
                    self.wf(),
                    b0.wf(),
                    w == self.width,
                    h == self.height,
                    self@ == b0.with_open(self@.open),
                    0 <= k <= neighbors@.len(),
                    forall|q: Position|
                        #![trigger neighbors@.contains(q)]
                        #![trigger adjacent(current, q)]
                        neighbors@.contains(q) <==> b0.has(q) && adjacent(current, q),
                    clearing(b0, position, self@.open, pending@.push(current)),
                    b0.blank(current),
                    forall|l: int|
                        0 <= l < k && b0.covered(#[trigger] neighbors@[l]) ==> self@.open.contains(
                            neighbors@[l],
                        ),
                    opened_before <= self.open_fields@.len() <= self.width * self.height,
                    pending@.len() - rest_len <= self.open_fields@.len() - opened_before,
                decreases neighbors@.len() - k,
            {
                let n = neighbors[k];
                proof {
                    assert(neighbors@.contains(n));
                    lemma_cells_of_insert(self.open_fields@, w, h, n);
                }
                let number: usize = self.number_of(n);
                if !self.open_fields.contains(&number) && !self.flagged_fields.contains(&number) {
                    proof {
                        lemma_clearing_opens(b0, position, self@.open, pending@, current, n);
                        lemma_blank_neighbour_is_safe(b0, current, n);
                    }
                    self.open_fields.insert(number);
                    proof {
                        lemma_numbers_len_bound(self.open_fields@, w, h);
                        assert(self@.adjacent_mines(n) == b0.adjacent_mines(n));
                    }
                    if self.neighboring_mines(n) == 0 {
                        pending.push(n);
                    }
                }
                k = k + 1;
            }
            proof {
                assert forall|c: Position| #[trigger]
                    b0.flood_step(current, c) implies self@.open.contains(c) by {
                    assert(neighbors@.contains(c));
                    let l = choose|l: int| 0 <= l < neighbors@.len() && neighbors@[l] == c;
                    assert(b0.covered(neighbors@[l]));
                }
                lemma_clearing_visited(b0, position, self@.open, pending@, current);
            }
        }
        proof {
            assert(pending@ =~= Seq::<Position>::empty());
            lemma_clearing_done(b0, position, self@.open);
        }
        OpenResult::NoMine(0)
    }

    /// Chords an open cell: if as many flags touch it as mines, reveals
    /// each neighbour that is still covered when its turn comes.
    fn chord(&mut self, position: Position)
        requires
            old(self).wf(),
            old(self)@.open.contains(position),
        ensures
            final(self).wf(),
            final(self)@ == old(self)@.after_chord(position),
    {
        let ghost b0 = self@;
        if self.neighboring_mines(position) != self.neighboring_flags(position) {
            return ;
        }
        let neighbors = self.iter_neighbors(position);
        let mut k: usize = 0;
        proof {
            self.lemma_wf_board();
            assert(self@.open =~= b0.open.union(chord_progress(b0, neighbors@, 0)));
        }
        while k < neighbors.len()
            invariant
                self.wf(),
                b0.wf(),
                0 <= k <= neighbors@.len(),
                neighbors@.no_duplicates(),
                forall|q: Position|
                    #![trigger neighbors@.contains(q)]
                    #![trigger adjacent(position, q)]
                    neighbors@.contains(q) <==> b0.has(q) && adjacent(position, q),
                self@ == (Board {
                    open: b0.open.union(chord_progress(b0, neighbors@, k as int)),
                    lost: b0.lost || chord_hit(b0, neighbors@, k as int),
                    ..b0
                }),
            decreases neighbors@.len() - k,
        {
            let n = neighbors[k];
            proof {
                assert(neighbors@.contains(n));
            }
            if !self.is_flagged(n) && !self.is_open(n) {
                proof {
                    lemma_chord_reveals(b0, self@, neighbors@, k as int);
                }
                self.uncover(n);
            } else {
                proof {
                    if b0.covered(n) {
                        lemma_chord_meets_open(b0, neighbors@, k as int);
                    } else {
                        lemma_chord_skips(b0, neighbors@, k as int);
                    }
                }
            }
            k = k + 1;
        }
        proof {
            lemma_chord_done(b0, position, neighbors@);
        }
    }

    /// Places a flag on a covered cell, or takes the flag off a flagged one.
    /// An open cell, or one outside the board, is left alone.
    pub fn toggle_flag(&mut self, position: Position) -> (r: FlagResult)
        requires
            old(self).wf(),
        ensures
            final(self).wf(),
            r == old(self)@.flag_result(position),
            final(self)@ == old(self)@.after_toggle_flag(position),
    {
        if !self.has(position) {
            return FlagResult::NotApplicable;
        }
        let ghost w = self.width as nat;
        let ghost h = self.height as nat;
        proof {
            lemma_cells_of_insert(self.flagged_fields@, w, h, position);
            lemma_cells_of_remove(self.flagged_fields@, w, h, position);
        }
        let number: usize = self.number_of(position);
        if self.open_fields.contains(&number) {
            FlagResult::NotApplicable
        } else if self.flagged_fields.remove(&number) {
            FlagResult::Removed
        } else {
            assert(self.flagged_fields@ =~= old(self).flagged_fields@);
            self.flagged_fields.insert(number);
            FlagResult::Placed
        }
    }

    /// Whether the game is won: the flags mark exactly the mines, and as
    /// many cells are open as the board has cells without a flag.
    pub fn win_check(&self) -> (won: bool)
        requires
            self.wf(),
        ensures
            won == self@.won(),
    {
        let ghost w = self.width as nat;
        let ghost h = self.height as nat;
        proof {
            lemma_cells_of_len(self.mines@, w, h);
            lemma_cells_of_len(self.open_fields@, w, h);
            lemma_cells_of_len(self.flagged_fields@, w, h);
            lemma_numbers_len_bound(self.flagged_fields@, w, h);
            if self@.flagged == self@.mines {
                lemma_cells_of_injective(self.flagged_fields@, self.mines@, w, h);
            }
        }
        if self.flagged_fields.len() != self.mines.len() {
            return false;
        }
        let ghost keys = self.flagged_fields.iter().remaining().unref();
        let ghost mut checked: int = 0;
        for number in it: self.flagged_fields.iter()
            invariant
                it.seq().unref() == keys,
                checked == it.index(),
                keys.to_set() == self.flagged_fields@,
                self@.flagged == self@.mines ==> self.flagged_fields@ == self.mines@,
                forall|i: int| 0 <= i < checked ==> self.mines@.contains(#[trigger] keys[i]),
        {
            if !self.mines.contains(number) {
                proof {
                    assert(keys[checked] == *number);
                    assert(keys.to_set().contains(*number));
                }
                return false;
            }
            proof {
                checked = checked + 1;
            }
        }
        proof {
            assert forall|n: usize| self.flagged_fields@.contains(n) implies self.mines@.contains(
                n,
            ) by {
                assert(keys.to_set().contains(n));
                let i = choose|i: int| 0 <= i < keys.len() && keys[i] == n;
                assert(self.mines@.contains(keys[i]));
            }
            vstd::set_lib::lemma_subset_equality(self.flagged_fields@, self.mines@);
        }
        self.open_fields.len() == self.width * self.height - self.flagged_fields.len()
    }

    /// Shows the loss: lays open, one by one, every cell of the board that
    /// lies in the first `width` columns and the first `height` rows. A
    /// flag on such a cell is taken off first. No region is cleared and no
    /// cell is chorded on the way.
    pub fn show_loss(&mut self, width: usize, height: usize)
        requires
            old(self).wf(),
        ensures
            final(self).wf(),
            final(self)@ == old(self)@.after_show_loss(width as nat, height as nat),
    {
        let ghost b0 = self@;
        let ghost w = self.width as nat;
        let ghost h = self.height as nat;
        let columns: usize = if width < self.width { width } else { self.width };
        let rows: usize = if height < self.height { height } else { self.height };
        let mut i: usize = 0;
        proof {
            self.lemma_wf_board();
            assert(b0.shown_before(width as nat, height as nat, 0, 0) =~= Set::<Position>::empty());
            lemma_laid_open_nothing(b0, b0.shown_before(width as nat, height as nat, 0, 0));
        }
        while i < columns
            invariant
                self.wf(),
                b0.wf(),
                w == self.width,
                h == self.height,
                columns == (if width < self.width { width } else { self.width }),
                rows == (if height < self.height { height } else { self.height }),
                0 <= i <= columns,
                self@ == b0.laid_open(b0.shown_before(width as nat, height as nat, i as nat, 0)),
            decreases columns - i,
        {
            let mut j: usize = 0;
            while j < rows
                invariant
                    self.wf(),
                    b0.wf(),
                    w == self.width,
                    h == self.height,
                    columns == (if width < self.width { width } else { self.width }),
                    rows == (if height < self.height { height } else { self.height }),
                    0 <= i < columns,
                    0 <= j <= rows,
                    self@ == b0.laid_open(
                        b0.shown_before(width as nat, height as nat, i as nat, j as nat),
                    ),
                decreases rows - j,
            {
                let ghost done = b0.shown_before(width as nat, height as nat, i as nat, j as nat);
                let ghost so_far = self@;
                proof {
                    lemma_cells_of_insert(self.open_fields@, w, h, (i, j));
                    lemma_cells_of_remove(self.flagged_fields@, w, h, (i, j));
                    assert(b0.shown_before(width as nat, height as nat, i as nat, (j + 1) as nat)
                        =~= done.insert((i, j)));
                    lemma_laid_open_one_more(b0, done, (i, j));
                }
                let number: usize = self.number_of((i, j));
                if !self.open_fields.contains(&number) {
                    assert(!so_far.open.contains((i, j)));
                    self.flagged_fields.remove(&number);
                    self.open_fields.insert(number);
                    if self.mines.contains(&number) {
                        self.lose = true;
                    }
                } else {
                    proof {
                        assert(so_far.open.contains((i, j)));
                        assert(so_far.open.insert((i, j)) =~= so_far.open);
                        assert(so_far.flagged.remove((i, j)) =~= so_far.flagged);
                    }
                }
                j = j + 1;
            }
            proof {
                assert(b0.shown_before(width as nat, height as nat, i as nat, rows as nat)
                    =~= b0.shown_before(width as nat, height as nat, (i + 1) as nat, 0));
            }
            i = i + 1;
        }
        proof {
            assert(b0.shown_before(width as nat, height as nat, columns as nat, 0) =~= b0.shown(
                width as nat,
                height as nat,
            ));
        }
    }

    /// Lays the mines anew, at random, and covers the board: as many mines
    /// as before, nothing open, nothing flagged. The loss flag stays as it
    /// is. Where the mines lie is left to chance.
    pub fn board_reset(&mut self)
        requires
            old(self).wf(),
        ensures
            final(self).wf(),
            final(self)@.wf(),
            final(self)@.width == old(self)@.width,
            final(self)@.height == old(self)@.height,
            final(self)@.mines.len() == old(self)@.mines.len(),
            final(self)@.open == Set::<Position>::empty(),
            final(self)@.flagged == Set::<Position>::empty(),
            final(self)@.lost == old(self)@.lost,
    {
        let mine_count: usize = self.mine_count();
        proof {
            lemma_cells_of_len(self.mines@, self.width as nat, self.height as nat);
            lemma_numbers_len_bound(self.mines@, self.width as nat, self.height as nat);
        }
        let fields = random_fields(self.width, self.height, mine_count);
        proof {
            fields@.unique_seq_to_set();
        }
        let _ = self.board_reset_with(&fields);
        proof {
            self.lemma_wf_board();
        }
    }

    /// Lays the given mines in place of those of the board, and covers the
    /// board: nothing open, nothing flagged. The loss flag stays as it is.
    ///
    /// The list is refused, and the board left as it is, if a listed cell
    /// lies outside the grid or if the list does not hold as many different
    /// cells as the board has mines.
    pub fn board_reset_with(&mut self, mines: &Vec<Position>) -> (r: Result<
        (),
        InvalidConfiguration,
    >)
        requires
            old(self).wf(),
        ensures
            final(self).wf(),
            match r {
                Ok(_) => {
                    &&& relayout_fault(old(self)@, mines@) is None
                    &&& final(self)@ == (Board {
                        mines: mines@.to_set(),
                        open: Set::<Position>::empty(),
                        flagged: Set::<Position>::empty(),
                        ..old(self)@
                    })
                },
                Err(fault) => {
                    &&& relayout_fault(old(self)@, mines@) == Some(fault)
                    &&& final(self)@ == old(self)@
                },
            },
    {
        let ghost w = self.width as nat;
        let ghost h = self.height as nat;
        match Minesweeper::numbers_of(self.width, self.height, mines) {
            None => Err(InvalidConfiguration::MineOutOfBounds),
            Some(numbers) => {
                proof {
                    lemma_cells_of_len(self.mines@, w, h);
                    lemma_cells_of_len(numbers@, w, h);
                    lemma_cells_of_empty(w, h);
                }
                if numbers.len() != self.mines.len() {
                    return Err(InvalidConfiguration::MineCountMismatch);
                }
                self.mines = numbers;
                self.flagged_fields.clear();
                self.open_fields.clear();
                Ok(())
            },
        }
    }

    /// Whether the given mines could replace those of the board: the fault
    /// for which [`Minesweeper::board_reset_with`] would refuse them, if
    /// there is one.
    pub fn check_layout(&self, mines: &Vec<Position>) -> (r: Result<(), InvalidConfiguration>)
        requires
            self.wf(),
        ensures
            match r {
                Ok(_) => relayout_fault(self@, mines@) is None,
                Err(fault) => relayout_fault(self@, mines@) == Some(fault),
            },
    {
        let ghost w = self.width as nat;
        let ghost h = self.height as nat;
        match Minesweeper::numbers_of(self.width, self.height, mines) {
            None => Err(InvalidConfiguration::MineOutOfBounds),
            Some(numbers) => {
                proof {
                    lemma_cells_of_len(self.mines@, w, h);
                    lemma_cells_of_len(numbers@, w, h);
                }
                if numbers.len() != self.mines.len() {
                    Err(InvalidConfiguration::MineCountMismatch)
                } else {
                    Ok(())
                }
            },
        }
    }
}

} // verus!
