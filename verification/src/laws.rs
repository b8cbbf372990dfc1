//! What holds of every board: the laws of the game, stated on the model
//! that the contracts of the mine field speak of.

use crate::board::Board;
use crate::cells::lemma_all_cells_len;
use crate::flood::{lemma_flooded_cell, lemma_floods_to_self, lemma_floods_to_step};
use crate::grid::{adjacent, Position};
use crate::minesweeper::{FlagResult, OpenResult};
use crate::session::{FlagOutcome, OpenOutcome, Session};
use vstd::prelude::*;

verus! {

/// Opening a flagged cell is refused and changes nothing.
pub proof fn law_open_flagged_changes_nothing(b: Board, p: Position)
    requires
        b.flagged.contains(p),
    ensures
        b.open_result(p) == OpenResult::Rejected,
        b.after_open(p) == b,
{
}

/// Opening a cell outside the board is refused and changes nothing.
pub proof fn law_open_outside_changes_nothing(b: Board, p: Position)
    requires
        !b.has(p),
    ensures
        b.open_result(p) == OpenResult::Rejected,
        b.after_open(p) == b,
{
}

/// Toggling the flag on an open cell does not apply and changes nothing.
pub proof fn law_flag_open_changes_nothing(b: Board, p: Position)
    requires
        b.open.contains(p),
    ensures
        b.flag_result(p) == FlagResult::NotApplicable,
        b.after_toggle_flag(p) == b,
{
}

/// Toggling a flag twice on a cell gives the board back.
pub proof fn law_toggle_flag_twice(b: Board, p: Position)
    requires
        b.wf(),
    ensures
        b.after_toggle_flag(p).after_toggle_flag(p) == b,
{
    let once = b.after_toggle_flag(p);
    let twice = once.after_toggle_flag(p);
    assert(twice.flagged =~= b.flagged);
}

/// No cell is ever both open and flagged: each action keeps the
/// invariants of the board.
pub proof fn law_actions_keep_board_wf(b: Board, p: Position)
    requires
        b.wf(),
    ensures
        b.after_toggle_flag(p).wf(),
        b.after_open(p).wf(),
        b.after_show_loss(b.width, b.height).wf(),
{
    lemma_all_cells_len(b.width, b.height);
    let cells = b.cells();
    assert(b.after_toggle_flag(p).wf());
    // A reveal opens covered cells only.
    assert forall|from: Position, c: Position|
        b.covered(from) && b.floods_to(from, c) implies b.covered(c) by {
        if c != from {
            lemma_flooded_cell(b, from, c);
        }
    }
    if b.has(p) && !b.flagged.contains(p) {
        let opened = if b.open.contains(p) {
            if b.satisfied(p) {
                b.chord_region(p)
            } else {
                Set::<Position>::empty()
            }
        } else {
            b.flood_region(p)
        };
        assert(opened.subset_of(cells));
        vstd::set_lib::lemma_set_subset_finite(cells, opened);
        assert(b.after_open(p).open =~= b.open.union(opened));
        assert(b.after_open(p).wf());
    }
    let shown = b.shown(b.width, b.height);
    assert(shown.subset_of(cells));
    vstd::set_lib::lemma_set_subset_finite(cells, shown);
    assert(b.after_show_loss(b.width, b.height).wf());
}

/// A mine is opened only by losing the game: on a board where no mine is
/// open, opening a cell leaves no mine open unless the game is lost by it.
pub proof fn law_open_mines_only_by_loss(b: Board, p: Position)
    requires
        b.wf(),
        b.lost || b.open.disjoint(b.mines),
    ensures
        b.after_open(p).lost || b.after_open(p).open.disjoint(b.after_open(p).mines),
{
    let after = b.after_open(p);
    if !after.lost {
        assert forall|c: Position|
            after.open.contains(c) && !b.open.contains(c) implies !b.mines.contains(c) by {
            if b.open.contains(p) {
                let n = choose|n: Position|
                    adjacent(p, n) && b.covered(n) && #[trigger] b.floods_to(n, c);
                if c != n {
                    lemma_flooded_cell(b, n, c);
                }
            } else if c != p {
                lemma_flooded_cell(b, p, c);
            }
        }
    }
}

/// The game is won exactly when the flags are the mines and as many cells
/// are open as the board has cells without a mine.
pub proof fn law_won_by_counts(b: Board)
    ensures
        b.won() <==> b.flagged == b.mines && b.open.len() == b.width * b.height - b.mines.len(),
{
}

/// The game is won exactly when every mine is flagged, nothing else is
/// flagged, and every cell without a mine is open.
pub proof fn law_won_by_cells(b: Board)
    requires
        b.wf(),
    ensures
        b.won() <==> b.flagged == b.mines && b.open == b.cells().difference(b.mines),
{
    lemma_all_cells_len(b.width, b.height);
    let safe = b.cells().difference(b.mines);
    vstd::set_lib::lemma_len_difference(b.cells(), b.mines);
    assert(b.cells().intersect(b.mines) =~= b.mines);
    vstd::set_lib::lemma_set_intersect_union_lens(safe, b.mines);
    assert(safe.union(b.mines) =~= b.cells());
    assert(safe.intersect(b.mines) =~= Set::<Position>::empty());
    assert(safe.len() == b.width * b.height - b.mines.len());
    if b.flagged == b.mines {
        assert(b.open.subset_of(safe));
        if b.open.len() == safe.len() {
            vstd::set_lib::lemma_subset_equality(b.open, safe);
        }
    }
}

/// Revealing a safe cell opens no mine and does not lose the game.
pub proof fn law_clearing_opens_no_mine(b: Board, p: Position, c: Position)
    requires
        b.wf(),
        b.covered(p),
        !b.mines.contains(p),
        b.flood_region(p).contains(c),
    ensures
        !b.mines.contains(c),
        b.after_open(p).lost == b.lost,
{
    if c != p {
        lemma_flooded_cell(b, p, c);
    }
}

/// The region that revealing a cell opens is connected and has a border:
/// each of its cells but the first touches a blank cell of the region, so
/// it is a blank cell joined to the first by blank cells, or a numbered
/// cell on the border of those.
pub proof fn law_clearing_is_connected(b: Board, p: Position, c: Position)
    requires
        b.wf(),
        b.flood_region(p).contains(c),
        c != p,
    ensures
        b.blank(p),
        b.covered(c),
        exists|a: Position|
            #[trigger] b.flood_region(p).contains(a) && b.blank(a) && adjacent(a, c),
{
    lemma_flooded_cell(b, p, c);
    let a = choose|a: Position| b.floods_to(p, a) && #[trigger] b.flood_step(a, c);
    assert(b.flood_region(p).contains(a));
    if !b.blank(p) {
        crate::flood::lemma_region_of_numbered_cell(b, p);
    }
}

/// The region that revealing a cell opens is as large as can be: it holds
/// the cell, and with each blank cell every covered cell that touches it.
pub proof fn law_clearing_is_maximal(b: Board, p: Position, a: Position, c: Position)
    requires
        b.flood_region(p).contains(a),
        b.blank(a),
        adjacent(a, c),
        b.covered(c),
    ensures
        b.flood_region(p).contains(p),
        b.flood_region(p).contains(c),
{
    lemma_floods_to_self(b, p);
    lemma_floods_to_step(b, p, a, c);
}

/// Revealing a cell that a mine touches, or a mine, opens that cell alone.
pub proof fn law_numbered_cell_opens_alone(b: Board, p: Position)
    requires
        b.covered(p),
        !b.blank(p),
    ensures
        b.after_open(p).open == b.open.insert(p),
{
    crate::flood::lemma_region_of_numbered_cell(b, p);
    assert(b.open.union(set![p]) =~= b.open.insert(p));
}

/// Chording a satisfied cell opens each of its neighbours that is neither
/// flagged nor open.
pub proof fn law_chord_opens_neighbours(b: Board, p: Position, n: Position)
    requires
        b.wf(),
        b.open.contains(p),
        b.satisfied(p),
        adjacent(p, n),
        b.covered(n),
    ensures
        b.after_open(p).open.contains(n),
{
    lemma_floods_to_self(b, n);
    assert(b.chord_region(p).contains(n));
}

/// Chording a cell that is not satisfied changes nothing.
pub proof fn law_chord_unsatisfied_changes_nothing(b: Board, p: Position)
    requires
        b.wf(),
        b.open.contains(p),
        !b.satisfied(p),
    ensures
        b.after_open(p) == b,
{
}

/// After the loss has been shown over the whole board, every cell is open
/// and none is flagged.
pub proof fn law_show_loss_opens_all(b: Board)
    requires
        b.wf(),
    ensures
        b.after_show_loss(b.width, b.height).open == b.cells(),
        b.after_show_loss(b.width, b.height).flagged == Set::<Position>::empty(),
{
    let after = b.after_show_loss(b.width, b.height);
    assert(after.open =~= b.cells());
    assert(after.flagged =~= Set::<Position>::empty());
}

/// A cell shows a number from 0 to 8.
pub proof fn law_mine_number_at_most_eight(b: Board, p: Position)
    requires
        b.wf(),
    ensures
        b.mine_number(p) <= 8,
{
    b.mines.lemma_len_filter(|q: Position| adjacent(p, q));
    vstd::set_lib::lemma_set_subset_finite(b.mines, b.adjacent_mines(p));
    crate::grid::lemma_adjacent_set_len(p, b.adjacent_mines(p));
}

/// The first reveal of a game is never fatal. If it meets a mine, the
/// request is a false alarm: the game is not lost, the board is covered
/// again with the fresh mines, every flag is back in the budget, and the
/// next reveal counts as the first again. A second request for the same
/// cell is then judged by the fresh mines alone.
pub proof fn law_first_reveal_is_never_fatal(s: Session, p: Position, fresh: Set<Position>)
    requires
        s.wf(),
        s.first_open_count == 0,
        s.board.mines.contains(p),
        !s.board.flagged.contains(p),
        fresh.finite(),
        fresh.subset_of(s.board.cells()),
        fresh.len() == s.board.mines.len(),
    ensures
        s.open_outcome(p) == OpenOutcome::FalseAlarm,
        s.after_open(p, fresh).wf(),
        s.after_open(p, fresh).board == s.relaid(fresh),
        s.after_open(p, fresh).board.fresh(),
        s.after_open(p, fresh).first_open_count == 0,
        s.after_open(p, fresh).flags_remaining == fresh.len(),
        s.after_open(p, fresh).open_outcome(p) == (if fresh.contains(p) {
            OpenOutcome::FalseAlarm
        } else {
            OpenOutcome::Done(OpenResult::NoMine(s.relaid(fresh).mine_number(p) as u8))
        }),
{
    let t = s.after_open(p, fresh);
    assert(s.board.cells().contains(p));
    assert(!s.board.won());
    crate::session::law_requests_keep_session_wf(s, p, fresh);
    assert(!t.board.won()) by {
        if fresh.len() == 0 {
            assert(t.board.width * t.board.height > 0) by (nonlinear_arith)
                requires
                    t.board.width > 0,
                    t.board.height > 0,
            ;
        } else {
            assert(t.board.flagged.len() == 0);
        }
    }
}

/// While the budget of flags is used up, no flag can be placed, but a flag
/// can be taken off, and is then back in the budget.
pub proof fn law_flag_budget(s: Session, p: Position)
    requires
        s.wf(),
        !s.over(),
        s.flags_remaining == 0,
        s.board.has(p),
        !s.board.open.contains(p),
    ensures
        !s.board.flagged.contains(p) ==> s.flag_outcome(p) == FlagOutcome::BudgetExhausted
            && s.after_toggle_flag(p) == s,
        s.board.flagged.contains(p) ==> s.flag_outcome(p) == FlagOutcome::Done(FlagResult::Removed)
            && s.after_toggle_flag(p).flags_remaining == 1 && !s.after_toggle_flag(
            p,
        ).board.flagged.contains(p),
{
}

} // verus!
