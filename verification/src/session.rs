//! A game session: one mine field, the rule that the first reveal is never
//! fatal, and the budget of flags.

use crate::board::{layout_fault, relayout_fault, size_fault, Board};
use crate::cells::lemma_all_cells_len;
use crate::flood::lemma_floods_to_self;
use crate::grid::{BoardSize, Position};
use crate::laws::{
    law_actions_keep_board_wf, law_open_mines_only_by_loss, law_show_loss_opens_all,
};
use crate::minesweeper::{FlagResult, InvalidConfiguration, Minesweeper, OpenResult};
use vstd::prelude::*;

verus! {

/// What a request to open a cell came to.
#[derive(Clone, Copy, Debug, PartialEq, Eq, Structural)]
pub enum OpenOutcome {
    /// The game is over, won or lost; nothing changed.
    GameOver,
    /// The first reveal of the game met a mine. The mines were laid anew
    /// and the board is covered again; the game is not lost.
    FalseAlarm,
    /// The field took the request, with this result.
    Done(OpenResult),
}

/// What a request to toggle a flag came to.
#[derive(Clone, Copy, Debug, PartialEq, Eq, Structural)]
pub enum FlagOutcome {
    /// The game is over, won or lost; nothing changed.
    GameOver,
    /// The cell could take a flag, but no flag is left to place; nothing
    /// changed.
    BudgetExhausted,
    /// The field took the request, with this result.
    Done(FlagResult),
}

/// A session as the contracts see it.
pub struct Session {
    /// The board of the field.
    pub board: Board,
    /// How many safe cells have been revealed by request since the mines
    /// were last laid.
    pub first_open_count: nat,
    /// How many flags may still be placed.
    pub flags_remaining: nat,
}

impl Session {
    /// The invariants of a session: those of its board; the flags on the
    /// board and the flags left make up the number of mines; nothing is
    /// open, and the game is not lost, before the first safe reveal; and no
    /// mine is open unless the game is lost.
    pub open spec fn wf(self) -> bool {
        &&& self.board.wf()
        &&& self.flags_remaining + self.board.flagged.len() == self.board.mines.len()
        &&& self.first_open_count <= self.board.open.len()
        &&& self.first_open_count == 0 ==> self.board.open == Set::<Position>::empty()
            && !self.board.lost
        &&& self.board.lost || self.board.open.disjoint(self.board.mines)
    }

    /// The game is over: lost or won.
    pub open spec fn over(self) -> bool {
        self.board.lost || self.board.won()
    }

    /// The session at its start, on a covered board.
    pub open spec fn started_on(board: Board) -> Session {
        Session { board, first_open_count: 0, flags_remaining: board.mines.len() }
    }

    /// The board covered again, with the given mines.
    pub open spec fn relaid(self, mines: Set<Position>) -> Board {
        Board {
            mines,
            open: Set::<Position>::empty(),
            flagged: Set::<Position>::empty(),
            lost: false,
            ..self.board
        }
    }

    /// What a request to open `p` comes to.
    pub open spec fn open_outcome(self, p: Position) -> OpenOutcome {
        if self.over() {
            OpenOutcome::GameOver
        } else if self.first_open_count == 0 && self.board.open_result(p) == OpenResult::Mine {
            OpenOutcome::FalseAlarm
        } else {
            OpenOutcome::Done(self.board.open_result(p))
        }
    }

    /// The session after a request to open `p`, where `fresh_mines` are the
    /// mines that are laid if the request is a false alarm.
    pub open spec fn after_open(self, p: Position, fresh_mines: Set<Position>) -> Session {
        match self.open_outcome(p) {
            OpenOutcome::GameOver => self,
            OpenOutcome::FalseAlarm => Session::started_on(self.relaid(fresh_mines)),
            OpenOutcome::Done(result) => Session {
                board: self.board.after_open(p),
                first_open_count: if result is NoMine {
                    self.first_open_count + 1
                } else {
                    self.first_open_count
                },
                ..self
            },
        }
    }

    /// What a request to toggle the flag on `p` comes to.
    pub open spec fn flag_outcome(self, p: Position) -> FlagOutcome {
        if self.over() {
            FlagOutcome::GameOver
        } else if self.flags_remaining == 0 && self.board.flag_result(p) == FlagResult::Placed {
            FlagOutcome::BudgetExhausted
        } else {
            FlagOutcome::Done(self.board.flag_result(p))
        }
    }

    /// The session after a request to toggle the flag on `p`.
    pub open spec fn after_toggle_flag(self, p: Position) -> Session {
        match self.flag_outcome(p) {
            FlagOutcome::Done(FlagResult::Placed) => Session {
                board: self.board.after_toggle_flag(p),
                flags_remaining: (self.flags_remaining - 1) as nat,
                ..self
            },
            FlagOutcome::Done(FlagResult::Removed) => Session {
                board: self.board.after_toggle_flag(p),
                flags_remaining: self.flags_remaining + 1,
                ..self
            },
            _ => self,
        }
    }

    /// The session after the loss has been shown: as it was if the game is
    /// not lost; else every cell open, and every flag back in the budget.
    pub open spec fn after_show_loss(self) -> Session {
        if self.board.lost {
            Session {
                board: self.board.after_show_loss(self.board.width, self.board.height),
                flags_remaining: self.board.mines.len(),
                ..self
            }
        } else {
            self
        }
    }
}

/// One game: a mine field, the count of safe reveals by which the first
/// reveal is told, and the flags that may still be placed.
pub struct GameSession {
    field: Minesweeper,
    first_open_count: usize,
    flags_remaining: usize,
}

impl View for GameSession {
    type V = Session;

    closed spec fn view(&self) -> Session {
        Session {
            board: self.field@,
            first_open_count: self.first_open_count as nat,
            flags_remaining: self.flags_remaining as nat,
        }
    }
}

impl GameSession {
    /// The invariant of the representation. It implies the invariants of
    /// the session that it stands for.
    pub closed spec fn wf(&self) -> bool {
        self.field.wf() && self@.wf()
    }

    /// A well-formed session stands for a well-formed one.
    pub proof fn lemma_wf_session(&self)
        requires
            self.wf(),
        ensures
            self@.wf(),
    {
    }

    /// Starts a game on a board of a given size, with mines drawn at
    /// random. The size is refused as [`Minesweeper::new`] refuses it.
    pub fn new(size: BoardSize) -> (r: Result<GameSession, InvalidConfiguration>)
        ensures
            match r {
                Ok(session) => {
                    &&& size_fault(size) is None
                    &&& session.wf()
                    &&& session@ == Session::started_on(session@.board)
                    &&& session@.board.width == size.0
                    &&& session@.board.height == size.1
                    &&& session@.board.mines.len() == size.2
                    &&& session@.board.fresh()
                },
                Err(fault) => size_fault(size) == Some(fault),
            },
    {
        match Minesweeper::new(size) {
            Ok(field) => Ok(GameSession::start(field)),
            Err(fault) => Err(fault),
        }
    }

    /// Starts a game on a board with the given mines. The board is refused
    /// as [`Minesweeper::with_mines`] refuses it.
    pub fn with_mines(width: usize, height: usize, mines: &Vec<Position>) -> (r: Result<
        GameSession,
        InvalidConfiguration,
    >)
        ensures
            match r {
                Ok(session) => {
                    &&& layout_fault(width, height, mines@) is None
                    &&& session.wf()
                    &&& session@ == Session::started_on(session@.board)
                    &&& session@.board.width == width
                    &&& session@.board.height == height
                    &&& session@.board.mines == mines@.to_set()
                    &&& session@.board.fresh()
                },
                Err(fault) => layout_fault(width, height, mines@) == Some(fault),
            },
    {
        match Minesweeper::with_mines(width, height, mines) {
            Ok(field) => Ok(GameSession::start(field)),
            Err(fault) => Err(fault),
        }
    }

    /// The session at its start, on a covered field.
    fn start(field: Minesweeper) -> (session: GameSession)
        requires
            field.wf(),
            field@.fresh(),
        ensures
            session.wf(),
            session@ == Session::started_on(field@),
    {
        proof {
            field.lemma_wf_board();
        }
        let flags_remaining: usize = field.mine_count();
        GameSession { field, first_open_count: 0, flags_remaining }
    }

    /// The mine field of the session.
    pub fn field(&self) -> (field: &Minesweeper)
        requires
            self.wf(),
        ensures
            field.wf(),
            field@ == self@.board,
    {
        &self.field
    }

    /// How many flags may still be placed.
    pub fn flags_remaining(&self) -> (r: usize)
        ensures
            r == self@.flags_remaining,
    {
        self.flags_remaining
    }

    /// How many safe cells have been revealed by request since the mines
    /// were last laid.
    pub fn first_open_count(&self) -> (r: usize)
        ensures
            r == self@.first_open_count,
    {
        self.first_open_count
    }

    /// Whether the game is lost.
    pub fn lost(&self) -> (r: bool)
        ensures
            r == self@.board.lost,
    {
        self.field.lose_state()
    }

    /// Whether the game is won.
    pub fn won(&self) -> (r: bool)
        requires
            self.wf(),
        ensures
            r == self@.board.won(),
    {
        self.field.win_check()
    }

    /// Whether the game is over: lost or won.
    pub fn over(&self) -> (r: bool)
        requires
            self.wf(),
        ensures
            r == self@.over(),
    {
        self.field.lose_state() || self.field.win_check()
    }

    /// Opens a cell for the player.
    ///
    /// Nothing happens once the game is over. If the first reveal of the
    /// game meets a mine, the game is not lost: the mines are laid anew, at
    /// random, the board is covered again, every flag returns to the
    /// budget, and the next reveal is again the first. Every other request
    /// is the field's, and a safe reveal is counted.
    pub fn open(&mut self, position: Position) -> (r: OpenOutcome)
        requires
            old(self).wf(),
        ensures
            final(self).wf(),
            r == old(self)@.open_outcome(position),
            final(self)@ == old(self)@.after_open(position, final(self)@.board.mines),
            final(self)@.board.mines.len() == old(self)@.board.mines.len(),
    {
        if self.over() {
            return OpenOutcome::GameOver;
        }
        let first = self.first_open_count == 0;
        let ghost before = self@;
        proof {
            lemma_counters_fit(before, position);
        }
        let result = self.field.open(position);
        let outcome = match result {
            OpenResult::Mine => {
                if first {
                    self.field.false_lost();
                    self.field.board_reset();
                    self.flags_remaining = self.field.mine_count();
                    OpenOutcome::FalseAlarm
                } else {
                    OpenOutcome::Done(result)
                }
            },
            OpenResult::NoMine(_) => {
                self.first_open_count = self.first_open_count + 1;
                OpenOutcome::Done(result)
            },
            _ => OpenOutcome::Done(result),
        };
        proof {
            self.field.lemma_wf_board();
            law_requests_keep_session_wf(before, position, self@.board.mines);
        }
        outcome
    }

    /// Opens a cell for the player, as [`GameSession::open`] does, but with
    /// the mines to lay on a false alarm given by the caller.
    ///
    /// The list is looked at before anything else, whether it is used or
    /// not. It is refused, and the session left as it is, if a listed cell
    /// lies outside the board or if the list does not hold as many
    /// different cells as the board has mines.
    pub fn open_with(&mut self, position: Position, fresh_mines: &Vec<Position>) -> (r: Result<
        OpenOutcome,
        InvalidConfiguration,
    >)
        requires
            old(self).wf(),
        ensures
            final(self).wf(),
            match r {
                Ok(outcome) => {
                    &&& relayout_fault(old(self)@.board, fresh_mines@) is None
                    &&& outcome == old(self)@.open_outcome(position)
                    &&& final(self)@ == old(self)@.after_open(position, fresh_mines@.to_set())
                },
                Err(fault) => {
                    &&& relayout_fault(old(self)@.board, fresh_mines@) == Some(fault)
                    &&& final(self)@ == old(self)@
                },
            },
    {
        match self.field.check_layout(fresh_mines) {
            Err(fault) => {
                return Err(fault);
            },
            Ok(_) => {},
        }
        if self.over() {
            return Ok(OpenOutcome::GameOver);
        }
        let first = self.first_open_count == 0;
        let ghost before = self@;
        proof {
            lemma_counters_fit(before, position);
        }
        let result = self.field.open(position);
        let outcome = match result {
            OpenResult::Mine => {
                if first {
                    self.field.false_lost();
                    let _ = self.field.board_reset_with(fresh_mines);
                    self.flags_remaining = self.field.mine_count();
                    OpenOutcome::FalseAlarm
                } else {
                    OpenOutcome::Done(result)
                }
            },
            OpenResult::NoMine(_) => {
                self.first_open_count = self.first_open_count + 1;
                OpenOutcome::Done(result)
            },
            _ => OpenOutcome::Done(result),
        };
        proof {
            self.field.lemma_wf_board();
            law_requests_keep_session_wf(before, position, self@.board.mines);
        }
        Ok(outcome)
    }

    /// Toggles a flag for the player.
    ///
    /// Nothing happens once the game is over. A flag is placed only while
    /// the budget lasts, and placing one takes it from the budget. A flag
    /// can always be taken off, and returns to the budget.
    pub fn toggle_flag(&mut self, position: Position) -> (r: FlagOutcome)
        requires
            old(self).wf(),
        ensures
            final(self).wf(),
            r == old(self)@.flag_outcome(position),
            final(self)@ == old(self)@.after_toggle_flag(position),
    {
        if self.over() {
            return FlagOutcome::GameOver;
        }
        proof {
            lemma_counters_fit(self@, position);
            law_requests_keep_session_wf(self@, position, self@.board.mines);
        }
        if self.flags_remaining == 0 && !self.field.is_flagged(position) {
            let open = self.field.is_open(position);
            let (width, height) = self.field.width_and_height();
            if open || position.0 >= width || position.1 >= height {
                return FlagOutcome::Done(FlagResult::NotApplicable);
            }
            return FlagOutcome::BudgetExhausted;
        }
        let result = self.field.toggle_flag(position);
        match result {
            FlagResult::Placed => {
                self.flags_remaining = self.flags_remaining - 1;
            },
            FlagResult::Removed => {
                self.flags_remaining = self.flags_remaining + 1;
            },
            FlagResult::NotApplicable => {},
        }
        FlagOutcome::Done(result)
    }

    /// Shows the loss: if the game is lost, lays every cell of the board
    /// open, and returns every flag to the budget. Nothing happens while
    /// the game is not lost.
    pub fn show_loss(&mut self)
        requires
            old(self).wf(),
        ensures
            final(self).wf(),
            final(self)@ == old(self)@.after_show_loss(),
    {
        if !self.field.lose_state() {
            return ;
        }
        proof {
            law_requests_keep_session_wf(self@, (0, 0), self@.board.mines);
        }
        let (width, height) = self.field.width_and_height();
        self.field.show_loss(width, height);
        self.flags_remaining = self.field.mine_count();
    }
}

/// Each request keeps the invariants of the session, whatever mines are
/// laid on a false alarm, as long as they lie on the board and are as many
/// as before.
pub proof fn law_requests_keep_session_wf(s: Session, p: Position, fresh_mines: Set<Position>)
    requires
        s.wf(),
        fresh_mines.finite(),
        fresh_mines.subset_of(s.board.cells()),
        fresh_mines.len() == s.board.mines.len(),
    ensures
        s.after_open(p, fresh_mines).wf(),
        s.after_toggle_flag(p).wf(),
        s.after_show_loss().wf(),
{
    let b = s.board;
    law_actions_keep_board_wf(b, p);
    law_open_mines_only_by_loss(b, p);
    law_show_loss_opens_all(b);
    lemma_counters_fit(s, p);
    vstd::set_lib::lemma_len_subset(b.open, b.after_open(p).open);
    if s.open_outcome(p) is Done && s.first_open_count == 0 {
        assert(!b.open.contains(p));
    }
    if b.lost {
        vstd::set_lib::lemma_len_subset(b.open, b.after_show_loss(b.width, b.height).open);
    }
}

/// The counters of a session can take the step that a request asks of
/// them: a safe reveal opens a cell that was not counted, and a flag that
/// is taken off was not in the budget.
proof fn lemma_counters_fit(s: Session, p: Position)
    requires
        s.wf(),
    ensures
        s.board.after_open(p).open.len() <= usize::MAX,
        s.board.mines.len() <= usize::MAX,
        s.board.open_result(p) is NoMine ==> s.first_open_count < s.board.after_open(p).open.len(),
        s.board.flag_result(p) == FlagResult::Removed ==> s.flags_remaining < s.board.mines.len(),
{
    let b = s.board;
    let after = b.after_open(p);
    law_actions_keep_board_wf(b, p);
    lemma_all_cells_len(b.width, b.height);
    vstd::set_lib::lemma_len_subset(b.mines, b.cells());
    vstd::set_lib::lemma_len_subset(after.open, b.cells());
    if b.open_result(p) is NoMine {
        lemma_floods_to_self(b, p);
        vstd::set_lib::lemma_len_subset(b.open.insert(p), after.open);
    }
}

} // verus!
