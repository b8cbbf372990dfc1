use minesweeper::{
    FlagOutcome, FlagResult, GameSession, InvalidConfiguration, OpenOutcome, OpenResult, Position,
    Preset,
};

fn session(width: usize, height: usize, mines: &[Position]) -> GameSession {
    GameSession::with_mines(width, height, &mines.to_vec()).unwrap()
}

fn count_open(session: &GameSession) -> usize {
    let (width, height) = session.field().width_and_height();
    let mut n = 0;
    for y in 0..height {
        for x in 0..width {
            if session.field().is_open((x, y)) {
                n += 1;
            }
        }
    }
    n
}

fn count_flagged(session: &GameSession) -> usize {
    let (width, height) = session.field().width_and_height();
    let mut n = 0;
    for y in 0..height {
        for x in 0..width {
            if session.field().is_flagged((x, y)) {
                n += 1;
            }
        }
    }
    n
}

#[test]
fn a_session_starts_with_a_flag_for_each_mine() {
    let s = session(3, 3, &[(0, 0), (1, 1)]);
    assert_eq!(s.flags_remaining(), 2);
    assert_eq!(s.first_open_count(), 0);
    assert!(!s.lost());
    assert!(!s.won());
    assert!(!s.over());
    let t = GameSession::new((9, 9, 10)).unwrap();
    assert_eq!(t.flags_remaining(), 10);
    assert_eq!(t.field().mine_count(), 10);
    assert_eq!(t.first_open_count(), 0);
}

#[test]
fn a_session_refuses_bad_sizes() {
    assert_eq!(GameSession::new((0, 1, 0)).err(), Some(InvalidConfiguration::EmptyGrid));
    assert_eq!(GameSession::new((2, 2, 5)).err(), Some(InvalidConfiguration::TooManyMines));
    assert_eq!(
        GameSession::with_mines(2, 2, &vec![(5, 5)]).err(),
        Some(InvalidConfiguration::MineOutOfBounds)
    );
}

#[test]
fn first_reveal_on_a_mine_is_a_false_alarm() {
    let mut s = session(2, 2, &[(0, 0)]);
    assert_eq!(s.toggle_flag((1, 0)), FlagOutcome::Done(FlagResult::Placed));
    assert_eq!(s.flags_remaining(), 0);
    assert_eq!(s.open_with((0, 0), &vec![(1, 1)]), Ok(OpenOutcome::FalseAlarm));
    assert!(!s.lost());
    assert!(!s.over());
    assert_eq!(count_open(&s), 0);
    assert_eq!(count_flagged(&s), 0);
    assert_eq!(s.first_open_count(), 0);
    assert_eq!(s.flags_remaining(), 1);
    assert!(s.field().is_mine((1, 1)));
    assert!(!s.field().is_mine((0, 0)));
    assert_eq!(s.field().mine_count(), 1);
    assert_eq!(
        s.open_with((0, 0), &vec![(1, 0)]),
        Ok(OpenOutcome::Done(OpenResult::NoMine(1)))
    );
    assert_eq!(s.first_open_count(), 1);
    assert!(s.field().is_open((0, 0)));
    assert!(s.field().is_mine((1, 1)));
}

#[test]
fn a_false_alarm_can_repeat() {
    let mut s = session(2, 2, &[(0, 0)]);
    assert_eq!(s.open_with((0, 0), &vec![(0, 0)]), Ok(OpenOutcome::FalseAlarm));
    assert_eq!(s.open_with((0, 0), &vec![(0, 0)]), Ok(OpenOutcome::FalseAlarm));
    assert!(!s.lost());
    assert_eq!(s.first_open_count(), 0);
    assert_eq!(s.open_with((0, 0), &vec![(1, 0)]), Ok(OpenOutcome::FalseAlarm));
    assert_eq!(
        s.open_with((0, 0), &vec![(1, 1)]),
        Ok(OpenOutcome::Done(OpenResult::NoMine(1)))
    );
    assert!(s.field().is_mine((1, 0)));
}

#[test]
fn first_reveal_with_random_mines_is_never_fatal() {
    for _ in 0..50 {
        let mut s = GameSession::new((2, 1, 1)).unwrap();
        let mut alarms = 0;
        loop {
            match s.open((0, 0)) {
                OpenOutcome::FalseAlarm => {
                    assert!(!s.lost());
                    assert_eq!(count_open(&s), 0);
                    assert_eq!(s.first_open_count(), 0);
                    assert_eq!(s.field().mine_count(), 1);
                    assert_eq!(s.flags_remaining(), 1);
                    alarms += 1;
                    assert!(alarms < 1000);
                }
                outcome => {
                    assert_eq!(outcome, OpenOutcome::Done(OpenResult::NoMine(1)));
                    break;
                }
            }
        }
        assert!(!s.lost());
        assert!(s.field().is_mine((1, 0)));
        assert_eq!(s.first_open_count(), 1);
    }
}

#[test]
fn a_mine_after_the_first_reveal_is_a_loss() {
    let mut s = session(3, 1, &[(2, 0)]);
    assert_eq!(s.open((0, 0)), OpenOutcome::Done(OpenResult::NoMine(0)));
    assert_eq!(s.first_open_count(), 1);
    assert_eq!(s.open_with((2, 0), &vec![(0, 0)]), Ok(OpenOutcome::Done(OpenResult::Mine)));
    assert!(s.lost());
    assert!(s.over());
    assert!(s.field().is_mine((2, 0)));
    assert_eq!(s.first_open_count(), 1);
}

#[test]
fn a_mine_after_the_first_reveal_is_a_loss_with_random_mines() {
    let mut s = session(3, 1, &[(2, 0)]);
    assert_eq!(s.open((0, 0)), OpenOutcome::Done(OpenResult::NoMine(0)));
    assert_eq!(s.open((2, 0)), OpenOutcome::Done(OpenResult::Mine));
    assert!(s.lost());
}

#[test]
fn safe_reveals_are_counted() {
    let mut s = session(4, 1, &[(1, 0)]);
    assert_eq!(s.open((0, 0)), OpenOutcome::Done(OpenResult::NoMine(1)));
    assert_eq!(s.first_open_count(), 1);
    assert_eq!(s.open((0, 0)), OpenOutcome::Done(OpenResult::AlreadyOpen));
    assert_eq!(s.first_open_count(), 1);
    assert_eq!(s.open((9, 9)), OpenOutcome::Done(OpenResult::Rejected));
    assert_eq!(s.first_open_count(), 1);
    assert_eq!(s.open((3, 0)), OpenOutcome::Done(OpenResult::NoMine(0)));
    assert_eq!(s.first_open_count(), 2);
    assert_eq!(count_open(&s), 3);
}

#[test]
fn a_rejected_first_request_leaves_the_next_one_first() {
    let mut s = session(2, 2, &[(0, 0)]);
    assert_eq!(s.toggle_flag((0, 0)), FlagOutcome::Done(FlagResult::Placed));
    assert_eq!(s.open_with((0, 0), &vec![(1, 1)]), Ok(OpenOutcome::Done(OpenResult::Rejected)));
    assert_eq!(s.open_with((5, 0), &vec![(1, 1)]), Ok(OpenOutcome::Done(OpenResult::Rejected)));
    assert!(s.field().is_mine((0, 0)));
    assert_eq!(s.toggle_flag((0, 0)), FlagOutcome::Done(FlagResult::Removed));
    assert_eq!(s.open_with((0, 0), &vec![(1, 1)]), Ok(OpenOutcome::FalseAlarm));
    assert!(s.field().is_mine((1, 1)));
}

#[test]
fn open_with_refuses_a_bad_list_before_anything_else() {
    let mut s = session(2, 2, &[(0, 0)]);
    assert_eq!(
        s.open_with((1, 1), &vec![(2, 2)]),
        Err(InvalidConfiguration::MineOutOfBounds)
    );
    assert_eq!(
        s.open_with((1, 1), &vec![]),
        Err(InvalidConfiguration::MineCountMismatch)
    );
    assert_eq!(
        s.open_with((1, 1), &vec![(0, 1), (1, 0)]),
        Err(InvalidConfiguration::MineCountMismatch)
    );
    assert_eq!(count_open(&s), 0);
    assert_eq!(s.first_open_count(), 0);
    assert!(s.field().is_mine((0, 0)));
}

#[test]
fn the_flag_budget_runs_out() {
    let mut s = session(3, 3, &[(0, 0), (2, 2)]);
    assert_eq!(s.flags_remaining(), 2);
    assert_eq!(s.toggle_flag((0, 0)), FlagOutcome::Done(FlagResult::Placed));
    assert_eq!(s.flags_remaining(), 1);
    assert_eq!(s.toggle_flag((1, 1)), FlagOutcome::Done(FlagResult::Placed));
    assert_eq!(s.flags_remaining(), 0);
    assert_eq!(s.toggle_flag((2, 2)), FlagOutcome::BudgetExhausted);
    assert!(!s.field().is_flagged((2, 2)));
    assert_eq!(s.flags_remaining(), 0);
    assert_eq!(count_flagged(&s), 2);
    assert_eq!(s.toggle_flag((1, 1)), FlagOutcome::Done(FlagResult::Removed));
    assert!(!s.field().is_flagged((1, 1)));
    assert_eq!(s.flags_remaining(), 1);
    assert_eq!(s.toggle_flag((2, 2)), FlagOutcome::Done(FlagResult::Placed));
    assert_eq!(s.flags_remaining(), 0);
}

#[test]
fn a_budget_of_one_flag() {
    let mut s = session(2, 2, &[(1, 1)]);
    assert_eq!(s.flags_remaining(), 1);
    assert_eq!(s.toggle_flag((0, 0)), FlagOutcome::Done(FlagResult::Placed));
    assert_eq!(s.flags_remaining(), 0);
    assert_eq!(s.toggle_flag((1, 1)), FlagOutcome::BudgetExhausted);
    assert_eq!(s.toggle_flag((0, 0)), FlagOutcome::Done(FlagResult::Removed));
    assert_eq!(s.flags_remaining(), 1);
}

#[test]
fn a_board_without_mines_has_no_flag_to_place() {
    let mut s = session(2, 2, &[]);
    assert_eq!(s.flags_remaining(), 0);
    assert_eq!(s.toggle_flag((0, 0)), FlagOutcome::BudgetExhausted);
    assert_eq!(count_flagged(&s), 0);
}

#[test]
fn flagging_an_open_cell_leaves_the_budget() {
    let mut s = session(3, 1, &[(1, 0)]);
    assert_eq!(s.open((0, 0)), OpenOutcome::Done(OpenResult::NoMine(1)));
    assert_eq!(s.toggle_flag((0, 0)), FlagOutcome::Done(FlagResult::NotApplicable));
    assert_eq!(s.toggle_flag((7, 7)), FlagOutcome::Done(FlagResult::NotApplicable));
    assert_eq!(s.flags_remaining(), 1);
    assert_eq!(s.toggle_flag((2, 0)), FlagOutcome::Done(FlagResult::Placed));
    assert_eq!(s.flags_remaining(), 0);
    assert_eq!(s.toggle_flag((0, 0)), FlagOutcome::Done(FlagResult::NotApplicable));
    assert_eq!(s.toggle_flag((7, 7)), FlagOutcome::Done(FlagResult::NotApplicable));
    assert_eq!(s.flags_remaining(), 0);
}

#[test]
fn a_won_game_is_over() {
    let mut s = session(2, 2, &[(1, 1)]);
    assert_eq!(s.open((0, 0)), OpenOutcome::Done(OpenResult::NoMine(1)));
    assert_eq!(s.open((1, 0)), OpenOutcome::Done(OpenResult::NoMine(1)));
    assert_eq!(s.open((0, 1)), OpenOutcome::Done(OpenResult::NoMine(1)));
    assert!(!s.won());
    assert_eq!(s.toggle_flag((1, 1)), FlagOutcome::Done(FlagResult::Placed));
    assert!(s.won());
    assert!(s.over());
    assert!(!s.lost());
    assert_eq!(s.toggle_flag((1, 1)), FlagOutcome::GameOver);
    assert_eq!(s.open((0, 0)), OpenOutcome::GameOver);
    assert_eq!(s.open_with((0, 0), &vec![(0, 0)]), Ok(OpenOutcome::GameOver));
    assert!(s.field().is_flagged((1, 1)));
    assert!(s.won());
    assert_eq!(s.first_open_count(), 3);
}

#[test]
fn a_lost_game_is_over() {
    let mut s = session(3, 1, &[(2, 0)]);
    s.open((0, 0));
    assert_eq!(s.open((2, 0)), OpenOutcome::Done(OpenResult::Mine));
    assert_eq!(s.open((1, 0)), OpenOutcome::GameOver);
    assert_eq!(s.toggle_flag((1, 0)), FlagOutcome::GameOver);
    assert_eq!(count_open(&s), 3);
    assert_eq!(count_flagged(&s), 0);
}

#[test]
fn a_chord_on_a_wrong_flag_loses_the_game() {
    let mut s = session(3, 3, &[(0, 1)]);
    assert_eq!(s.open((0, 0)), OpenOutcome::Done(OpenResult::NoMine(1)));
    assert_eq!(s.toggle_flag((1, 0)), FlagOutcome::Done(FlagResult::Placed));
    assert_eq!(s.open((0, 0)), OpenOutcome::Done(OpenResult::AlreadyOpen));
    assert!(s.lost());
    assert_eq!(s.first_open_count(), 1);
}

#[test]
fn show_loss_shows_a_lost_game_only() {
    let mut s = session(3, 3, &[(0, 0), (2, 2)]);
    s.toggle_flag((0, 0));
    s.toggle_flag((1, 0));
    s.open((1, 1));
    s.show_loss();
    assert_eq!(count_open(&s), 1);
    assert_eq!(count_flagged(&s), 2);
    assert_eq!(s.flags_remaining(), 0);
    assert_eq!(s.open((2, 2)), OpenOutcome::Done(OpenResult::Mine));
    s.show_loss();
    assert_eq!(count_open(&s), 9);
    assert_eq!(count_flagged(&s), 0);
    assert_eq!(s.flags_remaining(), 2);
    assert!(s.lost());
    s.show_loss();
    assert_eq!(count_open(&s), 9);
}

#[test]
fn flags_on_the_board_and_in_the_budget_add_up() {
    let mut s = session(4, 4, &[(0, 0), (1, 1), (3, 3)]);
    let moves = [(0, 0), (2, 2), (0, 0), (3, 3), (1, 1), (0, 3), (2, 2), (0, 3)];
    for &cell in &moves {
        s.toggle_flag(cell);
        assert_eq!(s.flags_remaining() + count_flagged(&s), 3);
    }
}

#[test]
fn presets_are_the_three_usual_boards() {
    assert_eq!(Preset::Small.board_size(), (9, 9, 10));
    assert_eq!(Preset::Medium.board_size(), (16, 16, 40));
    assert_eq!(Preset::Large.board_size(), (30, 16, 99));
    for preset in [Preset::Small, Preset::Medium, Preset::Large] {
        let (width, height, mine_count) = preset.board_size();
        let s = GameSession::new(preset.board_size()).unwrap();
        assert_eq!(s.field().width_and_height(), (width, height));
        assert_eq!(s.field().mine_count(), mine_count);
    }
}
