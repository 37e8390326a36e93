use tictactoe::board::{Board, CompletionReason, MoveError};

#[test]
fn new_board_is_empty_and_in_progress() {
    let b = Board::new(4);
    assert_eq!(b.name, 4);
    assert_eq!(b.positions, vec![0u8; 9]);
    assert_eq!(b.completion_reason, CompletionReason::NotCompleted);
    assert!(b.first_move);
    assert_eq!(b.winning_line, None);
}

#[test]
fn update_pos_marks_chosen_cell() {
    let mut b = Board::new(1);
    let r = b.update_pos(1, 0);
    assert_eq!(r, Ok(()));
    assert_eq!(b.positions[0], 1);
    assert!(!b.first_move);
    let r = b.update_pos(5, 1);
    assert_eq!(r, Ok(()));
    assert_eq!(b.positions[4], 2);
}

#[test]
fn update_pos_rejects_occupied_cell() {
    let mut b = Board::new(1);
    let _ = b.update_pos(3, 0);
    let r = b.update_pos(3, 1);
    assert_eq!(r, Err(MoveError::IllegalMove));
    assert_eq!(b.positions[2], 1);
}

#[test]
fn update_pos_rejects_out_of_range_cell() {
    let mut b = Board::new(1);
    let r = b.update_pos(10, 0);
    assert_eq!(r, Err(MoveError::IllegalMove));
    assert_eq!(b.positions, vec![0u8; 9]);
}

#[test]
fn update_pos_auto_fails_on_full_board() {
    let mut b = Board::new(1);
    for cell in 1..=9u8 {
        let _ = b.update_pos(cell, (cell % 2) as u8);
    }
    let r = b.update_pos(0, 0);
    assert_eq!(r, Err(MoveError::NoEmptyCells));
}

#[test]
fn update_pos_auto_picks_an_empty_cell() {
    let mut b = Board::new(1);
    for cell in 1..=8u8 {
        let _ = b.update_pos(cell, (cell % 2) as u8);
    }
    // only cell 9 (index 8) is left, so the random move must land there
    let r = b.update_pos(0, 0);
    assert_eq!(r, Ok(()));
    assert_eq!(b.positions[8], 1);
}

#[test]
fn gen_rand_pos_returns_the_only_empty_cell() {
    let mut b = Board::new(1);
    for cell in 1..=9u8 {
        if cell != 6 {
            let _ = b.update_pos(cell, (cell % 2) as u8);
        }
    }
    assert_eq!(b.gen_rand_pos(), 5);
}

#[test]
fn check_completed_detects_row_win() {
    let mut b = Board::new(1);
    let _ = b.update_pos(1, 0);
    let _ = b.update_pos(4, 1);
    let _ = b.update_pos(2, 0);
    let _ = b.update_pos(5, 1);
    let _ = b.update_pos(3, 0);
    let done = b.check_completed(0);
    assert!(done);
    assert_eq!(b.completion_reason, CompletionReason::WonBy(0));
    assert_eq!(b.winning_line, Some((0, 1, 2)));
}

#[test]
fn check_completed_detects_diagonal_win() {
    let mut b = Board::new(1);
    let _ = b.update_pos(1, 1);
    let _ = b.update_pos(2, 0);
    let _ = b.update_pos(5, 1);
    let _ = b.update_pos(3, 0);
    let _ = b.update_pos(9, 1);
    let done = b.check_completed(1);
    assert!(done);
    assert_eq!(b.completion_reason, CompletionReason::WonBy(1));
    assert_eq!(b.winning_line, Some((0, 4, 8)));
}

#[test]
fn check_completed_reports_tie_on_full_board() {
    // 1 2 1 / 1 2 2 / 2 1 1 : full, no three-in-a-row for either mark
    let mut b = Board::new(1);
    let _ = b.update_pos(1, 0);
    let _ = b.update_pos(2, 1);
    let _ = b.update_pos(3, 0);
    let _ = b.update_pos(4, 0);
    let _ = b.update_pos(5, 1);
    let _ = b.update_pos(6, 1);
    let _ = b.update_pos(7, 1);
    let _ = b.update_pos(8, 0);
    let _ = b.update_pos(9, 0);
    let done = b.check_completed(0);
    assert!(done);
    assert_eq!(b.completion_reason, CompletionReason::Tied);
    assert_eq!(b.winning_line, None);
}

#[test]
fn check_completed_prefers_win_over_tie() {
    // the ninth move fills the board and completes column 3-6-9 at once
    let mut b = Board::new(1);
    let _ = b.update_pos(1, 0);
    let _ = b.update_pos(2, 1);
    let _ = b.update_pos(3, 0);
    let _ = b.update_pos(4, 0);
    let _ = b.update_pos(5, 1);
    let _ = b.update_pos(6, 0);
    let _ = b.update_pos(7, 1);
    let _ = b.update_pos(8, 0);
    let _ = b.update_pos(9, 0);
    let done = b.check_completed(0);
    assert!(done);
    assert_eq!(b.completion_reason, CompletionReason::WonBy(0));
    assert_eq!(b.winning_line, Some((2, 5, 8)));
}

#[test]
fn check_completed_is_idempotent_once_terminal() {
    let mut b = Board::new(1);
    let _ = b.update_pos(1, 0);
    let _ = b.update_pos(2, 0);
    let _ = b.update_pos(3, 0);
    let _ = b.check_completed(0);
    let before = (
        b.completion_reason,
        b.winning_line,
        b.positions.clone(),
        b.first_move,
    );
    let done = b.check_completed(0);
    assert!(done);
    assert_eq!(b.completion_reason, before.0);
    assert_eq!(b.winning_line, before.1);
    assert_eq!(b.positions, before.2);
    assert_eq!(b.first_move, before.3);
    // a check run by the other player changes nothing either
    let done = b.check_completed(1);
    assert!(done);
    assert_eq!(b.completion_reason, before.0);
    assert_eq!(b.winning_line, before.1);
}

#[test]
fn check_completed_leaves_open_board_alone() {
    let mut b = Board::new(1);
    let _ = b.update_pos(1, 0);
    let done = b.check_completed(0);
    assert!(!done);
    assert_eq!(b.completion_reason, CompletionReason::NotCompleted);
}

#[test]
fn update_cmpd_records_forfeit() {
    let mut b = Board::new(1);
    let _ = b.update_pos(1, 0);
    b.update_cmpd(CompletionReason::ForfeitedBy(1));
    assert_eq!(b.completion_reason, CompletionReason::ForfeitedBy(1));
}

#[test]
fn check_equal_reads_cells() {
    let mut b = Board::new(1);
    let _ = b.update_pos(2, 1);
    assert!(b.check_equal(1, 2));
    assert!(b.check_equal(0, 0));
    assert!(!b.check_equal(1, 0));
}

#[test]
fn check_first_move_tracks_cells() {
    let mut b = Board::new(1);
    b.check_first_move();
    assert!(b.first_move);
    let _ = b.update_pos(5, 0);
    b.check_first_move();
    assert!(!b.first_move);
}

#[test]
fn board_text_renders_grid() {
    let b = Board::new(3);
    assert_eq!(
        b.board_text(),
        "-=- Displaying Board 3 -=-\n           -|-|-\n           -|-|-\n           -|-|-"
    );
    let mut b = Board::new(12);
    let _ = b.update_pos(1, 0);
    let _ = b.update_pos(5, 1);
    assert_eq!(
        b.board_text(),
        "-=- Displaying Board 12 -=-\n           O|-|-\n           -|X|-\n           -|-|-"
    );
}
