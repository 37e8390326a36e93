use tictactoe::board::CompletionReason;
use tictactoe::game::{classify_key, is_affirmative, Game, TurnInput, TurnOutcome};
use tictactoe::player::WonPlayer;

#[test]
fn new_game_defaults() {
    let g = Game::new();
    assert_eq!(g.vec_board.len(), 0);
    assert_eq!(g.vec_board_iter.len(), 0);
    assert_eq!(g.players.len(), 2);
    assert_eq!(g.players[0].name, "Player 1");
    assert_eq!(g.players[1].name, "Player 2");
    assert_eq!(g.players[0].points, 0);
    assert_eq!(g.players[1].points, 0);
    assert_eq!(g.winner, WonPlayer::Neither);
    assert_eq!(g.timeout_duration_len, 999999);
    assert!(!g.finished);
    assert!(!g.quitted);
    assert_eq!(g.end_msg, "");
    assert_eq!(g.board_num, 1);
}

#[test]
fn board_count_zero_normalizes_to_one() {
    let mut g = Game::new();
    g.input_board_num(0);
    assert_eq!(g.board_num, 1);
    g.board_gen();
    assert_eq!(g.vec_board.len(), 1);
    assert_eq!(g.vec_board_iter.len(), 1);
}

#[test]
fn board_count_is_kept_when_positive() {
    let mut g = Game::new();
    g.input_board_num(3);
    assert_eq!(g.board_num, 3);
    g.board_gen();
    assert_eq!(g.vec_board.len(), 3);
    assert_eq!(g.vec_board[0].name, 1);
    assert_eq!(g.vec_board[1].name, 2);
    assert_eq!(g.vec_board[2].name, 3);
    assert_eq!(g.vec_board_iter, vec![0u16, 1, 2]);
}

#[test]
fn timeout_zero_normalizes_to_infinite_sentinel() {
    let mut g = Game::new();
    g.set_timeout_duration_len(0);
    assert_eq!(g.timeout_duration_len, 999999);
    g.set_timeout_duration_len(30);
    assert_eq!(g.timeout_duration_len, 30);
}

#[test]
fn check_game_winner_compares_scores() {
    let mut g = Game::new();
    g.players[0].add_point();
    g.check_game_winner();
    assert_eq!(g.winner, WonPlayer::Circle);

    let mut g = Game::new();
    g.players[1].add_point();
    g.check_game_winner();
    assert_eq!(g.winner, WonPlayer::Crosses);

    let mut g = Game::new();
    g.check_game_winner();
    assert_eq!(g.winner, WonPlayer::Neither);
}

#[test]
fn end_msg_for_each_outcome() {
    let mut g = Game::new();
    g.players[0].add_point();
    g.check_game_winner();
    g.end_msg_gen();
    assert_eq!(
        g.end_msg,
        "Player 1 has won with 1 points, compared to Player 2's 0 points"
    );

    let mut g = Game::new();
    g.players[1].add_point();
    g.players[1].add_point();
    g.check_game_winner();
    g.end_msg_gen();
    assert_eq!(
        g.end_msg,
        "Player 2 has won with 2 points, compared to Player 1's 0 points"
    );

    let mut g = Game::new();
    g.check_game_winner();
    g.end_msg_gen();
    assert_eq!(g.end_msg, "The game ended in a tie of 0 points");
}

#[test]
fn score_board_lists_every_board() {
    let mut g = Game::new();
    g.input_board_num(2);
    g.board_gen();
    g.forfeit(0, 1);
    assert_eq!(
        g.score_board(),
        "-=-=- Leaderboard -=-=-\nBoard 1: Forfeited by Player 2\nBoard 2: Not Completed\n"
    );
}

#[test]
fn forfeit_retires_the_board_from_the_active_list() {
    let mut g = Game::new();
    g.input_board_num(2);
    g.board_gen();
    g.forfeit(0, 1);
    assert_eq!(
        g.vec_board[0].completion_reason,
        CompletionReason::ForfeitedBy(1)
    );
    assert_eq!(g.vec_board_iter, vec![1u16]);
    assert_eq!(g.players[0].points, 0);
    assert_eq!(g.players[1].points, 0);
    assert_eq!(
        g.vec_board[1].completion_reason,
        CompletionReason::NotCompleted
    );
}

#[test]
fn classify_key_maps_all_keys() {
    assert_eq!(classify_key('1'), TurnInput::Cell(1));
    assert_eq!(classify_key('5'), TurnInput::Cell(5));
    assert_eq!(classify_key('9'), TurnInput::Cell(9));
    assert_eq!(classify_key('f'), TurnInput::Forfeit);
    assert_eq!(classify_key('q'), TurnInput::Quit);
    assert_eq!(classify_key('0'), TurnInput::Auto);
    assert_eq!(classify_key('x'), TurnInput::Auto);
}

#[test]
fn affirmative_responses() {
    assert!(is_affirmative("y"));
    assert!(is_affirmative("Y"));
    assert!(is_affirmative("yes"));
    assert!(is_affirmative("YES"));
    assert!(is_affirmative("yEs"));
    assert!(!is_affirmative("no"));
    assert!(!is_affirmative(""));
    assert!(!is_affirmative("yess"));
    assert!(!is_affirmative("n"));
}

#[test]
fn winning_scenario_on_one_board() {
    // one board; player 0 holds cells 1 and 2, player 1 holds 4 and 5;
    // player 0's turn marks cell 3 and wins the match
    let mut g = Game::new();
    g.input_board_num(1);
    g.board_gen();
    let _ = g.vec_board[0].update_pos(1, 0);
    let _ = g.vec_board[0].update_pos(4, 1);
    let _ = g.vec_board[0].update_pos(2, 0);
    let _ = g.vec_board[0].update_pos(5, 1);
    let oc = g.take_turn(0, 0, TurnInput::Cell(3));
    assert_eq!(oc, TurnOutcome::BoardDone);
    assert_eq!(g.vec_board[0].completion_reason, CompletionReason::WonBy(0));
    assert_eq!(g.players[0].points, 1);
    assert_eq!(g.players[1].points, 0);
    assert_eq!(g.vec_board_iter.len(), 0);
    g.check_game_finished();
    assert!(g.finished);
    g.check_game_winner();
    assert_eq!(g.winner, WonPlayer::Circle);
    g.end_msg_gen();
    assert_eq!(
        g.end_msg,
        "Player 1 has won with 1 points, compared to Player 2's 0 points"
    );
}

#[test]
fn forfeit_scenario_leaves_other_board_alone() {
    // two boards; player 1 forfeits board A before anything else completes
    let mut g = Game::new();
    g.input_board_num(2);
    g.board_gen();
    let _ = g.vec_board[0].update_pos(1, 0);
    let oc = g.take_turn(0, 1, TurnInput::Forfeit);
    assert_eq!(oc, TurnOutcome::BoardDone);
    assert_eq!(
        g.vec_board[0].completion_reason,
        CompletionReason::ForfeitedBy(1)
    );
    assert_eq!(g.vec_board_iter, vec![1u16]);
    assert_eq!(g.players[0].points, 0);
    assert_eq!(g.players[1].points, 0);
    // board B is untouched and still playable
    assert_eq!(
        g.vec_board[1].completion_reason,
        CompletionReason::NotCompleted
    );
    assert_eq!(g.vec_board[1].positions, vec![0u8; 9]);
    let oc = g.take_turn(0, 0, TurnInput::Auto);
    assert_eq!(oc, TurnOutcome::Continue);
}

#[test]
fn quit_scenario_stops_everything() {
    // quit received mid-turn: straight to terminated, no score changes
    let mut g = Game::new();
    g.input_board_num(2);
    g.board_gen();
    let _ = g.vec_board[0].update_pos(1, 0);
    let oc = g.take_turn(0, 0, TurnInput::Quit);
    assert_eq!(oc, TurnOutcome::Quit);
    assert!(g.finished);
    assert!(g.quitted);
    assert_eq!(g.players[0].points, 0);
    assert_eq!(g.players[1].points, 0);
    assert_eq!(
        g.vec_board[0].completion_reason,
        CompletionReason::NotCompleted
    );
    assert_eq!(g.vec_board_iter, vec![0u16, 1]);
}

#[test]
fn game_loop_quit_script() {
    // the board's first move is forced, so the quit is read on the second turn
    let mut g = Game::new();
    g.input_board_num(1);
    g.board_gen();
    let used = g.game_loop(vec![TurnInput::Quit]);
    assert_eq!(used, 1);
    assert!(g.finished);
    assert!(g.quitted);
    assert_eq!(g.players[0].points, 0);
    assert_eq!(g.players[1].points, 0);
}

#[test]
fn game_loop_plays_single_board_to_completion() {
    let mut g = Game::new();
    g.input_board_num(1);
    g.board_gen();
    let used = g.game_loop(vec![TurnInput::Auto; 20]);
    assert!(used < 20);
    assert!(g.finished);
    assert!(!g.quitted);
    assert_eq!(g.vec_board_iter.len(), 0);
    assert_ne!(
        g.vec_board[0].completion_reason,
        CompletionReason::NotCompleted
    );
    assert!(g.players[0].points + g.players[1].points <= 1);
}

#[test]
fn game_loop_forfeit_script_ends_both_boards() {
    let mut g = Game::new();
    g.input_board_num(2);
    g.board_gen();
    let used = g.game_loop(vec![TurnInput::Forfeit, TurnInput::Forfeit]);
    assert_eq!(used, 2);
    assert!(g.finished);
    assert!(!g.quitted);
    assert_eq!(
        g.vec_board[0].completion_reason,
        CompletionReason::ForfeitedBy(1)
    );
    assert_eq!(
        g.vec_board[1].completion_reason,
        CompletionReason::ForfeitedBy(1)
    );
    assert_eq!(g.players[0].points, 0);
    assert_eq!(g.players[1].points, 0);
}

#[test]
fn game_continue_yes_adds_one_board() {
    let mut g = Game::new();
    g.input_board_num(1);
    g.board_gen();
    g.vec_board[0].update_cmpd(CompletionReason::Tied);
    g.update_bvi(0);
    g.game_continue("yes");
    assert!(!g.finished);
    assert_eq!(g.vec_board.len(), 2);
    assert_eq!(g.vec_board[1].name, 2);
    assert_eq!(
        g.vec_board[1].completion_reason,
        CompletionReason::NotCompleted
    );
    assert_eq!(g.vec_board_iter, vec![1u16]);
}

#[test]
fn game_continue_no_terminates() {
    let mut g = Game::new();
    g.input_board_num(1);
    g.board_gen();
    g.vec_board[0].update_cmpd(CompletionReason::Tied);
    g.update_bvi(0);
    g.game_continue("nah");
    assert!(g.finished);
    assert_eq!(g.vec_board.len(), 1);
}

#[test]
fn update_bvi_removes_the_given_entry() {
    let mut g = Game::new();
    g.input_board_num(3);
    g.board_gen();
    g.update_bvi(1);
    assert_eq!(g.vec_board_iter, vec![0u16, 2]);
    g.update_bvi(0);
    assert_eq!(g.vec_board_iter, vec![2u16]);
    g.update_bvi(0);
    assert_eq!(g.vec_board_iter, Vec::<u16>::new());
}

#[test]
fn forced_first_move_ignores_the_input() {
    let mut g = Game::new();
    g.input_board_num(1);
    g.board_gen();
    // even a quit is not seen while the board awaits its forced first move
    let oc = g.take_turn(0, 0, TurnInput::Quit);
    assert_eq!(oc, TurnOutcome::Continue);
    assert!(!g.finished);
    assert!(!g.quitted);
    let marks: u8 = g.vec_board[0].positions.iter().filter(|&&c| c != 0).count() as u8;
    assert_eq!(marks, 1);
}

#[test]
fn occupied_cell_choice_falls_back_to_auto() {
    let mut g = Game::new();
    g.input_board_num(1);
    g.board_gen();
    let _ = g.vec_board[0].update_pos(1, 0);
    let oc = g.take_turn(0, 1, TurnInput::Cell(1));
    assert_eq!(oc, TurnOutcome::Continue);
    let marks = g.vec_board[0].positions.iter().filter(|&&c| c != 0).count();
    assert_eq!(marks, 2);
    assert_eq!(g.vec_board[0].positions[0], 1);
}
