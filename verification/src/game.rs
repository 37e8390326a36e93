//! The match controller: it owns the boards, the two players and the turn
//! policy, advances play across all boards still open, resolves wins, ties,
//! forfeits and quits, and decides whether the match continues.

use vstd::prelude::*;

use crate::board::{
    all_empty, board_full, check_result, placed, Board, BoardView, CompletionReason,
};
use crate::player::{Player, WonPlayer};
use crate::text::{dec_digits, u16_to_string};

verus! {

/// One player's resolved input for a turn: a request for an automatic random
/// move (also what a timeout or an unrecognized key comes to), a 1-indexed
/// cell choice, a forfeit of the current board, or a quit of the whole match.
#[derive(Clone, Copy, PartialEq, Eq, Structural, Debug)]
pub enum TurnInput {
    Auto,
    Cell(u8),
    Forfeit,
    Quit,
}

/// What one player's turn did to the match: play goes on on the same board,
/// the board just reached a terminal status and left the active set, or the
/// whole match was quit.
#[derive(Clone, Copy, PartialEq, Eq, Structural, Debug)]
pub enum TurnOutcome {
    Continue,
    BoardDone,
    Quit,
}

/// The running match.
pub struct Game {
    pub vec_board: Vec<Board>,
    pub vec_board_iter: Vec<u16>,
    pub players: Vec<Player>,
    pub winner: WonPlayer,
    pub timeout_duration_len: u64,
    pub finished: bool,
    pub quitted: bool,
    pub origin_coordinates: (u16, u16),
    pub end_msg: String,
    pub board_num: u16,
}

impl Game {
    /// The number of boards ever created this run.
    pub open spec fn n_boards(self) -> int {
        self.vec_board@.len() as int
    }

    /// The model of the board at the given index.
    pub open spec fn board_at(self, j: int) -> BoardView {
        self.vec_board@[j]@
    }

    /// The indices of the boards still in progress, in sweep order.
    pub open spec fn active(self) -> Seq<u16> {
        self.vec_board_iter@
    }

    /// The given board index appears in the active list.
    pub open spec fn is_active(self, j: int) -> bool {
        exists|k: int| 0 <= k < self.active().len() && self.active()[k] == j
    }

    /// Structural validity of the whole match state: two players, every board
    /// well formed and numbered by its position, the active list holding
    /// exactly the boards still in progress, each at most once, and a quit
    /// only ever observed as a finished match.
    pub open spec fn wf(self) -> bool {
        &&& self.players@.len() == 2
        &&& forall|j: int| 0 <= j < self.n_boards() ==> (#[trigger] self.board_at(j)).wf()
        &&& forall|j: int| 0 <= j < self.n_boards() ==> (#[trigger] self.board_at(j)).name == j + 1
        &&& forall|k: int|
            0 <= k < self.active().len() ==> (#[trigger] self.active()[k]) < self.n_boards()
        &&& forall|k1: int, k2: int|
            0 <= k1 < k2 < self.active().len() ==> self.active()[k1] != self.active()[k2]
        &&& forall|j: int|
            0 <= j < self.n_boards() ==> ((#[trigger] self.board_at(j)).in_progress()
                <==> self.is_active(j))
        &&& self.quitted ==> self.finished
    }

    /// No board still in progress is full: every such board can take a move.
    /// Restored by each turn's completion check.
    pub open spec fn active_not_full(self) -> bool {
        forall|j: int|
            0 <= j < self.n_boards() ==> ((#[trigger] self.board_at(j)).in_progress()
                ==> !board_full(self.board_at(j).cells))
    }

    /// Creates an empty match: no boards yet, both players at zero points, no
    /// winner, the timeout at its effectively-infinite sentinel.
    pub fn new() -> (g: Game)
        ensures
            g.wf(),
            g.active_not_full(),
            g.n_boards() == 0,
            g.active().len() == 0,
            g.players@.len() == 2,
            g.players@[0].name@ == "Player 1"@,
            g.players@[0].points == 0,
            g.players@[1].name@ == "Player 2"@,
            g.players@[1].points == 0,
            g.winner == WonPlayer::Neither,
            g.timeout_duration_len == 999999,
            !g.finished,
            !g.quitted,
            g.origin_coordinates == (0u16, 0u16),
            g.end_msg@ == Seq::<char>::empty(),
            g.board_num == 1,
            scores_match_wins(g),
    {
        let mut players: Vec<Player> = Vec::new();
        players.push(Player::new("Player 1"));
        players.push(Player::new("Player 2"));
        Game {
            vec_board: Vec::new(),
            vec_board_iter: Vec::new(),
            players,
            winner: WonPlayer::Neither,
            timeout_duration_len: 999999,
            finished: false,
            quitted: false,
            origin_coordinates: (0, 0),
            end_msg: String::new(),
            board_num: 1,
        }
    }

    /// Records the requested number of starting boards; a request of 0 is
    /// normalized to exactly 1 board.
    pub fn input_board_num(&mut self, num: u16)
        ensures
            *final(self) == (Game {
                board_num: if num == 0 {
                    1u16
                } else {
                    num
                },
                ..*old(self)
            }),
    {
        self.board_num = num;
        if self.board_num == 0 {
            self.board_num = 1;
        }
    }

    /// Records the per-turn timeout in seconds; 0 is normalized to an
    /// effectively infinite sentinel.
    pub fn set_timeout_duration_len(&mut self, duration: u64)
        ensures
            *final(self) == (Game {
                timeout_duration_len: if duration == 0 {
                    999999u64
                } else {
                    duration
                },
                ..*old(self)
            }),
    {
        self.timeout_duration_len = duration;
        if self.timeout_duration_len == 0 {
            self.timeout_duration_len = 999999;
        }
    }

    /// Creates the starting boards, numbered from 1, all in progress and all
    /// active.
    pub fn board_gen(&mut self)
        requires
            old(self).wf(),
            old(self).n_boards() == 0,
            old(self).active().len() == 0,
            old(self).board_num >= 1,
        ensures
            final(self).wf(),
            final(self).active_not_full(),
            final(self).n_boards() == old(self).board_num,
            final(self).active().len() == old(self).board_num,
            forall|j: int|
                0 <= j < final(self).n_boards() ==> ((#[trigger] final(self).board_at(j)).wf()
                    && final(self).board_at(j).in_progress() && all_empty(
                    final(self).board_at(j).cells,
                ) && final(self).board_at(j).first_move),
            forall|k: int|
                0 <= k < final(self).active().len() ==> (#[trigger] final(self).active()[k]) == k,
            final(self).players@ == old(self).players@,
            final(self).winner == old(self).winner,
            final(self).timeout_duration_len == old(self).timeout_duration_len,
            final(self).finished == old(self).finished,
            final(self).quitted == old(self).quitted,
            final(self).origin_coordinates == old(self).origin_coordinates,
            final(self).end_msg@ == old(self).end_msg@,
            final(self).board_num == old(self).board_num,
            scores_match_wins(*old(self)) ==> scores_match_wins(*final(self)),
    {
        let mut num: u16 = 0;
        while num < self.board_num
            invariant
                num <= self.board_num,
                self.players@ == old(self).players@,
                self.winner == old(self).winner,
                self.timeout_duration_len == old(self).timeout_duration_len,
                self.finished == old(self).finished,
                self.quitted == old(self).quitted,
                self.origin_coordinates == old(self).origin_coordinates,
                self.end_msg@ == old(self).end_msg@,
                self.board_num == old(self).board_num,
                self.quitted ==> self.finished,
                self.n_boards() == num,
                self.active().len() == num,
                forall|j: int|
                    0 <= j < self.n_boards() ==> ((#[trigger] self.board_at(j)).wf()
                        && self.board_at(j).in_progress() && all_empty(self.board_at(j).cells)
                        && self.board_at(j).first_move && self.board_at(j).name == j + 1),
                forall|k: int| 0 <= k < self.active().len() ==> (#[trigger] self.active()[k]) == k,
            decreases self.board_num - num,
        {
            let ghost g0 = *self;
            let b = Board::new(num + 1);
            let ghost bv = b@;
            self.vec_board.push(b);
            self.vec_board_iter.push(num);
            proof {
                assert forall|j: int| 0 <= j < self.n_boards() implies ((
                #[trigger] self.board_at(j)).wf() && self.board_at(j).in_progress() && all_empty(
                    self.board_at(j).cells,
                ) && self.board_at(j).first_move && self.board_at(j).name == j + 1) by {
                    if j < g0.vec_board@.len() {
                        assert(self.vec_board@[j] == g0.vec_board@[j]);
                        assert(self.board_at(j) == g0.board_at(j));
                    } else {
                        assert(self.board_at(j) == bv);
                    }
                }
            }
            num = num + 1;
        }
        proof {
            assert forall|j: int| 0 <= j < self.n_boards() implies (
            #[trigger] self.board_at(j)).in_progress() <==> self.is_active(j) by {
                assert(self.active()[j] == j);
            }
            assert forall|j: int|
                0 <= j < self.n_boards() && self.board_at(j).in_progress() implies !board_full(
                self.board_at(j).cells,
            ) by {
                assert(self.board_at(j).cells[0] == 0);
            }
            if scores_match_wins(*old(self)) {
                lemma_wins_up_to_none(*self, 0, self.n_boards());
                lemma_wins_up_to_none(*self, 1, self.n_boards());
            }
        }
    }

    /// Removes the entry at the given position from the active list.
    pub fn update_bvi(&mut self, i: usize)
        requires
            i < old(self).active().len(),
        ensures
            *final(self) == (Game {
                vec_board_iter: final(self).vec_board_iter,
                ..*old(self)
            }),
            final(self).active() == old(self).active().remove(i as int),
    {
        if self.vec_board_iter.len() > 1 {
            self.vec_board_iter.remove(i);
        } else {
            self.vec_board_iter.pop();
            proof {
                assert(self.vec_board_iter@ =~= old(self).vec_board_iter@.remove(i as int));
            }
        }
    }

    /// Recomputes whether the match is over: it is once no board is active,
    /// or once a quit was received.
    pub fn check_game_finished(&mut self)
        ensures
            *final(self) == (Game { finished: final(self).finished, ..*old(self) }),
            final(self).finished == (old(self).quitted || old(self).active().len() == 0),
    {
        if self.quitted || self.vec_board_iter.is_empty() {
            self.finished = true;
        } else {
            self.finished = false;
        }
    }

    /// Compares total scores: the strictly greater score wins the round;
    /// equal scores leave the round tied.
    pub fn check_game_winner(&mut self)
        requires
            old(self).players@.len() == 2,
        ensures
            *final(self) == (Game { winner: final(self).winner, ..*old(self) }),
            final(self).winner == (if old(self).players@[0].points > old(self).players@[1].points {
                WonPlayer::Circle
            } else if old(self).players@[0].points < old(self).players@[1].points {
                WonPlayer::Crosses
            } else {
                WonPlayer::Neither
            }),
    {
        if self.players[0].points > self.players[1].points {
            self.winner = WonPlayer::Circle;
        } else if self.players[0].points < self.players[1].points {
            self.winner = WonPlayer::Crosses;
        } else {
            self.winner = WonPlayer::Neither;
        }
    }

    /// Ends the whole match immediately: a quit leaves every board and both
    /// scores exactly as they are.
    pub fn quit(&mut self)
        ensures
            *final(self) == (Game { finished: true, quitted: true, ..*old(self) }),
    {
        self.finished = true;
        self.quitted = true;
    }

    /// Forfeits the given in-progress board on behalf of the given player:
    /// its status becomes `ForfeitedBy` at once, it leaves the active list,
    /// and no score changes.
    pub fn forfeit(&mut self, board_iter: usize, player_iter: usize)
        requires
            old(self).wf(),
            board_iter < old(self).n_boards(),
            old(self).board_at(board_iter as int).in_progress(),
            player_iter < 2,
        ensures
            final(self).wf(),
            old(self).active_not_full() ==> final(self).active_not_full(),
            final(self).n_boards() == old(self).n_boards(),
            final(self).board_at(board_iter as int) == (BoardView {
                completion_reason: CompletionReason::ForfeitedBy(player_iter as u8),
                winning_line: None,
                ..old(self).board_at(board_iter as int)
            }),
            forall|j: int|
                0 <= j < old(self).n_boards() && j != board_iter ==> #[trigger] final(self).board_at(j) == old(self).board_at(j),
            exists|k: int|
                0 <= k < old(self).active().len() && old(self).active()[k] == board_iter && final(self).active() == old(self).active().remove(k),
            final(self).players@ == old(self).players@,
            final(self).winner == old(self).winner,
            final(self).timeout_duration_len == old(self).timeout_duration_len,
            final(self).finished == old(self).finished,
            final(self).quitted == old(self).quitted,
            final(self).origin_coordinates == old(self).origin_coordinates,
            final(self).end_msg@ == old(self).end_msg@,
            final(self).board_num == old(self).board_num,
            scores_match_wins(*old(self)) ==> scores_match_wins(*final(self)),
    {
        let ghost g0 = *old(self);
        let mut b = self.vec_board.remove(board_iter);
        b.update_cmpd(CompletionReason::ForfeitedBy(player_iter as u8));
        self.vec_board.insert(board_iter, b);
        proof {
            assert(self.vec_board@ =~= old(self).vec_board@.update(
                board_iter as int,
                self.vec_board@[board_iter as int],
            ));
            assert(g0.is_active(board_iter as int));
        }
        let ghost g1 = *self;
        let mut k: usize = 0;
        while k < self.vec_board_iter.len() && self.vec_board_iter[k] != board_iter as u16
            invariant
                *self == g1,
                k <= self.active().len(),
                forall|m: int| 0 <= m < k ==> self.active()[m] != board_iter as u16,
            decreases self.active().len() - k,
        {
            k = k + 1;
        }
        proof {
            // the board was in progress, so its entry is in the active list
            if k >= self.vec_board_iter@.len() {
                let m = choose|m: int|
                    0 <= m < g0.active().len() && g0.active()[m] == board_iter as int;
                assert(self.active()[m] != board_iter as u16);
                assert(false);
            }
        }
        self.update_bvi(k);
        proof {
            assert forall|j: int|
                0 <= j < g0.n_boards() && j != board_iter as int implies #[trigger] self.board_at(j)
                    == g0.board_at(j) by {
                assert(self.vec_board@[j] == g1.vec_board@[j]);
            }
            assert(g0.active()[k as int] == board_iter as int);
            lemma_wf_after_retire(g0, *self, board_iter as int, k as int);
            if scores_match_wins(g0) {
                lemma_wins_up_to_update(g0, *self, 0, board_iter as int, g0.n_boards());
                lemma_wins_up_to_update(g0, *self, 1, board_iter as int, g0.n_boards());
            }
        }
    }
    /// Applies one random move for the given player to the given board.
    fn auto_move(&mut self, board_iter: usize, player_iter: usize)
        requires
            old(self).wf(),
            board_iter < old(self).n_boards(),
            old(self).board_at(board_iter as int).in_progress(),
            !board_full(old(self).board_at(board_iter as int).cells),
            player_iter < 2,
        ensures
            exists|i: int|
                0 <= i < 9 && old(self).board_at(board_iter as int).cells[i] == 0 && board_set(
                    *old(self),
                    *final(self),
                    board_iter as int,
                    placed(old(self).board_at(board_iter as int), i, player_iter as u8),
                ),
            final(self).board_at(board_iter as int).wf(),
            final(self).board_at(board_iter as int).in_progress(),
            !final(self).board_at(board_iter as int).first_move,
    {
        let ghost v = old(self).board_at(board_iter as int);
        let mut b = self.vec_board.remove(board_iter);
        let _ = b.update_pos(0, player_iter as u8);
        let ghost bv2 = b@;
        self.vec_board.insert(board_iter, b);
        proof {
            assert(self.vec_board@ =~= old(self).vec_board@.update(
                board_iter as int,
                self.vec_board@[board_iter as int],
            ));
            let i = choose|i: int| 0 <= i < 9 && v.cells[i] == 0 && bv2 == placed(
                v,
                i,
                player_iter as u8,
            );
            assert(board_set(*old(self), *self, board_iter as int, placed(v, i, player_iter as u8)));
        }
    }

    /// Marks the given empty cell (1-indexed) for the given player.
    fn cell_move(&mut self, board_iter: usize, player_iter: usize, n: u8)
        requires
            old(self).wf(),
            board_iter < old(self).n_boards(),
            old(self).board_at(board_iter as int).in_progress(),
            player_iter < 2,
            1 <= n <= 9,
            old(self).board_at(board_iter as int).cells[n - 1] == 0,
        ensures
            board_set(
                *old(self),
                *final(self),
                board_iter as int,
                placed(old(self).board_at(board_iter as int), n - 1, player_iter as u8),
            ),
            final(self).board_at(board_iter as int).wf(),
            final(self).board_at(board_iter as int).in_progress(),
            !final(self).board_at(board_iter as int).first_move,
    {
        let mut b = self.vec_board.remove(board_iter);
        let _ = b.update_pos(n, player_iter as u8);
        self.vec_board.insert(board_iter, b);
        proof {
            assert(self.vec_board@ =~= old(self).vec_board@.update(
                board_iter as int,
                self.vec_board@[board_iter as int],
            ));
        }
    }

    /// Resolves one player's input on the given board. The board's forced
    /// first move ignores the input and places a random mark; after that a
    /// digit marks its cell if that cell is empty, a forfeit ends the board,
    /// a quit ends the whole match, and anything else (an explicit request,
    /// an occupied or out-of-range cell, a timeout) falls back to a random
    /// mark.
    pub fn execute_player_turn(&mut self, board_iter: usize, player_iter: usize, input: TurnInput)
        requires
            old(self).wf(),
            board_iter < old(self).n_boards(),
            old(self).board_at(board_iter as int).in_progress(),
            !board_full(old(self).board_at(board_iter as int).cells),
            player_iter < 2,
        ensures
            ({
                let v = old(self).board_at(board_iter as int);
                &&& (chooses_auto(v, input) ==> exists|i: int|
                    0 <= i < 9 && v.cells[i] == 0 && board_set(
                        *old(self),
                        *final(self),
                        board_iter as int,
                        placed(v, i, player_iter as u8),
                    ))
                &&& (match input {
                    TurnInput::Cell(n) => (!v.first_move && 1 <= n <= 9 && v.cells[n - 1] == 0)
                        ==> board_set(
                        *old(self),
                        *final(self),
                        board_iter as int,
                        placed(v, n - 1, player_iter as u8),
                    ),
                    _ => true,
                })
                &&& (!v.first_move && input == TurnInput::Forfeit ==> {
                    &&& final(self).wf()
                    &&& (old(self).active_not_full() ==> final(self).active_not_full())
                    &&& final(self).n_boards() == old(self).n_boards()
                    &&& final(self).board_at(board_iter as int) == (BoardView {
                        completion_reason: CompletionReason::ForfeitedBy(player_iter as u8),
                        winning_line: None,
                        ..v
                    })
                    &&& (forall|j: int|
                        0 <= j < old(self).n_boards() && j != board_iter ==> #[trigger] final(self).board_at(j) == old(self).board_at(j))
                    &&& (exists|k: int|
                        0 <= k < old(self).active().len() && old(self).active()[k] == board_iter
                            && final(self).active() == old(self).active().remove(k))
                    &&& final(self).players@ == old(self).players@
                    &&& final(self).winner == old(self).winner
                    &&& final(self).timeout_duration_len == old(self).timeout_duration_len
                    &&& final(self).finished == old(self).finished
                    &&& final(self).quitted == old(self).quitted
                    &&& final(self).origin_coordinates == old(self).origin_coordinates
                    &&& final(self).end_msg@ == old(self).end_msg@
                    &&& final(self).board_num == old(self).board_num
                    &&& (scores_match_wins(*old(self)) ==> scores_match_wins(*final(self)))
                })
                &&& (!v.first_move && input == TurnInput::Quit ==> *final(self) == (Game {
                    finished: true,
                    quitted: true,
                    ..*old(self)
                }))
                &&& (!(!v.first_move && (input == TurnInput::Quit || input == TurnInput::Forfeit))
                    ==> {
                    &&& final(self).board_at(board_iter as int).wf()
                    &&& final(self).board_at(board_iter as int).name == v.name
                    &&& !final(self).board_at(board_iter as int).first_move
                    &&& final(self).n_boards() == old(self).n_boards()
                    &&& (forall|j: int|
                        0 <= j < old(self).n_boards() && j != board_iter ==> final(self).board_at(j)
                            == old(self).board_at(j))
                    &&& final(self).vec_board_iter@ == old(self).vec_board_iter@
                    &&& final(self).players@ == old(self).players@
                    &&& final(self).winner == old(self).winner
                    &&& final(self).timeout_duration_len == old(self).timeout_duration_len
                    &&& final(self).finished == old(self).finished
                    &&& final(self).quitted == old(self).quitted
                    &&& final(self).origin_coordinates == old(self).origin_coordinates
                    &&& final(self).end_msg@ == old(self).end_msg@
                    &&& final(self).board_num == old(self).board_num
                })
            }),
    {
        let first = self.vec_board[board_iter].first_move;
        if first {
            self.auto_move(board_iter, player_iter);
        } else {
            match input {
                TurnInput::Auto => {
                    self.auto_move(board_iter, player_iter);
                },
                TurnInput::Cell(n) => {
                    if 1 <= n && n <= 9 {
                        let occupied = self.vec_board[board_iter].positions[(n - 1) as usize] != 0;
                        if occupied {
                            self.auto_move(board_iter, player_iter);
                        } else {
                            self.cell_move(board_iter, player_iter, n);
                        }
                    } else {
                        self.auto_move(board_iter, player_iter);
                    }
                },
                TurnInput::Forfeit => {
                    self.forfeit(board_iter, player_iter);
                },
                TurnInput::Quit => {
                    self.quit();
                },
            }
        }
    }

    /// Runs one player's full turn on the board at the given position of the
    /// active list: resolves the input to a move, forfeit or quit, runs the
    /// completion check, and on a terminal outcome awards the point for a
    /// win, retires the board from the active list and reports it done.
    pub fn take_turn(&mut self, active_pos: usize, player_iter: usize, input: TurnInput) -> (oc:
        TurnOutcome)
        requires
            old(self).wf(),
            old(self).active_not_full(),
            active_pos < old(self).active().len(),
            player_iter < 2,
            old(self).players@[player_iter as int].points < u16::MAX,
            !old(self).finished,
        ensures
            final(self).wf(),
            final(self).active_not_full(),
            final(self).n_boards() == old(self).n_boards(),
            final(self).players@.len() == 2,
            final(self).players@[0].name@ == old(self).players@[0].name@,
            final(self).players@[1].name@ == old(self).players@[1].name@,
            final(self).winner == old(self).winner,
            final(self).timeout_duration_len == old(self).timeout_duration_len,
            final(self).origin_coordinates == old(self).origin_coordinates,
            final(self).end_msg@ == old(self).end_msg@,
            final(self).board_num == old(self).board_num,
            scores_match_wins(*old(self)) ==> scores_match_wins(*final(self)),
            forall|j: int|
                0 <= j < old(self).n_boards() && !old(self).board_at(j).first_move ==> !(
                #[trigger] final(self).board_at(j)).first_move,
            ({
                let bi = old(self).active()[active_pos as int] as int;
                let v = old(self).board_at(bi);
                match oc {
                    TurnOutcome::Quit => {
                        &&& !v.first_move && input == TurnInput::Quit
                        &&& *final(self) == (Game { finished: true, quitted: true, ..*old(self) })
                    },
                    TurnOutcome::BoardDone => {
                        &&& !final(self).board_at(bi).in_progress()
                        &&& !final(self).board_at(bi).first_move
                        &&& final(self).active() == old(self).active().remove(active_pos as int)
                        &&& (forall|j: int|
                            0 <= j < old(self).n_boards() && j != bi ==> #[trigger] final(self).board_at(j) == old(self).board_at(j))
                        &&& final(self).finished == old(self).finished
                        &&& final(self).quitted == old(self).quitted
                        &&& (final(self).board_at(bi).completion_reason matches CompletionReason::WonBy(p)
                            ==> p == player_iter && final(self).players@[player_iter as int].points
                            == old(self).players@[player_iter as int].points + 1 && final(self).players@[1 - player_iter as int] == old(self).players@[1 - player_iter as int])
                        &&& (!(final(self).board_at(bi).completion_reason is WonBy) ==> final(self).players@ == old(self).players@)
                    },
                    TurnOutcome::Continue => {
                        &&& final(self).board_at(bi).in_progress()
                        &&& !final(self).board_at(bi).first_move
                        &&& final(self).active() == old(self).active()
                        &&& final(self).players@ == old(self).players@
                        &&& final(self).finished == old(self).finished
                        &&& final(self).quitted == old(self).quitted
                        &&& (forall|j: int|
                            0 <= j < old(self).n_boards() && j != bi ==> #[trigger] final(self).board_at(j) == old(self).board_at(j))
                    },
                }
            }),
            ({
                let bi = old(self).active()[active_pos as int] as int;
                let v = old(self).board_at(bi);
                &&& (!v.first_move && input == TurnInput::Forfeit ==> oc is BoardDone && final(self).board_at(bi) == (BoardView {
                    completion_reason: CompletionReason::ForfeitedBy(player_iter as u8),
                    winning_line: None,
                    ..v
                }))
                &&& (!v.first_move && input == TurnInput::Quit ==> oc is Quit)
                &&& (match input {
                    TurnInput::Cell(n) => (!v.first_move && 1 <= n <= 9 && v.cells[n - 1] == 0)
                        ==> final(self).board_at(bi) == check_result(
                        placed(v, n - 1, player_iter as u8),
                        player_iter as u8,
                    ),
                    _ => true,
                })
                &&& (chooses_auto(v, input) ==> exists|i: int|
                    0 <= i < 9 && v.cells[i] == 0 && final(self).board_at(bi) == check_result(
                        placed(v, i, player_iter as u8),
                        player_iter as u8,
                    ))
                &&& (v.first_move ==> oc is Continue)
            }),
    {
        let bi_u16 = self.vec_board_iter[active_pos];
        let bi = bi_u16 as usize;
        let ghost g0 = *old(self);
        let ghost v = old(self).board_at(bi as int);
        proof {
            assert(g0.is_active(bi as int));
            assert(v.in_progress());
            assert(v.wf());
        }
        let first = self.vec_board[bi].first_move;
        self.execute_player_turn(bi, player_iter, input);
        if !first && input == TurnInput::Quit {
            proof {
                assert forall|j: int|
                    0 <= j < g0.n_boards() && j != bi as int implies #[trigger] self.board_at(j)
                        == g0.board_at(j) by {}
                assert(self.board_at(bi as int) == g0.board_at(bi as int));
                lemma_wf_transfer(g0, *self, bi as int);
                lemma_not_full_transfer(g0, *self, bi as int);
                if scores_match_wins(g0) {
                    lemma_wins_up_to_update(g0, *self, 0, bi as int, g0.n_boards());
                    lemma_wins_up_to_update(g0, *self, 1, bi as int, g0.n_boards());
                }
            }
            return TurnOutcome::Quit;
        }
        if !first && input == TurnInput::Forfeit {
            proof {
                let k = choose|k: int|
                    0 <= k < g0.active().len() && g0.active()[k] == bi && self.active()
                        == g0.active().remove(k);
                if k != active_pos as int {
                    assert(g0.active()[k] == g0.active()[active_pos as int]);
                    assert(false);
                }
            }
            return TurnOutcome::BoardDone;
        }
        let ghost g1 = *self;
        let mut b = self.vec_board.remove(bi);
        let done = b.check_completed(player_iter as u8);
        let won = match b.completion_reason {
            CompletionReason::WonBy(_) => true,
            _ => false,
        };
        let ghost b2 = b@;
        self.vec_board.insert(bi, b);
        proof {
            assert(self.vec_board@ =~= g1.vec_board@.update(bi as int, self.vec_board@[bi as int]));
            assert(self.board_at(bi as int) == b2);
            assert(b2 == check_result(g1.board_at(bi as int), player_iter as u8));
        }
        if !done {
            proof {
                assert(b2.in_progress());
                assert(!b2.first_move);
                assert(!board_full(b2.cells));
                assert forall|j: int|
                    0 <= j < g0.n_boards() && j != bi as int implies #[trigger] self.board_at(j)
                        == g0.board_at(j) by {
                    assert(self.board_at(j) == g1.board_at(j));
                }
                assert(self.board_at(bi as int) == b2);
                assert(b2.name == g0.board_at(bi as int).name);
                lemma_wf_transfer(g0, *self, bi as int);
                lemma_not_full_transfer(g0, *self, bi as int);
                if scores_match_wins(g0) {
                    lemma_wins_up_to_update(g0, *self, 0, bi as int, g0.n_boards());
                    lemma_wins_up_to_update(g0, *self, 1, bi as int, g0.n_boards());
                }
                if chooses_auto(v, input) {
                    let i = choose|i: int|
                        0 <= i < 9 && v.cells[i] == 0 && board_set(
                            g0,
                            g1,
                            bi as int,
                            placed(v, i, player_iter as u8),
                        );
                    assert(self.board_at(bi as int) == check_result(
                        placed(v, i, player_iter as u8),
                        player_iter as u8,
                    ));
                }
            }
            return TurnOutcome::Continue;
        }
        if won {
            self.award_point(player_iter);
        }
        let ghost g2 = *self;
        self.update_bvi(active_pos);
        proof {
            assert forall|j: int|
                0 <= j < g0.n_boards() && j != bi as int implies #[trigger] self.board_at(j)
                    == g0.board_at(j) by {
                assert(self.vec_board@[j] == g2.vec_board@[j]);
                assert(self.board_at(j) == g2.board_at(j));
                assert(g2.board_at(j) == g1.board_at(j));
            }
            assert(self.board_at(bi as int) == b2);
            assert(b2.name == g0.board_at(bi as int).name);
            assert(self.players@.len() == 2);
            assert(self.active() == g0.active().remove(active_pos as int));
            assert(g0.active()[active_pos as int] == bi as int);
            assert(!b2.first_move);
            lemma_wf_after_retire(g0, *self, bi as int, active_pos as int);
            if scores_match_wins(g0) {
                lemma_wins_up_to_update(g0, *self, 0, bi as int, g0.n_boards());
                lemma_wins_up_to_update(g0, *self, 1, bi as int, g0.n_boards());
            }
            if chooses_auto(v, input) {
                let i = choose|i: int|
                    0 <= i < 9 && v.cells[i] == 0 && board_set(
                        g0,
                        g1,
                        bi as int,
                        placed(v, i, player_iter as u8),
                    );
                assert(self.board_at(bi as int) == check_result(
                    placed(v, i, player_iter as u8),
                    player_iter as u8,
                ));
            }
        }
        TurnOutcome::BoardDone
    }

    /// Runs the round against a finite script of player inputs: sweeps the
    /// active boards in order, runs the two-player turn pair on each still
    /// open board (ending a pair early when the board completes, and skipping
    /// the input for a board's forced first move), and returns how many
    /// inputs it consumed. It stops only when no board is active, when a
    /// quit is received, or when the script runs out.
    pub fn game_loop(&mut self, inputs: Vec<TurnInput>) -> (used: usize)
        requires
            old(self).wf(),
            old(self).active_not_full(),
            !old(self).finished,
            old(self).players@[0].points + old(self).active().len() <= u16::MAX,
            old(self).players@[1].points + old(self).active().len() <= u16::MAX,
        ensures
            final(self).wf(),
            final(self).active_not_full(),
            final(self).n_boards() == old(self).n_boards(),
            used <= inputs@.len(),
            !final(self).finished ==> used == inputs@.len(),
            final(self).finished ==> (final(self).quitted || final(self).active().len() == 0),
            final(self).finished && !final(self).quitted ==> (forall|j: int|
                0 <= j < final(self).n_boards() ==> !(#[trigger] final(self).board_at(
                    j,
                )).in_progress()),
            scores_match_wins(*old(self)) ==> scores_match_wins(*final(self)),
            ({
                let a = old(self).active();
                a.len() > 0 && old(self).board_at(a[0] as int).first_move ==> !final(self).board_at(a[0] as int).first_move
            }),
            final(self).players@.len() == 2,
            final(self).players@[0].name@ == old(self).players@[0].name@,
            final(self).players@[1].name@ == old(self).players@[1].name@,
            final(self).players@[0].points >= old(self).players@[0].points,
            final(self).players@[1].points >= old(self).players@[1].points,
            final(self).winner == old(self).winner,
            final(self).timeout_duration_len == old(self).timeout_duration_len,
            final(self).origin_coordinates == old(self).origin_coordinates,
            final(self).end_msg@ == old(self).end_msg@,
            final(self).board_num == old(self).board_num,
    {
        let ghost has0 = old(self).active().len() > 0;
        let ghost bi0: int = if has0 {
            old(self).active()[0] as int
        } else {
            0int
        };
        let ghost fm0 = has0 && old(self).board_at(bi0).first_move;
        let ghost mut moved0: bool = false;
        let mut idx: usize = 0;
        self.check_game_finished();
        proof {
            lemma_wf_fields(*old(self), *self);
        }
        while !self.finished
            invariant
                self.wf(),
                self.active_not_full(),
                !self.quitted,
                self.finished == (self.active().len() == 0),
                idx <= inputs@.len(),
                self.players@.len() == 2,
                self.players@[0].points + self.active().len() <= u16::MAX,
                self.players@[1].points + self.active().len() <= u16::MAX,
                self.n_boards() == old(self).n_boards(),
                self.players@[0].name@ == old(self).players@[0].name@,
                self.players@[1].name@ == old(self).players@[1].name@,
                self.players@[0].points >= old(self).players@[0].points,
                self.players@[1].points >= old(self).players@[1].points,
                self.winner == old(self).winner,
                self.timeout_duration_len == old(self).timeout_duration_len,
                self.origin_coordinates == old(self).origin_coordinates,
                self.end_msg@ == old(self).end_msg@,
                self.board_num == old(self).board_num,
                scores_match_wins(*old(self)) ==> scores_match_wins(*self),
                has0 == (old(self).active().len() > 0),
                bi0 == (if has0 {
                    old(self).active()[0] as int
                } else {
                    0int
                }),
                fm0 == (has0 && old(self).board_at(bi0).first_move),
                fm0 ==> 0 <= bi0 < self.n_boards(),
                fm0 && moved0 ==> !self.board_at(bi0).first_move,
                fm0 && !moved0 ==> (!self.finished && self.active().len() > 0 && self.active()[0]
                    as int == bi0 && self.board_at(bi0).first_move),
            decreases inputs@.len() - idx,
        {
            let ghost idx0 = idx;
            let ghost len0 = self.active().len();
            let mut pos: usize = 0;
            while pos < self.vec_board_iter.len()
                invariant
                    self.wf(),
                    self.active_not_full(),
                    !self.finished,
                    !self.quitted,
                    pos <= self.active().len(),
                    self.active().len() <= len0,
                    idx - idx0 >= pos + (len0 - self.active().len()),
                    idx <= inputs@.len(),
                    self.players@.len() == 2,
                    self.players@[0].points + self.active().len() <= u16::MAX,
                    self.players@[1].points + self.active().len() <= u16::MAX,
                    self.n_boards() == old(self).n_boards(),
                    self.players@[0].name@ == old(self).players@[0].name@,
                    self.players@[1].name@ == old(self).players@[1].name@,
                    self.players@[0].points >= old(self).players@[0].points,
                    self.players@[1].points >= old(self).players@[1].points,
                    self.winner == old(self).winner,
                    self.timeout_duration_len == old(self).timeout_duration_len,
                    self.origin_coordinates == old(self).origin_coordinates,
                    self.end_msg@ == old(self).end_msg@,
                    self.board_num == old(self).board_num,
                    scores_match_wins(*old(self)) ==> scores_match_wins(*self),
                    has0 == (old(self).active().len() > 0),
                    bi0 == (if has0 {
                        old(self).active()[0] as int
                    } else {
                        0int
                    }),
                    fm0 == (has0 && old(self).board_at(bi0).first_move),
                    fm0 ==> 0 <= bi0 < self.n_boards(),
                    fm0 && moved0 ==> !self.board_at(bi0).first_move,
                    fm0 && !moved0 ==> (pos == 0 && self.active().len() > 0 && self.active()[0]
                        as int == bi0 && self.board_at(bi0).first_move),
                decreases inputs@.len() - idx,
            {
                let bi = self.vec_board_iter[pos] as usize;
                proof {
                    assert(self.active()[pos as int] < self.n_boards());
                }
                let first0 = self.vec_board[bi].first_move;
                let input0: TurnInput;
                if first0 {
                    input0 = TurnInput::Auto;
                } else {
                    if idx >= inputs.len() {
                        proof {
                            if fm0 && !moved0 {
                                assert(bi as int == bi0);
                                assert(false);
                            }
                        }
                        return idx;
                    }
                    input0 = inputs[idx];
                    idx = idx + 1;
                }
                let oc0 = self.take_turn(pos, 0, input0);
                proof {
                    if fm0 && !moved0 {
                        moved0 = true;
                    }
                    if fm0 {
                        assert(!self.board_at(bi0).first_move);
                    }
                }
                match oc0 {
                    TurnOutcome::Quit => {
                        return idx;
                    },
                    TurnOutcome::BoardDone => {},
                    TurnOutcome::Continue => {
                        if idx >= inputs.len() {
                            return idx;
                        }
                        let input1 = inputs[idx];
                        idx = idx + 1;
                        let oc1 = self.take_turn(pos, 1, input1);
                        match oc1 {
                            TurnOutcome::Quit => {
                                return idx;
                            },
                            TurnOutcome::BoardDone => {},
                            TurnOutcome::Continue => {
                                pos = pos + 1;
                            },
                        }
                    },
                }
            }
            let ghost gb = *self;
            self.check_game_finished();
            proof {
                lemma_wf_fields(gb, *self);
            }
        }
        idx
    }

    /// Resolves the tie-breaker prompt once the round is over. An
    /// affirmative response (any capitalization of "y" or "yes") creates
    /// exactly one new board, makes it the only active one and resumes play;
    /// any other response terminates the match.
    pub fn game_continue(&mut self, response: &str)
        requires
            old(self).wf(),
            old(self).active().len() == 0,
            old(self).n_boards() < u16::MAX,
            !old(self).quitted,
        ensures
            final(self).wf(),
            final(self).active_not_full(),
            is_yes(response@) ==> {
                &&& final(self).n_boards() == old(self).n_boards() + 1
                &&& final(self).board_at(old(self).n_boards()).in_progress()
                &&& all_empty(final(self).board_at(old(self).n_boards()).cells)
                &&& final(self).board_at(old(self).n_boards()).first_move
                &&& final(self).board_at(old(self).n_boards()).name == old(self).n_boards() + 1
                &&& (forall|j: int|
                    0 <= j < old(self).n_boards() ==> #[trigger] final(self).board_at(j) == old(
                        self,
                    ).board_at(j))
                &&& final(self).active() == seq![old(self).n_boards() as u16]
                &&& !final(self).finished
                &&& final(self).players@ == old(self).players@
                &&& final(self).winner == old(self).winner
                &&& final(self).board_num == old(self).board_num
            },
            !is_yes(response@) ==> *final(self) == (Game { finished: true, ..*old(self) }),
            scores_match_wins(*old(self)) ==> scores_match_wins(*final(self)),
    {
        let cont = is_affirmative(response);
        if cont {
            let name = (self.vec_board.len() + 1) as u16;
            let ghost g0 = *self;
            let b = Board::new(name);
            let ghost bv = b@;
            self.vec_board.push(b);
            self.vec_board_iter.push((self.vec_board.len() - 1) as u16);
            self.finished = false;
            proof {
                assert(self.active() =~= seq![g0.n_boards() as u16]);
                assert forall|j: int|
                    0 <= j < self.n_boards() implies ((#[trigger] self.board_at(j)).wf()
                        && self.board_at(j).name == j + 1 && (self.board_at(j).in_progress()
                        <==> self.is_active(j)) && (self.board_at(j).in_progress() ==> !board_full(
                        self.board_at(j).cells,
                    ))) by {
                    if j < g0.n_boards() {
                        assert(self.vec_board@[j] == g0.vec_board@[j]);
                        assert(self.board_at(j) == g0.board_at(j));
                        assert(g0.board_at(j).wf() && g0.board_at(j).name == j + 1);
                        assert(g0.board_at(j).in_progress() <==> g0.is_active(j));
                        assert(!g0.is_active(j));
                        if self.is_active(j) {
                            let k = choose|k: int|
                                0 <= k < self.active().len() && self.active()[k] == j;
                            assert(false);
                        }
                    } else {
                        assert(self.board_at(j) == bv);
                        assert(self.active()[0] == j);
                        assert(self.is_active(j));
                        assert(self.board_at(j).cells[0] == 0);
                    }
                }
                assert forall|k: int| 0 <= k < self.active().len() implies (
                #[trigger] self.active()[k]) < self.n_boards() by {}
                assert forall|k1: int, k2: int|
                    0 <= k1 < k2 < self.active().len() implies self.active()[k1]
                        != self.active()[k2] by {}
                if scores_match_wins(g0) {
                    lemma_wins_up_to_update(g0, *self, 0, g0.n_boards(), g0.n_boards());
                    lemma_wins_up_to_update(g0, *self, 1, g0.n_boards(), g0.n_boards());
                    assert(!(self.board_at(g0.n_boards()).completion_reason is WonBy));
                }
            }
        } else {
            self.finished = true;
            proof {
                lemma_wf_fields(*old(self), *self);
            }
        }
    }

    /// Builds the summary line naming the round's winner and both scores.
    fn build_win_msg(w: &Player, l: &Player) -> (s: String)
        ensures
            s@ == win_msg(w.name@, w.points, l.name@, l.points),
    {
        let mut s = String::from_str(w.name.as_str());
        s.append(" has won with ");
        let wp = u16_to_string(w.points);
        s.append(wp.as_str());
        s.append(" points, compared to ");
        s.append(l.name.as_str());
        s.append("'s ");
        let lp = u16_to_string(l.points);
        s.append(lp.as_str());
        s.append(" points");
        s
    }

    /// Builds the summary line for a tied round.
    fn build_tie_msg(p: &Player) -> (s: String)
        ensures
            s@ == tie_msg(p.points),
    {
        let mut s = String::from_str("The game ended in a tie of ");
        let pts = u16_to_string(p.points);
        s.append(pts.as_str());
        s.append(" points");
        s
    }

    /// Renders the final summary for the computed round winner: who won with
    /// how many points against whom, or the tie score.
    pub fn end_msg_gen(&mut self)
        requires
            old(self).players@.len() == 2,
        ensures
            *final(self) == (Game { end_msg: final(self).end_msg, ..*old(self) }),
            final(self).end_msg@ == (match old(self).winner {
                WonPlayer::Circle => win_msg(
                    old(self).players@[0].name@,
                    old(self).players@[0].points,
                    old(self).players@[1].name@,
                    old(self).players@[1].points,
                ),
                WonPlayer::Crosses => win_msg(
                    old(self).players@[1].name@,
                    old(self).players@[1].points,
                    old(self).players@[0].name@,
                    old(self).players@[0].points,
                ),
                WonPlayer::Neither => tie_msg(old(self).players@[0].points),
            }),
    {
        let msg = match self.winner {
            WonPlayer::Circle => Self::build_win_msg(&self.players[0], &self.players[1]),
            WonPlayer::Crosses => Self::build_win_msg(&self.players[1], &self.players[0]),
            WonPlayer::Neither => Self::build_tie_msg(&self.players[0]),
        };
        self.end_msg = msg;
    }

    /// Renders the running scoreboard: one line for every board ever
    /// created, with its number and completion reason.
    pub fn score_board(&self) -> (s: String)
        requires
            self.wf(),
        ensures
            s@ == scoreboard_text(*self),
    {
        let mut s = String::from_str("-=-=- Leaderboard -=-=-\n");
        let mut j: usize = 0;
        while j < self.vec_board.len()
            invariant
                self.wf(),
                j <= self.n_boards(),
                s@ == "-=-=- Leaderboard -=-=-\n"@ + scoreboard_lines(*self, j as int),
            decreases self.n_boards() - j,
        {
            proof {
                assert(self.board_at(j as int).wf());
            }
            s.append("Board ");
            let num = u16_to_string(self.vec_board[j].name);
            s.append(num.as_str());
            s.append(": ");
            match self.vec_board[j].completion_reason {
                CompletionReason::NotCompleted => s.append("Not Completed"),
                CompletionReason::Tied => s.append("Tied"),
                CompletionReason::WonBy(p) => {
                    s.append("Won by ");
                    s.append(self.players[p as usize].name.as_str());
                },
                CompletionReason::ForfeitedBy(p) => {
                    s.append("Forfeited by ");
                    s.append(self.players[p as usize].name.as_str());
                },
            }
            s.append("\n");
            proof {
                assert(s@ =~= "-=-=- Leaderboard -=-=-\n"@ + scoreboard_lines(
                    *self,
                    j as int + 1,
                ));
            }
            j = j + 1;
        }
        s
    }

    /// Adds one point to the given player's score.
    fn award_point(&mut self, player_iter: usize)
        requires
            old(self).players@.len() == 2,
            player_iter < 2,
            old(self).players@[player_iter as int].points < u16::MAX,
        ensures
            *final(self) == (Game { players: final(self).players, ..*old(self) }),
            final(self).players@.len() == 2,
            final(self).players@[player_iter as int].points == old(self).players@[player_iter as int].points
                + 1,
            final(self).players@[player_iter as int].name@ == old(self).players@[player_iter as int].name@,
            forall|q: int|
                0 <= q < 2 && q != player_iter ==> final(self).players@[q] == old(self).players@[q],
    {
        let mut p = self.players.remove(player_iter);
        p.add_point();
        self.players.insert(player_iter, p);
        proof {
            assert(self.players@ =~= old(self).players@.update(
                player_iter as int,
                self.players@[player_iter as int],
            ));
        }
    }
}

/// The affirmative responses to the continue prompt: any capitalization of
/// "y" or "yes".
pub open spec fn is_yes(s: Seq<char>) -> bool {
    ||| (s.len() == 1 && (s[0] == 'y' || s[0] == 'Y'))
    ||| (s.len() == 3 && (s[0] == 'y' || s[0] == 'Y') && (s[1] == 'e' || s[1] == 'E') && (s[2]
        == 's' || s[2] == 'S'))
}

/// True iff the response is some capitalization of "y" or "yes".
pub fn is_affirmative(response: &str) -> (r: bool)
    ensures
        r == is_yes(response@),
{
    let len = response.unicode_len();
    if len == 1 {
        let c = response.get_char(0);
        c == 'y' || c == 'Y'
    } else if len == 3 {
        let c0 = response.get_char(0);
        let c1 = response.get_char(1);
        let c2 = response.get_char(2);
        (c0 == 'y' || c0 == 'Y') && (c1 == 'e' || c1 == 'E') && (c2 == 's' || c2 == 'S')
    } else {
        false
    }
}

/// The turn input a captured key resolves to: digits pick their cell, 'f'
/// forfeits the board, 'q' quits the match, and any other key (or none
/// within the timeout) asks for an automatic random move.
pub open spec fn key_input(c: char) -> TurnInput {
    if c == 'f' {
        TurnInput::Forfeit
    } else if c == 'q' {
        TurnInput::Quit
    } else if c == '1' {
        TurnInput::Cell(1)
    } else if c == '2' {
        TurnInput::Cell(2)
    } else if c == '3' {
        TurnInput::Cell(3)
    } else if c == '4' {
        TurnInput::Cell(4)
    } else if c == '5' {
        TurnInput::Cell(5)
    } else if c == '6' {
        TurnInput::Cell(6)
    } else if c == '7' {
        TurnInput::Cell(7)
    } else if c == '8' {
        TurnInput::Cell(8)
    } else if c == '9' {
        TurnInput::Cell(9)
    } else {
        TurnInput::Auto
    }
}

/// Maps a captured key to the turn input it stands for.
pub fn classify_key(c: char) -> (t: TurnInput)
    ensures
        t == key_input(c),
{
    match c {
        'f' => TurnInput::Forfeit,
        'q' => TurnInput::Quit,
        '1' => TurnInput::Cell(1),
        '2' => TurnInput::Cell(2),
        '3' => TurnInput::Cell(3),
        '4' => TurnInput::Cell(4),
        '5' => TurnInput::Cell(5),
        '6' => TurnInput::Cell(6),
        '7' => TurnInput::Cell(7),
        '8' => TurnInput::Cell(8),
        '9' => TurnInput::Cell(9),
        _ => TurnInput::Auto,
    }
}

/// The summary line for a decided match.
pub open spec fn win_msg(w_name: Seq<char>, w_pts: u16, l_name: Seq<char>, l_pts: u16) -> Seq<
    char,
> {
    w_name + " has won with "@ + dec_digits(w_pts as nat) + " points, compared to "@ + l_name
        + "'s "@ + dec_digits(l_pts as nat) + " points"@
}

/// The summary line for a tied match.
pub open spec fn tie_msg(pts: u16) -> Seq<char> {
    "The game ended in a tie of "@ + dec_digits(pts as nat) + " points"@
}

/// One scoreboard line's completion text for the board at the given index.
pub open spec fn reason_text(g: Game, j: int) -> Seq<char> {
    match g.board_at(j).completion_reason {
        CompletionReason::NotCompleted => "Not Completed"@,
        CompletionReason::Tied => "Tied"@,
        CompletionReason::WonBy(p) => "Won by "@ + g.players@[p as int].name@,
        CompletionReason::ForfeitedBy(p) => "Forfeited by "@ + g.players@[p as int].name@,
    }
}

/// One scoreboard line: the board's number and how it ended.
pub open spec fn board_line(g: Game, j: int) -> Seq<char> {
    "Board "@ + dec_digits(g.board_at(j).name as nat) + ": "@ + reason_text(g, j) + "\n"@
}

/// The scoreboard lines for the first `j` boards, in creation order.
pub open spec fn scoreboard_lines(g: Game, j: int) -> Seq<char>
    decreases j,
{
    if j <= 0 {
        Seq::<char>::empty()
    } else {
        scoreboard_lines(g, j - 1) + board_line(g, j - 1)
    }
}

/// The full scoreboard: a header, then one line for every board ever
/// created, with its number and completion reason.
pub open spec fn scoreboard_text(g: Game) -> Seq<char> {
    "-=-=- Leaderboard -=-=-\n"@ + scoreboard_lines(g, g.n_boards())
}

/// The acting player's input resolves to an automatic random move: the
/// board's forced first move ignores the input entirely, and otherwise an
/// explicit request, an unrecognized choice, or the choice of an occupied or
/// out-of-range cell all fall back to a random move.
pub open spec fn chooses_auto(v: BoardView, input: TurnInput) -> bool {
    v.first_move || (match input {
        TurnInput::Auto => true,
        TurnInput::Cell(n) => !(1 <= n <= 9) || v.cells[n - 1] != 0,
        TurnInput::Forfeit => false,
        TurnInput::Quit => false,
    })
}

/// Everything of the match except the board at the given index is unchanged,
/// and that board became the given value.
/// The number of the first `j` boards whose status is a win by the given
/// player.
pub open spec fn wins_up_to(g: Game, p: u8, j: int) -> int
    decreases j,
{
    if j <= 0 {
        0
    } else {
        wins_up_to(g, p, j - 1) + (if g.board_at(j - 1).completion_reason
            == CompletionReason::WonBy(p) {
            1int
        } else {
            0int
        })
    }
}

/// Law: each player's score equals the number of boards they have won this
/// run; forfeits and ties never raise a score, and a won board raises its
/// winner's score exactly once. Established at `Game::new` and carried as an
/// ensures through board creation, every turn, every forfeit, the scripted
/// round loop and the tie-breaker continuation.
pub open spec fn scores_match_wins(g: Game) -> bool {
    &&& g.players@.len() == 2
    &&& g.players@[0].points == wins_up_to(g, 0, g.n_boards())
    &&& g.players@[1].points == wins_up_to(g, 1, g.n_boards())
}

/// How the win count moves when at most the one given board changes status.
proof fn lemma_wins_up_to_update(g0: Game, g1: Game, p: u8, bi: int, j: int)
    requires
        forall|i: int|
            0 <= i < j && i != bi ==> #[trigger] g1.board_at(i).completion_reason == g0.board_at(
                i,
            ).completion_reason,
    ensures
        !(0 <= bi < j) ==> wins_up_to(g1, p, j) == wins_up_to(g0, p, j),
        0 <= bi < j ==> wins_up_to(g1, p, j) == wins_up_to(g0, p, j) - (if g0.board_at(
            bi,
        ).completion_reason == CompletionReason::WonBy(p) {
            1int
        } else {
            0int
        }) + (if g1.board_at(bi).completion_reason == CompletionReason::WonBy(p) {
            1int
        } else {
            0int
        }),
    decreases j,
{
    if j > 0 {
        lemma_wins_up_to_update(g0, g1, p, bi, j - 1);
    }
}

/// A run whose boards are all unwon has a win count of zero.
proof fn lemma_wins_up_to_none(g: Game, p: u8, j: int)
    requires
        forall|i: int|
            0 <= i < j ==> !((#[trigger] g.board_at(i)).completion_reason is WonBy),
    ensures
        wins_up_to(g, p, j) == 0,
    decreases j,
{
    if j > 0 {
        lemma_wins_up_to_none(g, p, j - 1);
    }
}

pub open spec fn board_set(pre: Game, post: Game, bi: int, bv: BoardView) -> bool {
    &&& post.n_boards() == pre.n_boards()
    &&& post.board_at(bi) == bv
    &&& forall|j: int|
        0 <= j < pre.n_boards() && j != bi ==> #[trigger] post.board_at(j) == pre.board_at(j)
    &&& post.vec_board_iter@ == pre.vec_board_iter@
    &&& post.players@ == pre.players@
    &&& post.winner == pre.winner
    &&& post.timeout_duration_len == pre.timeout_duration_len
    &&& post.finished == pre.finished
    &&& post.quitted == pre.quitted
    &&& post.origin_coordinates == pre.origin_coordinates
    &&& post.end_msg@ == pre.end_msg@
    &&& post.board_num == pre.board_num
}

/// The structural invariant carries over between two match states that share
/// their active list and player count, with at most the one given board
/// rewritten to an equally-progressed, well-formed value.
proof fn lemma_wf_transfer(g0: Game, g1: Game, bi: int)
    requires
        g0.wf(),
        0 <= bi < g0.n_boards(),
        g1.n_boards() == g0.n_boards(),
        forall|j: int|
            0 <= j < g0.n_boards() && j != bi ==> #[trigger] g1.board_at(j) == g0.board_at(j),
        g1.board_at(bi).wf(),
        g1.board_at(bi).name == g0.board_at(bi).name,
        g1.board_at(bi).in_progress() == g0.board_at(bi).in_progress(),
        g1.vec_board_iter@ == g0.vec_board_iter@,
        g1.players@.len() == 2,
        g1.quitted ==> g1.finished,
    ensures
        g1.wf(),
{
    assert forall|j: int| 0 <= j < g1.n_boards() implies (g1.is_active(j) <==> g0.is_active(j)) by {
        if g0.is_active(j) {
            let k = choose|k: int| 0 <= k < g0.active().len() && g0.active()[k] == j;
            assert(g1.active()[k] == j);
        }
        if g1.is_active(j) {
            let k = choose|k: int| 0 <= k < g1.active().len() && g1.active()[k] == j;
            assert(g0.active()[k] == j);
        }
    }
    assert forall|j: int| 0 <= j < g1.n_boards() implies ((#[trigger] g1.board_at(j)).wf()
        && g1.board_at(j).name == j + 1 && (g1.board_at(j).in_progress() <==> g1.is_active(
        j,
    ))) by {
        if j != bi {
            assert(g1.board_at(j) == g0.board_at(j));
        }
        assert(g0.board_at(j).wf() && g0.board_at(j).name == j + 1);
        assert(g0.board_at(j).in_progress() <==> g0.is_active(j));
    }
    assert forall|k: int| 0 <= k < g1.active().len() implies (#[trigger] g1.active()[k])
        < g1.n_boards() by {
        assert(g1.active()[k] == g0.active()[k]);
    }
    assert forall|k1: int, k2: int| 0 <= k1 < k2 < g1.active().len() implies g1.active()[k1]
        != g1.active()[k2] by {
        assert(g1.active()[k1] == g0.active()[k1]);
        assert(g1.active()[k2] == g0.active()[k2]);
    }
}

/// The structural invariant carries over between two match states that share
/// their boards, active list and players outright.
proof fn lemma_wf_fields(g0: Game, g1: Game)
    requires
        g0.wf(),
        g1.vec_board == g0.vec_board,
        g1.vec_board_iter == g0.vec_board_iter,
        g1.players == g0.players,
        g1.quitted ==> g1.finished,
    ensures
        g1.wf(),
        g0.active_not_full() ==> g1.active_not_full(),
        forall|j: int| 0 <= j < g1.n_boards() ==> #[trigger] g1.board_at(j) == g0.board_at(j),
        scores_match_wins(g0) ==> scores_match_wins(g1),
{
    assert forall|j: int| 0 <= j < g1.n_boards() implies #[trigger] g1.board_at(j) == g0.board_at(
        j,
    ) by {}
    if scores_match_wins(g0) {
        lemma_wins_up_to_update(g0, g1, 0, g0.n_boards(), g0.n_boards());
        lemma_wins_up_to_update(g0, g1, 1, g0.n_boards(), g0.n_boards());
    }
    assert(g1.active() == g0.active());
    assert forall|j: int| 0 <= j < g1.n_boards() implies (g1.is_active(j) <==> g0.is_active(j)) by {
        if g0.is_active(j) {
            let k = choose|k: int| 0 <= k < g0.active().len() && g0.active()[k] == j;
            assert(g1.active()[k] == j);
        }
        if g1.is_active(j) {
            let k = choose|k: int| 0 <= k < g1.active().len() && g1.active()[k] == j;
            assert(g0.active()[k] == j);
        }
    }
    assert forall|j: int| 0 <= j < g1.n_boards() implies ((#[trigger] g1.board_at(j)).wf()
        && g1.board_at(j).name == j + 1 && (g1.board_at(j).in_progress() <==> g1.is_active(j)) && (
    g1.board_at(j).in_progress() ==> !board_full(g1.board_at(j).cells) || !g0.active_not_full())) by {
        assert(g0.board_at(j).wf() && g0.board_at(j).name == j + 1);
        assert(g0.board_at(j).in_progress() <==> g0.is_active(j));
        if g0.active_not_full() {
            assert(g0.board_at(j).in_progress() ==> !board_full(g0.board_at(j).cells));
        }
    }
    assert forall|k: int| 0 <= k < g1.active().len() implies (#[trigger] g1.active()[k])
        < g1.n_boards() by {
        assert(g1.active()[k] == g0.active()[k]);
    }
    assert forall|k1: int, k2: int| 0 <= k1 < k2 < g1.active().len() implies g1.active()[k1]
        != g1.active()[k2] by {
        assert(g1.active()[k1] == g0.active()[k1]);
        assert(g1.active()[k2] == g0.active()[k2]);
    }
}

/// No-stuck-boards carries over likewise.
proof fn lemma_not_full_transfer(g0: Game, g1: Game, bi: int)
    requires
        g0.active_not_full(),
        0 <= bi < g0.n_boards(),
        g1.n_boards() == g0.n_boards(),
        forall|j: int|
            0 <= j < g0.n_boards() && j != bi ==> #[trigger] g1.board_at(j) == g0.board_at(j),
        g1.board_at(bi).in_progress() ==> !board_full(g1.board_at(bi).cells),
    ensures
        g1.active_not_full(),
{
    assert forall|j: int|
        0 <= j < g1.n_boards() implies ((#[trigger] g1.board_at(j)).in_progress() ==> !board_full(
            g1.board_at(j).cells,
        )) by {
        if j != bi {
            assert(g1.board_at(j) == g0.board_at(j));
            assert(g0.board_at(j).in_progress() ==> !board_full(g0.board_at(j).cells));
        }
    }
}

/// Retiring a board's entry from the active list once the board is terminal
/// restores the structural invariant.
proof fn lemma_wf_after_retire(g0: Game, g1: Game, bi: int, k: int)
    requires
        g0.wf(),
        0 <= bi < g0.n_boards(),
        0 <= k < g0.active().len(),
        g0.active()[k] == bi,
        g1.n_boards() == g0.n_boards(),
        forall|j: int|
            0 <= j < g0.n_boards() && j != bi ==> #[trigger] g1.board_at(j) == g0.board_at(j),
        g1.board_at(bi).wf(),
        g1.board_at(bi).name == g0.board_at(bi).name,
        !g1.board_at(bi).in_progress(),
        g1.active() == g0.active().remove(k),
        g1.players@.len() == 2,
        g1.quitted ==> g1.finished,
    ensures
        g1.wf(),
        g0.active_not_full() ==> g1.active_not_full(),
{
    let a0 = g0.active();
    let a1 = g1.active();
    assert forall|m: int| 0 <= m < a1.len() implies (#[trigger] a1[m]) < g1.n_boards() by {
        if m < k {
            assert(a1[m] == a0[m]);
        } else {
            assert(a1[m] == a0[m + 1]);
        }
    }
    assert forall|m1: int, m2: int| 0 <= m1 < m2 < a1.len() implies a1[m1] != a1[m2] by {
        let n1: int = if m1 < k {
            m1
        } else {
            m1 + 1
        };
        let n2: int = if m2 < k {
            m2
        } else {
            m2 + 1
        };
        assert(a1[m1] == a0[n1]);
        assert(a1[m2] == a0[n2]);
        assert(0 <= n1 < n2 < a0.len());
    }
    assert forall|j: int| 0 <= j < g1.n_boards() implies ((#[trigger] g1.board_at(
        j,
    )).in_progress() <==> g1.is_active(j)) by {
        if j == bi {
            assert(!g1.board_at(j).in_progress());
            if g1.is_active(j) {
                let m = choose|m: int| 0 <= m < a1.len() && a1[m] == j;
                if m < k {
                    assert(a0[m] == j && a0[k] == j);
                    assert(false);
                } else {
                    assert(a0[m + 1] == j && a0[k] == j);
                    assert(false);
                }
            }
        } else {
            assert(g1.board_at(j) == g0.board_at(j));
            if g0.is_active(j) {
                let m = choose|m: int| 0 <= m < a0.len() && a0[m] == j;
                if m < k {
                    assert(a1[m] == j);
                } else {
                    assert(m != k);
                    assert(a1[m - 1] == j);
                }
                assert(g1.is_active(j));
            }
            if g1.is_active(j) {
                let m = choose|m: int| 0 <= m < a1.len() && a1[m] == j;
                if m < k {
                    assert(a0[m] == j);
                } else {
                    assert(a0[m + 1] == j);
                }
                assert(g0.is_active(j));
            }
        }
    }
    assert forall|j: int| 0 <= j < g1.n_boards() implies ((#[trigger] g1.board_at(j)).wf()
        && g1.board_at(j).name == j + 1) by {
        if j != bi {
            assert(g1.board_at(j) == g0.board_at(j));
            assert(g0.board_at(j).wf() && g0.board_at(j).name == j + 1);
        } else {
            assert(g0.board_at(j).name == j + 1);
        }
    }
    assert forall|j: int| 0 <= j < g1.n_boards() implies ((#[trigger] g1.board_at(
        j,
    )).in_progress() ==> !board_full(g1.board_at(j).cells) || !g0.active_not_full()) by {
        if j != bi && g0.active_not_full() {
            assert(g1.board_at(j) == g0.board_at(j));
            assert(g0.board_at(j).in_progress() ==> !board_full(g0.board_at(j).cells));
        }
    }
}

} // verus!
