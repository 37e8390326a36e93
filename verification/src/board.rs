//! A single 3x3 board: cell state, move application and win/tie detection.
//!
//! Cells are numbered 0..9 row-major and hold `0` (empty), `1` (player 0's
//! circle) or `2` (player 1's cross). The board's status starts at
//! `NotCompleted` and moves to a terminal value exactly once; after that no
//! further moves are applied and completion checks leave it unchanged.

use vstd::prelude::*;

use crate::text::{dec_digits, u16_to_string};

verus! {

/// The glyph a cell renders as: a circle, a cross, or a dash when empty.
pub open spec fn glyph_of(mark: u8) -> char {
    if mark == 1 {
        'O'
    } else if mark == 2 {
        'X'
    } else {
        '-'
    }
}

/// One rendered row of the grid: three pipe-separated glyphs, indented.
pub open spec fn row_text(cells: Seq<u8>, r: int) -> Seq<char> {
    "           "@ + seq![glyph_of(cells[3 * r])] + seq!['|'] + seq![glyph_of(cells[3 * r + 1])]
        + seq!['|'] + seq![glyph_of(cells[3 * r + 2])]
}

/// The whole rendered board: a title line with the board number, then the
/// three rows of the grid.
pub open spec fn board_text_spec(v: BoardView) -> Seq<char> {
    "-=- Displaying Board "@ + dec_digits(v.name as nat) + " -=-\n"@ + row_text(v.cells, 0)
        + "\n"@ + row_text(v.cells, 1) + "\n"@ + row_text(v.cells, 2)
}

/// How a board ended, or that it has not ended yet. The payload of `WonBy`
/// and `ForfeitedBy` is the player index (0 or 1).
#[derive(Clone, Copy, PartialEq, Eq, Structural, Debug)]
pub enum CompletionReason {
    NotCompleted,
    Tied,
    WonBy(u8),
    ForfeitedBy(u8),
}

/// A rejected move: the target cell is occupied or out of range, or an
/// automatic move was requested on a board with no empty cell left.
#[derive(Clone, Copy, PartialEq, Eq, Structural, Debug)]
pub enum MoveError {
    IllegalMove,
    NoEmptyCells,
}

/// The mathematical model of a board.
pub ghost struct BoardView {
    pub name: u16,
    pub cells: Seq<u8>,
    pub completion_reason: CompletionReason,
    pub first_move: bool,
    pub winning_line: Option<(u8, u8, u8)>,
}

/// The mark written into a cell by the given player: player 0 writes 1,
/// player 1 writes 2.
pub open spec fn mark_of(player_iter: u8) -> u8 {
    (player_iter + 1) as u8
}

/// All nine cells are empty.
pub open spec fn all_empty(cells: Seq<u8>) -> bool {
    forall|i: int| 0 <= i < 9 ==> cells[i] == 0
}

/// No cell is empty.
pub open spec fn board_full(cells: Seq<u8>) -> bool {
    forall|i: int| 0 <= i < 9 ==> cells[i] != 0
}

/// The three given cells all carry the given mark.
pub open spec fn line_won(cells: Seq<u8>, mark: u8, a: int, b: int, c: int) -> bool {
    cells[a] == mark && cells[b] == mark && cells[c] == mark
}

/// The eight winning lines: three rows, three columns, two diagonals.
pub open spec fn is_win_line(a: int, b: int, c: int) -> bool {
    ||| (a == 0 && b == 1 && c == 2)
    ||| (a == 3 && b == 4 && c == 5)
    ||| (a == 6 && b == 7 && c == 8)
    ||| (a == 0 && b == 3 && c == 6)
    ||| (a == 1 && b == 4 && c == 7)
    ||| (a == 2 && b == 5 && c == 8)
    ||| (a == 0 && b == 4 && c == 8)
    ||| (a == 2 && b == 4 && c == 6)
}

/// Some winning line is filled with the given mark.
pub open spec fn has_won(cells: Seq<u8>, mark: u8) -> bool {
    ||| line_won(cells, mark, 0, 1, 2)
    ||| line_won(cells, mark, 3, 4, 5)
    ||| line_won(cells, mark, 6, 7, 8)
    ||| line_won(cells, mark, 0, 3, 6)
    ||| line_won(cells, mark, 1, 4, 7)
    ||| line_won(cells, mark, 2, 5, 8)
    ||| line_won(cells, mark, 0, 4, 8)
    ||| line_won(cells, mark, 2, 4, 6)
}

/// The first winning line filled with the given mark, in the fixed order the
/// completion check walks them.
pub open spec fn first_win_line(cells: Seq<u8>, mark: u8) -> (u8, u8, u8)
    recommends
        has_won(cells, mark),
{
    if line_won(cells, mark, 0, 1, 2) {
        (0u8, 1u8, 2u8)
    } else if line_won(cells, mark, 3, 4, 5) {
        (3u8, 4u8, 5u8)
    } else if line_won(cells, mark, 6, 7, 8) {
        (6u8, 7u8, 8u8)
    } else if line_won(cells, mark, 0, 3, 6) {
        (0u8, 3u8, 6u8)
    } else if line_won(cells, mark, 1, 4, 7) {
        (1u8, 4u8, 7u8)
    } else if line_won(cells, mark, 2, 5, 8) {
        (2u8, 5u8, 8u8)
    } else if line_won(cells, mark, 0, 4, 8) {
        (0u8, 4u8, 8u8)
    } else {
        (2u8, 4u8, 6u8)
    }
}

/// The board after the given player marks the given empty cell.
pub open spec fn placed(v: BoardView, i: int, player_iter: u8) -> BoardView {
    BoardView { cells: v.cells.update(i, mark_of(player_iter)), first_move: false, ..v }
}

/// What a completion check by the given player leaves behind: a terminal
/// board is untouched; otherwise a filled winning line of the player's mark
/// wins (the first such line, in the fixed order, is recorded), a full board
/// with no such line is tied, and anything else stays in progress.
pub open spec fn check_result(v: BoardView, player_iter: u8) -> BoardView {
    if !(v.completion_reason is NotCompleted) {
        v
    } else if has_won(v.cells, mark_of(player_iter)) {
        BoardView {
            completion_reason: CompletionReason::WonBy(player_iter),
            winning_line: Some(first_win_line(v.cells, mark_of(player_iter))),
            ..v
        }
    } else if board_full(v.cells) {
        BoardView { completion_reason: CompletionReason::Tied, ..v }
    } else {
        v
    }
}

impl BoardView {
    /// Structural validity: nine cells holding marks at most 2, the
    /// first-move flag tracking emptiness, a recorded winner only together
    /// with its filled line.
    pub open spec fn wf(self) -> bool {
        &&& self.cells.len() == 9

        &&& forall|i: int| 0 <= i < 9 ==> #[trigger] self.cells[i] <= 2
        &&& self.first_move <==> all_empty(self.cells)
        &&& match self.completion_reason {
            CompletionReason::NotCompleted => true,
            CompletionReason::Tied => true,
            CompletionReason::WonBy(p) => {
                &&& p < 2
                &&& has_won(self.cells, mark_of(p))
                &&& self.winning_line == Some(first_win_line(self.cells, mark_of(p)))
            },
            CompletionReason::ForfeitedBy(p) => p < 2,
        }
        &&& !(self.completion_reason is WonBy) ==> self.winning_line is None
    }

    /// The board has not yet reached a terminal status.
    pub open spec fn in_progress(self) -> bool {
        self.completion_reason is NotCompleted
    }
}

/// One 3x3 board of the running match.
pub struct Board {
    pub name: u16,
    pub positions: Vec<u8>,
    pub completion_reason: CompletionReason,
    pub first_move: bool,
    pub winning_line: Option<(u8, u8, u8)>,
}

impl View for Board {
    type V = BoardView;

    open spec fn view(&self) -> BoardView {
        BoardView {
            name: self.name,
            cells: self.positions@,
            completion_reason: self.completion_reason,
            first_move: self.first_move,
            winning_line: self.winning_line,
        }
    }
}

/// Relies on fastrand::shuffle: an in-place Fisher-Yates shuffle, which only
/// swaps elements of the slice, so the multiset of elements is unchanged.
#[verifier::external_body]
fn shuffle_cells(v: &mut Vec<u8>)
    ensures
        final(v)@.to_multiset() == old(v)@.to_multiset(),
{
    fastrand::shuffle(v);
}

impl Board {
    /// Creates a fresh board with the given display number: all cells empty,
    /// no completion, awaiting its forced first move.
    pub fn new(input_name: u16) -> (b: Board)
        ensures
            b@.wf(),
            b@.name == input_name,
            b@.in_progress(),
            all_empty(b@.cells),
            b@.first_move,
            b@.winning_line is None,
    {
        let positions: Vec<u8> = vec![0u8; 9];
        Board {
            name: input_name,
            positions,
            completion_reason: CompletionReason::NotCompleted,
            first_move: true,
            winning_line: None,
        }
    }

    /// True iff the given cell holds the given value.
    pub fn check_equal(&self, i: u8, value: u8) -> (r: bool)
        requires
            i < 9,
            self@.cells.len() == 9,
        ensures
            r == (self@.cells[i as int] == value),
    {
        self.positions[i as usize] == value
    }

    /// True iff no cell is empty.
    pub fn is_full(&self) -> (r: bool)
        requires
            self@.cells.len() == 9,
        ensures
            r == board_full(self@.cells),
    {
        let mut i: usize = 0;
        while i < 9
            invariant
                i <= 9,
                self@.cells.len() == 9,
                forall|j: int| 0 <= j < i ==> self@.cells[j] != 0,
            decreases 9 - i,
        {
            if self.positions[i] == 0 {
                return false;
            }
            i = i + 1;
        }
        true
    }

    /// Recomputes the first-move flag from the cells: true iff all are empty.
    pub fn check_first_move(&mut self)
        requires
            old(self)@.cells.len() == 9,
        ensures
            final(self)@ == (BoardView { first_move: all_empty(old(self)@.cells), ..old(self)@ }),
    {
        let mut empty = true;
        let mut i: usize = 0;
        while i < 9
            invariant
                i <= 9,
                self == old(self),
                self@.cells.len() == 9,
                empty == (forall|j: int| 0 <= j < i ==> self@.cells[j] == 0),
            decreases 9 - i,
        {
            if self.positions[i] != 0 {
                empty = false;
            }
            i = i + 1;
        }
        self.first_move = empty;
    }

    /// Picks a uniformly random empty cell and returns its index.
    pub fn gen_rand_pos(&self) -> (r: u8)
        requires
            self@.cells.len() == 9,
            !board_full(self@.cells),
        ensures
            r < 9,
            self@.cells[r as int] == 0,
    {
        let mut rand_pos_vec: Vec<u8> = Vec::new();
        let mut i: usize = 0;
        while i < 9
            invariant
                i <= 9,
                self@.cells.len() == 9,
                forall|k: int|
                    0 <= k < rand_pos_vec@.len() ==> #[trigger] rand_pos_vec@[k] < 9
                        && self@.cells[rand_pos_vec@[k] as int] == 0,
                (exists|j: int| 0 <= j < i && self@.cells[j] == 0) ==> rand_pos_vec@.len() >= 1,
            decreases 9 - i,
        {
            if self.positions[i] == 0 {
                rand_pos_vec.push(i as u8);
            }
            i = i + 1;
        }
        let ghost pre = rand_pos_vec@;
        shuffle_cells(&mut rand_pos_vec);
        proof {
            broadcast use vstd::seq_lib::group_to_multiset_ensures;

            assert(pre.to_multiset().len() == rand_pos_vec@.to_multiset().len());
            assert(rand_pos_vec@.len() == pre.len());
            assert(rand_pos_vec@.len() >= 1);
            let x = rand_pos_vec@[0];
            assert(rand_pos_vec@.contains(x));
            assert(rand_pos_vec@.to_multiset().count(x) > 0);
            assert(pre.to_multiset().count(x) > 0);
            assert(pre.contains(x));
            let k = choose|k: int| 0 <= k < pre.len() && pre[k] == x;
            assert(pre[k] < 9 && self@.cells[pre[k] as int] == 0);
        }
        rand_pos_vec[0]
    }

    /// Applies one move for the given player. A positive `position_num`
    /// selects that cell (1-indexed); it must be in range and empty, else the
    /// move is rejected as illegal and the board is unchanged. A
    /// `position_num` of 0 asks for a uniformly random empty cell; on a full
    /// board that is rejected, with the board unchanged.
    pub fn update_pos(&mut self, position_num: u8, turn: u8) -> (r: Result<(), MoveError>)
        requires
            old(self)@.wf(),
            old(self)@.in_progress(),
            turn < 2,
        ensures
            final(self)@.wf(),
            final(self)@.in_progress(),
            ({
                let v = old(self)@;
                if position_num > 9 || (position_num >= 1 && v.cells[position_num - 1] != 0) {
                    r == Err::<(), MoveError>(MoveError::IllegalMove) && final(self)@ == v
                } else if position_num >= 1 {
                    r == Ok::<(), MoveError>(()) && final(self)@ == placed(
                        v,
                        position_num - 1,
                        turn,
                    )
                } else if board_full(v.cells) {
                    r == Err::<(), MoveError>(MoveError::NoEmptyCells) && final(self)@ == v
                } else {
                    r == Ok::<(), MoveError>(()) && exists|i: int|
                        0 <= i < 9 && v.cells[i] == 0 && final(self)@ == placed(v, i, turn)
                }
            }),
    {
        if position_num > 9 {
            return Err(MoveError::IllegalMove);
        }
        if position_num >= 1 {
            let cell = (position_num - 1) as usize;
            if self.positions[cell] != 0 {
                return Err(MoveError::IllegalMove);
            }
            self.positions[cell] = turn + 1;
            self.first_move = false;
            return Ok(());
        }
        if self.is_full() {
            return Err(MoveError::NoEmptyCells);
        }
        let cell = self.gen_rand_pos() as usize;
        self.positions[cell] = turn + 1;
        self.first_move = false;
        Ok(())
    }

    /// Marks the board completed for the given reason. A recorded winning
    /// line, if any, is cleared; wins detected by the completion check carry
    /// their line there instead.
    pub fn update_cmpd(&mut self, reason: CompletionReason)
        requires
            old(self)@.wf(),
            reason is Tied || (reason matches CompletionReason::ForfeitedBy(p) && p < 2),
        ensures
            final(self)@ == (BoardView {
                completion_reason: reason,
                winning_line: None,
                ..old(self)@
            }),
            final(self)@.wf(),
    {
        self.completion_reason = reason;
        self.winning_line = None;
    }

    /// True iff the three given cells all carry the given mark.
    fn check_line(&self, a: usize, b: usize, c: usize, mark: u8) -> (r: bool)
        requires
            self@.cells.len() == 9,
            a < 9,
            b < 9,
            c < 9,
        ensures
            r == line_won(self@.cells, mark, a as int, b as int, c as int),
    {
        self.positions[a] == mark && self.positions[b] == mark && self.positions[c] == mark
    }

    /// The one-character string for a cell's glyph.
    fn glyph_str(mark: u8) -> (s: &'static str)
        ensures
            s@ == seq![glyph_of(mark)],
    {
        proof {
            reveal_strlit("O");
            reveal_strlit("X");
            reveal_strlit("-");
        }
        let s: &'static str = if mark == 1 {
            "O"
        } else if mark == 2 {
            "X"
        } else {
            "-"
        };
        proof {
            assert(s@ =~= seq![glyph_of(mark)]);
        }
        s
    }

    /// Appends one rendered row of the grid to the text being built.
    fn append_row(&self, s: &mut String, r: usize)
        requires
            self@.cells.len() == 9,
            r < 3,
        ensures
            final(s)@ == old(s)@ + row_text(self@.cells, r as int),
    {
        proof {
            reveal_strlit("           ");
            reveal_strlit("|");
            assert("|"@ =~= seq!['|']);
        }
        s.append("           ");
        s.append(Self::glyph_str(self.positions[3 * r]));
        s.append("|");
        s.append(Self::glyph_str(self.positions[3 * r + 1]));
        s.append("|");
        s.append(Self::glyph_str(self.positions[3 * r + 2]));
    }

    /// Renders the board as plain text: a title line with the board number,
    /// then three lines of three pipe-separated glyphs.
    pub fn board_text(&self) -> (s: String)
        requires
            self@.cells.len() == 9,
        ensures
            s@ == board_text_spec(self@),
    {
        let mut s = String::from_str("-=- Displaying Board ");
        let num = u16_to_string(self.name);
        s.append(num.as_str());
        s.append(" -=-\n");
        self.append_row(&mut s, 0);
        s.append("\n");
        self.append_row(&mut s, 1);
        s.append("\n");
        self.append_row(&mut s, 2);
        s
    }

    /// Runs the completion check for the given player: on a terminal board a
    /// no-op; otherwise the first winning line of the player's mark wins the
    /// board and is recorded, and a full board with no such line ties.
    pub fn check_completed(&mut self, player_iter: u8) -> (done: bool)
        requires
            old(self)@.wf(),
            player_iter < 2,
        ensures
            final(self)@ == check_result(old(self)@, player_iter),
            final(self)@.wf(),
            done == !final(self)@.in_progress(),
    {
        match self.completion_reason {
            CompletionReason::NotCompleted => {},
            _ => {
                return true;
            },
        }
        let mark = player_iter + 1;
        if self.check_line(0, 1, 2, mark) {
            self.completion_reason = CompletionReason::WonBy(player_iter);
            self.winning_line = Some((0u8, 1u8, 2u8));
            return true;
        }
        if self.check_line(3, 4, 5, mark) {
            self.completion_reason = CompletionReason::WonBy(player_iter);
            self.winning_line = Some((3u8, 4u8, 5u8));
            return true;
        }
        if self.check_line(6, 7, 8, mark) {
            self.completion_reason = CompletionReason::WonBy(player_iter);
            self.winning_line = Some((6u8, 7u8, 8u8));
            return true;
        }
        if self.check_line(0, 3, 6, mark) {
            self.completion_reason = CompletionReason::WonBy(player_iter);
            self.winning_line = Some((0u8, 3u8, 6u8));
            return true;
        }
        if self.check_line(1, 4, 7, mark) {
            self.completion_reason = CompletionReason::WonBy(player_iter);
            self.winning_line = Some((1u8, 4u8, 7u8));
            return true;
        }
        if self.check_line(2, 5, 8, mark) {
            self.completion_reason = CompletionReason::WonBy(player_iter);
            self.winning_line = Some((2u8, 5u8, 8u8));
            return true;
        }
        if self.check_line(0, 4, 8, mark) {
            self.completion_reason = CompletionReason::WonBy(player_iter);
            self.winning_line = Some((0u8, 4u8, 8u8));
            return true;
        }
        if self.check_line(2, 4, 6, mark) {
            self.completion_reason = CompletionReason::WonBy(player_iter);
            self.winning_line = Some((2u8, 4u8, 6u8));
            return true;
        }
        if self.is_full() {
            self.completion_reason = CompletionReason::Tied;
            return true;
        }
        false
    }
}

/// Law: the completion check is idempotent. A terminal board is left exactly
/// as it is, so a second check right after one that reached a terminal status
/// changes nothing, whichever player runs it.
pub proof fn lemma_check_completion_idempotent(v: BoardView, p: u8, q: u8)
    ensures
        !(v.completion_reason is NotCompleted) ==> check_result(v, p) == v,
        !(check_result(v, p).completion_reason is NotCompleted) ==> check_result(
            check_result(v, p),
            q,
        ) == check_result(v, p),
{
}

/// Law: when some winning line is filled with the acting player's own
/// non-empty mark, the completion check on a board still in progress reports
/// a win by that player and no other status.
pub proof fn lemma_win_line_reported(v: BoardView, p: u8, a: int, b: int, c: int)
    requires
        v.completion_reason is NotCompleted,
        p < 2,
        is_win_line(a, b, c),
        line_won(v.cells, mark_of(p), a, b, c),
    ensures
        mark_of(p) != 0,
        check_result(v, p).completion_reason == CompletionReason::WonBy(p),
{
}

/// Law: a board with all nine cells filled and no winning line of the acting
/// player's mark is reported tied by the completion check.
pub proof fn lemma_full_board_tied(v: BoardView, p: u8)
    requires
        v.completion_reason is NotCompleted,
        board_full(v.cells),
        !has_won(v.cells, mark_of(p)),
    ensures
        check_result(v, p).completion_reason == CompletionReason::Tied,
{
}

} // verus!

