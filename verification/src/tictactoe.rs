//! The tic-tac-toe environment: a bit-packed board, its transition rules,
//! win and draw detection, and an enumerator over the currently legal moves.
//!
//! Cells are numbered 0 through 8 in row-major order; bit `a` of an occupancy
//! mask is set exactly when cell `a` holds a mark of that player.

use vstd::prelude::*;

use crate::abstract_game::lemma_log_push;
use crate::abstract_game::lemma_log_wf_turns;
use crate::abstract_game::log_wf;
use crate::abstract_game::replay;
use crate::abstract_game::ActionIterator;
use crate::abstract_game::Environment;

verus! {

/// Identity of a seat at the table: the player moving first or second.
#[derive(Debug, PartialEq, Eq, Clone, Copy, Hash, Structural)]
pub enum AgentId {
    X,
    O,
}

impl AgentId {
    /// The one-letter name of the seat, for rendering.
    pub fn name(&self) -> (r: &'static str)
        ensures
            *self == AgentId::X ==> r@ == "X"@,
            *self == AgentId::O ==> r@ == "O"@,
    {
        match self {
            AgentId::X => "X",
            AgentId::O => "O",
        }
    }
}

/// An action names a board cell, a number from 0 to 8.
pub type Action = u8;

/// The mask with one bit per board cell: a full board ORs to exactly this.
pub const FULL_BOARD: u16 = 0b111111111;

/// True when bit `a` of `mask` is set, that is, when cell `a` is marked.
pub open spec fn bit_set(mask: u16, a: u8) -> bool {
    (mask >> (a as u16)) & 1 == 1
}

/// True when `position` covers one of the eight winning lines:
/// three rows, three columns, two diagonals.
pub open spec fn wins(position: u16) -> bool {
    (position & 0b111) == 0b111
    || (position & 0b111000) == 0b111000
    || (position & 0b111000000) == 0b111000000
    || (position & 0b1001001) == 0b1001001
    || (position & 0b10010010) == 0b10010010
    || (position & 0b100100100) == 0b100100100
    || (position & 0b100010001) == 0b100010001
    || (position & 0b1010100) == 0b1010100
}

/// Checks whether one player's occupancy mask covers a winning line.
pub fn is_winning(position: u16) -> (r: bool)
    ensures
        r == wins(position),
{
    (position & 0b111) == 0b111
    || (position & 0b111000) == 0b111000
    || (position & 0b111000000) == 0b111000000
    || (position & 0b1001001) == 0b1001001
    || (position & 0b10010010) == 0b10010010
    || (position & 0b100100100) == 0b100100100
    || (position & 0b100010001) == 0b100010001
    || (position & 0b1010100) == 0b1010100
}

/// Representation of the tic-tac-toe board: one occupancy mask per player
/// and the seat that moves next. A well-formed board (see `inv`) keeps both
/// masks inside the nine board cells and disjoint from each other.
#[derive(Debug, Clone, Copy, Eq, PartialEq, Hash, Structural)]
pub struct Board {
    /// Bit `a` is set where player X has marked cell `a`.
    pub moves_x: u16,
    /// Bit `a` is set where player O has marked cell `a`.
    pub moves_o: u16,
    /// The player that will make the next move.
    pub turn: AgentId,
}

/// True when every cell of the board carries a mark of some player.
pub open spec fn filled(board: Board) -> bool {
    (board.moves_x | board.moves_o) & FULL_BOARD == FULL_BOARD
}

/// Checks whether the whole board is filled.
pub fn is_filled(board: &Board) -> (r: bool)
    ensures
        r == filled(*board),
{
    let full = FULL_BOARD;
    let fill = (board.moves_x | board.moves_o) & full;
    fill == full
}

/// The five characters rendering one cell: the mark of the player holding
/// it, spaces when it is free, and a question mark where both masks claim
/// it, an invariant violation that is rendered defensively rather than
/// treated as an error.
pub open spec fn cell_text(board: Board, a: Action) -> Seq<char> {
    if bit_set(board.moves_x, a) && !bit_set(board.moves_o, a) {
        "| X |"@
    } else if !bit_set(board.moves_x, a) && bit_set(board.moves_o, a) {
        "| O |"@
    } else if !bit_set(board.moves_x, a) && !bit_set(board.moves_o, a) {
        "|   |"@
    } else {
        "| ? |"@
    }
}

/// The rendering of the first `n` cells of the grid, row-major, with a line
/// break after every third cell.
pub open spec fn grid_text(board: Board, n: int) -> Seq<char>
    decreases n,
{
    if n <= 0 {
        Seq::empty()
    } else {
        grid_text(board, n - 1) + cell_text(board, (n - 1) as u8) + (if n % 3 == 0 {
            "\n"@
        } else {
            Seq::empty()
        })
    }
}

/// The full human-readable rendering of a board: the three rows of the grid,
/// each followed by a line break, then a literal end marker.
pub open spec fn render_text(board: Board) -> Seq<char> {
    grid_text(board, 9) + "End of board"@
}

impl Board {
    /// True when cell `a` carries a mark of either player.
    pub open spec fn spec_occupied(&self, a: Action) -> bool {
        bit_set(self.moves_x, a) || bit_set(self.moves_o, a)
    }

    /// Renders the board as a 3-by-3 grid of `| X |`, `| O |` and blank
    /// cells, one row per line, closed by an end marker.
    pub fn render(&self) -> (r: String)
        ensures
            r@ == render_text(*self),
    {
        let mut s = String::from_str("");
        proof {
            reveal_strlit("");
            assert(s@ =~= grid_text(*self, 0));
        }
        let mut i: u8 = 0;
        while i < 9
            invariant
                i <= 9,
                s@ == grid_text(*self, i as int),
            decreases 9 - i,
        {
            let x_pos = (self.moves_x >> (i as u16)) & 1 == 1;
            let o_pos = (self.moves_o >> (i as u16)) & 1 == 1;
            if x_pos && !o_pos {
                s.append("| X |");
            } else if !x_pos && o_pos {
                s.append("| O |");
            } else if !x_pos && !o_pos {
                s.append("|   |");
            } else {
                s.append("| ? |");
            }
            i = i + 1;
            if i % 3 == 0 {
                s.append("\n");
            }
            proof {
                assert(s@ =~= grid_text(*self, i as int));
            }
        }
        s.append("End of board");
        proof {
            assert(s@ =~= render_text(*self));
        }
        s
    }
}

impl Environment for Board {
    type ActionIter = NextAction;

    open spec fn inv(&self) -> bool {
        &&& self.moves_x & FULL_BOARD == self.moves_x
        &&& self.moves_o & FULL_BOARD == self.moves_o
        &&& self.moves_x & self.moves_o == 0
    }

    open spec fn spec_initial() -> Self {
        Board { moves_x: 0, moves_o: 0, turn: AgentId::X }
    }

    open spec fn spec_turn(&self) -> AgentId {
        self.turn
    }

    open spec fn spec_valid(&self, a: Action) -> bool {
        a <= 8 && !self.spec_occupied(a)
    }

    open spec fn spec_after(&self, a: Action) -> Self {
        if self.turn == AgentId::X {
            Board { moves_x: self.moves_x | (1u16 << (a as u16)), moves_o: self.moves_o, turn: AgentId::O }
        } else {
            Board { moves_x: self.moves_x, moves_o: self.moves_o | (1u16 << (a as u16)), turn: AgentId::X }
        }
    }

    open spec fn spec_is_terminal(&self) -> bool {
        wins(self.moves_x) || wins(self.moves_o) || filled(*self)
    }

    open spec fn spec_winner(&self) -> Option<AgentId> {
        if wins(self.moves_x) {
            Some(AgentId::X)
        } else if wins(self.moves_o) {
            Some(AgentId::O)
        } else {
            None
        }
    }

    open spec fn spec_actions(&self) -> Seq<Action> {
        if self.spec_is_terminal() {
            Seq::empty()
        } else {
            remaining_from(self.moves_o | self.moves_x, 0)
        }
    }

    /// Initializes an empty tic-tac-toe board, player X to move.
    fn initial_state() -> (r: Self) {
        proof {
            assert(0u16 & 0b111111111u16 == 0u16 && 0u16 & 0u16 == 0u16) by (bit_vector);
        }
        Board { moves_x: 0, moves_o: 0, turn: AgentId::X }
    }

    /// Returns the seat of the player for the next move.
    fn turn(&self) -> (r: AgentId) {
        self.turn
    }

    /// Returns true iff the action `a` names an unmarked cell of the board.
    fn is_valid(&self, a: &Action) -> (r: bool) {
        let act = *a;
        act <= 8 && (self.moves_x >> (act as u16)) & 1 != 1 && (self.moves_o >> (act as u16)) & 1
            != 1
    }

    /// Updates the board by marking the cell given by `a` for the player to
    /// move and flipping the turn. Returns true iff the board was updated.
    fn update(&mut self, a: &Action) -> (r: bool) {
        if !self.is_valid(a) {
            false
        } else {
            let act = *a;
            let m = 1u16 << (act as u16);
            let ghost mx = self.moves_x;
            let ghost mo = self.moves_o;
            proof {
                assert({
                    &&& (mx | (1u16 << (act as u16))) & 0b111111111u16 == (mx | (1u16 << (act as u16)))
                    &&& (mx | (1u16 << (act as u16))) & mo == 0
                    &&& (mo | (1u16 << (act as u16))) & 0b111111111u16 == (mo | (1u16 << (act as u16)))
                    &&& mx & (mo | (1u16 << (act as u16))) == 0
                }) by (bit_vector)
                    requires
                        mx & 0b111111111u16 == mx,
                        mo & 0b111111111u16 == mo,
                        mx & mo == 0,
                        act <= 8,
                        (mx >> (act as u16)) & 1 != 1,
                        (mo >> (act as u16)) & 1 != 1,
                ;
            }
            if self.turn == AgentId::X {
                self.moves_x = self.moves_x | m;
                self.turn = AgentId::O;
            } else {
                self.moves_o = self.moves_o | m;
                self.turn = AgentId::X;
            }
            true
        }
    }

    /// Returns a board with what would happen if action `a` were performed.
    fn what_if(&self, a: &Action) -> (r: Self) {
        let mut board = self.clone();
        board.update(a);
        board
    }

    /// Produces the enumeration of legal actions in the current board.
    fn valid_actions(&self) -> (r: Self::ActionIter) {
        let next_action = NextAction::new(self);
        next_action
    }

    /// Returns true iff the board is in a terminal position: a winning line
    /// for either player, or a full board.
    fn is_terminal(&self) -> (r: bool) {
        if is_winning(self.moves_x) {
            true
        } else if is_winning(self.moves_o) {
            true
        } else if is_filled(self) {
            true
        } else {
            false
        }
    }

    /// Returns `Some` with the seat of the player who completed a winning
    /// line; returns `None` while nobody has won, in draws included.
    fn winner(&self) -> (r: Option<AgentId>) {
        if is_winning(self.moves_x) {
            Some(AgentId::X)
        } else if is_winning(self.moves_o) {
            Some(AgentId::O)
        } else {
            None
        }
    }
}

/// The cells at or after `cur` whose bit in `state` is clear, in ascending
/// order: what an enumerator with occupancy `state` and cursor `cur` yields.
pub open spec fn remaining_from(state: u16, cur: u8) -> Seq<Action>
    decreases 9 - cur,
{
    if cur >= 9 {
        Seq::empty()
    } else if (state >> (cur as u16)) & 1 == 1 {
        remaining_from(state, (cur + 1) as u8)
    } else {
        seq![cur] + remaining_from(state, (cur + 1) as u8)
    }
}

/// Enumerator over the free cells of a board: holds the combined occupancy
/// of both players and a cursor, and yields each free cell in ascending
/// order. A terminal board yields nothing: its cursor starts past the end.
pub struct NextAction {
    board_state: u16,
    current: Action,
}

impl NextAction {
    /// Initializes the enumeration of legal actions of `board`.
    pub fn new(board: &Board) -> (r: Self)
        requires
            board.inv(),
        ensures
            r.inv(),
            r.remaining() == board.spec_actions(),
    {
        let board_state = board.moves_o | board.moves_x;
        proof {
            let mx = board.moves_x;
            let mo = board.moves_o;
            assert((mo | mx) >> 9 == 0) by (bit_vector)
                requires
                    mx & 0b111111111u16 == mx,
                    mo & 0b111111111u16 == mo,
            ;
        }
        let current: Action = if board.is_terminal() {
            9
        } else {
            0
        };
        proof {
            if board.spec_is_terminal() {
                assert(remaining_from(board_state, 9) =~= Seq::<Action>::empty());
            }
        }
        NextAction { board_state, current }
    }
}

impl ActionIterator for NextAction {
    closed spec fn inv(&self) -> bool {
        self.current <= 9 && self.board_state >> 9 == 0
    }

    closed spec fn remaining(&self) -> Seq<Action> {
        remaining_from(self.board_state, self.current)
    }

    /// Yields the next free cell at or after the cursor, advancing past it.
    fn next(&mut self) -> (r: Option<Action>) {
        let ghost orig = *self;
        while self.current < 9 && (self.board_state >> (self.current as u16)) & 1 == 1
            invariant
                self.inv(),
                self.board_state == orig.board_state,
                remaining_from(self.board_state, self.current) == orig.remaining(),
            decreases 9 - self.current,
        {
            self.current += 1;
        }
        if self.current > 8 {
            None
        } else {
            let out = self.current;
            self.current += 1;
            proof {
                assert(orig.remaining() == seq![out] + remaining_from(self.board_state, self.current));
                assert(remaining_from(self.board_state, self.current) =~= orig.remaining().skip(1));
            }
            Some(out)
        }
    }
}

/// What an enumerator over `state` with cursor `cur` yields: exactly the
/// cells from `cur` up whose bit in `state` is clear, each once, in strictly
/// ascending order.
pub proof fn lemma_remaining_elems(state: u16, cur: u8)
    requires
        cur <= 9,
    ensures
        forall|a: Action| #[trigger] remaining_from(state, cur).contains(a) <==> (cur <= a && a < 9
            && (state >> (a as u16)) & 1 != 1),
        forall|i: int, j: int|
            #![trigger remaining_from(state, cur)[i], remaining_from(state, cur)[j]]
            0 <= i < j < remaining_from(state, cur).len() ==> remaining_from(state, cur)[i]
                < remaining_from(state, cur)[j],
    decreases 9 - cur,
{
    let r = remaining_from(state, cur);
    if cur >= 9 {
        assert(r.len() == 0);
    } else {
        let succ = (cur + 1) as u8;
        lemma_remaining_elems(state, succ);
        let tail = remaining_from(state, succ);
        if (state >> (cur as u16)) & 1 == 1 {
            assert(r == tail);
            assert forall|a: Action| #[trigger] r.contains(a) <==> (cur <= a && a < 9 && (state >> (a as u16)) & 1 != 1) by {
                if a == cur {
                    assert(!(succ <= a));
                    assert((state >> (a as u16)) & 1 == 1);
                }
            }
        } else {
            assert(r == seq![cur] + tail);
            assert(r.len() == 1 + tail.len());
            assert(r[0] == cur);
            assert(forall|i: int| 0 <= i < tail.len() ==> r[i + 1] == #[trigger] tail[i]);
            assert forall|a: Action| #[trigger] r.contains(a) <==> (cur <= a && a < 9 && (state >> (a as u16)) & 1 != 1) by {
                if r.contains(a) {
                    let i = choose|i: int| 0 <= i < r.len() && r[i] == a;
                    if i > 0 {
                        assert(tail[i - 1] == a);
                        assert(tail.contains(a));
                    }
                }
                if cur <= a && a < 9 && (state >> (a as u16)) & 1 != 1 {
                    if a == cur {
                        assert(r[0] == a);
                        assert(r.contains(a));
                    } else {
                        assert(succ <= a);
                        assert(tail.contains(a));
                        let i = choose|i: int| 0 <= i < tail.len() && tail[i] == a;
                        assert(r[i + 1] == a);
                        assert(r.contains(a));
                    }
                }
            }
            assert forall|i: int, j: int|
                #![trigger r[i], r[j]]
                0 <= i < j < r.len() implies r[i] < r[j] by {
                if i == 0 {
                    assert(r[j] == tail[j - 1]);
                    assert(tail.contains(tail[j - 1]));
                    assert(succ <= tail[j - 1]);
                } else {
                    assert(r[i] == tail[i - 1] && r[j] == tail[j - 1]);
                }
            }
        }
    }
}

/// The enumeration of a live board is exactly its set of valid actions, in
/// strictly ascending order, and so free of duplicates. A terminal board is
/// the one exception: it enumerates nothing, even where free cells remain.
pub proof fn lemma_valid_actions_exact(b: Board)
    requires
        b.inv(),
        !b.spec_is_terminal(),
    ensures
        forall|a: Action| #[trigger] b.spec_actions().contains(a) <==> b.spec_valid(a),
        forall|i: int, j: int|
            #![trigger b.spec_actions()[i], b.spec_actions()[j]]
            0 <= i < j < b.spec_actions().len() ==> b.spec_actions()[i] < b.spec_actions()[j],
{
    let mx = b.moves_x;
    let mo = b.moves_o;
    let occ = mo | mx;
    lemma_remaining_elems(occ, 0);
    assert(b.spec_actions() == remaining_from(occ, 0));
    assert forall|a: Action| #[trigger] b.spec_actions().contains(a) <==> b.spec_valid(a) by {
        assert(((mo | mx) >> (a as u16)) & 1 != 1 <==> ((mx >> (a as u16)) & 1 != 1 && (mo >> (a as u16)) & 1 != 1)) by (bit_vector);
    }
}

/// A position is terminal exactly when somebody has completed a winning line
/// or every one of the nine cells carries a mark; and the one-mask statement
/// of a full board says exactly that every cell is occupied.
pub proof fn lemma_terminal_characterization(b: Board)
    ensures
        b.spec_is_terminal() <==> (b.spec_winner() is Some || filled(b)),
        filled(b) <==> (forall|a: Action| a < 9 ==> #[trigger] b.spec_occupied(a)),
{
    let mx = b.moves_x;
    let mo = b.moves_o;
    if filled(b) {
        assert forall|a: Action| a < 9 implies #[trigger] b.spec_occupied(a) by {
            assert((mx >> (a as u16)) & 1 == 1 || (mo >> (a as u16)) & 1 == 1) by (bit_vector)
                requires
                    (mx | mo) & 0b111111111u16 == 0b111111111u16,
                    a < 9,
            ;
        }
    }
    if forall|a: Action| a < 9 ==> #[trigger] b.spec_occupied(a) {
        assert(b.spec_occupied(0) && b.spec_occupied(1) && b.spec_occupied(2) && b.spec_occupied(3)
            && b.spec_occupied(4) && b.spec_occupied(5) && b.spec_occupied(6) && b.spec_occupied(7)
            && b.spec_occupied(8));
        assert((mx | mo) & 0b111111111u16 == 0b111111111u16) by (bit_vector)
            requires
                (mx >> (0u8 as u16)) & 1 == 1 || (mo >> (0u8 as u16)) & 1 == 1,
                (mx >> (1u8 as u16)) & 1 == 1 || (mo >> (1u8 as u16)) & 1 == 1,
                (mx >> (2u8 as u16)) & 1 == 1 || (mo >> (2u8 as u16)) & 1 == 1,
                (mx >> (3u8 as u16)) & 1 == 1 || (mo >> (3u8 as u16)) & 1 == 1,
                (mx >> (4u8 as u16)) & 1 == 1 || (mo >> (4u8 as u16)) & 1 == 1,
                (mx >> (5u8 as u16)) & 1 == 1 || (mo >> (5u8 as u16)) & 1 == 1,
                (mx >> (6u8 as u16)) & 1 == 1 || (mo >> (6u8 as u16)) & 1 == 1,
                (mx >> (7u8 as u16)) & 1 == 1 || (mo >> (7u8 as u16)) & 1 == 1,
                (mx >> (8u8 as u16)) & 1 == 1 || (mo >> (8u8 as u16)) & 1 == 1,
        ;
    }
}

/// A well-formed game log whose submissions the board all accepted strictly
/// alternates seats: the first entry carries the seat to move at the start,
/// and every accepted move flips the turn, so no seat ever moves twice in a
/// row. (An entry the board rejected keeps the turn, and the same seat is
/// logged again.)
pub proof fn lemma_accepted_log_alternates(b: Board, log: Seq<(AgentId, Action)>)
    requires
        log_wf(b, log),
        forall|m: int|
            0 <= m < log.len() ==> replay(b, log.take(m)).spec_valid(
                (#[trigger] log[m]).1,
            ),
    ensures
        log.len() > 0 ==> log[0].0 == b.spec_turn(),
        forall|m: int| 0 <= m < log.len() - 1 ==> (#[trigger] log[m + 1]).0 != log[m].0,
{
    lemma_log_wf_turns(b, log);
    assert forall|m: int| 0 <= m < log.len() - 1 implies (#[trigger] log[m + 1]).0 != log[m].0 by {
        let sm = replay(b, log.take(m));
        assert(log.take(m + 1) =~= log.take(m).push(log[m]));
        lemma_log_push(b, log.take(m), log[m]);
        assert(replay(b, log.take(m + 1)) == sm.spec_after(log[m].1));
        assert(sm.spec_after(log[m].1).turn != sm.turn);
    }
    if log.len() > 0 {
        assert(log.take(0) =~= Seq::<(AgentId, Action)>::empty());
    }
}

/// Enumerating the legal actions is idempotent: the enumeration is a function
/// of the board alone, so two enumerators drawn from the same unmutated board
/// yield the same action sequence.
pub proof fn lemma_valid_actions_idempotent(b: Board, first: NextAction, second: NextAction)
    requires
        first.remaining() == b.spec_actions(),
        second.remaining() == b.spec_actions(),
    ensures
        first.remaining() == second.remaining(),
{
}

} // verus!
