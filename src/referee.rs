//! The referee: alternates turns between two agents, validates and applies
//! each proposed move, and decides how the game ends. The agents themselves
//! are called by the driver, which hands their replies to `submit`.
use vstd::prelude::*;
use crate::board::{BadMove, Board, BoardModel, BOARD_ROWS};

verus! {

/// One of the two players; `One` moves first.
#[derive(Debug, Clone, Copy, PartialEq, Eq, Structural)]
pub enum Player {
    One,
    Two,
}

impl Player {
    pub open spec fn opponent(self) -> Player {
        match self {
            Player::One => Player::Two,
            Player::Two => Player::One,
        }
    }

    /// The other player.
    pub fn other(self) -> (p: Player)
        ensures
            p == self.opponent(),
    {
        match self {
            Player::One => Player::Two,
            Player::Two => Player::One,
        }
    }
}

/// The agent trapped, exceeded its budget, or returned nothing usable.
#[derive(Debug, Clone, Copy, PartialEq, Eq, Structural)]
pub struct AgentFault;

/// How a game ended.
#[derive(Debug, Clone, Copy, PartialEq, Eq, Structural)]
pub enum GameEnd {
    /// The player completed a line of four.
    Win(Player),
    /// The player proposed a refused move or its agent faulted.
    Loss(Player, BadMove),
    /// The board filled up with no line of four.
    Draw,
}

/// What the driver has to do next.
#[derive(Debug, Clone, Copy, PartialEq, Eq, Structural)]
pub enum Turn {
    /// Ask this player's agent for a column, on a copy of the board.
    Ask(Player),
    /// The game is over.
    Over(GameEnd),
}

/// Sum of the column heights: the number of stones on the board.
pub open spec fn total(s: Seq<u8>) -> int
    decreases s.len(),
{
    if s.len() == 0 {
        0
    } else {
        total(s.drop_last()) + s.last()
    }
}

/// The mathematical value of a referee.
pub struct RefereeModel {
    pub board: BoardModel,
    pub moves: int,
    pub to_play: Player,
    pub end: Option<GameEnd>,
}

impl RefereeModel {
    /// The number of moves after which the board is full.
    pub open spec fn cap(self) -> int {
        self.board.width() * BOARD_ROWS
    }

    pub open spec fn wf(self) -> bool {
        &&& self.board.wf()
        &&& self.board.width() <= 255
        &&& self.moves == total(self.board.heights)
    }

    /// Every column of the board is full.
    pub open spec fn board_full(self) -> bool {
        forall|c: int| 0 <= c < self.board.width() ==> #[trigger] self.board.is_full(c)
    }

    /// What comes next: the recorded end, a draw once `cap` moves were
    /// played, or else the player to move.
    pub open spec fn turn(self) -> Turn {
        match self.end {
            Some(e) => Turn::Over(e),
            None => if self.moves >= self.cap() {
                Turn::Over(GameEnd::Draw)
            } else {
                Turn::Ask(self.to_play)
            },
        }
    }

    /// The state after the player to move answered `reply`: a fault or a
    /// refused column loses; an accepted column is played, and either wins
    /// or passes the turn.
    pub open spec fn after(self, reply: Result<u8, AgentFault>) -> RefereeModel {
        match reply {
            Err(_) => RefereeModel {
                end: Some(GameEnd::Loss(self.to_play, BadMove::AgentFault)),
                ..self
            },
            Ok(col) => match self.board.apply(col as int) {
                Err(e) => RefereeModel { end: Some(GameEnd::Loss(self.to_play, e)), ..self },
                Ok(next) => if next.wins_at(col as int) {
                    RefereeModel {
                        board: next,
                        moves: self.moves + 1,
                        end: Some(GameEnd::Win(self.to_play)),
                        ..self
                    }
                } else {
                    RefereeModel {
                        board: next,
                        moves: self.moves + 1,
                        to_play: self.to_play.opponent(),
                        ..self
                    }
                },
            },
        }
    }
}

/// Adding one stone to a column adds one to the total.
pub proof fn lemma_total_update(s: Seq<u8>, c: int, v: u8)
    requires
        0 <= c < s.len(),
        v == s[c] + 1,
    ensures
        total(s.update(c, v)) == total(s) + 1,
    decreases s.len(),
{
    let t = s.update(c, v);
    if c == s.len() - 1 {
        assert(t.drop_last() =~= s.drop_last());
    } else {
        assert(t.drop_last() =~= s.drop_last().update(c, v));
        lemma_total_update(s.drop_last(), c, v);
    }
}

/// With every height at most `BOARD_ROWS`, the total is at most
/// `BOARD_ROWS` per column, and reaches that only when every column is full.
pub proof fn lemma_total_bound(s: Seq<u8>)
    requires
        forall|c: int| 0 <= c < s.len() ==> #[trigger] s[c] <= BOARD_ROWS,
    ensures
        total(s) <= s.len() * BOARD_ROWS,
        total(s) == s.len() * BOARD_ROWS <==> forall|c: int|
            0 <= c < s.len() ==> #[trigger] s[c] == BOARD_ROWS,
    decreases s.len(),
{
    if s.len() > 0 {
        let p = s.drop_last();
        assert forall|c: int| 0 <= c < p.len() implies #[trigger] p[c] <= BOARD_ROWS by {
            assert(p[c] == s[c]);
        }
        lemma_total_bound(p);
        if forall|c: int| 0 <= c < s.len() ==> #[trigger] s[c] == BOARD_ROWS {
            assert forall|c: int| 0 <= c < p.len() implies #[trigger] p[c] == BOARD_ROWS by {
                assert(p[c] == s[c]);
            }
        }
        if total(s) == s.len() * BOARD_ROWS {
            assert forall|c: int| 0 <= c < s.len() implies #[trigger] s[c] == BOARD_ROWS by {
                if c < s.len() - 1 {
                    assert(p[c] == s[c]);
                }
            }
        }
    }
}

/// The total of an all-zero sequence is zero.
proof fn lemma_total_zero(s: Seq<u8>)
    requires
        forall|c: int| 0 <= c < s.len() ==> #[trigger] s[c] == 0,
    ensures
        total(s) == 0,
    decreases s.len(),
{
    if s.len() > 0 {
        let p = s.drop_last();
        assert forall|c: int| 0 <= c < p.len() implies #[trigger] p[c] == 0 by {
            assert(p[c] == s[c]);
        }
        lemma_total_zero(p);
    }
}

/// The game is drawn exactly when `width * BOARD_ROWS` moves were played with
/// no win or loss recorded, and that is exactly when every column is full.
pub proof fn lemma_draw_exactly_when_full(m: RefereeModel)
    requires
        m.wf(),
        m.end is None,
    ensures
        m.moves <= m.cap(),
        (m.turn() == Turn::Over(GameEnd::Draw)) == (m.moves == m.cap()),
        (m.moves == m.cap()) == m.board_full(),
{
    lemma_total_bound(m.board.heights);
    if m.moves == m.cap() {
        assert forall|c: int| 0 <= c < m.board.width() implies #[trigger] m.board.is_full(c) by {
            assert(m.board.heights[c] == BOARD_ROWS);
        }
    }
    if m.board_full() {
        assert forall|c: int| 0 <= c < m.board.heights.len() implies #[trigger] m.board.heights[c]
            == BOARD_ROWS by {
            assert(m.board.is_full(c));
        }
    }
}

/// A reply that is a fault, a column off the board, or a full column ends
/// the game as a loss of the player who gave it, for that reason; the board
/// is untouched and the opponent is not credited a win.
pub proof fn lemma_bad_reply_loses(m: RefereeModel, reply: Result<u8, AgentFault>)
    requires
        m.wf(),
        m.turn() is Ask,
    ensures
        reply is Err ==> m.after(reply).end == Some(
            GameEnd::Loss(m.to_play, BadMove::AgentFault),
        ),
        reply is Ok && reply->Ok_0 >= m.board.width() ==> m.after(reply).end == Some(
            GameEnd::Loss(m.to_play, BadMove::ColumnInvalid),
        ),
        reply is Ok && reply->Ok_0 < m.board.width() && m.board.is_full(reply->Ok_0 as int)
            ==> m.after(reply).end == Some(GameEnd::Loss(m.to_play, BadMove::ColumnFull)),
        m.after(reply).end is Some && m.after(reply).end->Some_0 is Loss ==> m.after(reply).board
            == m.board,
        m.after(reply).end != Some(GameEnd::Win(m.to_play.opponent())),
{
}

/// The referee of one game: it owns the board, counts the moves played, and
/// knows whose turn it is and whether the game has ended.
pub struct Referee {
    board: Board,
    moves: u32,
    to_play: Player,
    end: Option<GameEnd>,
}

impl View for Referee {
    type V = RefereeModel;

    closed spec fn view(&self) -> RefereeModel {
        RefereeModel {
            board: self.board@,
            moves: self.moves as int,
            to_play: self.to_play,
            end: self.end,
        }
    }
}

impl Referee {
    /// A game on an empty board of `width` columns, player one to move.
    pub fn new(width: u8) -> (r: Referee)
        ensures
            r@.wf(),
            r@.board.width() == width,
            forall|c: int|
                0 <= c < width ==> r@.board.heights[c] == 0 && r@.board.columns[c] == 0,
            r@.moves == 0,
            r@.to_play == Player::One,
            r@.end == None::<GameEnd>,
    {
        let board = Board::new(width);
        proof {
            lemma_total_zero(board@.heights);
        }
        Referee { board, moves: 0, to_play: Player::One, end: None }
    }

    /// The board as it stands.
    pub fn board(&self) -> (b: &Board)
        ensures
            b@ == self@.board,
    {
        &self.board
    }

    /// The number of moves played so far.
    pub fn moves(&self) -> (n: u32)
        ensures
            n == self@.moves,
    {
        self.moves
    }

    /// What the driver has to do next.
    pub fn turn(&self) -> (t: Turn)
        requires
            self@.wf(),
        ensures
            t == self@.turn(),
    {
        match self.end {
            Some(e) => Turn::Over(e),
            None => {
                if self.moves >= self.board.width() as u32 * BOARD_ROWS as u32 {
                    Turn::Over(GameEnd::Draw)
                } else {
                    Turn::Ask(self.to_play)
                }
            },
        }
    }

    /// Takes the reply of the player to move: a column, or the fault of its
    /// agent. The move is validated and applied on the referee's own board;
    /// an agent never touches it.
    pub fn submit(&mut self, reply: Result<u8, AgentFault>)
        requires
            old(self)@.wf(),
            old(self)@.turn() is Ask,
        ensures
            final(self)@.wf(),
            final(self)@ == old(self)@.after(reply),
    {
        let ghost before = self@;
        match reply {
            Err(_) => {
                self.end = Some(GameEnd::Loss(self.to_play, BadMove::AgentFault));
            },
            Ok(col) => {
                match self.board.confirm_move(col) {
                    Err(e) => {
                        self.end = Some(GameEnd::Loss(self.to_play, e));
                    },
                    Ok(()) => {
                        proof {
                            lemma_total_update(
                                before.board.heights,
                                col as int,
                                (before.board.heights[col as int] + 1) as u8,
                            );
                            lemma_total_bound(before.board.heights);
                        }
                        self.moves = self.moves + 1;
                        if self.board.check_win(col) {
                            self.end = Some(GameEnd::Win(self.to_play));
                        } else {
                            self.to_play = self.to_play.other();
                        }
                    },
                }
            },
        }
    }
}

} // verus!
