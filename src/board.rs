//! The packed board: one bit field and one height per column.
use vstd::prelude::*;

verus! {

/// Number of rows in every column.
pub const BOARD_ROWS: u8 = 6;

/// Number of columns of the standard board.
pub const BOARD_COLUMNS: u8 = 7;

/// The bits of a column mask that stand for rows of the board.
pub const ROW_BITS: u8 = 0x3f;

/// Why a proposed move was refused, or why no move came at all.
#[derive(Debug, Clone, Copy, PartialEq, Eq, Structural)]
pub enum BadMove {
    /// The column index is not a column of the board.
    ColumnInvalid,
    /// The column has no empty row left.
    ColumnFull,
    /// The agent trapped, ran out of budget, or gave no usable answer.
    AgentFault,
}

/// The board. Column `c` has `heights[c]` filled rows; bit `r` of
/// `columns[c]` (for `r < heights[c]`) is 0 where the stone belongs to the
/// player who moved last and 1 where it belongs to the other player.
#[derive(Debug, Clone)]
pub struct Board {
    pub heights: Vec<u8>,
    pub columns: Vec<u8>,
}

/// The mathematical value of a board.
pub struct BoardModel {
    pub heights: Seq<u8>,
    pub columns: Seq<u8>,
}

impl View for Board {
    type V = BoardModel;

    open spec fn view(&self) -> BoardModel {
        BoardModel { heights: self.heights@, columns: self.columns@ }
    }
}

impl BoardModel {
    /// Number of columns.
    pub open spec fn width(self) -> int {
        self.heights.len() as int
    }

    /// One mask per column, and no column filled above the top row.
    pub open spec fn wf(self) -> bool {
        &&& self.columns.len() == self.heights.len()
        &&& forall|c: int| 0 <= c < self.width() ==> #[trigger] self.heights[c] <= BOARD_ROWS
    }

    /// Whether column `c` has no empty row left.
    pub open spec fn is_full(self, c: int) -> bool {
        self.heights[c] >= BOARD_ROWS
    }

    /// The board after a stone is dropped into column `c` and every mask is
    /// complemented within the rows of the board, or why that move is refused.
    pub open spec fn apply(self, c: int) -> Result<BoardModel, BadMove> {
        if !(0 <= c < self.width()) {
            Err(BadMove::ColumnInvalid)
        } else if self.is_full(c) {
            Err(BadMove::ColumnFull)
        } else {
            Ok(
                BoardModel {
                    heights: self.heights.update(c, (self.heights[c] + 1) as u8),
                    columns: Seq::new(
                        self.columns.len(),
                        |i: int|
                            flip(
                                if i == c {
                                    place(self.columns[i], self.heights[c])
                                } else {
                                    self.columns[i]
                                },
                            ),
                    ),
                },
            )
        }
    }
}

/// Whether bit `r` of mask `m` is set.
pub open spec fn bit(m: u8, r: u8) -> bool {
    (m >> r) & 1u8 == 1u8
}

/// The perspective flip of one column: every row bit complemented, the bits
/// above the top row cleared.
pub open spec fn flip(m: u8) -> u8 {
    !m & ROW_BITS
}

/// Mask `m` with the bit of row `h` set.
pub open spec fn place(m: u8, h: u8) -> u8 {
    m | (1u8 << h)
}

/// Row bits of a column after a stone is placed at row `h` and the mask is
/// flipped: the flip complements each row, and flipping twice gives back the
/// row bits of the mask.
pub proof fn lemma_column_bits(m: u8, h: u8, r: u8)
    requires
        h < BOARD_ROWS,
        r < BOARD_ROWS,
    ensures
        bit(flip(m), r) == !bit(m, r),
        bit(place(m, h), r) == (r == h || bit(m, r)),
        flip(flip(m)) == m & ROW_BITS,
        bit(m & ROW_BITS, r) == bit(m, r),
{
    assert(bit(flip(m), r) == !bit(m, r)) by (bit_vector)
        requires
            r < 6,
    ;
    assert(bit(place(m, h), r) == (r == h || bit(m, r))) by (bit_vector)
        requires
            h < 6,
            r < 6,
    ;
    assert(flip(flip(m)) == m & ROW_BITS) by (bit_vector);
    assert(bit(m & ROW_BITS, r) == bit(m, r)) by (bit_vector)
        requires
            r < 6,
    ;
}

/// No column is ever filled above the top row: a successful move keeps the
/// board well formed, and a move into a full column is refused with
/// `ColumnFull` (the board value is left as it was, see `confirm_move`).
pub proof fn lemma_heights_bounded(b: BoardModel, c: int)
    requires
        b.wf(),
    ensures
        b.apply(c) is Ok ==> b.apply(c)->Ok_0.wf(),
        b.apply(c) is Ok ==> b.apply(c)->Ok_0.heights[c] <= BOARD_ROWS,
        0 <= c < b.width() && b.is_full(c) ==> b.apply(c) == Err::<BoardModel, BadMove>(
            BadMove::ColumnFull,
        ),
{
}

/// The board after `n` moves all into column `c`, or the first refusal.
pub open spec fn apply_times(b: BoardModel, c: int, n: nat) -> Result<BoardModel, BadMove>
    decreases n,
{
    if n == 0 {
        Ok(b)
    } else {
        match apply_times(b, c, (n - 1) as nat) {
            Ok(m) => m.apply(c),
            Err(e) => Err(e),
        }
    }
}

/// Dropping stones into one column succeeds exactly until the column is
/// full; one more is refused with `ColumnFull`.
pub proof fn lemma_fill_column(b: BoardModel, c: int)
    requires
        b.wf(),
        0 <= c < b.width(),
    ensures
        ({
            let n = (BOARD_ROWS - b.heights[c]) as nat;
            &&& apply_times(b, c, n) is Ok
            &&& apply_times(b, c, n)->Ok_0.heights[c] == BOARD_ROWS
            &&& apply_times(b, c, n + 1) == Err::<BoardModel, BadMove>(BadMove::ColumnFull)
        }),
{
    let n = (BOARD_ROWS - b.heights[c]) as nat;
    lemma_apply_times_fills(b, c, n);
}

/// The first `k` moves into column `c`, while it has room, all succeed, each
/// adding one stone to it.
proof fn lemma_apply_times_fills(b: BoardModel, c: int, k: nat)
    requires
        b.wf(),
        0 <= c < b.width(),
        b.heights[c] + k <= BOARD_ROWS,
    ensures
        apply_times(b, c, k) is Ok,
        apply_times(b, c, k)->Ok_0.wf(),
        apply_times(b, c, k)->Ok_0.width() == b.width(),
        apply_times(b, c, k)->Ok_0.heights[c] == b.heights[c] + k,
    decreases k,
{
    if k > 0 {
        lemma_apply_times_fills(b, c, (k - 1) as nat);
    }
}

/// One move complements every row bit of every column, except the bit of
/// the new stone, which reads as the mover's own (0) afterwards.
pub proof fn lemma_move_flips_every_bit(b: BoardModel, c: int)
    requires
        b.wf(),
        b.apply(c) is Ok,
    ensures
        forall|i: int, r: u8|
            0 <= i < b.width() && r < BOARD_ROWS ==> #[trigger] bit(b.apply(c)->Ok_0.columns[i], r)
                == if i == c && r == b.heights[c] {
                false
            } else {
                !bit(b.columns[i], r)
            },
{
    let n = b.apply(c)->Ok_0;
    assert forall|i: int, r: u8| 0 <= i < b.width() && r < BOARD_ROWS implies #[trigger] bit(
        n.columns[i],
        r,
    ) == if i == c && r == b.heights[c] {
        false
    } else {
        !bit(b.columns[i], r)
    } by {
        lemma_column_bits(b.columns[i], b.heights[c], r);
        lemma_column_bits(place(b.columns[i], b.heights[c]), b.heights[c], r);
    }
}

/// Two moves flip the board twice, and a flip undone is no change: every
/// stone that was on the board reads as before, and a column that neither
/// move touched holds exactly its row bits as before.
pub proof fn lemma_two_moves_restore(b: BoardModel, c1: int, c2: int)
    requires
        b.wf(),
        b.apply(c1) is Ok,
        b.apply(c1)->Ok_0.apply(c2) is Ok,
    ensures
        ({
            let b2 = b.apply(c1)->Ok_0.apply(c2)->Ok_0;
            &&& forall|i: int, r: u8|
                0 <= i < b.width() && r < b.heights[i] ==> #[trigger] bit(b2.columns[i], r) == bit(
                    b.columns[i],
                    r,
                )
            &&& forall|i: int|
                0 <= i < b.width() && i != c1 && i != c2 ==> #[trigger] b2.columns[i]
                    == b.columns[i] & ROW_BITS
        }),
{
    let b1 = b.apply(c1)->Ok_0;
    let b2 = b1.apply(c2)->Ok_0;
    lemma_move_flips_every_bit(b, c1);
    lemma_move_flips_every_bit(b1, c2);
    assert forall|i: int, r: u8| 0 <= i < b.width() && r < b.heights[i] implies #[trigger] bit(
        b2.columns[i],
        r,
    ) == bit(b.columns[i], r) by {
        assert(bit(b1.columns[i], r) == !bit(b.columns[i], r));
        assert(bit(b2.columns[i], r) == !bit(b1.columns[i], r));
    }
    assert forall|i: int| 0 <= i < b.width() && i != c1 && i != c2 implies #[trigger] b2.columns[i]
        == b.columns[i] & ROW_BITS by {
        lemma_column_bits(b.columns[i], 0, 0);
    }
}

impl Board {
    /// An empty board of `width` columns.
    pub fn new(width: u8) -> (b: Board)
        ensures
            b@.wf(),
            b@.width() == width,
            forall|c: int| 0 <= c < width ==> b@.heights[c] == 0 && b@.columns[c] == 0,
    {
        let mut heights: Vec<u8> = Vec::new();
        let mut columns: Vec<u8> = Vec::new();
        let mut i: u8 = 0;
        while i < width
            invariant
                i <= width,
                heights@.len() == i,
                columns@.len() == i,
                forall|c: int| 0 <= c < i ==> heights@[c] == 0 && columns@[c] == 0,
            decreases width - i,
        {
            heights.push(0);
            columns.push(0);
            i = i + 1;
        }
        Board { heights, columns }
    }

    /// Number of columns.
    pub fn width(&self) -> (w: usize)
        ensures
            w == self@.width(),
    {
        self.heights.len()
    }

    /// Drops a stone into `column` for the player about to move, then flips
    /// the board to the other player's perspective. A refused move leaves the
    /// board as it was.
    pub fn confirm_move(&mut self, column: u8) -> (r: Result<(), BadMove>)
        requires
            old(self)@.wf(),
        ensures
            final(self)@.wf(),
            match old(self)@.apply(column as int) {
                Ok(next) => r == Ok::<(), BadMove>(()) && final(self)@ == next,
                Err(e) => r == Err::<(), BadMove>(e) && final(self)@ == old(self)@,
            },
    {
        let c = column as usize;
        if c >= self.heights.len() {
            return Err(BadMove::ColumnInvalid);
        }
        let h = self.heights[c];
        if h >= BOARD_ROWS {
            return Err(BadMove::ColumnFull);
        }
        let ghost before = self@;
        let placed = self.columns[c] | (1u8 << h);
        self.columns.set(c, placed);
        self.heights.set(c, h + 1);
        let n = self.columns.len();
        let mut i: usize = 0;
        while i < n
            invariant
                n == self.columns@.len(),
                before.wf(),
                0 <= c < n,
                h == before.heights[c as int],
                self.columns@.len() == before.columns.len(),
                self.heights@ == before.heights.update(c as int, (h + 1) as u8),
                forall|j: int|
                    0 <= j < i ==> self.columns@[j] == flip(
                        if j == c {
                            place(before.columns[j], h)
                        } else {
                            before.columns[j]
                        },
                    ),
                forall|j: int|
                    i <= j < n ==> self.columns@[j] == (if j == c {
                        place(before.columns[j], h)
                    } else {
                        before.columns[j]
                    }),
            decreases n - i,
        {
            let m = self.columns[i];
            self.columns.set(i, !m & ROW_BITS);
            i = i + 1;
        }
        proof {
            let next = before.apply(c as int)->Ok_0;
            assert(self@.columns =~= next.columns);
            assert(self@.heights =~= next.heights);
        }
        Ok(())
    }
}

} // verus!
