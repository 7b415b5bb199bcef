//! Detection of a four-in-a-row through the stone just placed.
use vstd::prelude::*;
use crate::board::{bit, Board, BoardModel};

verus! {

/// Length of a winning line.
pub const WIN_CONNECT: u8 = 4;

/// Coordinate `x` moved `i` steps in direction `d` (negative, zero or positive).
pub open spec fn shift(x: int, d: int, i: int) -> int {
    if d > 0 {
        x + i
    } else if d < 0 {
        x - i
    } else {
        x
    }
}

impl BoardModel {
    /// Cell (column `c`, row `r`) is on the board, filled, and holds a stone
    /// of the player who moved last.
    pub open spec fn mine(self, c: int, r: int) -> bool {
        &&& 0 <= c < self.width()
        &&& 0 <= r < self.heights[c]
        &&& !bit(self.columns[c], r as u8)
    }

    /// The four cells at steps `lo ..= lo + 3` from (c, r) in direction
    /// (dc, dr) all hold stones of the player who moved last.
    pub open spec fn segment(self, c: int, r: int, dc: int, dr: int, lo: int) -> bool {
        forall|i: int| lo <= i <= lo + 3 ==> #[trigger] self.mine(shift(c, dc, i), shift(r, dr, i))
    }

    /// Four cells of the player who moved last lie in a line through (c, r)
    /// in direction (dc, dr).
    pub open spec fn line_through(self, c: int, r: int, dc: int, dr: int) -> bool {
        exists|lo: int| -3 <= lo <= 0 && #[trigger] self.segment(c, r, dc, dr, lo)
    }

    /// The top stone of column `c` completes a line of four of its owner,
    /// the player who moved last: vertically, horizontally, or on either
    /// diagonal.
    pub open spec fn wins_at(self, c: int) -> bool {
        &&& 0 <= c < self.width()
        &&& self.heights[c] > 0
        &&& {
            let r = self.heights[c] - 1;
            ||| self.line_through(c, r, 0, 1)
            ||| self.line_through(c, r, 1, 0)
            ||| self.line_through(c, r, 1, 1)
            ||| self.line_through(c, r, 1, -1)
        }
    }
}

/// Four consecutive steps containing step 0 exist exactly when the stones
/// run `f` steps forward and `g` steps backward with `f + g >= 3`.
proof fn lemma_runs_make_line(b: BoardModel, c: int, r: int, dc: int, dr: int, f: int, g: int)
    requires
        0 <= f <= 3,
        0 <= g <= 3,
        b.mine(c, r),
        forall|i: int| 1 <= i <= f ==> #[trigger] b.mine(shift(c, dc, i), shift(r, dr, i)),
        forall|i: int| 1 <= i <= g ==> #[trigger] b.mine(shift(c, -dc, i), shift(r, -dr, i)),
        f < 3 ==> !b.mine(shift(c, dc, f + 1), shift(r, dr, f + 1)),
        g < 3 ==> !b.mine(shift(c, -dc, g + 1), shift(r, -dr, g + 1)),
    ensures
        b.line_through(c, r, dc, dr) == (f + g >= 3),
{
    if f + g >= 3 {
        let lo = if g < 3 { -g } else { -3 };
        assert forall|i: int| lo <= i <= lo + 3 implies #[trigger] b.mine(shift(c, dc, i), shift(r, dr, i)) by {
            if i < 0 {
                assert(shift(c, dc, i) == shift(c, -dc, -i));
                assert(shift(r, dr, i) == shift(r, -dr, -i));
                assert(b.mine(shift(c, -dc, -i), shift(r, -dr, -i)));
            } else if i == 0 {
                assert(shift(c, dc, 0) == c && shift(r, dr, 0) == r);
            }
        }
        assert(b.segment(c, r, dc, dr, lo));
    } else {
        if b.line_through(c, r, dc, dr) {
            let lo = choose|lo: int| -3 <= lo <= 0 && #[trigger] b.segment(c, r, dc, dr, lo);
            if lo + 3 >= f + 1 {
                assert(b.mine(shift(c, dc, f + 1), shift(r, dr, f + 1)));
            } else {
                let i = -(g + 1);
                assert(shift(c, dc, i) == shift(c, -dc, g + 1));
                assert(shift(r, dr, i) == shift(r, -dr, g + 1));
                assert(b.mine(shift(c, dc, i), shift(r, dr, i)));
            }
        }
    }
}

impl Board {
    /// Whether cell (`x`, `y`) is filled with a stone of the player who moved
    /// last; cells off the board are not.
    fn is_mine(&self, x: i64, y: i64) -> (m: bool)
        requires
            self@.wf(),
        ensures
            m == self@.mine(x as int, y as int),
    {
        if x < 0 || y < 0 || x as u64 >= self.heights.len() as u64 {
            return false;
        }
        let h = self.heights[x as usize];
        if y >= h as i64 {
            return false;
        }
        let m = self.columns[x as usize];
        let s = y as u8;
        assert((m >> s) & 1u8 == 0u8 || (m >> s) & 1u8 == 1u8) by (bit_vector);
        (m >> s) & 1u8 == 0u8
    }

    /// How many steps, at most three, the stones of the player who moved last
    /// run from (c, r) in direction (dc, dr), the start cell not counted.
    fn run(&self, c: u8, r: u8, dc: i8, dr: i8) -> (n: u8)
        requires
            self@.wf(),
        ensures
            n <= 3,
            forall|i: int|
                1 <= i <= n ==> #[trigger] self@.mine(shift(c as int, dc as int, i), shift(r as int, dr as int, i)),
            n < 3 ==> !self@.mine(
                shift(c as int, dc as int, n + 1),
                shift(r as int, dr as int, n + 1),
            ),
    {
        let mut n: u8 = 0;
        while n < 3
            invariant
                self@.wf(),
                n <= 3,
                forall|i: int|
                    1 <= i <= n ==> #[trigger] self@.mine(
                        shift(c as int, dc as int, i),
                        shift(r as int, dr as int, i),
                    ),
            decreases 3 - n,
        {
            let step = n as i64 + 1;
            let x: i64 = if dc > 0 {
                c as i64 + step
            } else if dc < 0 {
                c as i64 - step
            } else {
                c as i64
            };
            let y: i64 = if dr > 0 {
                r as i64 + step
            } else if dr < 0 {
                r as i64 - step
            } else {
                r as i64
            };
            if !self.is_mine(x, y) {
                return n;
            }
            n = n + 1;
        }
        n
    }

    /// Whether four stones of the player who moved last lie in a line through
    /// (c, r) in direction (dc, dr), given that (c, r) holds one of them.
    fn connects(&self, c: u8, r: u8, dc: i8, dr: i8) -> (w: bool)
        requires
            self@.wf(),
            self@.mine(c as int, r as int),
            -1 <= dc <= 1,
            -1 <= dr <= 1,
        ensures
            w == self@.line_through(c as int, r as int, dc as int, dr as int),
    {
        let f = self.run(c, r, dc, dr);
        let g = self.run(c, r, -dc, -dr);
        proof {
            lemma_runs_make_line(self@, c as int, r as int, dc as int, dr as int, f as int, g as int);
        }
        f + g >= 3
    }

    /// Whether the top stone of `column`, read on the board as it stands after
    /// the move and its perspective flip, completes a line of four.
    pub fn check_win(&self, column: u8) -> (w: bool)
        requires
            self@.wf(),
        ensures
            w == self@.wins_at(column as int),
    {
        if column as usize >= self.heights.len() {
            return false;
        }
        let h = self.heights[column as usize];
        if h == 0 {
            return false;
        }
        let r = h - 1;
        if !self.is_mine(column as i64, r as i64) {
            proof {
                let b = self@;
                let c = column as int;
                let ri = r as int;
                assert forall|dc: int, dr: int, lo: int|
                    -3 <= lo <= 0 implies !b.segment(c, ri, dc, dr, lo) by {
                    if b.segment(c, ri, dc, dr, lo) {
                        assert(b.mine(shift(c, dc, 0), shift(ri, dr, 0)));
                    }
                }
            }
            return false;
        }
        self.connects(column, r, 0, 1) || self.connects(column, r, 1, 0) || self.connects(
            column,
            r,
            1,
            1,
        ) || self.connects(column, r, 1, -1)
    }
}

} // verus!
