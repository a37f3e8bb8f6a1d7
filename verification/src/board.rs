//! The game position: one bitboard per player, a dense per-square occupant
//! table for constant-time lookup, and the side to move. The two bitboards
//! never intersect and always agree with the occupant table.

use vstd::prelude::*;

verus! {

use crate::bitboard::Bitboard;
use vstd::string::StringSliceAdditionalSpecFns;
use crate::types::{flip_stone, sq_file, sq_rank, Square, Stone};

/// The mathematical value of a board: the occupant of each of the 361
/// squares, and whose turn it is.
#[verifier::ext_equal]
pub ghost struct BoardModel {
    pub stones: Seq<Stone>,
    pub turn: Stone,
}

impl BoardModel {
    /// The board after the side to move places a stone on `sq`.
    pub open spec fn do_push(self, sq: int) -> BoardModel {
        BoardModel { stones: self.stones.update(sq, self.turn), turn: flip_stone(self.turn) }
    }

    /// The board after the most recent move on `sq` is taken back.
    pub open spec fn do_pop(self, sq: int) -> BoardModel {
        BoardModel { stones: self.stones.update(sq, Stone::Empty), turn: flip_stone(self.turn) }
    }

    /// The model of an empty board with Black to move.
    pub open spec fn empty() -> BoardModel {
        BoardModel { stones: Seq::new(361, |i: int| Stone::Empty), turn: Stone::Black }
    }
}

/// A position of the game.
#[derive(Clone, Debug)]
pub struct Board {
    pub black: Bitboard,
    pub white: Bitboard,
    pub table: Vec<Stone>,
    pub turn: Stone,
}

impl View for Board {
    type V = BoardModel;

    open spec fn view(&self) -> BoardModel {
        BoardModel { stones: self.table@, turn: self.turn }
    }
}

impl Board {
    /// The internal invariant: the occupant table has one entry per square,
    /// somebody is to move, each player's bitboard marks exactly the squares
    /// the table gives that player (so the two bitboards are disjoint), and
    /// no bit above square 360 is set.
    pub open spec fn wf(self) -> bool {
        &&& self.table@.len() == 361
        &&& self.turn != Stone::Empty
        &&& forall|i: int|
            0 <= i < 361 ==> self.black.bit(i) == (self.table@[i] == Stone::Black)
        &&& forall|i: int|
            0 <= i < 361 ==> self.white.bit(i) == (self.table@[i] == Stone::White)
        &&& forall|i: int| 361 <= i < 384 ==> !self.black.bit(i) && !self.white.bit(i)
    }

    /// An empty board with Black to move.
    pub fn new() -> (r: Self)
        ensures
            r.wf(),
            r@ == BoardModel::empty(),
    {
        let mut table: Vec<Stone> = Vec::new();
        let mut i: usize = 0;
        while i < 361
            invariant
                i <= 361,
                table@.len() == i,
                forall|k: int| 0 <= k < i ==> table@[k] == Stone::Empty,
            decreases 361 - i,
        {
            table.push(Stone::Empty);
            i = i + 1;
        }
        let r = Board { black: Bitboard::new(), white: Bitboard::new(), table, turn: Stone::Black };
        proof {
            assert(r@.stones =~= BoardModel::empty().stones);
        }
        r
    }

    /// Clear the board back to the empty position with Black to move.
    pub fn reset(&mut self)
        ensures
            final(self).wf(),
            final(self)@ == BoardModel::empty(),
    {
        *self = Board::new();
    }

    /// The occupant of square `sq`.
    pub fn stone_at(&self, sq: Square) -> (r: Stone)
        requires
            self.wf(),
            sq.0 < 361,
        ensures
            r == self@.stones[sq.0 as int],
    {
        self.table[sq.0 as usize]
    }

    /// The side to move.
    pub fn turn(&self) -> (r: Stone)
        ensures
            r == self@.turn,
    {
        self.turn
    }

    /// The occupancy mask of `side`: for a player, the squares holding that
    /// player's stones; for `Empty`, the complement of both players' stones
    /// restricted to the 361 valid squares.
    pub fn bitboard(&self, side: Stone) -> (r: Bitboard)
        requires
            self.wf(),
        ensures
            forall|i: int| 0 <= i < 384 ==> r.bit(i) == (i < 361 && self@.stones[i] == side),
    {
        match side {
            Stone::Black => self.black,
            Stone::White => self.white,
            Stone::Empty => {
                let occupied = self.black.or(&self.white);
                occupied.not().and(&Self::valid_mask())
            },
        }
    }

    /// The mask with every valid square set and every bit above 360 clear.
    pub fn valid_mask() -> (r: Bitboard)
        ensures
            forall|i: int| 0 <= i < 384 ==> r.bit(i) == (i < 361),
    {
        let mut bb = Bitboard::new();
        let mut k: u16 = 0;
        while k < 361
            invariant
                k <= 361,
                forall|i: int| 0 <= i < 384 ==> bb.bit(i) == (i < k),
            decreases 361 - k,
        {
            bb.set_square(Square(k));
            k = k + 1;
        }
        bb
    }

    /// Place `stone` on the empty square `sq` without touching the turn.
    fn add_stone(&mut self, sq: Square, stone: Stone)
        requires
            old(self).wf(),
            sq.0 < 361,
            old(self)@.stones[sq.0 as int] == Stone::Empty,
            stone != Stone::Empty,
        ensures
            final(self).wf(),
            final(self)@.stones == old(self)@.stones.update(sq.0 as int, stone),
            final(self)@.turn == old(self)@.turn,
    {
        self.table[sq.0 as usize] = stone;
        if stone == Stone::Black {
            self.black.set_square(sq);
        } else {
            self.white.set_square(sq);
        }
    }

    /// Place the side to move's stone on the empty square `sq` and flip the
    /// turn. The caller must later take the move back with `pop` on the same
    /// square before undoing any earlier move.
    pub fn push(&mut self, sq: Square)
        requires
            old(self).wf(),
            sq.0 < 361,
            old(self)@.stones[sq.0 as int] == Stone::Empty,
        ensures
            final(self).wf(),
            final(self)@ == old(self)@.do_push(sq.0 as int),
    {
        let stone = self.turn;
        self.table[sq.0 as usize] = stone;
        if stone == Stone::Black {
            self.black.set_square(sq);
        } else {
            self.white.set_square(sq);
        }
        self.turn = self.turn.flip();
    }

    /// Take back the move most recently pushed, which must have been on
    /// `sq`: flip the turn back, then clear the square.
    pub fn pop(&mut self, sq: Square)
        requires
            old(self).wf(),
            sq.0 < 361,
            old(self)@.stones[sq.0 as int] == flip_stone(old(self)@.turn),
        ensures
            final(self).wf(),
            final(self)@ == old(self)@.do_pop(sq.0 as int),
    {
        self.turn = self.turn.flip();
        if self.turn == Stone::Black {
            self.black.rst_square(sq);
        } else {
            self.white.rst_square(sq);
        }
        self.table[sq.0 as usize] = Stone::Empty;
    }

    /// Rebuild a board from two occupancy masks and the side to move. The
    /// masks must not intersect, must not mark any index above 360, and the
    /// side to move must be a player: these are the programming contracts of
    /// the representation.
    pub fn from_raw_parts(black: Bitboard, white: Bitboard, turn: Stone) -> (r: Self)
        requires
            forall|i: int| 0 <= i < 384 ==> !(black.bit(i) && white.bit(i)),
            forall|i: int| 361 <= i < 384 ==> !black.bit(i) && !white.bit(i),
            turn != Stone::Empty,
        ensures
            r.wf(),
            r@.turn == turn,
            forall|i: int|
                0 <= i < 361 ==> r@.stones[i] == (if black.bit(i) {
                    Stone::Black
                } else if white.bit(i) {
                    Stone::White
                } else {
                    Stone::Empty
                }),
    {
        let mut table: Vec<Stone> = Vec::new();
        let mut i: usize = 0;
        while i < 361
            invariant
                i <= 361,
                table@.len() == i,
                forall|i: int| 0 <= i < 384 ==> !(black.bit(i) && white.bit(i)),
                forall|k: int|
                    0 <= k < i ==> table@[k] == (if black.bit(k) {
                        Stone::Black
                    } else if white.bit(k) {
                        Stone::White
                    } else {
                        Stone::Empty
                    }),
            decreases 361 - i,
        {
            let sq = Square(i as u16);
            if black.get_square(sq) {
                table.push(Stone::Black);
            } else if white.get_square(sq) {
                table.push(Stone::White);
            } else {
                table.push(Stone::Empty);
            }
            i = i + 1;
        }
        Board { black, white, table, turn }
    }

    /// An independent copy of the board, equal in model and in both
    /// bitboards.
    pub fn duplicate(&self) -> (r: Board)
        requires
            self.wf(),
        ensures
            r.wf(),
            r@ == self@,
            r.black == self.black,
            r.white == self.white,
    {
        let mut table: Vec<Stone> = Vec::new();
        let mut i: usize = 0;
        while i < 361
            invariant
                self.wf(),
                i <= 361,
                table@.len() == i,
                forall|k: int| 0 <= k < i ==> table@[k] == self.table@[k],
            decreases 361 - i,
        {
            table.push(self.table[i]);
            i = i + 1;
        }
        let r = Board { black: self.black, white: self.white, table, turn: self.turn };
        proof {
            assert(r@.stones =~= self@.stones);
        }
        r
    }

    /// Load a position from a compact run-length row description (digits
    /// stand for consecutive empty cells, 'x' and 'o' for stones, '/' ends a
    /// row) and a side-to-move token ("w" for White, anything else Black).
    /// A malformed description is a recoverable failure: the board holds the
    /// stones of the valid prefix and Black to move.
    pub fn setup_position(&mut self, grid: &str, turn: &str) -> (r: Result<(), ParseError>)
        ensures
            final(self).wf(),
            r is Ok <==> parse_layout(grid.spec_bytes()) is Some,
            r is Ok ==> final(self)@.stones == parse_layout(grid.spec_bytes()).unwrap(),
            r is Ok ==> final(self)@.turn == turn_of_token(turn.spec_bytes()),
            r is Err ==> final(self)@.turn == Stone::Black,
            r is Err ==> exists|k: int|
                0 <= k < grid.spec_bytes().len() && (match #[trigger] layout_run(
                    grid.spec_bytes(),
                    k,
                ) {
                    Option::Some(st) => layout_step(st, grid.spec_bytes()[k]) is None
                        && final(self)@.stones == st.stones,
                    Option::None => false,
                }),
    {
        self.reset();
        proof {
            assert(self@.stones =~= layout_init().stones);
        }
        let bytes = grid.as_bytes();
        let n = bytes.len();
        let mut k: usize = 0;
        let mut rank: usize = 0;
        let mut file: usize = 0;
        let mut span: u16 = 0;
        while k < n
            invariant
                self.wf(),
                k <= n,
                n == bytes@.len(),
                bytes@ == grid.spec_bytes(),
                self@.turn == Stone::Black,
                rank <= k,
                file <= 19,
                span <= 19,
                layout_run(grid.spec_bytes(), k as int) == Option::Some(
                    LayoutCursor {
                        stones: self@.stones,
                        rank: rank as int,
                        file: file as int,
                        span: span as int,
                    },
                ),
                forall|idx: int|
                    0 <= idx < 361 && self@.stones[idx] != Stone::Empty ==> sq_rank(idx)
                        < rank || (sq_rank(idx) == rank && sq_file(idx) < file + span),
            decreases n - k,
        {
            let ghost cur = LayoutCursor {
                stones: self@.stones,
                rank: rank as int,
                file: file as int,
                span: span as int,
            };
            let b = bytes[k];
            proof {
                assert(layout_run(grid.spec_bytes(), k + 1) == layout_step(cur, b));
            }
            if b == 47 {
                rank = rank + 1;
                file = 0;
                span = 0;
            } else if 48 <= b && b <= 57 {
                let grown: u32 = span as u32 * 10 + (b - 48) as u32;
                span = if grown > 19 {
                    19
                } else {
                    grown as u16
                };
            } else if b == 120 || b == 111 {
                let f = file + span as usize;
                if f <= 18 && rank <= 18 {
                    let idx = rank * 19 + f;
                    let sq = Square(idx as u16);
                    proof {
                        assert(idx as int == (rank as int) * 19 + f as int);
                        vstd::arithmetic::div_mod::lemma_fundamental_div_mod_converse(
                            idx as int, 19, rank as int, f as int);
                        assert(sq_rank(idx as int) == rank as int);
                        assert(sq_file(idx as int) == f as int);
                        if self@.stones[idx as int] != Stone::Empty {
                            assert(sq_rank(idx as int) < rank as int || (sq_rank(idx as int)
                                == rank as int && sq_file(idx as int) < file + span));
                            assert(false);
                        }
                    }
                    let stone = if b == 120 {
                        Stone::Black
                    } else {
                        Stone::White
                    };
                    self.add_stone(sq, stone);
                    file = f + 1;
                    span = 0;
                    proof {
                        assert forall|idx2: int|
                            0 <= idx2 < 361 && self@.stones[idx2] != Stone::Empty implies sq_rank(
                            idx2) < rank || (sq_rank(idx2) == rank as int && sq_file(idx2) < file
                            + span) by {
                            if idx2 == idx {
                                vstd::arithmetic::div_mod::lemma_fundamental_div_mod_converse(
                                    idx as int, 19, rank as int, f as int);
                            }
                        }
                    }
                } else {
                    proof {
                        lemma_layout_run_none(grid.spec_bytes(), k + 1, n as int);
                        assert(match layout_run(grid.spec_bytes(), k as int) {
                            Option::Some(st) => layout_step(st, grid.spec_bytes()[k as int])
                                is None && self@.stones == st.stones,
                            Option::None => false,
                        });
                    }
                    return Result::Err(ParseError);
                }
            } else {
                proof {
                    lemma_layout_run_none(grid.spec_bytes(), k + 1, n as int);
                    assert(match layout_run(grid.spec_bytes(), k as int) {
                        Option::Some(st) => layout_step(st, grid.spec_bytes()[k as int])
                            is None && self@.stones == st.stones,
                        Option::None => false,
                    });
                }
                return Result::Err(ParseError);
            }
            k = k + 1;
        }
        let tb = turn.as_bytes();
        if tb.len() == 1 {
            if tb[0] == 119 {
                self.turn = Stone::White;
            } else {
                self.turn = Stone::Black;
            }
        } else {
            self.turn = Stone::Black;
        }
        Result::Ok(())
    }
}

/// The failure of reading a malformed position description: an unknown
/// character, or a stone that falls outside the grid.
#[derive(Clone, Copy, Debug, PartialEq, Eq, Structural)]
pub struct ParseError;

/// The in-progress state of reading a layout description: the stones placed
/// so far, the row being filled, the next column of that row, and the
/// pending run of empty cells.
#[verifier::ext_equal]
pub ghost struct LayoutCursor {
    pub stones: Seq<Stone>,
    pub rank: int,
    pub file: int,
    pub span: int,
}

/// The state before any layout byte is read: an empty board at the start of
/// the first row.
pub open spec fn layout_init() -> LayoutCursor {
    LayoutCursor { stones: Seq::new(361, |i: int| Stone::Empty), rank: 0, file: 0, span: 0 }
}

/// One byte of a layout description: '/' (47) ends the row; a digit extends
/// the pending run of empty cells, saturating at 19 since any longer run
/// already exceeds the row; 'x' (120) or 'o' (111) skips the pending run
/// and places a stone, failing if it falls outside the grid; any other byte
/// fails.
pub open spec fn layout_step(st: LayoutCursor, b: u8) -> Option<LayoutCursor> {
    if b == 47 {
        Option::Some(LayoutCursor { stones: st.stones, rank: st.rank + 1, file: 0, span: 0 })
    } else if 48 <= b && b <= 57 {
        let grown = st.span * 10 + (b - 48);
        Option::Some(
            LayoutCursor {
                stones: st.stones,
                rank: st.rank,
                file: st.file,
                span: if grown > 19 {
                    19
                } else {
                    grown
                },
            },
        )
    } else if b == 120 || b == 111 {
        let f = st.file + st.span;
        if f <= 18 && st.rank <= 18 {
            Option::Some(
                LayoutCursor {
                    stones: st.stones.update(
                        st.rank * 19 + f,
                        if b == 120 {
                            Stone::Black
                        } else {
                            Stone::White
                        },
                    ),
                    rank: st.rank,
                    file: f + 1,
                    span: 0,
                },
            )
        } else {
            Option::None
        }
    } else {
        Option::None
    }
}

/// The cursor after the first `k` bytes of a layout description, or `None`
/// if any of them failed.
pub open spec fn layout_run(bytes: Seq<u8>, k: int) -> Option<LayoutCursor>
    decreases k,
{
    if k <= 0 {
        Option::Some(layout_init())
    } else {
        match layout_run(bytes, k - 1) {
            Option::Some(st) => layout_step(st, bytes[k - 1]),
            Option::None => Option::None,
        }
    }
}

/// The stones described by a whole layout description, or `None` if it is
/// malformed.
pub open spec fn parse_layout(bytes: Seq<u8>) -> Option<Seq<Stone>> {
    match layout_run(bytes, bytes.len() as int) {
        Option::Some(st) => Option::Some(st.stones),
        Option::None => Option::None,
    }
}

/// The side a side-to-move token denotes: "w" is White, anything else
/// Black.
pub open spec fn turn_of_token(bytes: Seq<u8>) -> Stone {
    if bytes.len() == 1 && bytes[0] == 119 {
        Stone::White
    } else {
        Stone::Black
    }
}

/// A failed layout prefix never recovers: every longer prefix fails too.
proof fn lemma_layout_run_none(bytes: Seq<u8>, k: int, m: int)
    requires
        0 <= k <= m,
        layout_run(bytes, k) is None,
    ensures
        layout_run(bytes, m) is None,
    decreases m - k,
{
    if m > k {
        lemma_layout_run_none(bytes, k, m - 1);
    }
}

/// Placing a stone and then taking it back restores the exact prior model:
/// the occupant of every square and the turn.
pub proof fn lemma_push_pop_round_trip(m: BoardModel, sq: int)
    requires
        0 <= sq < 361,
        m.stones.len() == 361,
        m.stones[sq] == Stone::Empty,
        m.turn != Stone::Empty,
    ensures
        m.do_push(sq).do_pop(sq) == m,
{
    assert(m.do_push(sq).do_pop(sq).stones =~= m.stones);
}

/// On a well-formed board the bitboards of equal models agree bit for bit:
/// together with `lemma_push_pop_round_trip`, a push followed by the
/// matching pop restores the occupant table, both player bitboards, and the
/// turn exactly.
pub proof fn lemma_model_determines_bitboards(a: Board, b: Board)
    requires
        a.wf(),
        b.wf(),
        a@ == b@,
    ensures
        a.black == b.black,
        a.white == b.white,
{
    a.black.lemma_bit_ext(b.black);
    a.white.lemma_bit_ext(b.white);
}

/// The two player bitboards of a well-formed board are always disjoint.
pub proof fn lemma_player_bitboards_disjoint(b: Board)
    requires
        b.wf(),
    ensures
        forall|i: int| 0 <= i < 384 ==> !(b.black.bit(i) && b.white.bit(i)),
{
}

} // verus!
