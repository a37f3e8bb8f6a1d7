//! Candidate move generation: the empty squares within one dilation step
//! (near) or two dilation steps (far) of any stone, produced in ascending
//! square order, with the center square seeded on an empty board.

use vstd::prelude::*;

verus! {

use crate::bitboard::Bitboard;
use crate::board::{Board, BoardModel};
use crate::types::{Square, Stone};

/// An iterator over the set squares of a bitboard, in ascending index
/// order, consuming one square per step.
pub struct BitboardIter {
    pub bb: Bitboard,
    pub cur: u16,
}

impl BitboardIter {
    /// Snapshot a bitboard for iteration from the lowest index.
    pub fn from_bitboard(bitboard: &Bitboard) -> (r: Self)
        ensures
            r.bb == *bitboard,
            r.cur == 0,
    {
        BitboardIter { bb: *bitboard, cur: 0 }
    }

    /// The lowest set square not yet consumed, or `None` when none is left.
    pub fn next(&mut self) -> (r: Option<Square>)
        requires
            old(self).cur <= 384,
        ensures
            final(self).bb == old(self).bb,
            final(self).cur <= 384,
            match r {
                Option::Some(sq) => {
                    &&& old(self).cur <= sq.0 < 384
                    &&& old(self).bb.bit(sq.0 as int)
                    &&& final(self).cur == sq.0 + 1
                    &&& forall|k: int| old(self).cur <= k < sq.0 ==> !old(self).bb.bit(k)
                },
                Option::None => {
                    &&& final(self).cur == 384
                    &&& forall|k: int| old(self).cur <= k < 384 ==> !old(self).bb.bit(k)
                },
            },
    {
        let mut i = self.cur;
        while i < 384
            invariant
                old(self).cur <= i <= 384,
                self.bb == old(self).bb,
                self.cur == old(self).cur,
                forall|k: int| old(self).cur <= k < i ==> !self.bb.bit(k),
            decreases 384 - i,
        {
            if self.bb.get_square(Square(i)) {
                self.cur = i + 1;
                return Option::Some(Square(i));
            }
            i = i + 1;
        }
        self.cur = 384;
        Option::None
    }
}

/// Whether no square of the board holds a stone.
pub open spec fn board_empty(m: BoardModel) -> bool {
    forall|i: int| 0 <= i < 361 ==> m.stones[i] == Stone::Empty
}

/// Whether square index `i` holds a stone.
pub open spec fn occ_at(m: BoardModel, i: int) -> bool {
    0 <= i < 361 && m.stones[i] != Stone::Empty
}

/// The occupancy after one vertical dilation: a bit, its up-shift and its
/// down-shift, with the same edge handling as the bitboard shifts.
#[verifier::opaque]
pub open spec fn near_v(m: BoardModel, i: int) -> bool {
    occ_at(m, i) || (i + 19 < 384 && occ_at(m, i + 19)) || (19 <= i && occ_at(m, i - 19) && !(342
        <= i - 19 < 361))
}

/// The near dilation: one vertical then one horizontal dilation of the
/// occupancy.
#[verifier::opaque]
pub open spec fn near_h(m: BoardModel, i: int) -> bool {
    near_v(m, i) || (i + 1 < 384 && near_v(m, i + 1) && !((i + 1) < 361 && (i + 1) % 19 == 0)) || (
    1 <= i && near_v(m, i - 1) && !((i - 1) < 361 && (i - 1) % 19 == 18))
}

/// Whether `i` is a near candidate: reached by the near dilation and empty.
pub open spec fn near_at(m: BoardModel, i: int) -> bool {
    near_h(m, i) && !occ_at(m, i)
}

/// The second vertical dilation, on top of the near dilation.
#[verifier::opaque]
pub open spec fn far_v(m: BoardModel, i: int) -> bool {
    near_h(m, i) || (i + 19 < 384 && near_h(m, i + 19)) || (19 <= i && near_h(m, i - 19) && !(342
        <= i - 19 < 361))
}

/// The far dilation: two vertical and two horizontal dilations, alternated.
#[verifier::opaque]
pub open spec fn far_h(m: BoardModel, i: int) -> bool {
    far_v(m, i) || (i + 1 < 384 && far_v(m, i + 1) && !((i + 1) < 361 && (i + 1) % 19 == 0)) || (1
        <= i && far_v(m, i - 1) && !((i - 1) < 361 && (i - 1) % 19 == 18))
}

/// Whether `i` is a far candidate: reached by the far dilation and empty.
pub open spec fn far_at(m: BoardModel, i: int) -> bool {
    far_h(m, i) && !occ_at(m, i)
}

/// Whether `i` is a valid empty square.
pub open spec fn empty_at(m: BoardModel, i: int) -> bool {
    0 <= i < 361 && m.stones[i] == Stone::Empty
}

/// The set squares of a bitboard below `n`, in ascending order.
pub open spec fn mask_moves(mask: Bitboard, n: int) -> Seq<Square>
    decreases n,
{
    if n <= 0 {
        Seq::empty()
    } else {
        mask_moves(mask, n - 1) + if mask.bit(n - 1) {
            seq![Square((n - 1) as u16)]
        } else {
            Seq::empty()
        }
    }
}

/// A stretch without set bits adds no moves.
proof fn lemma_mask_moves_gap(mask: Bitboard, a: int, b: int)
    requires
        0 <= a <= b,
        forall|k: int| a <= k < b ==> !mask.bit(k),
    ensures
        mask_moves(mask, b) == mask_moves(mask, a),
    decreases b - a,
{
    if b > a {
        lemma_mask_moves_gap(mask, a, b - 1);
        assert(mask_moves(mask, b) =~= mask_moves(mask, b - 1));
    }
}

/// The near candidate squares below `n`, in ascending order.
pub open spec fn near_moves_upto(m: BoardModel, n: int) -> Seq<Square>
    decreases n,
{
    if n <= 0 {
        Seq::empty()
    } else {
        near_moves_upto(m, n - 1) + if near_at(m, n - 1) {
            seq![Square((n - 1) as u16)]
        } else {
            Seq::empty()
        }
    }
}

/// The far candidate squares below `n`, in ascending order.
pub open spec fn far_moves_upto(m: BoardModel, n: int) -> Seq<Square>
    decreases n,
{
    if n <= 0 {
        Seq::empty()
    } else {
        far_moves_upto(m, n - 1) + if far_at(m, n - 1) {
            seq![Square((n - 1) as u16)]
        } else {
            Seq::empty()
        }
    }
}

/// The empty squares below `n`, in ascending order.
pub open spec fn all_moves_upto(m: BoardModel, n: int) -> Seq<Square>
    decreases n,
{
    if n <= 0 {
        Seq::empty()
    } else {
        all_moves_upto(m, n - 1) + if empty_at(m, n - 1) {
            seq![Square((n - 1) as u16)]
        } else {
            Seq::empty()
        }
    }
}

/// The near candidates of a board: the center square alone seeds an empty
/// board, then every square of the near mask in ascending order.
pub open spec fn near_moves(m: BoardModel) -> Seq<Square> {
    let seed = if board_empty(m) {
        seq![Square(180)]
    } else {
        Seq::<Square>::empty()
    };
    seed + near_moves_upto(m, 384)
}

/// The far candidates of a board, seeded the same way.
pub open spec fn far_moves(m: BoardModel) -> Seq<Square> {
    let seed = if board_empty(m) {
        seq![Square(180)]
    } else {
        Seq::<Square>::empty()
    };
    seed + far_moves_upto(m, 384)
}

/// Every empty square of a board, in ascending order.
pub open spec fn all_moves(m: BoardModel) -> Seq<Square> {
    all_moves_upto(m, 384)
}

/// A bitboard whose bits mark exactly the near candidates yields the near
/// move sequence.
proof fn lemma_mask_moves_near(mask: Bitboard, m: BoardModel, n: int)
    requires
        forall|i: int| 0 <= i < n ==> mask.bit(i) == near_at(m, i),
    ensures
        mask_moves(mask, n) == near_moves_upto(m, n),
    decreases n,
{
    if n > 0 {
        lemma_mask_moves_near(mask, m, n - 1);
        assert(mask_moves(mask, n) =~= near_moves_upto(m, n));
    }
}

/// A bitboard whose bits mark exactly the far candidates yields the far
/// move sequence.
proof fn lemma_mask_moves_far(mask: Bitboard, m: BoardModel, n: int)
    requires
        forall|i: int| 0 <= i < n ==> mask.bit(i) == far_at(m, i),
    ensures
        mask_moves(mask, n) == far_moves_upto(m, n),
    decreases n,
{
    if n > 0 {
        lemma_mask_moves_far(mask, m, n - 1);
        assert(mask_moves(mask, n) =~= far_moves_upto(m, n));
    }
}

/// A bitboard whose bits mark exactly the empty squares yields the
/// every-empty-square move sequence.
proof fn lemma_mask_moves_all(mask: Bitboard, m: BoardModel, n: int)
    requires
        forall|i: int| 0 <= i < n ==> mask.bit(i) == empty_at(m, i),
    ensures
        mask_moves(mask, n) == all_moves_upto(m, n),
    decreases n,
{
    if n > 0 {
        lemma_mask_moves_all(mask, m, n - 1);
        assert(mask_moves(mask, n) =~= all_moves_upto(m, n));
    }
}

/// The union of both players' stones as one mask.
fn occupancy_of(board: &Board) -> (r: Bitboard)
    requires
        board.wf(),
    ensures
        forall|i: int| 0 <= i < 384 ==> r.bit(i) == occ_at(board@, i),
{
    let r = board.bitboard(Stone::Black).or(&board.bitboard(Stone::White));
    proof {
        assert forall|i: int| 0 <= i < 384 implies r.bit(i) == occ_at(board@, i) by {}
    }
    r
}

/// One vertical dilation of a mask: each bit, its up-shift and its
/// down-shift.
fn dilate_v(bb: &Bitboard) -> (r: Bitboard)
    ensures
        forall|i: int|
            0 <= i < 384 ==> r.bit(i) == (bb.bit(i) || (i + 19 < 384 && bb.bit(i + 19)) || (19 <= i
                && bb.bit(i - 19) && !(342 <= i - 19 < 361))),
{
    bb.or(&bb.shift_up()).or(&bb.shift_down())
}

/// One horizontal dilation of a mask: each bit, its left-shift and its
/// right-shift.
fn dilate_h(bb: &Bitboard) -> (r: Bitboard)
    ensures
        forall|i: int|
            0 <= i < 384 ==> r.bit(i) == (bb.bit(i) || (i + 1 < 384 && bb.bit(i + 1) && !((i + 1)
                < 361 && (i + 1) % 19 == 0)) || (1 <= i && bb.bit(i - 1) && !((i - 1) < 361 && (i
                - 1) % 19 == 18))),
{
    bb.or(&bb.shift_left()).or(&bb.shift_right())
}

/// The near candidate mask of a board.
fn near_mask(board: &Board) -> (r: Bitboard)
    requires
        board.wf(),
    ensures
        forall|i: int| 0 <= i < 384 ==> r.bit(i) == near_at(board@, i),
{
    let ghost m = board@;
    let occupancy = occupancy_of(board);
    let m1 = dilate_v(&occupancy);
    proof {
        assert forall|i: int| 0 <= i < 384 implies m1.bit(i) == near_v(m, i) by {
            reveal(crate::movegen::near_v);
        }
    }
    let m2 = dilate_h(&m1);
    proof {
        assert forall|i: int| 0 <= i < 384 implies m2.bit(i) == near_h(m, i) by {
            reveal(crate::movegen::near_h);
        }
    }
    m2.and(&occupancy.not())
}

/// The far candidate mask of a board.
fn far_mask(board: &Board) -> (r: Bitboard)
    requires
        board.wf(),
    ensures
        forall|i: int| 0 <= i < 384 ==> r.bit(i) == far_at(board@, i),
{
    let ghost m = board@;
    let occupancy = occupancy_of(board);
    let m1 = dilate_v(&occupancy);
    proof {
        assert forall|i: int| 0 <= i < 384 implies m1.bit(i) == near_v(m, i) by {
            reveal(crate::movegen::near_v);
        }
    }
    let m2 = dilate_h(&m1);
    proof {
        assert forall|i: int| 0 <= i < 384 implies m2.bit(i) == near_h(m, i) by {
            reveal(crate::movegen::near_h);
        }
    }
    let m3 = dilate_v(&m2);
    proof {
        assert forall|i: int| 0 <= i < 384 implies m3.bit(i) == far_v(m, i) by {
            reveal(crate::movegen::far_v);
        }
    }
    let m4 = dilate_h(&m3);
    proof {
        assert forall|i: int| 0 <= i < 384 implies m4.bit(i) == far_h(m, i) by {
            reveal(crate::movegen::far_h);
        }
    }
    m4.and(&occupancy.not())
}


/// The coordinate decomposition of a valid square index.
proof fn lemma_coord(i: int)
    requires
        0 <= i < 361,
    ensures
        i == 19 * crate::types::sq_rank(i) + crate::types::sq_file(i),
        0 <= crate::types::sq_file(i) < 19,
        0 <= crate::types::sq_rank(i) < 19,
{
    vstd::arithmetic::div_mod::lemma_fundamental_div_mod(i, 19);
}

/// What the near dilation means on the grid: a valid square is a near
/// candidate exactly when it is empty and some stone stands within one king
/// step of it (a file and a rank delta both at most 1).
pub proof fn lemma_near_is_king_adjacency(m: BoardModel, i: int)
    requires
        0 <= i < 361,
    ensures
        near_at(m, i) <==> (m.stones[i] == Stone::Empty && exists|j: int|
            0 <= j < 361 && (#[trigger] m.stones[j]) != Stone::Empty && crate::types::sq_distance(
                i,
                j,
            ) <= 1),
{
    reveal(crate::movegen::near_v);
    reveal(crate::movegen::near_h);
    lemma_coord(i);
    let f = crate::types::sq_file(i);
    let r = crate::types::sq_rank(i);
    if near_at(m, i) {
        // Each disjunct of the dilation names an occupied index at a fixed
        // offset; its guards rule the row-wrapping offsets out, so the
        // offset is a true king step.
        assert(m.stones[i] == Stone::Empty);
        if near_v(m, i) {
            if occ_at(m, i + 19) {
                vstd::arithmetic::div_mod::lemma_fundamental_div_mod_converse(
                    i + 19, 19, r + 1, f);
                assert(crate::types::sq_distance(i, i + 19) <= 1);
            } else if 19 <= i && occ_at(m, i - 19) {
                vstd::arithmetic::div_mod::lemma_fundamental_div_mod_converse(
                    i - 19, 19, r - 1, f);
                assert(crate::types::sq_distance(i, i - 19) <= 1);
            }
        } else if i + 1 < 384 && near_v(m, i + 1) && !((i + 1) < 361 && (i + 1) % 19 == 0) {
            let x = i + 1;
            assert(f < 18) by {
                if f == 18 {
                    vstd::arithmetic::div_mod::lemma_fundamental_div_mod_converse(
                        x, 19, r + 1, 0);
                }
            }
            vstd::arithmetic::div_mod::lemma_fundamental_div_mod_converse(x, 19, r, f + 1);
            if occ_at(m, x) {
                assert(crate::types::sq_distance(i, x) <= 1);
            } else if x + 19 < 384 && occ_at(m, x + 19) {
                vstd::arithmetic::div_mod::lemma_fundamental_div_mod_converse(
                    x + 19, 19, r + 1, f + 1);
                assert(crate::types::sq_distance(i, x + 19) <= 1);
            } else {
                vstd::arithmetic::div_mod::lemma_fundamental_div_mod_converse(
                    x - 19, 19, r - 1, f + 1);
                assert(crate::types::sq_distance(i, x - 19) <= 1);
            }
        } else {
            let x = i - 1;
            assert(f > 0) by {
                if f == 0 {
                    vstd::arithmetic::div_mod::lemma_fundamental_div_mod_converse(
                        x, 19, r - 1, 18);
                }
            }
            vstd::arithmetic::div_mod::lemma_fundamental_div_mod_converse(x, 19, r, f - 1);
            if occ_at(m, x) {
                assert(crate::types::sq_distance(i, x) <= 1);
            } else if x + 19 < 384 && occ_at(m, x + 19) {
                vstd::arithmetic::div_mod::lemma_fundamental_div_mod_converse(
                    x + 19, 19, r + 1, f - 1);
                assert(crate::types::sq_distance(i, x + 19) <= 1);
            } else {
                vstd::arithmetic::div_mod::lemma_fundamental_div_mod_converse(
                    x - 19, 19, r - 1, f - 1);
                assert(crate::types::sq_distance(i, x - 19) <= 1);
            }
        }
    }
    if m.stones[i] == Stone::Empty && exists|j: int|
        0 <= j < 361 && (#[trigger] m.stones[j]) != Stone::Empty && crate::types::sq_distance(
            i,
            j,
        ) <= 1 {
        let j = choose|j: int|
            0 <= j < 361 && (#[trigger] m.stones[j]) != Stone::Empty && crate::types::sq_distance(
                i,
                j,
            ) <= 1;
        lemma_coord(j);
        let fj = crate::types::sq_file(j);
        let rj = crate::types::sq_rank(j);
        assert(j == i + 19 * (rj - r) + (fj - f));
        // The stone is one king step away, so one vertical and one
        // horizontal dilation step reach back from it to `i`; the edge
        // guards hold because both coordinates stay on the grid.
        let x = i + (fj - f);
        vstd::arithmetic::div_mod::lemma_fundamental_div_mod_converse(x, 19, r, fj);
        assert(occ_at(m, j));
        assert(j == x + 19 * (rj - r));
        assert(near_v(m, x));
        if fj == f + 1 {
            vstd::arithmetic::div_mod::lemma_fundamental_div_mod_converse(i + 1, 19, r, fj);
            assert(near_h(m, i));
        } else if fj == f - 1 {
            vstd::arithmetic::div_mod::lemma_fundamental_div_mod_converse(i - 1, 19, r, fj);
            assert(near_h(m, i));
        } else {
            assert(near_h(m, i));
        }
        assert(near_at(m, i));
    }
}

/// An ordered, non-exhaustive list of candidate squares, consumed one move
/// at a time.
#[derive(Debug)]
pub struct Movegen {
    pub move_list: Vec<Square>,
    pub move_idx: usize,
}

impl Movegen {
    /// An empty candidate list.
    pub fn new() -> (r: Self)
        ensures
            r.move_list@ == Seq::<Square>::empty(),
            r.move_idx == 0,
    {
        Movegen { move_list: Vec::new(), move_idx: 0 }
    }

    /// Append every set square of `mask`, in ascending order.
    pub fn generate_from_mask(&mut self, mask: Bitboard)
        ensures
            final(self).move_list@ == old(self).move_list@ + mask_moves(mask, 384),
            final(self).move_idx == old(self).move_idx,
    {
        let mut iter = BitboardIter::from_bitboard(&mask);
        proof {
            assert(self.move_list@ =~= old(self).move_list@ + mask_moves(mask, 0));
        }
        loop
            invariant
                iter.bb == mask,
                iter.cur <= 384,
                self.move_idx == old(self).move_idx,
                self.move_list@ == old(self).move_list@ + mask_moves(mask, iter.cur as int),
            ensures
                self.move_list@ == old(self).move_list@ + mask_moves(mask, 384),
                self.move_idx == old(self).move_idx,
            decreases 385 - iter.cur,
        {
            let ghost pre = iter.cur as int;
            match iter.next() {
                Option::Some(sq) => {
                    proof {
                        lemma_mask_moves_gap(mask, pre, sq.0 as int);
                        assert(mask_moves(mask, sq.0 as int + 1) =~= mask_moves(mask, pre)
                            + seq![sq]);
                    }
                    self.move_list.push(sq);
                },
                Option::None => {
                    proof {
                        lemma_mask_moves_gap(mask, pre, 384);
                    }
                    break ;
                },
            }
        }
    }

    /// Fill the list with the near candidates of `board`: every empty square
    /// within one dilation step of a stone, the center seeded on an empty
    /// board.
    pub fn generate_near(&mut self, board: &Board)
        requires
            board.wf(),
        ensures
            final(self).move_list@ == old(self).move_list@ + near_moves(board@),
            final(self).move_idx == old(self).move_idx,
    {
        let ghost m = board@;
        let occupancy = occupancy_of(board);
        let no_stones = occupancy.is_empty();
        proof {
            if no_stones {
                assert forall|i: int| 0 <= i < 361 implies m.stones[i] == Stone::Empty by {
                    assert(!occupancy.bit(i));
                }
            } else {
                if board_empty(m) {
                    assert forall|i: int| 0 <= i < 384 implies !occupancy.bit(i) by {
                        assert(occupancy.bit(i) == occ_at(m, i));
                    }
                    assert(false);
                }
            }
            assert(no_stones == board_empty(m));
        }
        if no_stones {
            self.move_list.push(Square(180));
        }
        let mask = near_mask(board);
        self.generate_from_mask(mask);
        proof {
            lemma_mask_moves_near(mask, m, 384);
            assert(final(self).move_list@ =~= old(self).move_list@ + near_moves(m));
        }
    }

    /// Fill the list with the far candidates of `board`: every empty square
    /// within two dilation steps of a stone, the center seeded on an empty
    /// board.
    pub fn generate_far(&mut self, board: &Board)
        requires
            board.wf(),
        ensures
            final(self).move_list@ == old(self).move_list@ + far_moves(board@),
            final(self).move_idx == old(self).move_idx,
    {
        let ghost m = board@;
        let occupancy = occupancy_of(board);
        let no_stones = occupancy.is_empty();
        proof {
            if no_stones {
                assert forall|i: int| 0 <= i < 361 implies m.stones[i] == Stone::Empty by {
                    assert(!occupancy.bit(i));
                }
            } else {
                if board_empty(m) {
                    assert forall|i: int| 0 <= i < 384 implies !occupancy.bit(i) by {
                        assert(occupancy.bit(i) == occ_at(m, i));
                    }
                    assert(false);
                }
            }
            assert(no_stones == board_empty(m));
        }
        if no_stones {
            self.move_list.push(Square(180));
        }
        let mask = far_mask(board);
        self.generate_from_mask(mask);
        proof {
            lemma_mask_moves_far(mask, m, 384);
            assert(final(self).move_list@ =~= old(self).move_list@ + far_moves(m));
        }
    }

    /// Fill the list with every empty square of `board`.
    pub fn generate_all(&mut self, board: &Board)
        requires
            board.wf(),
        ensures
            final(self).move_list@ == old(self).move_list@ + all_moves(board@),
            final(self).move_idx == old(self).move_idx,
    {
        let ghost m = board@;
        let mask = board.bitboard(Stone::Empty);
        proof {
            assert forall|i: int| 0 <= i < 384 implies mask.bit(i) == empty_at(m, i) by {}
        }
        self.generate_from_mask(mask);
        proof {
            lemma_mask_moves_all(mask, m, 384);
        }
    }

    /// The next candidate not yet consumed, in list order.
    pub fn next(&mut self) -> (r: Option<Square>)
        ensures
            final(self).move_list == old(self).move_list,
            match r {
                Option::Some(sq) => {
                    &&& old(self).move_idx < old(self).move_list@.len()
                    &&& sq == old(self).move_list@[old(self).move_idx as int]
                    &&& final(self).move_idx == old(self).move_idx + 1
                },
                Option::None => {
                    &&& old(self).move_idx >= old(self).move_list@.len()
                    &&& final(self).move_idx == old(self).move_idx
                },
            },
    {
        if self.move_idx >= self.move_list.len() {
            Option::None
        } else {
            let sq = self.move_list[self.move_idx];
            self.move_idx = self.move_idx + 1;
            Option::Some(sq)
        }
    }

    /// One candidate picked uniformly at random: a placeholder move source,
    /// not used by the search.
    pub fn select_random_move(&self) -> (r: Square)
        requires
            self.move_list@.len() > 0,
        ensures
            exists|i: int| 0 <= i < self.move_list@.len() && r == self.move_list@[i],
    {
        let draw = random_u64();
        let idx = (draw % self.move_list.len() as u64) as usize;
        self.move_list[idx]
    }
}

impl Default for Movegen {
    /// An empty candidate list.
    fn default() -> (r: Self)
        ensures
            r.move_list@ == Seq::<Square>::empty(),
            r.move_idx == 0,
    {
        Movegen::new()
    }
}

/// Relies on rand::random: one value drawn uniformly from the thread-local
/// generator. Nothing can be promised of its value.
#[verifier::external_body]
fn random_u64() -> u64 {
    rand::random::<u64>()
}

} // verus!
