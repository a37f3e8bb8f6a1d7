//! The static evaluator: sum the threat value of every stone of the side to
//! move, subtract the same sum for the opponent, and add a small tempo
//! bonus. All arithmetic saturates inside the centipoint band.

use vstd::prelude::*;

verus! {

use crate::board::{Board, BoardModel};
use crate::magic::{cross_from_spec, cross_order, CrossAlignment, MagicTable, OwnedAlignment};
use crate::movegen::BitboardIter;
use crate::score::{sat_band, Score};
use crate::types::{flip_stone, Square, Stone};

/// The fixed value of each aggregate threat: zero for no alignment, the
/// strict maximum for a five, and monotone in the declared threat order in
/// between.
pub open spec fn score_alignment_spec(alignment: CrossAlignment) -> int {
    match alignment {
        CrossAlignment::Five => 510,
        CrossAlignment::FourFour => 380,
        CrossAlignment::OpenFourThree => 300,
        CrossAlignment::FourThree => 240,
        CrossAlignment::DoubleOpenThree => 190,
        CrossAlignment::DoubleThree => 110,
        CrossAlignment::OpenFour => 40,
        CrossAlignment::Four => 20,
        CrossAlignment::OpenThree => 15,
        CrossAlignment::Three => 5,
        CrossAlignment::NoAlign => 0,
    }
}

/// The threat values are a monotonic table: a stronger aggregate threat in
/// the declared order never scores below a weaker one, no alignment scores
/// zero, and a five scores strictly above everything else.
pub proof fn lemma_score_alignment_monotone(a: CrossAlignment, b: CrossAlignment)
    requires
        cross_order(a) <= cross_order(b),
    ensures
        score_alignment_spec(a) <= score_alignment_spec(b),
        score_alignment_spec(CrossAlignment::NoAlign) == 0,
        a != CrossAlignment::Five ==> score_alignment_spec(a) < score_alignment_spec(
            CrossAlignment::Five,
        ),
{
}

/// The threat value of one aggregate classification.
pub fn score_alignment(alignment: CrossAlignment) -> (r: Score)
    ensures
        r.0 == score_alignment_spec(alignment),
{
    match alignment {
        CrossAlignment::Five => Score::cp(510),
        CrossAlignment::FourFour => Score::cp(380),
        CrossAlignment::OpenFourThree => Score::cp(300),
        CrossAlignment::FourThree => Score::cp(240),
        CrossAlignment::DoubleOpenThree => Score::cp(190),
        CrossAlignment::DoubleThree => Score::cp(110),
        CrossAlignment::OpenFour => Score::cp(40),
        CrossAlignment::Four => Score::cp(20),
        CrossAlignment::OpenThree => Score::cp(15),
        CrossAlignment::Three => Score::cp(5),
        CrossAlignment::NoAlign => Score::zero(),
    }
}

/// Whether the stone on `sq` completes a five in a row.
pub fn is_victory(board: &Board, sq: Square, table: &MagicTable) -> (r: bool)
    requires
        board.wf(),
        sq.0 < 361,
        table.wf(),
    ensures
        r == (cross_from_spec(board@.stones, sq.0 as int, table.entries@)
            == CrossAlignment::Five),
{
    CrossAlignment::from(board, sq, table) == CrossAlignment::Five
}

/// The saturating sum of the threat values of `side`'s stones on squares
/// below `n`, accumulated in ascending square order.
pub open spec fn side_sum(m: BoardModel, table: Seq<OwnedAlignment>, side: Stone, n: int) -> int
    decreases n,
{
    if n <= 0 {
        0
    } else {
        let prev = side_sum(m, table, side, n - 1);
        if 0 <= n - 1 < 361 && m.stones[n - 1] == side {
            sat_band(prev + score_alignment_spec(cross_from_spec(m.stones, n - 1, table)))
        } else {
            prev
        }
    }
}

/// A stretch without stones of the side adds nothing to the sum.
proof fn lemma_side_sum_gap(m: BoardModel, table: Seq<OwnedAlignment>, side: Stone, a: int, b: int)
    requires
        0 <= a <= b,
        forall|k: int| a <= k < b ==> !(0 <= k < 361 && m.stones[k] == side),
    ensures
        side_sum(m, table, side, b) == side_sum(m, table, side, a),
    decreases b - a,
{
    if b > a {
        lemma_side_sum_gap(m, table, side, a, b - 1);
    }
}

/// The sums stay inside the centipoint band.
proof fn lemma_side_sum_band(m: BoardModel, table: Seq<OwnedAlignment>, side: Stone, n: int)
    ensures
        -32411 <= side_sum(m, table, side, n) <= 32411,
    decreases n,
{
    if n > 0 {
        lemma_side_sum_band(m, table, side, n - 1);
    }
}

/// The static value of a position, from the side to move's point of view:
/// the saturating difference of the two players' threat sums, plus a fixed
/// tempo bonus of two centipoints.
pub open spec fn evaluate_spec(m: BoardModel, table: Seq<OwnedAlignment>) -> int {
    sat_band(
        sat_band(side_sum(m, table, m.turn, 384) - side_sum(m, table, flip_stone(m.turn), 384))
            + 2,
    )
}

/// The saturating sum of the threat values of `side`'s stones.
fn sum_side(board: &Board, side: Stone, table: &MagicTable) -> (r: Score)
    requires
        board.wf(),
        table.wf(),
        side != Stone::Empty,
    ensures
        r.0 == side_sum(board@, table.entries@, side, 384),
{
    let ghost m = board@;
    let ghost t = table.entries@;
    let mask = board.bitboard(side);
    let mut iter = BitboardIter::from_bitboard(&mask);
    let mut total = Score::zero();
    proof {
        lemma_side_sum_band(m, t, side, 0);
    }
    loop
        invariant
            board.wf(),
            table.wf(),
            m == board@,
            t == table.entries@,
            iter.bb == mask,
            iter.cur <= 384,
            forall|i: int| 0 <= i < 384 ==> mask.bit(i) == (i < 361 && m.stones[i] == side),
            total.0 == side_sum(m, t, side, iter.cur as int),
        ensures
            total.0 == side_sum(m, t, side, 384),
        decreases 385 - iter.cur,
    {
        let ghost pre = iter.cur as int;
        match iter.next() {
            Option::Some(sq) => {
                proof {
                    assert forall|k: int| pre <= k < sq.0 implies !(0 <= k < 361 && m.stones[k]
                        == side) by {
                        assert(!mask.bit(k));
                    }
                    lemma_side_sum_gap(m, t, side, pre, sq.0 as int);
                }
                let value = score_alignment(CrossAlignment::from(board, sq, table));
                total = total.saturating_add(value);
            },
            Option::None => {
                proof {
                    assert forall|k: int| pre <= k < 384 implies !(0 <= k < 361 && m.stones[k]
                        == side) by {
                        assert(!mask.bit(k));
                    }
                    lemma_side_sum_gap(m, t, side, pre, 384);
                }
                break ;
            },
        }
    }
    total
}

/// Evaluate a position for the side to move: its own threat sum minus the
/// opponent's, plus the tempo bonus, every step saturating inside the
/// centipoint band.
pub fn evaluate(board: &Board, table: &MagicTable) -> (r: Score)
    requires
        board.wf(),
        table.wf(),
    ensures
        r.0 == evaluate_spec(board@, table.entries@),
{
    let our_score = sum_side(board, board.turn(), table);
    let their_score = sum_side(board, board.turn().flip(), table);
    our_score.saturating_sub(their_score).saturating_add(Score::cp(2))
}

} // verus!
